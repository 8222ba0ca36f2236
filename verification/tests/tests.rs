use stylish::{
    Align, Arguments, BindError, BoundPiece, Content, Error, Format, FormatTrait, Formatter,
    Placeholder, Slot,
};

/// A value of the host, as the calls below hand it in.
#[derive(Clone, Copy)]
enum Value {
    Int(i32),
    Str(&'static str),
}

/// The text that the host gives for `value` under the selector and flags of
/// `placeholder`.
fn host(placeholder: &Placeholder, value: Value) -> std::string::String {
    let width = placeholder.args.width.unwrap_or(0);
    match (value, placeholder.format_trait, placeholder.args.align) {
        (Value::Int(n), FormatTrait::Display, None) => format!("{:width$}", n),
        (Value::Str(s), FormatTrait::Display, None) => format!("{:width$}", s),
        (Value::Str(s), FormatTrait::Display, Some(Align::Right)) => format!("{:>width$}", s),
        _ => panic!("a rendering that these tests do not use"),
    }
}

/// Parses, binds and renders with `render`, the host's values given by
/// position and by name.
fn run(
    template: &str,
    positional: &[Value],
    named: &[(&str, Value)],
    render: fn(Arguments<'_>) -> std::string::String,
) -> std::string::String {
    let format = Format::parse(template).expect("the template parses");
    let names: Vec<&str> = named.iter().map(|(name, _)| *name).collect();
    let binding = format.bind(positional.len(), &names).expect("the template fits");
    let mut texts = Vec::new();
    for piece in &binding.pieces {
        if let BoundPiece::Arg(placeholder) = piece {
            let value = match placeholder.slot {
                Slot::Positional(index) => positional[index],
                Slot::Named(index) => named[index].1,
            };
            texts.push(host(placeholder, value));
        }
    }
    let contents: Vec<Content<'_>> = texts.iter().map(|text| Content::Text(text)).collect();
    render(Arguments::new(&binding, &contents).expect("one text for each placeholder"))
}

fn plain(template: &str, positional: &[Value], named: &[(&str, Value)]) -> std::string::String {
    run(template, positional, named, stylish::plain::format)
}

fn ansi(template: &str, positional: &[Value], named: &[(&str, Value)]) -> std::string::String {
    run(template, positional, named, stylish::ansi::format)
}

fn html(template: &str, positional: &[Value], named: &[(&str, Value)]) -> std::string::String {
    run(template, positional, named, stylish::html::format)
}

#[test]
fn tests_one() {
    assert_eq!(plain("{}", &[Value::Int(1)], &[]), "1");
}

#[test]
fn let_() {
    let inner_format = Format::parse("{}").unwrap();
    let inner_binding = inner_format.bind(1, &[]).unwrap();
    let x = Arguments::new(&inner_binding, &[Content::Text("1")]).unwrap();
    let format = Format::parse("{:s}").unwrap();
    let binding = format.bind(1, &[]).unwrap();
    let args = Arguments::new(&binding, &[Content::Nested(&x)]).unwrap();
    assert_eq!(stylish::plain::format(args), "1");
}

#[test]
fn tests_two() {
    assert_eq!(plain("{0}", &[Value::Int(1)], &[]), "1");
}

#[test]
fn tests_three() {
    let mut x = 5;
    assert_eq!(
        plain(
            "{}{0}",
            &[Value::Int({
                x += 1;
                x
            })],
            &[]
        ),
        "66"
    );
}

#[test]
fn tests_four() {
    assert_eq!(plain("{x}", &[], &[("x", Value::Int(1))]), "1")
}

#[test]
fn tests_five() {
    let x = 1;
    assert_eq!(plain("{x}", &[], &[("x", Value::Int(x))]), "1")
}

#[test]
fn tests_six() {
    #[allow(unused_variables)]
    let x = 1;
    assert_eq!(plain("{x}", &[], &[("x", Value::Int(2))]), "2")
}

#[test]
fn blue() {
    assert_eq!(ansi("{:(fg=blue)}", &[Value::Int(2)], &[]), "\x1b[34m2\x1b[0m");
    assert_eq!(
        html("{:(fg=blue)}", &[Value::Int(2)], &[]),
        "<span style=color:blue>2</span>"
    );
    assert_eq!(plain("{:(fg=blue)}", &[Value::Int(2)], &[]), "2");
}

#[test]
fn bold() {
    assert_eq!(ansi("{:(bold)}", &[Value::Int(2)], &[]), "\x1b[1m2\x1b[0m");
    assert_eq!(
        html("{:(bold)}", &[Value::Int(2)], &[]),
        "<span style=font-weight:bolder>2</span>"
    );
    assert_eq!(plain("{:(bold)}", &[Value::Int(2)], &[]), "2");
}

#[test]
fn blue_bold() {
    assert_eq!(ansi("{:(fg=blue,bold)}", &[Value::Int(2)], &[]), "\x1b[34;1m2\x1b[0m");
    assert_eq!(
        html("{:(fg=blue,bold)}", &[Value::Int(2)], &[]),
        "<span style=color:blue;font-weight:bolder>2</span>"
    );
    assert_eq!(plain("{:(fg=blue,bold)}", &[Value::Int(2)], &[]), "2");
}

#[test]
fn bold_blue() {
    assert_eq!(ansi("{:(bold,fg=blue)}", &[Value::Int(2)], &[]), "\x1b[34;1m2\x1b[0m");
    assert_eq!(
        html("{:(bold,fg=blue)}", &[Value::Int(2)], &[]),
        "<span style=color:blue;font-weight:bolder>2</span>"
    );
    assert_eq!(plain("{:(bold,fg=blue)}", &[Value::Int(2)], &[]), "2");
}

#[test]
fn bold_then_blue() {
    let values = [Value::Str("bold"), Value::Str("blue")];
    assert_eq!(
        ansi("plain {:(bold)} {:(fg=blue)}", &values, &[]),
        "plain \x1b[1mbold\x1b[0m \x1b[34mblue\x1b[0m"
    );
    assert_eq!(
        html("plain {:(bold)} {:(fg=blue)}", &values, &[]),
        "plain <span style=font-weight:bolder>bold</span> <span style=color:blue>blue</span>"
    );
    assert_eq!(plain("plain {:(bold)} {:(fg=blue)}", &values, &[]), "plain bold blue");
}

#[test]
fn bold_then_bold_blue_then_blue() {
    let values = [Value::Str("bold"), Value::Str("bold-blue"), Value::Str("blue")];
    assert_eq!(
        ansi("{:(bold)}{:(bold,fg=blue)}{:(fg=blue)}", &values, &[]),
        "\x1b[1mbold\x1b[34mbold-blue\x1b[22mblue\x1b[0m"
    );
    assert_eq!(
        html("{:(bold)}{:(bold,fg=blue)}{:(fg=blue)}", &values, &[]),
        "<span style=font-weight:bolder>bold</span><span style=color:blue;font-weight:bolder>bold-blue</span><span style=color:blue>blue</span>"
    );
    assert_eq!(
        plain("{:(bold)}{:(bold,fg=blue)}{:(fg=blue)}", &values, &[]),
        "boldbold-blueblue"
    );
}

#[test]
fn builtin_macros() {
    assert_eq!(plain("ab", &[], &[]), "ab");
    assert_eq!(plain("\"a\"b", &[], &[]), r#""a"b"#);
}

#[test]
fn non_ascii_idents() {
    let value = 5;
    assert_eq!(plain("{\u{13004}}", &[], &[("\u{13004}", Value::Int(value))]), "5");
    assert_eq!(plain("{}", &[Value::Int(value)], &[]), "5");
    assert_eq!(plain("{\u{13004}}", &[], &[("\u{13004}", Value::Int(5))]), "5");
}

#[test]
fn empty_string() {
    let values = [Value::Str("foo"), Value::Str(""), Value::Str("bar")];
    assert_eq!(
        ansi("{:(fg=blue)}{:(fg=red)}{:(fg=blue)}", &values, &[]),
        "\u{1b}[34mfoobar\u{1b}[0m",
    );
    assert_eq!(
        html("{:(fg=blue)}{:(fg=red)}{:(fg=blue)}", &values, &[]),
        "<span style=color:blue>foobar</span>",
    );
}

#[test]
fn capture_raw_strings_and_idents() {
    let fruit = "apple";
    assert_eq!(
        plain(r#"The fruit is an {type}"#, &[], &[("type", Value::Str(fruit))]),
        "The fruit is an apple"
    );

    let fruit = "orange";
    assert_eq!(
        plain(r"The fruit is an {type}", &[], &[("type", Value::Str(fruit))]),
        "The fruit is an orange"
    );

    let fruit = "mango";
    assert_eq!(
        plain("The fruit is a {type}", &[], &[("type", Value::Str(fruit))]),
        "The fruit is a mango"
    );
}

#[test]
fn extended_builtin_macros() {
    assert_eq!(plain("tests/tests.rs", &[], &[]), "tests/tests.rs");
}

#[test]
fn name_without_argument_is_refused() {
    let format = Format::parse("{x}").unwrap();
    assert_eq!(format.bind(0, &[]).err(), Some(BindError::UnknownName));
}

/// What a value of the caller's own writes in the scope of the only
/// placeholder of `template`, rendered as plain text.
fn plain_of(
    template: &str,
    value: impl Fn(&mut Formatter<'_, stylish::String>) -> Result<(), Error>,
) -> Result<std::string::String, Error> {
    let format = Format::parse(template).expect("the template parses");
    let binding = format.bind(1, &[]).expect("the template fits");
    let placeholder = binding
        .pieces
        .iter()
        .find_map(|piece| match piece {
            BoundPiece::Arg(placeholder) => Some(*placeholder),
            BoundPiece::Lit(_) => None,
        })
        .expect("the template has a placeholder");
    let mut string = stylish::String::new();
    {
        let mut outer = Formatter::new(&mut string);
        let mut scope = outer.with_args(&placeholder.args, placeholder.style);
        value(&mut scope)?;
    }
    let args = Arguments::new(&binding, &[Content::Styled(&string)])
        .expect("a styled value for the placeholder");
    Ok(stylish::plain::format(args))
}

#[test]
fn error() {
    struct Foo;

    impl Foo {
        fn fmt(&self, _: &mut Formatter<'_, stylish::String>) -> Result<(), Error> {
            Err(Error)
        }
    }

    assert!(plain_of("{:s}\n", |f| Foo.fmt(f)).is_err());
}

#[test]
fn tests_large() {
    struct Foo([usize; 24]);

    impl Foo {
        fn fmt(&self, f: &mut Formatter<'_, stylish::String>) -> Result<(), Error> {
            f.write_str("foo")
        }
    }

    let foo = Foo([0; 24]);
    assert_eq!(foo.0.len(), 24);
    assert_eq!(plain_of("{:s}", |f| foo.fmt(f)), Ok("foo".to_string()));
}
