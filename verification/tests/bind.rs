use stylish::{
    Align, Arguments, BindError, Binding, BoundPiece, Color, Content, DebugHex, Format,
    FormatTrait, FormatterArgs, Sign, Slot,
};

fn bind(template: &str, positional: usize, names: &[&str]) -> Result<Vec<Slot>, BindError> {
    let format = Format::parse(template).expect("the template parses");
    let binding = format.bind(positional, names)?;
    Ok(slots(&binding))
}

fn slots(binding: &Binding<'_>) -> Vec<Slot> {
    binding
        .pieces
        .iter()
        .filter_map(|piece| match piece {
            BoundPiece::Arg(placeholder) => Some(placeholder.slot),
            BoundPiece::Lit(_) => None,
        })
        .collect()
}

#[test]
fn placeholders_without_reference_take_arguments_in_order() {
    assert_eq!(
        bind("{} {} {}", 3, &[]),
        Ok(vec![Slot::Positional(0), Slot::Positional(1), Slot::Positional(2)])
    );
}

#[test]
fn explicit_references_do_not_move_the_cursor() {
    assert_eq!(
        bind("{1} {} {0} {}", 2, &[]),
        Ok(vec![
            Slot::Positional(1),
            Slot::Positional(0),
            Slot::Positional(0),
            Slot::Positional(1)
        ])
    );
    assert_eq!(bind("{}{0}", 1, &[]), Ok(vec![Slot::Positional(0), Slot::Positional(0)]));
    assert_eq!(
        bind("{x}{}{x}", 1, &["x"]),
        Ok(vec![Slot::Named(0), Slot::Positional(0), Slot::Named(0)])
    );
}

#[test]
fn names_are_looked_up() {
    assert_eq!(bind("{b}{a}", 0, &["a", "b"]), Ok(vec![Slot::Named(1), Slot::Named(0)]));
}

#[test]
fn later_argument_of_the_same_name_wins() {
    assert_eq!(bind("{x}", 0, &["x", "x"]), Ok(vec![Slot::Named(1)]));
    assert_eq!(bind("{x}{y}", 0, &["x", "y", "x"]), Ok(vec![Slot::Named(2), Slot::Named(1)]));
}

#[test]
fn index_one_with_one_argument_is_refused() {
    assert_eq!(bind("{1}", 1, &[]), Err(BindError::MissingPositional(1)));
    assert_eq!(bind("{0} {1}", 1, &[]), Err(BindError::MissingPositional(1)));
    assert_eq!(bind("before {1} after", 1, &[]), Err(BindError::MissingPositional(1)));
}

#[test]
fn missing_positional_carries_the_index() {
    assert_eq!(bind("{0}", 0, &[]), Err(BindError::MissingPositional(0)));
    assert_eq!(bind("{7}", 3, &[]), Err(BindError::MissingPositional(7)));
}

#[test]
fn too_few_arguments_for_the_cursor() {
    assert_eq!(bind("{}", 0, &[]), Err(BindError::MissingArgument));
    assert_eq!(bind("{} {}", 1, &[]), Err(BindError::MissingArgument));
    assert_eq!(bind("{} {}", 1, &["x"]), Err(BindError::MissingArgument));
}

#[test]
fn unknown_name_is_refused() {
    assert_eq!(bind("{x}", 0, &[]), Err(BindError::UnknownName));
    assert_eq!(bind("{x}", 1, &["y"]), Err(BindError::UnknownName));
    assert_eq!(bind("{X}", 0, &["x"]), Err(BindError::UnknownName));
    assert_eq!(bind("{xy}", 0, &["x"]), Err(BindError::UnknownName));
}

#[test]
fn unused_argument_is_refused() {
    assert_eq!(bind("", 1, &[]), Err(BindError::Unused));
    assert_eq!(bind("text only", 0, &["x"]), Err(BindError::Unused));
    assert_eq!(bind("{}", 2, &[]), Err(BindError::Unused));
    assert_eq!(bind("{1}", 2, &[]), Err(BindError::Unused));
    assert_eq!(bind("{x}", 0, &["x", "y"]), Err(BindError::Unused));
    assert_eq!(bind("{}", 1, &["x"]), Err(BindError::Unused));
}

#[test]
fn nothing_to_bind() {
    assert_eq!(bind("", 0, &[]), Ok(vec![]));
    assert_eq!(bind("just text {{}}", 0, &[]), Ok(vec![]));
}

#[test]
fn count_from_argument_is_refused() {
    assert_eq!(bind("{:1$}", 2, &[]), Err(BindError::CountFromArgument));
    assert_eq!(bind("{:.w$}", 1, &["w"]), Err(BindError::CountFromArgument));
}

#[test]
fn first_error_in_the_order_of_the_pieces() {
    assert_eq!(bind("{x}{5}", 0, &[]), Err(BindError::UnknownName));
    assert_eq!(bind("{5}{x}", 0, &[]), Err(BindError::MissingPositional(5)));
    assert_eq!(bind("{5:1$}", 0, &[]), Err(BindError::MissingPositional(5)));
    assert_eq!(bind("{:1$}{5}", 1, &[]), Err(BindError::CountFromArgument));
    assert_eq!(bind("{}{}", 1, &["unused"]), Err(BindError::MissingArgument));
}

#[test]
fn placeholder_keeps_selector_flags_and_style() {
    let format = Format::parse("a{:<+#07.2(fg=red)X?}").unwrap();
    let binding = format.bind(1, &[]).unwrap();
    assert_eq!(binding.pieces.len(), 2);
    assert!(matches!(binding.pieces[0], BoundPiece::Lit("a")));
    match binding.pieces[1] {
        BoundPiece::Arg(placeholder) => {
            assert_eq!(placeholder.slot, Slot::Positional(0));
            assert_eq!(placeholder.format_trait, FormatTrait::Debug);
            assert_eq!(
                placeholder.args,
                FormatterArgs {
                    align: Some(Align::Left),
                    sign: Some(Sign::Plus),
                    alternate: true,
                    zero: true,
                    width: Some(7),
                    precision: Some(2),
                    debug_hex: Some(DebugHex::Upper),
                }
            );
            assert_eq!(placeholder.style.foreground, Some(Color::Red));
            assert_eq!(placeholder.style.background, None);
            assert_eq!(placeholder.style.intensity, None);
        }
        BoundPiece::Lit(_) => panic!("a placeholder was expected"),
    }
}

#[test]
fn contents_must_match_the_placeholders_in_number() {
    let format = Format::parse("{} and {}").unwrap();
    let binding = format.bind(2, &[]).unwrap();
    assert!(Arguments::new(&binding, &[]).is_none());
    assert!(Arguments::new(&binding, &[Content::Text("a")]).is_none());
    assert!(Arguments::new(&binding, &[Content::Text("a"), Content::Text("b")]).is_some());
    assert!(Arguments::new(
        &binding,
        &[Content::Text("a"), Content::Text("b"), Content::Text("c")]
    )
    .is_none());
}

#[test]
fn contents_must_match_the_placeholders_in_kind() {
    let styled = stylish::String::new();
    let format = Format::parse("{}").unwrap();
    let binding = format.bind(1, &[]).unwrap();
    assert!(Arguments::new(&binding, &[Content::Text("a")]).is_some());
    assert!(Arguments::new(&binding, &[Content::Styled(&styled)]).is_none());
    let format = Format::parse("{:s}").unwrap();
    let binding = format.bind(1, &[]).unwrap();
    assert!(Arguments::new(&binding, &[Content::Text("a")]).is_none());
    assert!(Arguments::new(&binding, &[Content::Styled(&styled)]).is_some());
    let inner = Arguments { pieces: Vec::new() };
    assert!(Arguments::new(&binding, &[Content::Nested(&inner)]).is_some());
}

#[test]
fn contents_go_to_the_placeholders_in_order() {
    let format = Format::parse("{1}-{0}-{}").unwrap();
    let binding = format.bind(2, &[]).unwrap();
    let args = Arguments::new(
        &binding,
        &[Content::Text("first"), Content::Text("second"), Content::Text("third")],
    )
    .unwrap();
    assert_eq!(stylish::plain::format(args), "first-second-third");
}

#[test]
fn errors_describe_themselves() {
    assert_eq!(BindError::MissingArgument.describe(), "missing argument");
    assert_eq!(BindError::MissingPositional(3).describe(), "missing positional argument");
    assert_eq!(BindError::UnknownName.describe(), "no argument of this name");
    assert_eq!(
        BindError::CountFromArgument.describe(),
        "parameter reference counts are not supported"
    );
    assert_eq!(BindError::Unused.describe(), "unused formatting arguments");
    assert_eq!(
        stylish::ParseError::Unterminated.describe(),
        "template ends inside a placeholder"
    );
    assert_eq!(stylish::ParseError::Malformed.describe(), "unexpected character in template");
    assert_eq!(stylish::ParseError::UnknownRestyle.describe(), "unknown style directive");
    assert_eq!(
        stylish::ParseError::UnsupportedFill.describe(),
        "fill characters other than space are not supported"
    );
}
