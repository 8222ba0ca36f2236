use stylish::{
    Ansi, Argument, Arguments, Background, Color, Content, Foreground, Format, Formatter,
    FormatterArgs, Html, Intensity, Plain, Style, StyleDiff, ToAnsiString, ToHtmlString,
    ToPlainString, ToStylishString, Write,
};

fn red() -> Style {
    Style::default().with(Foreground(Color::Red))
}

fn blue() -> Style {
    Style::default().with(Foreground(Color::Blue))
}

fn render(template: &str, texts: &[&str], show: fn(Arguments<'_>) -> String) -> String {
    let format = Format::parse(template).expect("the template parses");
    let binding = format.bind(texts.len(), &[]).expect("the template fits");
    let contents: Vec<Content<'_>> = texts.iter().map(|text| Content::Text(text)).collect();
    show(Arguments::new(&binding, &contents).expect("one text for each placeholder"))
}

#[test]
fn scenario_hello_ferris() {
    assert_eq!(
        render("Hello {:(fg=red)}", &["Ferris"], stylish::ansi::format),
        "Hello \x1b[31mFerris\x1b[0m"
    );
    assert_eq!(
        render("Hello {:(fg=red)}", &["Ferris"], stylish::html::format),
        "Hello <span style=color:red>Ferris</span>"
    );
    assert_eq!(render("Hello {:(fg=red)}", &["Ferris"], stylish::plain::format), "Hello Ferris");
}

#[test]
fn scenario_bold_bold_blue_blue() {
    assert_eq!(
        render(
            "{:(bold)}{:(bold,fg=blue)}{:(fg=blue)}",
            &["bold", "bold-blue", "blue"],
            stylish::ansi::format
        ),
        "\x1b[1mbold\x1b[34mbold-blue\x1b[22mblue\x1b[0m"
    );
}

#[test]
fn scenario_empty_middle_argument() {
    assert_eq!(
        render("{:(fg=blue)}{:(fg=red)}{:(fg=blue)}", &["foo", "", "bar"], stylish::ansi::format),
        "\x1b[34mfoobar\x1b[0m"
    );
}

#[test]
fn ansi_empty_write_changes_nothing() {
    let mut ansi = Ansi::new(String::new());
    ansi.write_str("", red()).unwrap();
    assert_eq!(ansi.finish().unwrap(), "");

    let mut ansi = Ansi::new(String::new());
    ansi.write_str("a", red()).unwrap();
    ansi.write_str("", blue()).unwrap();
    ansi.write_str("", Style::default()).unwrap();
    ansi.write_str("b", red()).unwrap();
    assert_eq!(ansi.finish().unwrap(), "\x1b[31mab\x1b[0m");
}

#[test]
fn html_empty_write_changes_nothing() {
    let mut html = Html::new(String::new());
    html.write_str("", red()).unwrap();
    assert_eq!(html.finish().unwrap(), "");

    let mut html = Html::new(String::new());
    html.write_str("a", red()).unwrap();
    html.write_str("", blue()).unwrap();
    html.write_str("", Style::default()).unwrap();
    html.write_str("b", red()).unwrap();
    assert_eq!(html.finish().unwrap(), "<span style=color:red>ab</span>");
}

#[test]
fn plain_empty_write_changes_nothing() {
    let mut plain = Plain::new(String::from("kept"));
    plain.write_str("", red()).unwrap();
    assert_eq!(plain.into_inner(), "kept");
}

#[test]
fn same_style_twice_is_one_transition() {
    let mut ansi = Ansi::new(String::new());
    ansi.write_str("one", red()).unwrap();
    ansi.write_str("two", red()).unwrap();
    assert_eq!(ansi.finish().unwrap(), "\x1b[31monetwo\x1b[0m");

    let mut html = Html::new(String::new());
    html.write_str("one", red()).unwrap();
    html.write_str("two", red()).unwrap();
    assert_eq!(html.finish().unwrap(), "<span style=color:red>onetwo</span>");
}

#[test]
fn finish_from_default_adds_nothing() {
    assert_eq!(Ansi::new(String::new()).finish().unwrap(), "");
    assert_eq!(Html::new(String::new()).finish().unwrap(), "");

    let mut ansi = Ansi::new(String::new());
    ansi.write_str("plain", Style::default()).unwrap();
    assert_eq!(ansi.finish().unwrap(), "plain");

    let mut html = Html::new(String::new());
    html.write_str("plain", Style::default()).unwrap();
    assert_eq!(html.finish().unwrap(), "plain");
}

#[test]
fn finish_after_styled_write_adds_one_ending() {
    let mut ansi = Ansi::new(String::new());
    ansi.write_str("x", red()).unwrap();
    assert_eq!(ansi.finish().unwrap(), "\x1b[31mx\x1b[0m");

    let mut html = Html::new(String::new());
    html.write_str("x", red()).unwrap();
    assert_eq!(html.finish().unwrap(), "<span style=color:red>x</span>");
}

#[test]
fn back_to_default_resets_at_once() {
    let mut ansi = Ansi::new(String::new());
    ansi.write_str("x", red().with(Intensity::Bold)).unwrap();
    ansi.write_str("y", Style::default()).unwrap();
    assert_eq!(ansi.finish().unwrap(), "\x1b[31;1mx\x1b[0my");

    let mut html = Html::new(String::new());
    html.write_str("x", red().with(Intensity::Bold)).unwrap();
    html.write_str("y", Style::default()).unwrap();
    assert_eq!(
        html.finish().unwrap(),
        "<span style=color:red;font-weight:bolder>x</span>y"
    );
}

#[test]
fn ansi_writes_only_what_differs() {
    let mut ansi = Ansi::new(String::new());
    let style = Style::default()
        .with(Foreground(Color::Green))
        .with(Background(Color::Black))
        .with(Intensity::Faint);
    ansi.write_str("a", style).unwrap();
    ansi.write_str("b", style.with(Background(Color::White))).unwrap();
    ansi.write_str("c", style.with(Background(Color::White)).with(Foreground(Color::Default)))
        .unwrap();
    ansi.write_str("d", Style::default().with(Background(Color::White))).unwrap();
    assert_eq!(
        ansi.finish().unwrap(),
        "\x1b[32;40;2ma\x1b[47mb\x1b[39mc\x1b[22md\x1b[0m"
    );
}

#[test]
fn html_describes_the_style_in_full() {
    let mut html = Html::new(String::new());
    let style = Style::default()
        .with(Foreground(Color::Green))
        .with(Background(Color::Black))
        .with(Intensity::Faint);
    html.write_str("a", style).unwrap();
    html.write_str("b", style.with(Background(Color::White))).unwrap();
    html.write_str("c", Style::default().with(Intensity::Bold)).unwrap();
    assert_eq!(
        html.finish().unwrap(),
        "<span style=color:green;background-color:black;font-weight:lighter>a</span>\
         <span style=color:green;background-color:white;font-weight:lighter>b</span>\
         <span style=font-weight:bolder>c</span>"
    );
}

#[test]
fn html_escapes_text() {
    let mut html = Html::new(String::new());
    html.write_str("<a href=\"x\">Tom & 'Jerry'</a>", Style::default()).unwrap();
    assert_eq!(
        html.finish().unwrap(),
        "&lt;a href=&quot;x&quot;&gt;Tom &amp; &#x27;Jerry&#x27;&lt;/a&gt;"
    );
    assert_eq!(
        render("<{}>", &["&"], stylish::html::format),
        "&lt;&amp;&gt;"
    );
    assert_eq!(render("<{}>", &["&"], stylish::ansi::format), "<&>");
    assert_eq!(render("<{}>", &["&"], stylish::plain::format), "<&>");
}

#[test]
fn html_keeps_other_text() {
    let mut html = Html::new(String::new());
    html.write_str("caf\u{e9} \u{13004} 100%", red()).unwrap();
    assert_eq!(
        html.finish().unwrap(),
        "<span style=color:red>caf\u{e9} \u{13004} 100%</span>"
    );
}

#[test]
fn ansi_codes_of_every_color() {
    let colors = [
        (Color::Black, "30", "40"),
        (Color::Red, "31", "41"),
        (Color::Green, "32", "42"),
        (Color::Yellow, "33", "43"),
        (Color::Blue, "34", "44"),
        (Color::Magenta, "35", "45"),
        (Color::Cyan, "36", "46"),
        (Color::White, "37", "47"),
        (Color::BrightBlack, "90", "100"),
        (Color::BrightRed, "91", "101"),
        (Color::BrightGreen, "92", "102"),
        (Color::BrightYellow, "93", "103"),
        (Color::BrightBlue, "94", "104"),
        (Color::BrightMagenta, "95", "105"),
        (Color::BrightCyan, "96", "106"),
        (Color::BrightWhite, "97", "107"),
    ];
    for (color, foreground, background) in colors {
        let mut ansi = Ansi::new(String::new());
        ansi.write_str("x", Style::default().with(Foreground(color))).unwrap();
        assert_eq!(ansi.finish().unwrap(), format!("\x1b[{}mx\x1b[0m", foreground));
        let mut ansi = Ansi::new(String::new());
        ansi.write_str("x", Style::default().with(Background(color))).unwrap();
        assert_eq!(ansi.finish().unwrap(), format!("\x1b[{}mx\x1b[0m", background));
    }
    let mut ansi = Ansi::new(String::new());
    ansi.write_str("x", red().with(Background(Color::Blue))).unwrap();
    ansi.write_str("y", Style::default().with(Intensity::Bold)).unwrap();
    assert_eq!(ansi.finish().unwrap(), "\x1b[31;44mx\x1b[39;49;1my\x1b[0m");
}

#[test]
fn ansi_codes_of_every_intensity() {
    let mut ansi = Ansi::new(String::new());
    ansi.write_str("b", Style::default().with(Intensity::Bold)).unwrap();
    ansi.write_str("f", Style::default().with(Intensity::Faint)).unwrap();
    ansi.write_str("n", red()).unwrap();
    assert_eq!(ansi.finish().unwrap(), "\x1b[1mb\x1b[2mf\x1b[31;22mn\x1b[0m");
}

#[test]
fn html_css_of_every_color() {
    let colors = [
        (Color::Black, "black"),
        (Color::Red, "red"),
        (Color::Green, "green"),
        (Color::Yellow, "yellow"),
        (Color::Blue, "blue"),
        (Color::Magenta, "magenta"),
        (Color::Cyan, "cyan"),
        (Color::White, "white"),
        (Color::BrightBlack, "gray"),
        (Color::BrightRed, "#af0000"),
        (Color::BrightGreen, "#00ff00"),
        (Color::BrightYellow, "#ffff00"),
        (Color::BrightBlue, "#0000ff"),
        (Color::BrightMagenta, "#ff00ff"),
        (Color::BrightCyan, "#00ffff"),
        (Color::BrightWhite, "#ffffff"),
    ];
    for (color, name) in colors {
        let mut html = Html::new(String::new());
        html.write_str("x", Style::default().with(Foreground(color))).unwrap();
        assert_eq!(html.finish().unwrap(), format!("<span style=color:{}>x</span>", name));
        let mut html = Html::new(String::new());
        html.write_str("x", Style::default().with(Background(color))).unwrap();
        assert_eq!(
            html.finish().unwrap(),
            format!("<span style=background-color:{}>x</span>", name)
        );
    }
    let mut html = Html::new(String::new());
    html.write_str("x", Style::default().with(Intensity::Faint)).unwrap();
    assert_eq!(html.finish().unwrap(), "<span style=font-weight:lighter>x</span>");
}

#[test]
fn adapters_append_to_what_the_sink_holds() {
    let mut ansi = stylish::ansi(String::from("> "));
    ansi.write_str("x", red()).unwrap();
    assert_eq!(ansi.finish().unwrap(), "> \x1b[31mx\x1b[0m");
    let mut html = stylish::html(String::from("<p>"));
    html.write_str("x", red()).unwrap();
    assert_eq!(html.finish().unwrap(), "<p><span style=color:red>x</span>");
    let mut plain = stylish::plain(String::from("> "));
    plain.write_str("x", red()).unwrap();
    assert_eq!(plain.into_inner(), "> x");
}

#[test]
fn write_char_writes_one_character() {
    let mut ansi = Ansi::new(String::new());
    ansi.write_char('\u{e9}', red()).unwrap();
    ansi.write_char('!', red()).unwrap();
    assert_eq!(ansi.finish().unwrap(), "\x1b[31m\u{e9}!\x1b[0m");
    let mut html = Html::new(String::new());
    html.write_char('<', Style::default()).unwrap();
    assert_eq!(html.finish().unwrap(), "&lt;");
}

#[test]
fn nested_scopes_compose_styles() {
    let mut ansi = Ansi::new(String::new());
    {
        let mut outer = Formatter::new(&mut ansi);
        outer.write_str("a").unwrap();
        {
            let mut bold = outer.with(Intensity::Bold);
            bold.write_str("b").unwrap();
            {
                let mut bold_red =
                    bold.with_args(&FormatterArgs::default(), Foreground(Color::Red));
                bold_red.write_str("c").unwrap();
                bold_red.write_char('!').unwrap();
            }
            bold.write_str("d").unwrap();
        }
        outer.write_str("e").unwrap();
    }
    assert_eq!(ansi.finish().unwrap(), "a\x1b[1mb\x1b[31mc!\x1b[39md\x1b[0me");
}

#[test]
fn scope_as_sink_takes_the_style_it_is_given() {
    let mut ansi = Ansi::new(String::new());
    {
        let mut outer = Formatter::new(&mut ansi);
        let mut bold = outer.with(Intensity::Bold);
        Write::write_str(&mut bold, "x", red()).unwrap();
        bold.write_str("y").unwrap();
    }
    assert_eq!(ansi.finish().unwrap(), "\x1b[31mx\x1b[39;1my\x1b[0m");
}

#[test]
fn nested_template_inherits_the_style_of_its_placeholder() {
    let inner_format = Format::parse("[{:(bold)}|{}]").unwrap();
    let inner_binding = inner_format.bind(2, &[]).unwrap();
    let inner =
        Arguments::new(&inner_binding, &[Content::Text("b"), Content::Text("n")]).unwrap();
    let format = Format::parse("<{:(fg=red)s}>").unwrap();
    let binding = format.bind(1, &[]).unwrap();
    let args = Arguments::new(&binding, &[Content::Nested(&inner)]).unwrap();
    assert_eq!(
        stylish::ansi::format(args),
        "<\x1b[31m[\x1b[1mb\x1b[22m|n]\x1b[0m>"
    );
}

#[test]
fn styled_string_keeps_its_own_styles() {
    let mut string = stylish::String::new();
    string.write_str("a", red()).unwrap();
    string.write_str("b", red()).unwrap();
    string.write_str("c", Style::default()).unwrap();
    string.write_str("d", blue()).unwrap();
    assert_eq!(string.len(), 3);
    assert_eq!(string.run(0).unwrap().0, "ab");
    assert_eq!(string.run(0).unwrap().1, red());
    assert_eq!(string.run(1).unwrap().0, "c");
    assert_eq!(string.run(1).unwrap().1, Style::default());
    assert_eq!(string.run(2).unwrap().0, "d");
    assert_eq!(string.run(2).unwrap().1, blue());

    let format = Format::parse("{:(bold)s}!").unwrap();
    let binding = format.bind(1, &[]).unwrap();
    let args = Arguments::new(&binding, &[Content::Styled(&string)]).unwrap();
    assert_eq!(stylish::ansi::format(args), "\x1b[31mab\x1b[0mc\x1b[34md\x1b[0m!");

    assert_eq!(string.to_ansi_string(), "\x1b[31mab\x1b[0mc\x1b[34md\x1b[0m");
    assert_eq!(
        string.to_html_string(),
        "<span style=color:red>ab</span>c<span style=color:blue>d</span>"
    );
    assert_eq!(string.to_plain_string(), "abcd");
    assert_eq!(string.into_inner(), "abcd");
}

#[test]
fn styled_string_of_a_template() {
    let format = Format::parse("a{:(fg=red)}{:(fg=red)}b").unwrap();
    let binding = format.bind(2, &[]).unwrap();
    let args = Arguments::new(&binding, &[Content::Text("x"), Content::Text("y")]).unwrap();
    let string = stylish::string::format(args);
    assert_eq!(string.len(), 3);
    assert_eq!(string.run(0).unwrap().0, "a");
    assert_eq!(string.run(1).unwrap().0, "xy");
    assert_eq!(string.run(1).unwrap().1, red());
    assert_eq!(string.run(2).unwrap().0, "b");
    let copy = string.to_stylish_string();
    assert_eq!(copy.len(), 3);
    assert_eq!(copy.run(1).unwrap().0, "xy");
}

#[test]
fn bound_template_written_by_hand() {
    let red_change = red().diff_from(Style::default());
    let args = Arguments {
        pieces: vec![
            Argument::Lit("a"),
            Argument::Arg(FormatterArgs::default(), red_change, Content::Text("b")),
            Argument::Arg(FormatterArgs::default(), StyleDiff::default(), Content::Text("c")),
        ],
    };
    assert_eq!(args.to_ansi_string(), "a\x1b[31mb\x1b[0mc");
    assert_eq!(args.to_html_string(), "a<span style=color:red>b</span>c");
    assert_eq!(args.to_plain_string(), "abc");
    let mut plain = Plain::new(String::new());
    plain.write_fmt(&args).unwrap();
    plain.write_fmt(&args).unwrap();
    assert_eq!(plain.into_inner(), "abcabc");
}

#[test]
fn styled_string_ignores_empty_writes() {
    let mut string = stylish::String::new();
    string.write_str("", red()).unwrap();
    assert_eq!(string.len(), 0);
    string.write_str("a", red()).unwrap();
    string.write_str("", blue()).unwrap();
    string.write_str("b", red()).unwrap();
    assert_eq!(string.len(), 1);
    assert_eq!(string.run(0).unwrap().0, "ab");
}

#[test]
fn adapters_know_the_style_that_is_on() {
    let mut ansi = Ansi::new(String::new());
    assert_eq!(ansi.current(), Style::default());
    ansi.write_str("", red()).unwrap();
    assert_eq!(ansi.current(), Style::default());
    ansi.write_str("x", red()).unwrap();
    assert_eq!(ansi.current(), red());
    ansi.write_str("y", Style::default()).unwrap();
    assert_eq!(ansi.current(), Style::default());

    let mut html = Html::new(String::new());
    assert_eq!(html.current(), Style::default());
    html.write_str("x", blue()).unwrap();
    assert_eq!(html.current(), blue());
}
