use stylish::{
    Ansi, Arguments, Color, Content, Error, Foreground, Format, Formatter, Html, Output, Plain,
    Recorded, Style,
};

/// An output that takes a number of writes and refuses every one after
/// them. What it took, it keeps.
struct Limited {
    taken: String,
    left: usize,
}

impl Limited {
    fn new(left: usize) -> Recorded<Limited> {
        Recorded::new(Limited { taken: String::new(), left })
    }
}

impl Output for Limited {
    fn write_str(&mut self, s: &str) -> Result<(), Error> {
        if self.left == 0 {
            return Err(Error);
        }
        self.left -= 1;
        self.taken.push_str(s);
        Ok(())
    }
}

fn red() -> Style {
    Style::default().with(Foreground(Color::Red))
}

#[test]
fn output_that_takes_everything() {
    let format = Format::parse("a{:(fg=red)}c").unwrap();
    let binding = format.bind(1, &[]).unwrap();
    let args = Arguments::new(&binding, &[Content::Text("b")]).unwrap();
    let mut ansi = Ansi::new(Limited::new(100));
    assert!(ansi.write_fmt(&args).is_ok());
    let output = ansi.finish().unwrap().into_inner();
    assert_eq!(output.taken, "a\x1b[31mb\x1b[0mc");
}

#[test]
fn first_failing_write_ends_the_rendering() {
    let format = Format::parse("one{}three{}five").unwrap();
    let binding = format.bind(2, &[]).unwrap();
    let args = Arguments::new(&binding, &[Content::Text("two"), Content::Text("four")]).unwrap();
    for limit in 0..5 {
        let mut plain = Plain::new(Limited::new(limit));
        assert_eq!(plain.write_fmt(&args), Err(Error));
        let output = plain.into_inner().into_inner();
        assert_eq!(output.taken, ["", "one", "onetwo", "onetwothree", "onetwothreefour"][limit]);
        assert_eq!(output.left, 0);
    }
    let mut plain = Plain::new(Limited::new(5));
    assert_eq!(plain.write_fmt(&args), Ok(()));
    assert_eq!(plain.into_inner().into_inner().taken, "onetwothreefourfive");
}

#[test]
fn failing_transition_fails_the_write() {
    let mut ansi = Ansi::new(Limited::new(0));
    assert_eq!(ansi.write_str("x", red()), Err(Error));
    let mut html = Html::new(Limited::new(1));
    assert_eq!(html.write_str("x", red()), Err(Error));
}

#[test]
fn empty_write_succeeds_on_an_output_that_takes_nothing() {
    let mut ansi = Ansi::new(Limited::new(0));
    assert_eq!(ansi.write_str("", red()), Ok(()));
    let mut html = Html::new(Limited::new(0));
    assert_eq!(html.write_str("", red()), Ok(()));
}

#[test]
fn finish_in_the_plain_style_succeeds_on_an_output_that_takes_nothing() {
    assert!(Ansi::new(Limited::new(0)).finish().is_ok());
    assert!(Html::new(Limited::new(0)).finish().is_ok());
}

#[test]
fn failing_finish() {
    let mut ansi = Ansi::new(Limited::new(5));
    ansi.write_str("x", red()).unwrap();
    assert!(ansi.finish().is_ok());
    let mut ansi = Ansi::new(Limited::new(4));
    ansi.write_str("x", red()).unwrap();
    assert!(ansi.finish().is_err());
}

#[test]
fn scope_reports_the_failure_of_its_sink() {
    let mut plain = Plain::new(Limited::new(1));
    let mut scope = Formatter::new(&mut plain);
    assert_eq!(scope.write_str("a"), Ok(()));
    assert_eq!(scope.write_str("b"), Err(Error));
    assert_eq!(scope.write_char('c'), Err(Error));
}

#[test]
fn plain_does_not_ask_the_output_for_an_empty_write() {
    let mut plain = Plain::new(Limited::new(0));
    assert_eq!(plain.write_str("", red()), Ok(()));
    assert_eq!(plain.write_str("x", red()), Err(Error));
}

/// A styled output that keeps the spans as it gets them.
struct Spans(Vec<(String, Style)>);

impl stylish::StyledOutput for Spans {
    fn write_str(&mut self, s: &str, style: Style) -> Result<(), Error> {
        self.0.push((s.to_string(), style));
        Ok(())
    }
}

#[test]
fn spans_reach_a_styled_output_one_by_one() {
    let format = Format::parse("a{:(fg=red)}{}b").unwrap();
    let binding = format.bind(2, &[]).unwrap();
    let args = Arguments::new(&binding, &[Content::Text("x"), Content::Text("")]).unwrap();
    let mut sink = stylish::RecordedSpans::new(Spans(Vec::new()));
    {
        let mut scope = Formatter::new(&mut sink);
        scope.write_fmt(&args).unwrap();
        scope.write_char('!').unwrap();
    }
    assert_eq!(
        sink.into_inner().0,
        vec![
            ("a".to_string(), Style::default()),
            ("x".to_string(), red()),
            ("".to_string(), Style::default()),
            ("b".to_string(), Style::default()),
            ("!".to_string(), Style::default()),
        ]
    );
}

#[test]
fn nothing_is_sent_after_a_refused_fragment() {
    // The switch to red is sent as "\x1b[", "31" and "m".
    for limit in 0..3 {
        let mut ansi = Ansi::new(Limited::new(limit));
        assert_eq!(ansi.write_str("x", red()), Err(Error));
        assert_eq!(ansi.current(), Style::default());
        assert_eq!(ansi.write_str("y", red()), Err(Error));
        let output = ansi.finish().unwrap().into_inner();
        assert_eq!(output.taken, ["", "\x1b[", "\x1b[31"][limit]);
    }
    let mut ansi = Ansi::new(Limited::new(3));
    assert_eq!(ansi.write_str("x", red()), Err(Error));
    assert_eq!(ansi.current(), red());
    assert_eq!(ansi.finish().err(), Some(Error));

    // The same in HTML is "<span style=", "color:red" and ">".
    for limit in 0..3 {
        let mut html = Html::new(Limited::new(limit));
        assert_eq!(html.write_str("<", red()), Err(Error));
        assert_eq!(html.current(), Style::default());
        let output = html.finish().unwrap().into_inner();
        assert_eq!(output.taken, ["", "<span style=", "<span style=color:red"][limit]);
    }
    let mut html = Html::new(Limited::new(3));
    assert_eq!(html.write_str("<", red()), Err(Error));
    assert_eq!(html.current(), red());
}

#[test]
fn pieces_after_a_refused_write_are_not_rendered() {
    let format = Format::parse("a{:(fg=red)}c{}e").unwrap();
    let binding = format.bind(2, &[]).unwrap();
    let args = Arguments::new(&binding, &[Content::Text("b"), Content::Text("d")]).unwrap();
    // "a", then "\x1b[", "31", "m", "b", then "\x1b[0m", "c", then "d", "e".
    let expected =
        ["", "a", "a\x1b[", "a\x1b[31", "a\x1b[31m", "a\x1b[31mb", "a\x1b[31mb\x1b[0m"];
    for (limit, expected) in expected.iter().enumerate() {
        let mut ansi = Ansi::new(Limited::new(limit));
        assert_eq!(ansi.write_fmt(&args), Err(Error));
        let output = match ansi.finish() {
            Ok(sink) => sink.into_inner(),
            Err(Error) => continue,
        };
        assert_eq!(&output.taken, expected);
    }
}

#[test]
fn nothing_to_write_succeeds_on_an_output_that_takes_nothing() {
    let empty = Arguments { pieces: Vec::new() };
    let mut ansi = Ansi::new(Limited::new(0));
    assert_eq!(ansi.write_fmt(&empty), Ok(()));
    let mut plain = Plain::new(Limited::new(0));
    assert_eq!(plain.write_fmt(&empty), Ok(()));
    let string = stylish::String::new();
    let mut scope = Formatter::new(&mut plain);
    assert_eq!(scope.write_string(&string), Ok(()));
}

#[test]
fn finish_gives_back_the_sink_as_it_is() {
    let mut ansi = Ansi::new(Limited::new(9));
    ansi.write_str("x", red()).unwrap();
    let output = ansi.finish().unwrap().into_inner();
    assert_eq!(output.taken, "\x1b[31mx\x1b[0m");
    assert_eq!(output.left, 4);
}
