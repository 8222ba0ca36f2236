//! A string that remembers the style of each of its parts.

use vstd::prelude::*;
use vstd::string::StringExecFns;

use crate::arguments::{spans, Arguments};
use crate::display::Display;
use crate::formatter::Formatter;
use crate::style::Style;
use crate::write::{accept_all, lemma_prefix, Error, Span, Write};

verus! {

/// One stretch of a styled string: a text in one style.
struct Run {
    text: std::string::String,
    style: Style,
}

/// A string with styles: a sequence of runs, each a text in one style.
/// Writes in the style of the last run extend it; a write in another style
/// starts a new run; a write of no text changes nothing.
pub struct String {
    runs: Vec<Run>,
}

/// The runs of `before` and then `text` in `style`: as part of the last run
/// if that has the same style, as a new run if not. An empty text adds
/// nothing.
pub open spec fn appended(before: Seq<Span>, text: Seq<char>, style: Style) -> Seq<Span> {
    if text.len() == 0 {
        before
    } else if before.len() > 0 && before.last().1 == style {
        before.drop_last().push((before.last().0 + text, style))
    } else {
        before.push((text, style))
    }
}

/// The texts of `runs`, one after the other.
pub open spec fn text_of(runs: Seq<Span>) -> Seq<char>
    decreases runs.len(),
{
    if runs.len() == 0 {
        Seq::empty()
    } else {
        text_of(runs.drop_last()) + runs.last().0
    }
}

/// A write adds its text to the text of a styled string.
pub proof fn lemma_text_of_appended(before: Seq<Span>, text: Seq<char>, style: Style)
    ensures
        text_of(appended(before, text, style)) == text_of(before) + text,
{
    let after = appended(before, text, style);
    if text.len() == 0 {
        assert(text_of(before) + text =~= text_of(before));
    } else if before.len() > 0 && before.last().1 == style {
        assert(after.drop_last() =~= before.drop_last());
        assert(text_of(before.drop_last()) + (before.last().0 + text) =~= text_of(before) + text);
    } else {
        assert(after.drop_last() =~= before);
    }
}

impl View for String {
    type V = Seq<Span>;

    closed spec fn view(&self) -> Seq<Span> {
        Seq::new(self.runs@.len(), |i: int| (self.runs@[i].text@, self.runs@[i].style))
    }
}

impl String {
    /// The empty string: no run at all.
    pub fn new() -> (string: Self)
        ensures
            string@ == Seq::<Span>::empty(),
    {
        let string = String { runs: Vec::new() };
        assert(string@ =~= Seq::<Span>::empty());
        string
    }

    /// How many runs the string has.
    pub fn len(&self) -> (n: usize)
        ensures
            n == self@.len(),
    {
        self.runs.len()
    }

    /// The run `i`: its text and its style. `None` where the string has no
    /// such run.
    pub fn run(&self, i: usize) -> (run: Option<(&str, Style)>)
        ensures
            match run {
                Some((text, style)) => i < self@.len() && text@ == self@[i as int].0 && style
                    == self@[i as int].1,
                None => i >= self@.len(),
            },
    {
        if i < self.runs.len() {
            Some((self.runs[i].text.as_str(), self.runs[i].style))
        } else {
            None
        }
    }

    /// Appends `s` in `style`.
    pub fn write_str(&mut self, s: &str, style: Style) -> (done: Result<(), Error>)
        ensures
            done is Ok,
            final(self)@ == appended(old(self)@, s@, style),
            text_of(final(self)@) == text_of(old(self)@) + s@,
    {
        proof {
            lemma_text_of_appended(self@, s@, style);
        }
        if s.is_empty() {
            return Ok(());
        }
        let n = self.runs.len();
        if n > 0 && self.runs[n - 1].style == style {
            let mut last = self.runs.pop().unwrap();
            last.text.append(s);
            self.runs.push(last);
        } else {
            self.runs.push(Run { text: std::string::String::from_str(s), style });
        }
        assert(self@ =~= appended(old(self)@, s@, style));
        Ok(())
    }

    /// Appends a bound template, with the plain style on around it.
    pub fn write_fmt(&mut self, args: &Arguments<'_>) -> (done: Result<(), Error>)
        ensures
            done is Ok,
            final(self)@ == accept_all::<String>(old(self)@, spans(args@, Style::plain())),
    {
        let mut formatter = Formatter::new(self);
        formatter.write_fmt(args)
    }

    /// The text of the string without its styles.
    pub fn into_inner(self) -> (text: std::string::String)
        ensures
            text@ == text_of(self@),
    {
        let mut text = std::string::String::new();
        let mut i: usize = 0;
        while i < self.runs.len()
            invariant
                i <= self.runs@.len(),
                text@ == text_of(self@.take(i as int)),
            decreases self.runs@.len() - i,
        {
            proof {
                assert(self@.take(i + 1).drop_last() =~= self@.take(i as int));
            }
            text.append(self.runs[i].text.as_str());
            i += 1;
        }
        assert(self@.take(i as int) =~= self@);
        text
    }
}

impl Write for String {
    open spec fn infallible(&self) -> bool {
        true
    }

    open spec fn accept(before: Seq<Span>, text: Seq<char>, style: Style) -> Seq<Span> {
        appended(before, text, style)
    }

    /// A styled string has kept what it held if its text begins with the
    /// text that it had.
    open spec fn keeps(before: Seq<Span>, after: Seq<Span>) -> bool {
        text_of(before).is_prefix_of(text_of(after))
    }

    proof fn lemma_keeps(first: Seq<Span>, second: Seq<Span>, third: Seq<Span>) {
        lemma_prefix(text_of(first), text_of(second), text_of(third));
    }

    /// A styled string holds no more than another if its text is a
    /// beginning of the other's text.
    open spec fn within(after: Seq<Span>, limit: Seq<Span>) -> bool {
        text_of(after).is_prefix_of(text_of(limit))
    }

    fn write_str(&mut self, s: &str, style: Style) -> (done: Result<(), Error>) {
        String::write_str(self, s, style)
    }
}

/// Renders a bound template as a styled string.
pub fn format(args: Arguments<'_>) -> (out: String)
    ensures
        out@ == accept_all::<String>(Seq::empty(), spans(args@, Style::plain())),
{
    let mut output = String::new();
    output.write_fmt(&args).unwrap();
    output
}

/// Values that can be rendered as a styled string.
pub trait ToStylishString {
    /// What the value writes while the plain style is on, as a styled
    /// string.
    fn to_stylish_string(&self) -> String;
}

impl<T: Display + ?Sized> ToStylishString for T {
    fn to_stylish_string(&self) -> (out: String)
        ensures
            out@ == accept_all::<String>(Seq::empty(), self.shown(Style::plain())),
    {
        let mut sink = String::new();
        let mut formatter = Formatter::new(&mut sink);
        self.fmt(&mut formatter).unwrap();
        sink
    }
}

} // verus!
