//! The adapter for terminals: styles become SGR escape sequences.

use vstd::prelude::*;

use crate::arguments::{spans, Arguments};
use crate::display::Display;
use crate::formatter::Formatter;
use crate::style::{Color, Intensity, Style, StyleDiff};
use crate::write::{
    accept_all, joined, keeps_text, lemma_prefix, listed, present, stopped_in, text_opt,
    within_text, write_joined, Encoded, Error, Span, TextWrite, Write,
};

verus! {

/// The SGR parameter that selects a foreground colour.
pub open spec fn foreground_code(color: Color) -> Seq<char> {
    match color {
        Color::Black => "30"@,
        Color::Red => "31"@,
        Color::Green => "32"@,
        Color::Yellow => "33"@,
        Color::Blue => "34"@,
        Color::Magenta => "35"@,
        Color::Cyan => "36"@,
        Color::White => "37"@,
        Color::Default => "39"@,
        Color::BrightBlack => "90"@,
        Color::BrightRed => "91"@,
        Color::BrightGreen => "92"@,
        Color::BrightYellow => "93"@,
        Color::BrightBlue => "94"@,
        Color::BrightMagenta => "95"@,
        Color::BrightCyan => "96"@,
        Color::BrightWhite => "97"@,
    }
}

/// The SGR parameter that selects a background colour.
pub open spec fn background_code(color: Color) -> Seq<char> {
    match color {
        Color::Black => "40"@,
        Color::Red => "41"@,
        Color::Green => "42"@,
        Color::Yellow => "43"@,
        Color::Blue => "44"@,
        Color::Magenta => "45"@,
        Color::Cyan => "46"@,
        Color::White => "47"@,
        Color::Default => "49"@,
        Color::BrightBlack => "100"@,
        Color::BrightRed => "101"@,
        Color::BrightGreen => "102"@,
        Color::BrightYellow => "103"@,
        Color::BrightBlue => "104"@,
        Color::BrightMagenta => "105"@,
        Color::BrightCyan => "106"@,
        Color::BrightWhite => "107"@,
    }
}

/// The SGR parameter that selects an intensity.
pub open spec fn intensity_code(intensity: Intensity) -> Seq<char> {
    match intensity {
        Intensity::Bold => "1"@,
        Intensity::Faint => "2"@,
        Intensity::Normal => "22"@,
    }
}

/// The SGR parameters for the fields that `diff` changes, in the order
/// foreground, background, intensity.
pub open spec fn codes(diff: StyleDiff) -> Seq<Seq<char>> {
    present(
        match diff.foreground {
            Some(color) => Some(foreground_code(color)),
            None => None,
        },
    ) + present(
        match diff.background {
            Some(color) => Some(background_code(color)),
            None => None,
        },
    ) + present(
        match diff.intensity {
            Some(intensity) => Some(intensity_code(intensity)),
            None => None,
        },
    )
}

/// What switches a terminal from the style `current` to `style`: nothing if
/// they are the same, the reset sequence if `style` is the plain style, and
/// else one sequence with the parameters of the fields that differ.
pub open spec fn transition(current: Style, style: Style) -> Seq<char> {
    if style == current {
        Seq::empty()
    } else if style == Style::plain() {
        "\x1b[0m"@
    } else {
        "\x1b["@ + joined(codes(style.spec_diff_from(current))) + "m"@
    }
}

/// What a write of `text` in `style` hands to the wrapped sink, and the style
/// that is switched on after it. An empty text changes nothing.
pub open spec fn written(before: Encoded, text: Seq<char>, style: Style) -> Encoded {
    if text.len() == 0 {
        before
    } else {
        Encoded { text: before.text + transition(before.current, style) + text, current: style }
    }
}

/// What a write that failed has left of an adapter that held `before`, if
/// the write was to be in `style`. Either the switch to `style` was refused:
/// then the style that was on still counts as on, and the sink has no more
/// than a beginning of the switch. Or the text was refused: then `style` is
/// on, and the sink has the whole switch.
pub open spec fn failed(before: Encoded, after: Encoded, style: Style) -> bool {
    let switch = transition(before.current, style);
    ||| after.current == before.current && after.text.is_prefix_of(before.text + switch)
    ||| after.current == style && (before.text + switch).is_prefix_of(after.text)
}

/// What writes of `spans`, one after the other, hand to the wrapped sink,
/// and the style that is on after them.
pub open spec fn written_all(before: Encoded, spans: Seq<Span>) -> Encoded
    decreases spans.len(),
{
    if spans.len() == 0 {
        before
    } else {
        written(written_all(before, spans.drop_last()), spans.last().0, spans.last().1)
    }
}

/// What `finish` adds: the reset sequence, unless the plain style is on.
pub open spec fn ending(current: Style) -> Seq<char> {
    if current == Style::plain() {
        Seq::empty()
    } else {
        "\x1b[0m"@
    }
}

pub(crate) fn foreground(color: Color) -> (code: &'static str)
    ensures
        code@ == foreground_code(color),
{
    match color {
        Color::Black => "30",
        Color::Red => "31",
        Color::Green => "32",
        Color::Yellow => "33",
        Color::Blue => "34",
        Color::Magenta => "35",
        Color::Cyan => "36",
        Color::White => "37",
        Color::Default => "39",
        Color::BrightBlack => "90",
        Color::BrightRed => "91",
        Color::BrightGreen => "92",
        Color::BrightYellow => "93",
        Color::BrightBlue => "94",
        Color::BrightMagenta => "95",
        Color::BrightCyan => "96",
        Color::BrightWhite => "97",
    }
}

pub(crate) fn background(color: Color) -> (code: &'static str)
    ensures
        code@ == background_code(color),
{
    match color {
        Color::Black => "40",
        Color::Red => "41",
        Color::Green => "42",
        Color::Yellow => "43",
        Color::Blue => "44",
        Color::Magenta => "45",
        Color::Cyan => "46",
        Color::White => "47",
        Color::Default => "49",
        Color::BrightBlack => "100",
        Color::BrightRed => "101",
        Color::BrightGreen => "102",
        Color::BrightYellow => "103",
        Color::BrightBlue => "104",
        Color::BrightMagenta => "105",
        Color::BrightCyan => "106",
        Color::BrightWhite => "107",
    }
}

pub(crate) fn intensity(level: Intensity) -> (code: &'static str)
    ensures
        code@ == intensity_code(level),
{
    match level {
        Intensity::Bold => "1",
        Intensity::Faint => "2",
        Intensity::Normal => "22",
    }
}

/// Writes styled text to a sink of plain text as text with SGR escape
/// sequences in it.
pub struct Ansi<T: TextWrite> {
    inner: T,
    current: Style,
}

impl<T: TextWrite> View for Ansi<T> {
    type V = Encoded;

    closed spec fn view(&self) -> Encoded {
        Encoded { text: self.inner.text(), current: self.current }
    }
}

impl<T: TextWrite> Ansi<T> {
    /// Whether every write to the wrapped sink succeeds.
    pub closed spec fn reliable(&self) -> bool {
        self.inner.infallible()
    }

    /// Wraps a sink. The plain style is taken to be on.
    pub fn new(inner: T) -> (ansi: Self)
        ensures
            ansi@ == (Encoded { text: inner.text(), current: Style::plain() }),
            ansi.reliable() == inner.infallible(),
    {
        Ansi { inner, current: Style::default() }
    }

    /// Writes the escape sequence that sets the fields of `diff`, of which
    /// there is at least one, and stops at the first write that fails.
    fn write_codes(&mut self, diff: StyleDiff) -> (done: Result<(), Error>)
        ensures
            final(self).current == old(self).current,
            final(self).inner.infallible() == old(self).inner.infallible(),
            old(self).inner.infallible() ==> done is Ok,
            old(self).inner.text().is_prefix_of(final(self).inner.text()),
            final(self).inner.text().is_prefix_of(
                old(self).inner.text() + ("\x1b["@ + joined(codes(diff)) + "m"@),
            ),
            done is Ok ==> final(self).inner.text() == old(self).inner.text() + ("\x1b["@ + joined(
                codes(diff),
            ) + "m"@),
    {
        let first = match diff.foreground {
            Some(color) => Some(foreground(color)),
            None => None,
        };
        let second = match diff.background {
            Some(color) => Some(background(color)),
            None => None,
        };
        let third = match diff.intensity {
            Some(level) => Some(intensity(level)),
            None => None,
        };
        proof {
            assert(codes(diff) =~= listed(text_opt(first), text_opt(second), text_opt(third)));
        }
        write_joined(&mut self.inner, "\x1b[", first, second, third, "m")
    }

    /// The style that is switched on: the plain style until text in another
    /// style has been written, and again after text in the plain style.
    pub fn current(&self) -> (style: Style)
        ensures
            style == self@.current,
    {
        self.current
    }

    /// Writes `s` in `style`: first what switches the terminal from the
    /// style that is on to `style`, then `s` as it is. An empty `s` writes
    /// nothing and leaves the style that is on as it was, whatever `style`
    /// is.
    ///
    /// The first write that the wrapped sink refuses ends it: nothing is
    /// sent after what was refused. If that was part of the switch, the
    /// style that was on counts as still on; if it was `s`, `style` is on.
    pub fn write_str(&mut self, s: &str, style: Style) -> (done: Result<(), Error>)
        ensures
            done is Ok ==> final(self)@ == written(old(self)@, s@, style),
            keeps_text(old(self)@, final(self)@),
            within_text(final(self)@, written(old(self)@, s@, style)),
            done is Err ==> failed(old(self)@, final(self)@, style),
            s@.len() == 0 ==> done is Ok && final(self)@ == old(self)@,
            old(self).reliable() ==> done is Ok,
            final(self).reliable() == old(self).reliable(),
    {
        let ghost start = self.inner.text();
        let ghost switch = transition(self.current, style);
        proof {
            lemma_prefix(start, switch, Seq::empty());
            lemma_prefix(start + switch, s@, Seq::empty());
        }
        if s.is_empty() {
            return Ok(());
        }
        if style != self.current {
            let switched = if style == Style::default() {
                self.inner.write_str("\x1b[0m")
            } else {
                self.write_codes(style.diff_from(self.current))
            };
            if switched.is_err() {
                proof {
                    lemma_prefix(self.inner.text(), start + switch, start + switch + s@);
                }
                return switched;
            }
            self.current = style;
        }
        let ghost switched = self.inner.text();
        let done = self.inner.write_str(s);
        proof {
            assert(switched =~= start + switch);
            lemma_prefix(start, switched, self.inner.text());
        }
        done
    }

    /// Writes a bound template, with the plain style on around it. The
    /// first write that fails ends it: the sink has what the spans before
    /// the one that failed gave, of that one a beginning at most, and
    /// nothing of those after it.
    pub fn write_fmt(&mut self, args: &Arguments<'_>) -> (done: Result<(), Error>)
        ensures
            done is Ok ==> final(self)@ == written_all(old(self)@, spans(args@, Style::plain())),
            done is Err ==> stopped_after(old(self)@, final(self)@, spans(args@, Style::plain())),
            spans(args@, Style::plain()).len() == 0 ==> done is Ok,
            keeps_text(old(self)@, final(self)@),
            old(self).reliable() ==> done is Ok,
            final(self).reliable() == old(self).reliable(),
    {
        let ghost start = self@;
        let ghost all = spans(args@, Style::plain());
        proof {
            lemma_accept_all::<T>(start, all);
        }
        let mut formatter = Formatter::new(self);
        let done = formatter.write_fmt(args);
        proof {
            if done is Err {
                let k = choose|k: int| #[trigger] stopped_in::<Ansi<T>>(start, self@, all, k);
                lemma_accept_all::<T>(start, all.take(k));
                lemma_accept_all::<T>(start, all.take(k + 1));
                assert(stopped_in_span(start, self@, all, k));
            }
        }
        done
    }

    /// Switches the terminal back to the plain style if another is on, and
    /// gives the wrapped sink back.
    pub fn finish(self) -> (done: Result<T, Error>)
        ensures
            done matches Ok(inner) ==> inner.text() == self@.text + ending(self@.current)
                && inner.infallible() == self.reliable(),
            self.reliable() || self@.current == Style::plain() ==> done is Ok,
    {
        let mut this = self;
        if this.current != Style::default() {
            this.inner.write_str("\x1b[0m")?;
        }
        Ok(this.inner)
    }
}

impl<T: TextWrite> Write for Ansi<T> {
    open spec fn infallible(&self) -> bool {
        self.reliable()
    }

    open spec fn accept(before: Encoded, text: Seq<char>, style: Style) -> Encoded {
        written(before, text, style)
    }

    open spec fn keeps(before: Encoded, after: Encoded) -> bool {
        keeps_text(before, after)
    }

    open spec fn within(after: Encoded, limit: Encoded) -> bool {
        within_text(after, limit)
    }

    proof fn lemma_keeps(first: Encoded, second: Encoded, third: Encoded) {
        lemma_prefix(first.text, second.text, third.text);
    }

    fn write_str(&mut self, s: &str, style: Style) -> (done: Result<(), Error>) {
        Ansi::write_str(self, s, style)
    }
}

/// Whether an adapter that held `before`, and to which `spans` were then
/// written, stopped in the span `k`: it has handed on all that the spans
/// before that one gave, and no more than these and that one give.
pub open spec fn stopped_in_span(before: Encoded, after: Encoded, spans: Seq<Span>, k: int)
    -> bool {
    &&& 0 <= k < spans.len()
    &&& keeps_text(written_all(before, spans.take(k)), after)
    &&& within_text(after, written_all(before, spans.take(k + 1)))
}

/// Whether an adapter that held `before`, and to which `spans` were then
/// written, stopped in one of them and wrote nothing of those after it.
pub open spec fn stopped_after(before: Encoded, after: Encoded, spans: Seq<Span>) -> bool {
    exists|k: int| #[trigger] stopped_in_span(before, after, spans, k)
}

/// What the adapter takes as a styled sink is what its writes hand on.
pub proof fn lemma_accept_all<T: TextWrite>(before: Encoded, spans: Seq<Span>)
    ensures
        accept_all::<Ansi<T>>(before, spans) == written_all(before, spans),
    decreases spans.len(),
{
    if spans.len() > 0 {
        lemma_accept_all::<T>(before, spans.drop_last());
    }
}

/// The text with escape sequences that `spans` become, from the first span
/// to the reset at the end.
pub open spec fn rendered(spans: Seq<Span>) -> Seq<char> {
    let end = written_all(Encoded { text: Seq::empty(), current: Style::plain() }, spans);
    end.text + ending(end.current)
}

/// Renders a bound template as text with escape sequences.
pub fn format(args: Arguments<'_>) -> (out: String)
    ensures
        out@ == rendered(spans(args@, Style::plain())),
{
    let mut ansi = Ansi::new(String::new());
    ansi.write_fmt(&args).unwrap();
    ansi.finish().unwrap()
}

/// Two writes in the same style, one after the other and not both of them
/// empty, switch the terminal once: the second text follows the first with
/// nothing between them.
pub proof fn lemma_same_style_batches(
    before: Encoded,
    first: Seq<char>,
    second: Seq<char>,
    style: Style,
)
    requires
        first.len() > 0 || second.len() > 0,
    ensures
        written(written(before, first, style), second, style) == (Encoded {
            text: before.text + transition(before.current, style) + first + second,
            current: style,
        }),
{
    let middle = written(before, first, style);
    assert(middle.text + transition(style, style) + second =~= middle.text + second);
}

/// After a write of text in a style that is not the plain one, `finish` adds
/// the reset sequence, once; while the plain style is on it adds nothing.
pub proof fn lemma_finish_resets_once(before: Encoded, text: Seq<char>, style: Style)
    ensures
        text.len() > 0 && style != Style::plain() ==> ending(written(before, text, style).current)
            == "\x1b[0m"@,
        ending(Style::plain()) == Seq::<char>::empty(),
{
}

/// Values that can be rendered as text with escape sequences.
pub trait ToAnsiString {
    /// What the value writes while the plain style is on, as text with escape sequences.
    fn to_ansi_string(&self) -> String;
}

impl<T: Display + ?Sized> ToAnsiString for T {
    fn to_ansi_string(&self) -> (out: String)
        ensures
            out@ == rendered(self.shown(Style::plain())),
    {
        let mut sink = Ansi::new(String::new());
        proof {
            lemma_accept_all::<String>(sink@, self.shown(Style::plain()));
        }
        let mut formatter = Formatter::new(&mut sink);
        self.fmt(&mut formatter).unwrap();
        sink.finish().unwrap()
    }
}

} // verus!
