//! The adapter for HTML: styled runs become `span` elements, and the text is
//! escaped.

use vstd::prelude::*;

use crate::arguments::{spans, Arguments};
use crate::display::Display;
use crate::formatter::Formatter;
use crate::style::{Color, Intensity, Style};
use crate::write::{
    accept_all, joined, keeps_text, lemma_prefix, lemma_prefix_after, listed, present,
    stopped_in, text_opt, within_text, write_joined, Encoded, Error, Span, TextWrite, Write,
};

verus! {

/// The CSS declaration of a foreground colour.
pub open spec fn foreground_css(color: Color) -> Seq<char> {
    match color {
        Color::Black => "color:black"@,
        Color::Red => "color:red"@,
        Color::Green => "color:green"@,
        Color::Yellow => "color:yellow"@,
        Color::Blue => "color:blue"@,
        Color::Magenta => "color:magenta"@,
        Color::Cyan => "color:cyan"@,
        Color::White => "color:white"@,
        Color::Default => "color:inherit"@,
        Color::BrightBlack => "color:gray"@,
        Color::BrightRed => "color:#af0000"@,
        Color::BrightGreen => "color:#00ff00"@,
        Color::BrightYellow => "color:#ffff00"@,
        Color::BrightBlue => "color:#0000ff"@,
        Color::BrightMagenta => "color:#ff00ff"@,
        Color::BrightCyan => "color:#00ffff"@,
        Color::BrightWhite => "color:#ffffff"@,
    }
}

/// The CSS declaration of a background colour.
pub open spec fn background_css(color: Color) -> Seq<char> {
    match color {
        Color::Black => "background-color:black"@,
        Color::Red => "background-color:red"@,
        Color::Green => "background-color:green"@,
        Color::Yellow => "background-color:yellow"@,
        Color::Blue => "background-color:blue"@,
        Color::Magenta => "background-color:magenta"@,
        Color::Cyan => "background-color:cyan"@,
        Color::White => "background-color:white"@,
        Color::Default => "background-color:inherit"@,
        Color::BrightBlack => "background-color:gray"@,
        Color::BrightRed => "background-color:#af0000"@,
        Color::BrightGreen => "background-color:#00ff00"@,
        Color::BrightYellow => "background-color:#ffff00"@,
        Color::BrightBlue => "background-color:#0000ff"@,
        Color::BrightMagenta => "background-color:#ff00ff"@,
        Color::BrightCyan => "background-color:#00ffff"@,
        Color::BrightWhite => "background-color:#ffffff"@,
    }
}

/// The CSS declaration of an intensity.
pub open spec fn intensity_css(intensity: Intensity) -> Seq<char> {
    match intensity {
        Intensity::Bold => "font-weight:bolder"@,
        Intensity::Faint => "font-weight:lighter"@,
        Intensity::Normal => "font-weight:inherit"@,
    }
}

/// The declarations that describe `style` in full: one for each field that is
/// not at its default, in the order foreground, background, intensity.
pub open spec fn declarations(style: Style) -> Seq<Seq<char>> {
    let diff = style.spec_diff_from(Style::plain());
    present(
        match diff.foreground {
            Some(color) => Some(foreground_css(color)),
            None => None,
        },
    ) + present(
        match diff.background {
            Some(color) => Some(background_css(color)),
            None => None,
        },
    ) + present(
        match diff.intensity {
            Some(intensity) => Some(intensity_css(intensity)),
            None => None,
        },
    )
}

/// The tag that opens an element for `style`.
pub open spec fn opening(style: Style) -> Seq<char> {
    "<span style="@ + joined(declarations(style)) + ">"@
}

/// What closes the element that is open while `current` is on: nothing for
/// the plain style, for which none is open.
pub open spec fn ending(current: Style) -> Seq<char> {
    if current == Style::plain() {
        Seq::empty()
    } else {
        "</span>"@
    }
}

/// What leads from text in the style `current` to text in `style`: nothing
/// if they are the same; else the open element is closed, and unless `style`
/// is the plain style a new one is opened that describes `style` in full.
pub open spec fn transition(current: Style, style: Style) -> Seq<char> {
    if style == current {
        Seq::empty()
    } else if style == Style::plain() {
        ending(current)
    } else {
        ending(current) + opening(style)
    }
}

/// What stands for a character in HTML text.
pub open spec fn entity(c: char) -> Seq<char> {
    if c == '<' {
        "&lt;"@
    } else if c == '>' {
        "&gt;"@
    } else if c == '&' {
        "&amp;"@
    } else if c == '"' {
        "&quot;"@
    } else if c == '\'' {
        "&#x27;"@
    } else {
        seq![c]
    }
}

/// A text with each of its characters replaced by what stands for it in HTML.
pub open spec fn escaped(text: Seq<char>) -> Seq<char>
    decreases text.len(),
{
    if text.len() == 0 {
        Seq::empty()
    } else {
        escaped(text.drop_last()) + entity(text.last())
    }
}

/// What a write of `text` in `style` hands to the wrapped sink, and the style
/// that is on after it. An empty text changes nothing.
pub open spec fn written(before: Encoded, text: Seq<char>, style: Style) -> Encoded {
    if text.len() == 0 {
        before
    } else {
        Encoded {
            text: before.text + transition(before.current, style) + escaped(text),
            current: style,
        }
    }
}

/// What a write that failed has left of an adapter that held `before`, if
/// the write was to be in `style`. Either one of the tags that lead to
/// `style` was refused: then the style that was on still counts as on, and
/// the sink has no more than a beginning of the tags. Or the text was
/// refused: then `style` is on, and the sink has the tags in full.
pub open spec fn failed(before: Encoded, after: Encoded, style: Style) -> bool {
    let tags = transition(before.current, style);
    ||| after.current == before.current && after.text.is_prefix_of(before.text + tags)
    ||| after.current == style && (before.text + tags).is_prefix_of(after.text)
}

/// What writes of `spans`, one after the other, hand to the wrapped sink,
/// and the style that is on after them.
pub open spec fn written_all(before: Encoded, spans: Seq<Span>) -> Encoded
    decreases spans.len(),
{
    if spans.len() == 0 {
        before
    } else {
        written(written_all(before, spans.drop_last()), spans.last().0, spans.last().1)
    }
}

/// `askama_escape::escape` with the `Html` escaper, shown as a string. The
/// crate walks the bytes of `s` and writes `&lt;` for `<`, `&gt;` for `>`,
/// `&amp;` for `&`, `&quot;` for `"` and `&#x27;` for `'`; everything else it
/// copies. All five are ASCII, so the same holds character by character.
#[verifier::external_body]
fn escape(s: &str) -> (out: String)
    ensures
        out@ == escaped(s@),
{
    askama_escape::escape(s, askama_escape::Html).to_string()
}

pub(crate) fn foreground(color: Color) -> (css: &'static str)
    ensures
        css@ == foreground_css(color),
{
    match color {
        Color::Black => "color:black",
        Color::Red => "color:red",
        Color::Green => "color:green",
        Color::Yellow => "color:yellow",
        Color::Blue => "color:blue",
        Color::Magenta => "color:magenta",
        Color::Cyan => "color:cyan",
        Color::White => "color:white",
        Color::Default => "color:inherit",
        Color::BrightBlack => "color:gray",
        Color::BrightRed => "color:#af0000",
        Color::BrightGreen => "color:#00ff00",
        Color::BrightYellow => "color:#ffff00",
        Color::BrightBlue => "color:#0000ff",
        Color::BrightMagenta => "color:#ff00ff",
        Color::BrightCyan => "color:#00ffff",
        Color::BrightWhite => "color:#ffffff",
    }
}

pub(crate) fn background(color: Color) -> (css: &'static str)
    ensures
        css@ == background_css(color),
{
    match color {
        Color::Black => "background-color:black",
        Color::Red => "background-color:red",
        Color::Green => "background-color:green",
        Color::Yellow => "background-color:yellow",
        Color::Blue => "background-color:blue",
        Color::Magenta => "background-color:magenta",
        Color::Cyan => "background-color:cyan",
        Color::White => "background-color:white",
        Color::Default => "background-color:inherit",
        Color::BrightBlack => "background-color:gray",
        Color::BrightRed => "background-color:#af0000",
        Color::BrightGreen => "background-color:#00ff00",
        Color::BrightYellow => "background-color:#ffff00",
        Color::BrightBlue => "background-color:#0000ff",
        Color::BrightMagenta => "background-color:#ff00ff",
        Color::BrightCyan => "background-color:#00ffff",
        Color::BrightWhite => "background-color:#ffffff",
    }
}

pub(crate) fn intensity(level: Intensity) -> (css: &'static str)
    ensures
        css@ == intensity_css(level),
{
    match level {
        Intensity::Bold => "font-weight:bolder",
        Intensity::Faint => "font-weight:lighter",
        Intensity::Normal => "font-weight:inherit",
    }
}

/// Writes styled text to a sink of plain text as HTML.
pub struct Html<T: TextWrite> {
    inner: T,
    current: Style,
}

impl<T: TextWrite> View for Html<T> {
    type V = Encoded;

    closed spec fn view(&self) -> Encoded {
        Encoded { text: self.inner.text(), current: self.current }
    }
}

impl<T: TextWrite> Html<T> {
    /// Whether every write to the wrapped sink succeeds.
    pub closed spec fn reliable(&self) -> bool {
        self.inner.infallible()
    }

    /// Wraps a sink. No element is taken to be open.
    pub fn new(inner: T) -> (html: Self)
        ensures
            html@ == (Encoded { text: inner.text(), current: Style::plain() }),
            html.reliable() == inner.infallible(),
    {
        Html { inner, current: Style::default() }
    }

    /// Writes the tag that opens an element for `style`, and stops at the
    /// first write that fails.
    fn write_opening(&mut self, style: Style) -> (done: Result<(), Error>)
        ensures
            final(self).current == old(self).current,
            final(self).inner.infallible() == old(self).inner.infallible(),
            old(self).inner.infallible() ==> done is Ok,
            old(self).inner.text().is_prefix_of(final(self).inner.text()),
            final(self).inner.text().is_prefix_of(old(self).inner.text() + opening(style)),
            done is Ok ==> final(self).inner.text() == old(self).inner.text() + opening(style),
    {
        let diff = style.diff_from(Style::default());
        let first = match diff.foreground {
            Some(color) => Some(foreground(color)),
            None => None,
        };
        let second = match diff.background {
            Some(color) => Some(background(color)),
            None => None,
        };
        let third = match diff.intensity {
            Some(level) => Some(intensity(level)),
            None => None,
        };
        proof {
            assert(declarations(style) =~= listed(
                text_opt(first),
                text_opt(second),
                text_opt(third),
            ));
        }
        write_joined(&mut self.inner, "<span style=", first, second, third, ">")
    }

    /// The style of the element that is open; the plain style while none is
    /// open.
    pub fn current(&self) -> (style: Style)
        ensures
            style == self@.current,
    {
        self.current
    }

    /// Writes `s` in `style`: first what leads from the style that is on to
    /// `style`, then `s` escaped. An empty `s` writes nothing and leaves the
    /// style that is on as it was, whatever `style` is.
    ///
    /// The first write that the wrapped sink refuses ends it: nothing is
    /// sent after what was refused. If that was part of the tags, the style
    /// that was on counts as still on; if it was the text, `style` is on.
    pub fn write_str(&mut self, s: &str, style: Style) -> (done: Result<(), Error>)
        ensures
            done is Ok ==> final(self)@ == written(old(self)@, s@, style),
            keeps_text(old(self)@, final(self)@),
            within_text(final(self)@, written(old(self)@, s@, style)),
            done is Err ==> failed(old(self)@, final(self)@, style),
            s@.len() == 0 ==> done is Ok && final(self)@ == old(self)@,
            old(self).reliable() ==> done is Ok,
            final(self).reliable() == old(self).reliable(),
    {
        let ghost start = self.inner.text();
        let ghost tags = transition(self.current, style);
        proof {
            lemma_prefix(start, tags, Seq::empty());
            lemma_prefix(start + tags, escaped(s@), Seq::empty());
        }
        if s.is_empty() {
            return Ok(());
        }
        if style != self.current {
            if self.current != Style::default() {
                let closed = self.inner.write_str("</span>");
                if closed.is_err() {
                    proof {
                        if style != Style::plain() {
                            lemma_prefix(ending(self.current), opening(style), Seq::empty());
                            lemma_prefix_after(start, ending(self.current), tags);
                        }
                        lemma_prefix(self.inner.text(), start + ending(self.current), start + tags);
                        lemma_prefix(self.inner.text(), start + tags, start + tags + escaped(s@));
                    }
                    return closed;
                }
            }
            if style != Style::default() {
                let ghost closed = self.inner.text();
                let opened = self.write_opening(style);
                proof {
                    assert(closed + opening(style) =~= start + tags);
                    lemma_prefix(start, closed, self.inner.text());
                }
                if opened.is_err() {
                    proof {
                        lemma_prefix(self.inner.text(), start + tags, start + tags + escaped(s@));
                    }
                    return opened;
                }
            }
            proof {
                assert(self.inner.text() =~= start + tags);
            }
            self.current = style;
        }
        let ghost led = self.inner.text();
        let text = escape(s);
        let done = self.inner.write_str(text.as_str());
        proof {
            assert(led =~= start + tags);
            lemma_prefix(start, led, self.inner.text());
        }
        done
    }

    /// Writes a bound template, with the plain style on around it. The
    /// first write that fails ends it: the sink has what the spans before
    /// the one that failed gave, of that one a beginning at most, and
    /// nothing of those after it.
    pub fn write_fmt(&mut self, args: &Arguments<'_>) -> (done: Result<(), Error>)
        ensures
            done is Ok ==> final(self)@ == written_all(old(self)@, spans(args@, Style::plain())),
            done is Err ==> stopped_after(old(self)@, final(self)@, spans(args@, Style::plain())),
            spans(args@, Style::plain()).len() == 0 ==> done is Ok,
            keeps_text(old(self)@, final(self)@),
            old(self).reliable() ==> done is Ok,
            final(self).reliable() == old(self).reliable(),
    {
        let ghost start = self@;
        let ghost all = spans(args@, Style::plain());
        proof {
            lemma_accept_all::<T>(start, all);
        }
        let mut formatter = Formatter::new(self);
        let done = formatter.write_fmt(args);
        proof {
            if done is Err {
                let k = choose|k: int| #[trigger] stopped_in::<Html<T>>(start, self@, all, k);
                lemma_accept_all::<T>(start, all.take(k));
                lemma_accept_all::<T>(start, all.take(k + 1));
                assert(stopped_in_span(start, self@, all, k));
            }
        }
        done
    }

    /// Closes the element that is open, if any, and gives the wrapped sink
    /// back.
    pub fn finish(self) -> (done: Result<T, Error>)
        ensures
            done matches Ok(inner) ==> inner.text() == self@.text + ending(self@.current)
                && inner.infallible() == self.reliable(),
            self.reliable() || self@.current == Style::plain() ==> done is Ok,
    {
        let mut this = self;
        if this.current != Style::default() {
            this.inner.write_str("</span>")?;
        }
        Ok(this.inner)
    }
}

impl<T: TextWrite> Write for Html<T> {
    open spec fn infallible(&self) -> bool {
        self.reliable()
    }

    open spec fn accept(before: Encoded, text: Seq<char>, style: Style) -> Encoded {
        written(before, text, style)
    }

    open spec fn keeps(before: Encoded, after: Encoded) -> bool {
        keeps_text(before, after)
    }

    open spec fn within(after: Encoded, limit: Encoded) -> bool {
        within_text(after, limit)
    }

    proof fn lemma_keeps(first: Encoded, second: Encoded, third: Encoded) {
        lemma_prefix(first.text, second.text, third.text);
    }

    fn write_str(&mut self, s: &str, style: Style) -> (done: Result<(), Error>) {
        Html::write_str(self, s, style)
    }
}

/// Whether an adapter that held `before`, and to which `spans` were then
/// written, stopped in the span `k`: it has handed on all that the spans
/// before that one gave, and no more than these and that one give.
pub open spec fn stopped_in_span(before: Encoded, after: Encoded, spans: Seq<Span>, k: int)
    -> bool {
    &&& 0 <= k < spans.len()
    &&& keeps_text(written_all(before, spans.take(k)), after)
    &&& within_text(after, written_all(before, spans.take(k + 1)))
}

/// Whether an adapter that held `before`, and to which `spans` were then
/// written, stopped in one of them and wrote nothing of those after it.
pub open spec fn stopped_after(before: Encoded, after: Encoded, spans: Seq<Span>) -> bool {
    exists|k: int| #[trigger] stopped_in_span(before, after, spans, k)
}

/// What the adapter takes as a styled sink is what its writes hand on.
pub proof fn lemma_accept_all<T: TextWrite>(before: Encoded, spans: Seq<Span>)
    ensures
        accept_all::<Html<T>>(before, spans) == written_all(before, spans),
    decreases spans.len(),
{
    if spans.len() > 0 {
        lemma_accept_all::<T>(before, spans.drop_last());
    }
}

/// The HTML that `spans` become, from the first span to the closing tag at
/// the end.
pub open spec fn rendered(spans: Seq<Span>) -> Seq<char> {
    let end = written_all(Encoded { text: Seq::empty(), current: Style::plain() }, spans);
    end.text + ending(end.current)
}

/// Renders a bound template as HTML.
pub fn format(args: Arguments<'_>) -> (out: String)
    ensures
        out@ == rendered(spans(args@, Style::plain())),
{
    let mut html = Html::new(String::new());
    html.write_fmt(&args).unwrap();
    html.finish().unwrap()
}

/// Two writes in the same style, one after the other and not both of them
/// empty, share one element: the second text follows the first with nothing
/// between them.
pub proof fn lemma_same_style_batches(
    before: Encoded,
    first: Seq<char>,
    second: Seq<char>,
    style: Style,
)
    requires
        first.len() > 0 || second.len() > 0,
    ensures
        written(written(before, first, style), second, style) == (Encoded {
            text: before.text + transition(before.current, style) + escaped(first) + escaped(
                second,
            ),
            current: style,
        }),
{
    let middle = written(before, first, style);
    assert(middle.text + transition(style, style) + escaped(second) =~= middle.text + escaped(
        second,
    ));
}

/// After a write of text in a style that is not the plain one, `finish` adds
/// the closing tag, once; while the plain style is on it adds nothing.
pub proof fn lemma_finish_closes_once(before: Encoded, text: Seq<char>, style: Style)
    ensures
        text.len() > 0 && style != Style::plain() ==> ending(written(before, text, style).current)
            == "</span>"@,
        ending(Style::plain()) == Seq::<char>::empty(),
{
}

/// Values that can be rendered as HTML.
pub trait ToHtmlString {
    /// What the value writes while the plain style is on, as HTML.
    fn to_html_string(&self) -> String;
}

impl<T: Display + ?Sized> ToHtmlString for T {
    fn to_html_string(&self) -> (out: String)
        ensures
            out@ == rendered(self.shown(Style::plain())),
    {
        let mut sink = Html::new(String::new());
        proof {
            lemma_accept_all::<String>(sink@, self.shown(Style::plain()));
        }
        let mut formatter = Formatter::new(&mut sink);
        self.fmt(&mut formatter).unwrap();
        sink.finish().unwrap()
    }
}

} // verus!
