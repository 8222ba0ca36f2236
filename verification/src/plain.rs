//! The adapter for plain text: styles are dropped.

use vstd::prelude::*;

use crate::arguments::{spans, Arguments};
use crate::display::Display;
use crate::formatter::Formatter;
use crate::string::text_of;
use crate::style::Style;
use crate::write::{accept_all, lemma_prefix, stopped_in, Error, Span, TextWrite, Write};

verus! {

/// Writes styled text to a sink of plain text, without the styles.
pub struct Plain<T> {
    inner: T,
}

impl<T: TextWrite> View for Plain<T> {
    type V = Seq<char>;

    closed spec fn view(&self) -> Seq<char> {
        self.inner.text()
    }
}

impl<T: TextWrite> Plain<T> {
    /// Whether every write to the wrapped sink succeeds.
    pub closed spec fn reliable(&self) -> bool {
        self.inner.infallible()
    }

    /// Wraps a sink.
    pub fn new(inner: T) -> (plain: Self)
        ensures
            plain@ == inner.text(),
            plain.reliable() == inner.infallible(),
    {
        Plain { inner }
    }

    /// Writes `s` as it is, whatever `style` is. An empty `s` writes
    /// nothing: the wrapped sink is not even asked. Where the wrapped sink
    /// refuses, it has what it had and of `s` at most a beginning.
    pub fn write_str(&mut self, s: &str, style: Style) -> (done: Result<(), Error>)
        ensures
            done is Ok ==> final(self)@ == old(self)@ + s@,
            old(self)@.is_prefix_of(final(self)@),
            final(self)@.is_prefix_of(old(self)@ + s@),
            s@.len() == 0 ==> done is Ok && final(self)@ == old(self)@,
            old(self).reliable() ==> done is Ok,
            final(self).reliable() == old(self).reliable(),
    {
        if s.is_empty() {
            proof {
                assert(self@ + s@ =~= self@);
            }
            return Ok(());
        }
        self.inner.write_str(s)
    }

    /// Writes a bound template: the texts of its spans, one after the other.
    /// The first write that fails ends it: the sink has the texts of the
    /// spans before the one that failed, of that one a beginning at most,
    /// and nothing of those after it.
    pub fn write_fmt(&mut self, args: &Arguments<'_>) -> (done: Result<(), Error>)
        ensures
            done is Ok ==> final(self)@ == old(self)@ + text_of(spans(args@, Style::plain())),
            done is Err ==> stopped_after(old(self)@, final(self)@, spans(args@, Style::plain())),
            spans(args@, Style::plain()).len() == 0 ==> done is Ok,
            old(self)@.is_prefix_of(final(self)@),
            old(self).reliable() ==> done is Ok,
            final(self).reliable() == old(self).reliable(),
    {
        let ghost start = self@;
        let ghost all = spans(args@, Style::plain());
        proof {
            lemma_accept_all::<T>(start, all);
        }
        let mut formatter = Formatter::new(self);
        let done = formatter.write_fmt(args);
        proof {
            if done is Err {
                let k = choose|k: int| #[trigger] stopped_in::<Plain<T>>(start, self@, all, k);
                lemma_accept_all::<T>(start, all.take(k));
                lemma_accept_all::<T>(start, all.take(k + 1));
                assert(stopped_in_span(start, self@, all, k));
            }
        }
        done
    }

    /// Gives the wrapped sink back.
    pub fn into_inner(self) -> (inner: T)
        ensures
            inner.text() == self@,
            inner.infallible() == self.reliable(),
    {
        self.inner
    }
}

impl<T: TextWrite> Write for Plain<T> {
    open spec fn infallible(&self) -> bool {
        self.reliable()
    }

    open spec fn accept(before: Seq<char>, text: Seq<char>, style: Style) -> Seq<char> {
        before + text
    }

    open spec fn keeps(before: Seq<char>, after: Seq<char>) -> bool {
        before.is_prefix_of(after)
    }

    open spec fn within(after: Seq<char>, limit: Seq<char>) -> bool {
        after.is_prefix_of(limit)
    }

    proof fn lemma_keeps(first: Seq<char>, second: Seq<char>, third: Seq<char>) {
        lemma_prefix(first, second, third);
    }

    fn write_str(&mut self, s: &str, style: Style) -> (done: Result<(), Error>) {
        Plain::write_str(self, s, style)
    }
}

/// Whether an adapter that held `before`, and to which `spans` were then
/// written, stopped in the span `k`: it has the texts of the spans before
/// that one, and no more than these and the text of that one.
pub open spec fn stopped_in_span(before: Seq<char>, after: Seq<char>, spans: Seq<Span>, k: int)
    -> bool {
    &&& 0 <= k < spans.len()
    &&& (before + text_of(spans.take(k))).is_prefix_of(after)
    &&& after.is_prefix_of(before + text_of(spans.take(k + 1)))
}

/// Whether an adapter that held `before`, and to which `spans` were then
/// written, stopped in one of them and wrote nothing of those after it.
pub open spec fn stopped_after(before: Seq<char>, after: Seq<char>, spans: Seq<Span>) -> bool {
    exists|k: int| #[trigger] stopped_in_span(before, after, spans, k)
}

/// What the adapter takes as a styled sink is the texts of the spans.
pub proof fn lemma_accept_all<T: TextWrite>(before: Seq<char>, spans: Seq<Span>)
    ensures
        accept_all::<Plain<T>>(before, spans) == before + text_of(spans),
    decreases spans.len(),
{
    if spans.len() == 0 {
        assert(before + text_of(spans) =~= before);
    } else {
        lemma_accept_all::<T>(before, spans.drop_last());
        assert(before + text_of(spans.drop_last()) + spans.last().0 =~= before + text_of(spans));
    }
}

/// Renders a bound template as plain text.
#[inline]
pub fn format(args: Arguments<'_>) -> (out: String)
    ensures
        out@ == text_of(spans(args@, Style::plain())),
{
    let mut output = Plain::new(String::new());
    output.write_fmt(&args).unwrap();
    assert(Seq::<char>::empty() + text_of(spans(args@, Style::plain())) =~= text_of(
        spans(args@, Style::plain()),
    ));
    output.into_inner()
}

/// Values that can be rendered as plain text.
pub trait ToPlainString {
    /// What the value writes, without the styles.
    fn to_plain_string(&self) -> String;
}

impl<T: Display + ?Sized> ToPlainString for T {
    fn to_plain_string(&self) -> (out: String)
        ensures
            out@ == text_of(self.shown(Style::plain())),
    {
        let mut sink = Plain::new(String::new());
        proof {
            lemma_accept_all::<String>(sink@, self.shown(Style::plain()));
            assert(Seq::<char>::empty() + text_of(self.shown(Style::plain())) =~= text_of(
                self.shown(Style::plain()),
            ));
        }
        let mut formatter = Formatter::new(&mut sink);
        self.fmt(&mut formatter).unwrap();
        sink.into_inner()
    }
}

} // verus!
