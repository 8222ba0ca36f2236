//! Sinks: where text goes, with or without a style.

use vstd::prelude::*;
use vstd::string::StringExecFns;

use crate::style::Style;

verus! {

/// A sink did not take what was written to it.
#[derive(Debug, Clone, Copy, PartialEq, Eq, Structural)]
pub struct Error;

/// `String::push` appends the given character to the end of the string.
pub assume_specification[ std::string::String::push ](s: &mut std::string::String, c: char)
    ensures
        final(s)@ == old(s)@.push(c),
;

/// A sink of plain text, such as an adapter wraps: a string in memory, or
/// whatever else takes text and may refuse it.
pub trait TextWrite {
    /// All the text that the sink has taken so far.
    spec fn text(&self) -> Seq<char>;

    /// Whether every write to this sink succeeds.
    spec fn infallible(&self) -> bool;

    /// Appends `s`. A sink that is not infallible may fail; it then still
    /// holds what it held, and of `s` at most a beginning.
    fn write_str(&mut self, s: &str) -> (done: Result<(), Error>)
        ensures
            done is Ok ==> final(self).text() == old(self).text() + s@,
            old(self).text().is_prefix_of(final(self).text()),
            final(self).text().is_prefix_of(old(self).text() + s@),
            old(self).infallible() ==> done is Ok,
            final(self).infallible() == old(self).infallible(),
    ;
}

impl TextWrite for String {
    open spec fn text(&self) -> Seq<char> {
        self@
    }

    open spec fn infallible(&self) -> bool {
        true
    }

    fn write_str(&mut self, s: &str) -> (done: Result<(), Error>) {
        self.append(s);
        Ok(())
    }
}

/// Anything that takes text and may refuse it. Nothing is known of what it
/// does with the text.
pub trait Output {
    fn write_str(&mut self, s: &str) -> Result<(), Error>;
}

/// An output as a sink of plain text: the text of the sink is what the
/// output has acknowledged since it was wrapped.
pub struct Recorded<O: Output> {
    inner: O,
    taken: Ghost<Seq<char>>,
}

impl<O: Output> Recorded<O> {
    /// Wraps an output, which has acknowledged nothing yet.
    pub fn new(inner: O) -> (sink: Self)
        ensures
            sink.text() == Seq::<char>::empty(),
            sink.output() == inner,
            !sink.infallible(),
    {
        Recorded { inner, taken: Ghost(Seq::empty()) }
    }

    /// Gives the output back, as the writes have left it.
    pub fn into_inner(self) -> (inner: O)
        ensures
            inner == self.output(),
    {
        self.inner
    }

    /// The output that is wrapped, as it is now.
    pub closed spec fn output(&self) -> O {
        self.inner
    }

    /// Takes note of what the output said of `s`: text that it took is
    /// text of the sink from now on, text that it refused is not.
    fn acknowledge(&mut self, s: &str, said: Result<(), Error>) -> (done: Result<(), Error>)
        ensures
            done == said,
            final(self).output() == old(self).output(),
            final(self).text() == (if said is Ok {
                old(self).text() + s@
            } else {
                old(self).text()
            }),
    {
        if said.is_ok() {
            proof {
                self.taken@ = self.taken@ + s@;
            }
        }
        said
    }
}

impl<O: Output> TextWrite for Recorded<O> {
    closed spec fn text(&self) -> Seq<char> {
        self.taken@
    }

    open spec fn infallible(&self) -> bool {
        false
    }

    /// Hands `s` to the output and says what the output said. Whether the
    /// write succeeds is for the output to decide; where it refuses, the
    /// text of the sink stays as it was.
    fn write_str(&mut self, s: &str) -> (done: Result<(), Error>)
        ensures
            done is Err ==> final(self).text() == old(self).text(),
    {
        let said = self.inner.write_str(s);
        self.acknowledge(s, said)
    }
}

/// A sink of styled text: it takes spans, each a text with the style in which
/// it is to appear.
pub trait Write: View {
    /// Whether every write to this sink succeeds.
    spec fn infallible(&self) -> bool;

    /// What the sink holds once it has taken `text` in `style`, if it held
    /// `before`.
    spec fn accept(before: Self::V, text: Seq<char>, style: Style) -> Self::V;

    /// Whether a sink that held `before` and now holds `after` has kept
    /// what it held.
    spec fn keeps(before: Self::V, after: Self::V) -> bool;

    /// A sink that has not changed has kept what it held, and what is kept
    /// over two stretches is kept over both.
    proof fn lemma_keeps(first: Self::V, second: Self::V, third: Self::V)
        ensures
            Self::keeps(first, first),
            Self::keeps(first, second) && Self::keeps(second, third) ==> Self::keeps(first, third),
    ;

    /// Whether a sink that holds `after` holds no more than one that holds
    /// `limit`.
    spec fn within(after: Self::V, limit: Self::V) -> bool;

    /// Writes one span. A sink that is not infallible may fail; it then
    /// still holds what it held, and no more than it would hold had it taken
    /// the span.
    fn write_str(&mut self, s: &str, style: Style) -> (done: Result<(), Error>)
        ensures
            done is Ok ==> final(self)@ == Self::accept(old(self)@, s@, style),
            Self::keeps(old(self)@, final(self)@),
            Self::within(final(self)@, Self::accept(old(self)@, s@, style)),
            old(self).infallible() ==> done is Ok,
            final(self).infallible() == old(self).infallible(),
    ;

    /// Writes one character as a span.
    #[inline]
    fn write_char(&mut self, c: char, style: Style) -> (done: Result<(), Error>)
        ensures
            done is Ok ==> final(self)@ == Self::accept(old(self)@, seq![c], style),
            Self::keeps(old(self)@, final(self)@),
            Self::within(final(self)@, Self::accept(old(self)@, seq![c], style)),
            old(self).infallible() ==> done is Ok,
            final(self).infallible() == old(self).infallible(),
    {
        let mut text = String::new();
        text.push(c);
        assert(text@ =~= seq![c]);
        self.write_str(text.as_str(), style)
    }
}

/// A span: a text and the style in which it is written.
pub type Span = (Seq<char>, Style);

/// Anything that takes styled text and may refuse it. Nothing is known of
/// what it does with the text.
pub trait StyledOutput {
    fn write_str(&mut self, s: &str, style: Style) -> Result<(), Error>;
}

/// A styled output as a sink of styled text: the sink holds the spans that
/// the output has acknowledged since it was wrapped.
pub struct RecordedSpans<O: StyledOutput> {
    inner: O,
    taken: Ghost<Seq<Span>>,
}

impl<O: StyledOutput> View for RecordedSpans<O> {
    type V = Seq<Span>;

    closed spec fn view(&self) -> Seq<Span> {
        self.taken@
    }
}

impl<O: StyledOutput> RecordedSpans<O> {
    /// Wraps a styled output, which has acknowledged nothing yet.
    pub fn new(inner: O) -> (sink: Self)
        ensures
            sink@ == Seq::<Span>::empty(),
            sink.output() == inner,
            !sink.infallible(),
    {
        RecordedSpans { inner, taken: Ghost(Seq::empty()) }
    }

    /// Gives the styled output back, as the writes have left it.
    pub fn into_inner(self) -> (inner: O)
        ensures
            inner == self.output(),
    {
        self.inner
    }

    /// The styled output that is wrapped, as it is now.
    pub closed spec fn output(&self) -> O {
        self.inner
    }

    /// Takes note of what the output said of the span: a span that it took
    /// is the last span of the sink from now on, one that it refused is not
    /// among them.
    fn acknowledge(&mut self, s: &str, style: Style, said: Result<(), Error>) -> (done: Result<
        (),
        Error,
    >)
        ensures
            done == said,
            final(self).output() == old(self).output(),
            final(self)@ == (if said is Ok {
                old(self)@.push((s@, style))
            } else {
                old(self)@
            }),
    {
        if said.is_ok() {
            proof {
                self.taken@ = self.taken@.push((s@, style));
            }
        }
        said
    }
}

impl<O: StyledOutput> Write for RecordedSpans<O> {
    open spec fn infallible(&self) -> bool {
        false
    }

    open spec fn accept(before: Seq<Span>, text: Seq<char>, style: Style) -> Seq<Span> {
        before.push((text, style))
    }

    open spec fn keeps(before: Seq<Span>, after: Seq<Span>) -> bool {
        before.is_prefix_of(after)
    }

    proof fn lemma_keeps(first: Seq<Span>, second: Seq<Span>, third: Seq<Span>) {
    }

    open spec fn within(after: Seq<Span>, limit: Seq<Span>) -> bool {
        after.is_prefix_of(limit)
    }

    /// Hands the span to the output and says what the output said. Whether
    /// the write succeeds is for the output to decide; where it refuses, the
    /// spans of the sink stay as they were.
    fn write_str(&mut self, s: &str, style: Style) -> (done: Result<(), Error>)
        ensures
            done is Err ==> final(self)@ == old(self)@,
    {
        let said = self.inner.write_str(s, style);
        self.acknowledge(s, style, said)
    }
}

/// What a sink holds once it has taken `spans` one after the other.
pub open spec fn accept_all<W: Write>(before: W::V, spans: Seq<Span>) -> W::V
    decreases spans.len(),
{
    if spans.len() == 0 {
        before
    } else {
        W::accept(accept_all::<W>(before, spans.drop_last()), spans.last().0, spans.last().1)
    }
}

/// Whether a sink that held `before`, and to which `spans` were then written
/// one after the other, stopped in the span `k`: it holds all that the
/// spans before that one gave it, and no more than these and that one give.
pub open spec fn stopped_in<W: Write>(before: W::V, after: W::V, spans: Seq<Span>, k: int) -> bool {
    &&& 0 <= k < spans.len()
    &&& W::keeps(accept_all::<W>(before, spans.take(k)), after)
    &&& W::within(after, accept_all::<W>(before, spans.take(k + 1)))
}

/// Whether a sink that held `before`, and to which `spans` were then written
/// one after the other, stopped in one of them and took nothing of those
/// after it.
pub open spec fn stopped<W: Write>(before: W::V, after: W::V, spans: Seq<Span>) -> bool {
    exists|k: int| #[trigger] stopped_in::<W>(before, after, spans, k)
}

/// What an encoding adapter holds: the text that it has handed to the sink
/// that it wraps, and the style that this text has left switched on.
pub struct Encoded {
    pub text: Seq<char>,
    pub current: Style,
}

/// The strings of `parts` with `;` between them.
pub open spec fn joined(parts: Seq<Seq<char>>) -> Seq<char>
    decreases parts.len(),
{
    if parts.len() == 0 {
        Seq::empty()
    } else if parts.len() == 1 {
        parts[0]
    } else {
        joined(parts.drop_last()) + ";"@ + parts.last()
    }
}

/// The one string of `part`, or none.
pub open spec fn present(part: Option<Seq<char>>) -> Seq<Seq<char>> {
    match part {
        Some(part) => seq![part],
        None => seq![],
    }
}

/// Writes `part` after the parts `before`, which stand in the sink behind
/// `base`, with the `;` that a part after the first needs.
fn write_part<T: TextWrite>(
    inner: &mut T,
    part: &str,
    first: bool,
    Ghost(base): Ghost<Seq<char>>,
    Ghost(before): Ghost<Seq<Seq<char>>>,
) -> (done: Result<(), Error>)
    requires
        first == (before.len() == 0),
        old(inner).text() == base + joined(before),
    ensures
        final(inner).infallible() == old(inner).infallible(),
        old(inner).infallible() ==> done is Ok,
        old(inner).text().is_prefix_of(final(inner).text()),
        final(inner).text().is_prefix_of(base + joined(before.push(part@))),
        done is Ok ==> final(inner).text() == base + joined(before.push(part@)),
{
    let ghost start = inner.text();
    proof {
        assert(before.push(part@).drop_last() =~= before);
    }
    if !first {
        let sent = inner.write_str(";");
        if sent.is_err() {
            proof {
                assert(base + joined(before.push(part@)) =~= (start + ";"@) + part@);
                lemma_prefix(inner.text(), start + ";"@, (start + ";"@) + part@);
            }
            return sent;
        }
    }
    let ghost middle = inner.text();
    let done = inner.write_str(part);
    proof {
        assert(base + joined(before.push(part@)) =~= middle + part@);
        lemma_prefix(start, middle, inner.text());
    }
    done
}

/// A text begins with itself, and with whatever a text begins with that it
/// begins with.
pub proof fn lemma_prefix(first: Seq<char>, second: Seq<char>, third: Seq<char>)
    ensures
        first.is_prefix_of(first),
        first.is_prefix_of(second) && second.is_prefix_of(third) ==> first.is_prefix_of(third),
        first.is_prefix_of(first + second),
{
}

/// A text that another begins with stays a beginning when the same text is
/// put before both.
pub proof fn lemma_prefix_after(base: Seq<char>, first: Seq<char>, second: Seq<char>)
    requires
        first.is_prefix_of(second),
    ensures
        (base + first).is_prefix_of(base + second),
{
    assert((base + second).subrange(0, (base + first).len() as int) =~= base + first);
}

/// The first strings of a list, joined, are a beginning of the whole list
/// joined.
pub proof fn lemma_joined_prefix(parts: Seq<Seq<char>>, k: int)
    requires
        0 <= k <= parts.len(),
    ensures
        joined(parts.take(k)).is_prefix_of(joined(parts)),
    decreases parts.len() - k,
{
    if k == parts.len() {
        assert(parts.take(k) =~= parts);
        lemma_prefix(joined(parts), joined(parts), joined(parts));
    } else {
        let shorter = parts.take(k);
        let longer = parts.take(k + 1);
        assert(longer.drop_last() =~= shorter);
        if k == 0 {
            assert(joined(shorter) =~= Seq::<char>::empty());
            assert(joined(longer).subrange(0, 0) =~= joined(shorter));
        } else {
            assert(joined(longer) == joined(shorter) + ";"@ + longer.last());
            assert(joined(longer) =~= joined(shorter) + (";"@ + longer.last()));
            lemma_prefix(joined(shorter), ";"@ + longer.last(), Seq::empty());
        }
        lemma_joined_prefix(parts, k + 1);
        lemma_prefix(joined(shorter), joined(longer), joined(parts));
    }
}

/// The text of an optional string.
pub open spec fn text_opt(part: Option<&str>) -> Option<Seq<char>> {
    match part {
        Some(part) => Some(part@),
        None => None,
    }
}

/// Those of three optional strings that are there, in their order.
pub open spec fn listed(
    first: Option<Seq<char>>,
    second: Option<Seq<char>>,
    third: Option<Seq<char>>,
) -> Seq<Seq<char>> {
    present(first) + present(second) + present(third)
}

/// A text that holds no more than `lead` and the first `k` of `parts`, put
/// behind `start`, holds no more than `start` with `lead`, all the parts and
/// `tail` behind it.
proof fn lemma_list_bounds(
    start: Seq<char>,
    lead: Seq<char>,
    parts: Seq<Seq<char>>,
    k: int,
    tail: Seq<char>,
    now: Seq<char>,
)
    requires
        0 <= k <= parts.len(),
        now.is_prefix_of((start + lead) + joined(parts.take(k))),
    ensures
        now.is_prefix_of(start + (lead + joined(parts) + tail)),
{
    let some = joined(parts.take(k));
    let all = joined(parts);
    lemma_joined_prefix(parts, k);
    lemma_prefix_after(lead, some, all);
    lemma_prefix(lead + all, tail, Seq::empty());
    lemma_prefix(lead + some, lead + all, lead + all + tail);
    lemma_prefix_after(start, lead + some, lead + all + tail);
    assert((start + lead) + some =~= start + (lead + some));
    lemma_prefix(now, start + (lead + some), start + (lead + all + tail));
}

/// Writes `lead`, those of the three parts that are there with `;` between
/// them, and `tail`, one after the other, and stops at the first write that
/// fails.
pub(crate) fn write_joined<T: TextWrite>(
    inner: &mut T,
    lead: &str,
    first: Option<&str>,
    second: Option<&str>,
    third: Option<&str>,
    tail: &str,
) -> (done: Result<(), Error>)
    ensures
        final(inner).infallible() == old(inner).infallible(),
        old(inner).infallible() ==> done is Ok,
        old(inner).text().is_prefix_of(final(inner).text()),
        final(inner).text().is_prefix_of(
            old(inner).text() + (lead@ + joined(
                listed(text_opt(first), text_opt(second), text_opt(third)),
            ) + tail@),
        ),
        done is Ok ==> final(inner).text() == old(inner).text() + (lead@ + joined(
            listed(text_opt(first), text_opt(second), text_opt(third)),
        ) + tail@),
{
    let ghost start = inner.text();
    let ghost all = listed(text_opt(first), text_opt(second), text_opt(third));
    let ghost base = start + lead@;
    let ghost mut before: Seq<Seq<char>> = Seq::empty();
    let mut at_first = true;
    let sent = inner.write_str(lead);
    proof {
        assert(all.take(0) =~= before);
        assert(base + joined(before) =~= base);
        lemma_list_bounds(start, lead@, all, 0, tail@, inner.text());
    }
    if sent.is_err() {
        return sent;
    }
    if let Some(part) = first {
        let sent = write_part(inner, part, at_first, Ghost(base), Ghost(before));
        proof {
            before = before.push(part@);
            assert(all.take(before.len() as int) =~= before);
            lemma_list_bounds(start, lead@, all, before.len() as int, tail@, inner.text());
        }
        if sent.is_err() {
            return sent;
        }
        at_first = false;
    }
    if let Some(part) = second {
        let sent = write_part(inner, part, at_first, Ghost(base), Ghost(before));
        proof {
            before = before.push(part@);
            assert(all.take(before.len() as int) =~= before);
            lemma_list_bounds(start, lead@, all, before.len() as int, tail@, inner.text());
        }
        if sent.is_err() {
            return sent;
        }
        at_first = false;
    }
    if let Some(part) = third {
        let sent = write_part(inner, part, at_first, Ghost(base), Ghost(before));
        proof {
            before = before.push(part@);
            assert(all.take(before.len() as int) =~= before);
            lemma_list_bounds(start, lead@, all, before.len() as int, tail@, inner.text());
        }
        if sent.is_err() {
            return sent;
        }
    }
    proof {
        assert(before =~= all);
        assert((base + joined(all)) + tail@ =~= start + (lead@ + joined(all) + tail@));
    }
    inner.write_str(tail)
}

/// Whether an encoding adapter that held `before` and now holds `after` has
/// kept the text that it had handed on.
pub open spec fn keeps_text(before: Encoded, after: Encoded) -> bool {
    before.text.is_prefix_of(after.text)
}

/// Whether an encoding adapter that holds `after` has handed on no more text
/// than one that holds `limit`.
pub open spec fn within_text(after: Encoded, limit: Encoded) -> bool {
    after.text.is_prefix_of(limit.text)
}

} // verus!
