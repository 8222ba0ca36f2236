//! The render engine: it walks a bound template and writes its spans.

use vstd::prelude::*;

use crate::arguments::{
    argument_view, content_spans, lemma_pieces_view, piece_spans, spans, Argument, ArgumentView,
    Arguments, Content,
};
use crate::style::{Restyle, Style};
use crate::template::{Align, DebugHex, Sign};
use crate::write::{accept_all, stopped, stopped_in, Error, Span, Write};

verus! {

/// The flags under which a value is shown, with width and precision as
/// numbers.
#[derive(Clone, Copy, Debug, PartialEq, Eq, Structural)]
pub struct FormatterArgs {
    pub align: Option<Align>,
    pub sign: Option<Sign>,
    pub alternate: bool,
    pub zero: bool,
    pub width: Option<usize>,
    pub precision: Option<usize>,
    pub debug_hex: Option<DebugHex>,
}

impl FormatterArgs {
    /// No flag set.
    pub open spec fn none() -> FormatterArgs {
        FormatterArgs {
            align: None,
            sign: None,
            alternate: false,
            zero: false,
            width: None,
            precision: None,
            debug_hex: None,
        }
    }
}

impl Default for FormatterArgs {
    fn default() -> (out: Self)
        ensures
            out == FormatterArgs::none(),
    {
        FormatterArgs {
            align: None,
            sign: None,
            alternate: false,
            zero: false,
            width: None,
            precision: None,
            debug_hex: None,
        }
    }
}

/// A sink that takes spans one after the other holds in the end what it
/// holds when it takes them all at once.
pub proof fn lemma_accept_all_concat<W: Write>(before: W::V, first: Seq<Span>, second: Seq<Span>)
    ensures
        accept_all::<W>(before, first + second) == accept_all::<W>(
            accept_all::<W>(before, first),
            second,
        ),
    decreases second.len(),
{
    if second.len() == 0 {
        assert(first + second =~= first);
    } else {
        lemma_accept_all_concat::<W>(before, first, second.drop_last());
        assert((first + second).drop_last() =~= first + second.drop_last());
    }
}

/// A sink that takes one span holds what `accept` says.
pub proof fn lemma_accept_all_one<W: Write>(before: W::V, text: Seq<char>, style: Style)
    ensures
        accept_all::<W>(before, seq![(text, style)]) == W::accept(before, text, style),
{
    let one = seq![(text, style)];
    assert(one.drop_last() =~= Seq::<Span>::empty());
    assert(accept_all::<W>(before, one.drop_last()) == before);
}

/// The spans of the first pieces are the first spans of all the pieces.
pub proof fn lemma_spans_prefix(pieces: Seq<ArgumentView>, i: int, style: Style)
    requires
        0 <= i <= pieces.len(),
    ensures
        spans(pieces.take(i), style).is_prefix_of(spans(pieces, style)),
    decreases pieces.len() - i,
{
    let some = spans(pieces.take(i), style);
    if i == pieces.len() {
        assert(pieces.take(i) =~= pieces);
        assert(some.subrange(0, some.len() as int) =~= some);
    } else {
        let more = spans(pieces.take(i + 1), style);
        assert(pieces.take(i + 1).drop_last() =~= pieces.take(i));
        assert(more.subrange(0, some.len() as int) =~= some);
        lemma_spans_prefix(pieces, i + 1, style);
        let all = spans(pieces, style);
        assert(all.subrange(0, more.len() as int) =~= more);
        assert(all.subrange(0, some.len() as int) =~= more.subrange(0, some.len() as int));
    }
}

/// A sink that failed to take one span stopped in that span.
pub proof fn lemma_stopped_in_one<W: Write>(
    before: W::V,
    after: W::V,
    text: Seq<char>,
    style: Style,
)
    requires
        W::keeps(before, after),
        W::within(after, W::accept(before, text, style)),
    ensures
        stopped_in::<W>(before, after, seq![(text, style)], 0),
{
    let one = seq![(text, style)];
    lemma_accept_all_one::<W>(before, text, style);
    assert(one.take(0) =~= Seq::<Span>::empty());
    assert(one.take(1) =~= one);
}

/// A sink that had taken the spans `done` and then stopped in the span `k`
/// of `more` stopped in the span of `all` that this one is, if `all` begins
/// with `done` and `more`.
pub proof fn lemma_stopped_later<W: Write>(
    start: W::V,
    done: Seq<Span>,
    more: Seq<Span>,
    all: Seq<Span>,
    after: W::V,
    k: int,
)
    requires
        (done + more).is_prefix_of(all),
        stopped_in::<W>(accept_all::<W>(start, done), after, more, k),
    ensures
        stopped_in::<W>(start, after, all, done.len() + k),
{
    let both = done + more;
    assert(all.subrange(0, both.len() as int) =~= both);
    assert(all.take(done.len() + k) =~= done + more.take(k));
    assert(all.take(done.len() + k + 1) =~= done + more.take(k + 1));
    lemma_accept_all_concat::<W>(start, done, more.take(k));
    lemma_accept_all_concat::<W>(start, done, more.take(k + 1));
}

/// The scope in which text is written: the style that is on, the flags of
/// the placeholder that is being shown, and the sink that takes the text.
/// Child scopes write to the same sink in a style derived from their
/// parent's.
///
/// The contracts below speak of the sink in two ways. `scope.write@` is what
/// the sink holds at that moment. `*final(scope.write)` is the sink as the
/// scope leaves it when it is done; that a method keeps it the same says
/// that the scope still writes to the sink that it was made for.
pub struct Formatter<'a, W: Write> {
    pub style: Style,
    pub format: FormatterArgs,
    pub write: &'a mut W,
}

impl<'a, W: Write> Formatter<'a, W> {
    /// The outermost scope on a sink: plain style, no flags.
    pub fn new(write: &'a mut W) -> (formatter: Self)
        ensures
            formatter.style == Style::plain(),
            formatter.format == FormatterArgs::none(),
            *formatter.write == *old(write),
            *final(formatter.write) == *final(write),
    {
        Formatter { style: Style::default(), format: FormatterArgs::default(), write }
    }

    /// A child scope with the same flags, in this scope's style changed by
    /// `restyle`. This scope goes on where the child stops.
    pub fn with<R: Restyle>(&mut self, restyle: R) -> (child: Formatter<'_, W>)
        ensures
            child.style == old(self).style.spec_with(restyle),
            child.format == old(self).format,
            *child.write == *old(self).write,
            final(self).style == old(self).style,
            final(self).format == old(self).format,
            *final(self).write == *final(child.write),
            *final(final(self).write) == *final(old(self).write),
    {
        Formatter { write: &mut *self.write, format: self.format, style: self.style.with(restyle) }
    }

    /// A child scope with the flags `format`, in this scope's style changed
    /// by `restyle`. This scope goes on where the child stops.
    pub fn with_args<'b, R: Restyle>(&'b mut self, format: &FormatterArgs, restyle: R) -> (child:
        Formatter<'b, W>)
        ensures
            child.style == old(self).style.spec_with(restyle),
            child.format == *format,
            *child.write == *old(self).write,
            final(self).style == old(self).style,
            final(self).format == old(self).format,
            *final(self).write == *final(child.write),
            *final(final(self).write) == *final(old(self).write),
    {
        Formatter { write: &mut *self.write, format: *format, style: self.style.with(restyle) }
    }

    /// Writes `s` in the style of this scope.
    #[inline]
    pub fn write_str(&mut self, s: &str) -> (done: Result<(), Error>)
        ensures
            final(self).style == old(self).style,
            final(self).format == old(self).format,
            *final(final(self).write) == *final(old(self).write),
            done is Ok ==> final(self).write@ == W::accept(
                old(self).write@,
                s@,
                old(self).style,
            ),
            W::keeps(old(self).write@, final(self).write@),
            W::within(final(self).write@, W::accept(old(self).write@, s@, old(self).style)),
            old(self).write.infallible() ==> done is Ok,
            final(self).write.infallible() == old(self).write.infallible(),
    {
        self.write.write_str(s, self.style)
    }

    /// Writes the character `c` in the style of this scope.
    pub fn write_char(&mut self, c: char) -> (done: Result<(), Error>)
        ensures
            final(self).style == old(self).style,
            final(self).format == old(self).format,
            *final(final(self).write) == *final(old(self).write),
            done is Ok ==> final(self).write@ == W::accept(
                old(self).write@,
                seq![c],
                old(self).style,
            ),
            W::keeps(old(self).write@, final(self).write@),
            W::within(
                final(self).write@,
                W::accept(old(self).write@, seq![c], old(self).style),
            ),
            old(self).write.infallible() ==> done is Ok,
            final(self).write.infallible() == old(self).write.infallible(),
    {
        self.write.write_char(c, self.style)
    }

    /// Writes the runs of a styled string, each in its own style. The first
    /// write that fails ends it: the runs after that one are not written.
    pub fn write_string(&mut self, string: &crate::string::String) -> (done: Result<(), Error>)
        ensures
            final(self).style == old(self).style,
            final(self).format == old(self).format,
            *final(final(self).write) == *final(old(self).write),
            done is Ok ==> final(self).write@ == accept_all::<W>(old(self).write@, string@),
            done is Err ==> stopped::<W>(old(self).write@, final(self).write@, string@),
            string@.len() == 0 ==> done is Ok,
            W::keeps(old(self).write@, final(self).write@),
            old(self).write.infallible() ==> done is Ok,
            final(self).write.infallible() == old(self).write.infallible(),
    {
        let ghost start = self.write@;
        let n = string.len();
        let mut i: usize = 0;
        proof {
            W::lemma_keeps(start, start, start);
        }
        while i < n
            invariant
                i <= n,
                n == string@.len(),
                self.style == old(self).style,
                self.format == old(self).format,
                *final(self.write) == *final(old(self).write),
                self.write.infallible() == old(self).write.infallible(),
                self.write@ == accept_all::<W>(start, string@.take(i as int)),
                start == old(self).write@,
                W::keeps(start, self.write@),
            decreases n - i,
        {
            let ghost here = self.write@;
            proof {
                assert(string@.take(i + 1).drop_last() =~= string@.take(i as int));
            }
            if let Some((text, style)) = string.run(i) {
                let mut run = self.with(style);
                let done = run.write_str(text);
                proof {
                    W::lemma_keeps(start, here, self.write@);
                }
                if done.is_err() {
                    proof {
                        let first = string@.take(i as int);
                        let this = seq![(text@, style)];
                        assert(first + this =~= string@.take(i + 1));
                        assert(string@.subrange(0, i + 1) =~= string@.take(i + 1));
                        lemma_stopped_in_one::<W>(here, self.write@, text@, style);
                        lemma_stopped_later::<W>(start, first, this, string@, self.write@, 0);
                        assert(stopped_in::<W>(start, self.write@, string@, i as int));
                    }
                    return done;
                }
            }
            i += 1;
        }
        assert(string@.take(n as int) =~= string@);
        Ok(())
    }

    /// Writes what a placeholder shows, in the style of this scope.
    fn write_content(&mut self, content: &Content<'_>) -> (done: Result<(), Error>)
        ensures
            final(self).style == old(self).style,
            final(self).format == old(self).format,
            *final(final(self).write) == *final(old(self).write),
            done is Ok ==> final(self).write@ == accept_all::<W>(
                old(self).write@,
                content_spans(content@, old(self).style),
            ),
            done is Err ==> stopped::<W>(
                old(self).write@,
                final(self).write@,
                content_spans(content@, old(self).style),
            ),
            W::keeps(old(self).write@, final(self).write@),
            old(self).write.infallible() ==> done is Ok,
            final(self).write.infallible() == old(self).write.infallible(),
        decreases content, 0nat,
    {
        match content {
            Content::Text(text) => {
                let ghost before = self.write@;
                proof {
                    lemma_accept_all_one::<W>(before, text@, self.style);
                }
                let done = self.write_str(text);
                proof {
                    if done is Err {
                        lemma_stopped_in_one::<W>(before, self.write@, text@, self.style);
                    }
                }
                done
            },
            Content::Styled(string) => self.write_string(string),
            Content::Nested(arguments) => self.write_fmt(arguments),
        }
    }

    /// Writes a bound template: its pieces in their order, literals in the
    /// style of this scope, and each placeholder in a child scope with its
    /// flags and its change of style. The first write that fails ends it:
    /// what was written before stays written, of the span that failed the
    /// sink has what it took, and nothing of what comes after is written.
    pub fn write_fmt(&mut self, args: &Arguments<'_>) -> (done: Result<(), Error>)
        ensures
            final(self).style == old(self).style,
            final(self).format == old(self).format,
            *final(final(self).write) == *final(old(self).write),
            done is Ok ==> final(self).write@ == accept_all::<W>(
                old(self).write@,
                spans(args@, old(self).style),
            ),
            done is Err ==> stopped::<W>(
                old(self).write@,
                final(self).write@,
                spans(args@, old(self).style),
            ),
            spans(args@, old(self).style).len() == 0 ==> done is Ok,
            W::keeps(old(self).write@, final(self).write@),
            old(self).write.infallible() ==> done is Ok,
            final(self).write.infallible() == old(self).write.infallible(),
        decreases args, 1nat,
    {
        let ghost start = self.write@;
        let ghost style = self.style;
        let n = args.pieces.len();
        let mut i: usize = 0;
        proof {
            lemma_pieces_view(args.pieces@);
            W::lemma_keeps(start, start, start);
        }
        while i < n
            invariant
                i <= n,
                n == args.pieces@.len(),
                args@.len() == n,
                forall|k: int| 0 <= k < n ==> args@[k] == argument_view(args.pieces@[k]),
                self.style == old(self).style,
                self.style == style,
                self.format == old(self).format,
                *final(self.write) == *final(old(self).write),
                self.write.infallible() == old(self).write.infallible(),
                self.write@ == accept_all::<W>(start, spans(args@.take(i as int), style)),
                start == old(self).write@,
                W::keeps(start, self.write@),
            decreases n - i,
        {
            let ghost before = self.write@;
            let ghost done_spans = spans(args@.take(i as int), style);
            let ghost piece = args@[i as int];
            proof {
                assert(args@.take(i + 1).drop_last() =~= args@.take(i as int));
                assert(args@.take(i + 1).last() == piece);
                assert(spans(args@.take(i + 1), style) == done_spans + piece_spans(piece, style));
                lemma_accept_all_concat::<W>(start, done_spans, piece_spans(piece, style));
                lemma_spans_prefix(args@, i + 1, style);
            }
            match &args.pieces[i] {
                Argument::Lit(text) => {
                    proof {
                        lemma_accept_all_one::<W>(before, text@, style);
                    }
                    let done = self.write_str(text);
                    proof {
                        W::lemma_keeps(start, before, self.write@);
                    }
                    if done.is_err() {
                        proof {
                            lemma_stopped_in_one::<W>(before, self.write@, text@, style);
                            lemma_stopped_later::<W>(
                                start,
                                done_spans,
                                piece_spans(piece, style),
                                spans(args@, style),
                                self.write@,
                                0,
                            );
                        }
                        return done;
                    }
                },
                Argument::Arg(format, change, content) => {
                    let mut child = self.with_args(format, *change);
                    let done = child.write_content(content);
                    proof {
                        W::lemma_keeps(start, before, self.write@);
                    }
                    if done.is_err() {
                        proof {
                            let shown = piece_spans(piece, style);
                            let k = choose|k: int| #[trigger]
                                stopped_in::<W>(before, self.write@, shown, k);
                            lemma_stopped_later::<W>(
                                start,
                                done_spans,
                                shown,
                                spans(args@, style),
                                self.write@,
                                k,
                            );
                        }
                        return done;
                    }
                },
            }
            i += 1;
        }
        assert(args@.take(n as int) =~= args@);
        Ok(())
    }
}

/// What a scope is as a sink: its style, its flags, and what its sink holds.
pub struct Scope<V> {
    pub style: Style,
    pub format: FormatterArgs,
    pub sink: V,
}

impl<'a, W: Write> View for Formatter<'a, W> {
    type V = Scope<W::V>;

    open spec fn view(&self) -> Scope<W::V> {
        Scope { style: self.style, format: self.format, sink: self.write@ }
    }
}

impl<'a, W: Write> Write for Formatter<'a, W> {
    open spec fn infallible(&self) -> bool {
        self.write.infallible()
    }

    /// As a sink a scope hands the span to its own sink, in the style that
    /// the span has, and keeps its own style and flags.
    open spec fn accept(before: Scope<W::V>, text: Seq<char>, style: Style) -> Scope<W::V> {
        Scope { sink: W::accept(before.sink, text, style), ..before }
    }

    open spec fn keeps(before: Scope<W::V>, after: Scope<W::V>) -> bool {
        &&& after.style == before.style
        &&& after.format == before.format
        &&& W::keeps(before.sink, after.sink)
    }

    proof fn lemma_keeps(first: Scope<W::V>, second: Scope<W::V>, third: Scope<W::V>) {
        W::lemma_keeps(first.sink, second.sink, third.sink);
    }

    open spec fn within(after: Scope<W::V>, limit: Scope<W::V>) -> bool {
        W::within(after.sink, limit.sink)
    }

    /// As a sink a scope writes in the style that it is given, whatever its
    /// own style is. Its own style and flags stay as they are.
    #[inline]
    fn write_str(&mut self, s: &str, style: Style) -> (done: Result<(), Error>) {
        let mut scope = self.with(style);
        scope.write_str(s)
    }
}

} // verus!
