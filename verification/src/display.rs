//! Values that write styled text themselves.

use vstd::prelude::*;

use crate::arguments::{spans, Arguments};
use crate::formatter::Formatter;
use crate::style::Style;
use crate::write::{accept_all, stopped, Error, Span, Write};

verus! {

/// A value that writes styled text into a scope. It writes in the style of
/// the scope or in styles of its own, and leaves the scope as it found it.
///
/// A value does not fail by itself: writing it fails only where the sink
/// refuses a write, and then nothing is written after what was refused.
pub trait Display {
    /// The spans that the value writes while `style` is on.
    spec fn shown(&self, style: Style) -> Seq<Span>;

    /// Writes the value into the scope `f`.
    fn fmt<W: Write>(&self, f: &mut Formatter<'_, W>) -> (done: Result<(), Error>)
        ensures
            final(f).style == old(f).style,
            final(f).format == old(f).format,
            *final(final(f).write) == *final(old(f).write),
            done is Ok ==> final(f).write@ == accept_all::<W>(
                old(f).write@,
                self.shown(old(f).style),
            ),
            done is Err ==> stopped::<W>(
                old(f).write@,
                final(f).write@,
                self.shown(old(f).style),
            ),
            W::keeps(old(f).write@, final(f).write@),
            old(f).write.infallible() ==> done is Ok,
            final(f).write.infallible() == old(f).write.infallible(),
    ;
}

impl<T: Display + ?Sized> Display for &T {
    open spec fn shown(&self, style: Style) -> Seq<Span> {
        (**self).shown(style)
    }

    fn fmt<W: Write>(&self, f: &mut Formatter<'_, W>) -> (done: Result<(), Error>) {
        (**self).fmt(f)
    }
}

impl Display for crate::string::String {
    /// A styled string writes its runs, each in the style that it has in
    /// the string.
    open spec fn shown(&self, style: Style) -> Seq<Span> {
        self@
    }

    fn fmt<W: Write>(&self, f: &mut Formatter<'_, W>) -> (done: Result<(), Error>) {
        f.write_string(self)
    }
}

impl<'a> Display for Arguments<'a> {
    /// A bound template writes its pieces in the style of the scope.
    open spec fn shown(&self, style: Style) -> Seq<Span> {
        spans(self@, style)
    }

    #[inline]
    fn fmt<W: Write>(&self, f: &mut Formatter<'_, W>) -> (done: Result<(), Error>) {
        f.write_fmt(self)
    }
}

} // verus!
