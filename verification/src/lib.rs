//! Styled text formatting: one template language, rendered to terminal escape
//! sequences, to HTML or to plain text.
//!
//! A template such as `"Hello {:(fg=red)}"` is parsed into pieces
//! ([`Format::parse`]), bound to the arguments of a call ([`Format::bind`]),
//! filled with what each placeholder shows ([`Arguments::new`]) and written
//! to a sink of styled text: [`Ansi`], [`Html`], [`Plain`] or a styled
//! [`String`].

use vstd::prelude::*;

pub mod ansi;
pub mod arguments;
pub mod bind;
pub mod display;
pub mod formatter;
pub mod grammar;
pub mod html;
pub mod plain;
pub mod string;
pub mod style;
pub mod template;
pub mod write;

pub use crate::ansi::{Ansi, ToAnsiString};
pub use crate::arguments::{Argument, Arguments, Content};
pub use crate::bind::{BindError, Binding, BoundPiece, Placeholder, Slot};
pub use crate::formatter::{Formatter, FormatterArgs};
pub use crate::display::Display;
pub use crate::html::{Html, ToHtmlString};
pub use crate::plain::{Plain, ToPlainString};
pub use crate::string::{String, ToStylishString};
pub use crate::style::{Background, Color, Foreground, Intensity, Restyle, Style, StyleDiff};
pub use crate::template::{
    Align, Count, DebugHex, Format, FormatArg, FormatArgRef, FormatSpec, FormatTrait, ParseError,
    Piece, Sign,
};
pub use crate::write::{
    Error, Output, Recorded, RecordedSpans, StyledOutput, TextWrite, Write,
};

verus! {

/// Wraps a sink of plain text in the adapter for terminals.
pub fn ansi<T: TextWrite>(inner: T) -> (adapter: Ansi<T>)
    ensures
        adapter@ == (crate::write::Encoded { text: inner.text(), current: Style::plain() }),
        adapter.reliable() == inner.infallible(),
{
    Ansi::new(inner)
}

/// Wraps a sink of plain text in the adapter for HTML.
pub fn html<T: TextWrite>(inner: T) -> (adapter: Html<T>)
    ensures
        adapter@ == (crate::write::Encoded { text: inner.text(), current: Style::plain() }),
        adapter.reliable() == inner.infallible(),
{
    Html::new(inner)
}

/// Wraps a sink of plain text in the adapter that drops the styles.
pub fn plain<T: TextWrite>(inner: T) -> (adapter: Plain<T>)
    ensures
        adapter@ == inner.text(),
        adapter.reliable() == inner.infallible(),
{
    Plain::new(inner)
}

} // verus!
