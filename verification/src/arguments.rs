//! Bound templates: the pieces of a template with the content of each
//! placeholder, ready to be written.

use vstd::prelude::*;

use crate::formatter::FormatterArgs;
use crate::style::{Restyle, Style, StyleDiff};
use crate::write::Span;

verus! {

/// What a placeholder shows.
#[derive(Clone, Copy)]
pub enum Content<'a> {
    /// The text that the host's conversion gave for the value, under the
    /// selector and the flags of the placeholder.
    Text(&'a str),
    /// A styled string, which keeps its own styles.
    Styled(&'a crate::string::String),
    /// A bound template, which is written in the style of the placeholder.
    Nested(&'a Arguments<'a>),
}

/// One piece of a bound template.
pub enum Argument<'a> {
    /// Text that is written as it stands.
    Lit(&'a str),
    /// A placeholder: its flags, its change of style, and what it shows.
    Arg(FormatterArgs, StyleDiff, Content<'a>),
}

/// A bound template.
pub struct Arguments<'a> {
    pub pieces: Vec<Argument<'a>>,
}

/// The mathematical value of a [`Content`].
pub enum ContentView {
    Text(Seq<char>),
    Styled(Seq<Span>),
    Nested(Seq<ArgumentView>),
}

/// The mathematical value of an [`Argument`].
pub enum ArgumentView {
    Lit(Seq<char>),
    Arg(FormatterArgs, StyleDiff, ContentView),
}

/// The mathematical value of a content.
pub open spec fn content_view<'a>(content: Content<'a>) -> ContentView
    decreases content,
{
    match content {
        Content::Text(text) => ContentView::Text(text@),
        Content::Styled(string) => ContentView::Styled(string@),
        Content::Nested(arguments) => ContentView::Nested(pieces_view(arguments.pieces@)),
    }
}

/// The mathematical value of a piece.
pub open spec fn argument_view<'a>(piece: Argument<'a>) -> ArgumentView
    decreases piece,
{
    match piece {
        Argument::Lit(text) => ArgumentView::Lit(text@),
        Argument::Arg(args, style, content) => ArgumentView::Arg(
            args,
            style,
            content_view(content),
        ),
    }
}

/// The mathematical values of pieces.
pub open spec fn pieces_view<'a>(pieces: Seq<Argument<'a>>) -> Seq<ArgumentView>
    decreases pieces,
{
    if pieces.len() == 0 {
        Seq::empty()
    } else {
        pieces_view(pieces.drop_last()).push(argument_view(pieces.last()))
    }
}

impl<'a> View for Content<'a> {
    type V = ContentView;

    open spec fn view(&self) -> ContentView {
        content_view(*self)
    }
}

impl<'a> View for Argument<'a> {
    type V = ArgumentView;

    open spec fn view(&self) -> ArgumentView {
        argument_view(*self)
    }
}

impl<'a> View for Arguments<'a> {
    type V = Seq<ArgumentView>;

    open spec fn view(&self) -> Seq<ArgumentView> {
        pieces_view(self.pieces@)
    }
}

/// The values of pieces are the values of each, in the same order.
pub proof fn lemma_pieces_view<'a>(pieces: Seq<Argument<'a>>)
    ensures
        pieces_view(pieces).len() == pieces.len(),
        forall|i: int| 0 <= i < pieces.len() ==> pieces_view(pieces)[i] == argument_view(pieces[i]),
    decreases pieces.len(),
{
    if pieces.len() > 0 {
        lemma_pieces_view(pieces.drop_last());
    }
}

/// The spans that a content writes when the style `style` is on around it:
/// a text is one span in `style`, a bound template writes its pieces in
/// `style`, and a styled string writes its runs, each in the style that it
/// has in the string.
pub open spec fn content_spans(content: ContentView, style: Style) -> Seq<Span>
    decreases content, 0nat,
{
    match content {
        ContentView::Text(text) => seq![(text, style)],
        ContentView::Styled(runs) => runs,
        ContentView::Nested(pieces) => spans(pieces, style),
    }
}

/// The spans that a piece writes when the style `style` is on around it. A
/// literal is one span in `style`. A placeholder writes its content in
/// `style` changed by its own change of style.
pub open spec fn piece_spans(piece: ArgumentView, style: Style) -> Seq<Span>
    decreases piece, 1nat,
{
    match piece {
        ArgumentView::Lit(text) => seq![(text, style)],
        ArgumentView::Arg(_, change, content) => content_spans(content, change.restyled(style)),
    }
}

/// The spans that pieces write, one piece after the other, when the style
/// `style` is on around them.
pub open spec fn spans(pieces: Seq<ArgumentView>, style: Style) -> Seq<Span>
    decreases pieces, 2nat,
{
    if pieces.len() == 0 {
        Seq::empty()
    } else {
        spans(pieces.drop_last(), style) + piece_spans(pieces.last(), style)
    }
}

} // verus!
