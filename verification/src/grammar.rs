//! The grammar of templates, as specification functions over `Seq<char>`.
//!
//! Every function here reads the template `s` from the position `pos` and
//! says what stands there and where it ends. Alternatives are tried in the
//! order in which they are written, and the first that fits decides.

use vstd::prelude::*;

use crate::style::{Color, Intensity, Style, StyleDiff};
use crate::template::{
    Align, ArgRefView, CountView, DebugHex, FormatArgView, FormatSpecView, FormatTrait,
    FormatterArgsView, ParseError, PieceView, Sign,
};

verus! {

/// Whether the character has the Unicode property XID_Start.
pub uninterp spec fn xid_start(c: char) -> bool;

/// Whether the character has the Unicode property XID_Continue.
pub uninterp spec fn xid_continue(c: char) -> bool;

/// `unicode_ident::is_xid_start` looks the character up in the crate's table
/// of the XID_Start property; the table is not restated here, so the result
/// is known by its name only.
pub assume_specification[ unicode_ident::is_xid_start ](ch: char) -> (known: bool)
    ensures
        known == xid_start(ch),
;

/// `unicode_ident::is_xid_continue` looks the character up in the crate's
/// table of the XID_Continue property; the result is known by its name only.
pub assume_specification[ unicode_ident::is_xid_continue ](ch: char) -> (known: bool)
    ensures
        known == xid_continue(ch),
;

/// Whether `word` stands in `s` at `pos`.
pub open spec fn starts_with(s: Seq<char>, pos: int, word: Seq<char>) -> bool {
    0 <= pos && pos + word.len() <= s.len() && s.subrange(pos, pos + word.len()) == word
}

/// Whether the character `c` stands in `s` at `pos`.
pub open spec fn char_at(s: Seq<char>, pos: int, c: char) -> bool {
    0 <= pos < s.len() && s[pos] == c
}

/// The classes of characters of which the grammar reads whole runs.
pub enum CharClass {
    /// Anything but a brace.
    Text,
    /// A decimal digit.
    Digit,
    /// A character with the Unicode property XID_Continue.
    Continue,
}

impl CharClass {
    /// Whether `c` belongs to the class.
    pub open spec fn has(self, c: char) -> bool {
        match self {
            CharClass::Text => c != '{' && c != '}',
            CharClass::Digit => '0' <= c && c <= '9',
            CharClass::Continue => xid_continue(c),
        }
    }
}

/// Where the longest run of characters of `class` that starts at `pos` ends.
pub open spec fn run_end(s: Seq<char>, pos: int, class: CharClass) -> int
    decreases s.len() - pos,
{
    if 0 <= pos < s.len() && class.has(s[pos]) {
        run_end(s, pos + 1, class)
    } else {
        pos
    }
}

/// What a decimal digit counts for.
pub open spec fn digit_value(c: char) -> nat {
    (c as u32 - '0' as u32) as nat
}

/// The number that a string of decimal digits denotes.
pub open spec fn decimal_value(digits: Seq<char>) -> nat
    decreases digits.len(),
{
    if digits.len() == 0 {
        0
    } else {
        decimal_value(digits.drop_last()) * 10 + digit_value(digits.last())
    }
}

/// A colour name.
pub open spec fn color_at(s: Seq<char>, pos: int) -> Option<(Color, int)> {
    if starts_with(s, pos, "black"@) {
        Some((Color::Black, pos + "black"@.len()))
    } else if starts_with(s, pos, "red"@) {
        Some((Color::Red, pos + "red"@.len()))
    } else if starts_with(s, pos, "green"@) {
        Some((Color::Green, pos + "green"@.len()))
    } else if starts_with(s, pos, "yellow"@) {
        Some((Color::Yellow, pos + "yellow"@.len()))
    } else if starts_with(s, pos, "blue"@) {
        Some((Color::Blue, pos + "blue"@.len()))
    } else if starts_with(s, pos, "magenta"@) {
        Some((Color::Magenta, pos + "magenta"@.len()))
    } else if starts_with(s, pos, "cyan"@) {
        Some((Color::Cyan, pos + "cyan"@.len()))
    } else if starts_with(s, pos, "white"@) {
        Some((Color::White, pos + "white"@.len()))
    } else if starts_with(s, pos, "default"@) {
        Some((Color::Default, pos + "default"@.len()))
    } else {
        None
    }
}

/// An intensity name.
pub open spec fn intensity_at(s: Seq<char>, pos: int) -> Option<(Intensity, int)> {
    if starts_with(s, pos, "normal"@) {
        Some((Intensity::Normal, pos + "normal"@.len()))
    } else if starts_with(s, pos, "bold"@) {
        Some((Intensity::Bold, pos + "bold"@.len()))
    } else if starts_with(s, pos, "faint"@) {
        Some((Intensity::Faint, pos + "faint"@.len()))
    } else {
        None
    }
}

/// `=` and a colour name, as they must follow `fg` or `bg`.
pub open spec fn assigned_color_at(s: Seq<char>, pos: int) -> Option<(Color, int)> {
    if char_at(s, pos, '=') {
        color_at(s, pos + 1)
    } else {
        None
    }
}

/// One style directive, applied to `style`: `fg=<color>`, `bg=<color>` or an
/// intensity name. `Ok(None)` where no directive starts at `pos`; an error
/// where `fg` or `bg` starts one that does not go on as it must.
pub open spec fn restyle_at(s: Seq<char>, pos: int, style: Style) -> Result<
    Option<(Style, int)>,
    ParseError,
> {
    if starts_with(s, pos, "fg"@) {
        match assigned_color_at(s, pos + "fg"@.len()) {
            Some((color, end)) => Ok(Some((Style { foreground: color, ..style }, end))),
            None => Err(ParseError::UnknownRestyle),
        }
    } else if starts_with(s, pos, "bg"@) {
        match assigned_color_at(s, pos + "bg"@.len()) {
            Some((color, end)) => Ok(Some((Style { background: color, ..style }, end))),
            None => Err(ParseError::UnknownRestyle),
        }
    } else {
        match intensity_at(s, pos) {
            Some((intensity, end)) => Ok(Some((Style { intensity, ..style }, end))),
            None => Ok(None),
        }
    }
}

/// One or more style directives with commas between them, applied to `style`
/// from left to right. After an opening parenthesis or a comma a directive
/// must follow.
pub open spec fn restyle_list_at(s: Seq<char>, pos: int, style: Style) -> Result<
    (Style, int),
    ParseError,
>
    decreases s.len() - pos,
{
    match restyle_at(s, pos, style) {
        Err(error) => Err(error),
        Ok(None) => Err(ParseError::UnknownRestyle),
        Ok(Some((next, end))) => {
            if char_at(s, end, ',') {
                proof {
                    lemma_restyle_bounds(s, pos, style);
                }
                restyle_list_at(s, end + 1, next)
            } else {
                Ok((next, end))
            }
        },
    }
}

/// The style directives of a placeholder: a list in parentheses, or nothing.
/// What the list makes of the plain style, taken as a difference from the
/// plain style, is the placeholder's change of style: a directive that sets a
/// field to its default changes nothing. A list that no `)` follows is not
/// read as one.
pub open spec fn style_at(s: Seq<char>, pos: int) -> Result<(StyleDiff, int), ParseError> {
    if char_at(s, pos, '(') {
        match restyle_list_at(s, pos + 1, Style::plain()) {
            Err(error) => Err(error),
            Ok((style, end)) => {
                if char_at(s, end, ')') {
                    Ok((style.spec_diff_from(Style::plain()), end + 1))
                } else {
                    Ok((StyleDiff::none(), pos))
                }
            },
        }
    } else {
        Ok((StyleDiff::none(), pos))
    }
}

/// A decimal number that fits in `usize`.
pub open spec fn number_at(s: Seq<char>, pos: int) -> Option<(usize, int)> {
    let end = run_end(s, pos, CharClass::Digit);
    let value = decimal_value(s.subrange(pos, end));
    if 0 <= pos < end && value <= usize::MAX {
        Some((value as usize, end))
    } else {
        None
    }
}

/// An identifier: a character of XID_Start or `_`, then characters of
/// XID_Continue as far as they go. The result is where it ends.
pub open spec fn identifier_at(s: Seq<char>, pos: int) -> Option<int> {
    if 0 <= pos < s.len() && (xid_start(s[pos]) || s[pos] == '_') {
        Some(run_end(s, pos + 1, CharClass::Continue))
    } else {
        None
    }
}

/// A reference to an argument: by number or by name.
pub open spec fn arg_ref_at(s: Seq<char>, pos: int) -> Option<(ArgRefView, int)> {
    match number_at(s, pos) {
        Some((index, end)) => Some((ArgRefView::Positional(index), end)),
        None => match identifier_at(s, pos) {
            Some(end) => Some((ArgRefView::Named(s.subrange(pos, end)), end)),
            None => None,
        },
    }
}

/// A width or precision: a reference to an argument followed by `$`, or a
/// number.
pub open spec fn count_at(s: Seq<char>, pos: int) -> Option<(CountView, int)> {
    match arg_ref_at(s, pos) {
        Some((arg, end)) if char_at(s, end, '$') => Some((CountView::Parameter(arg), end + 1)),
        _ => match number_at(s, pos) {
            Some((n, end)) => Some((CountView::Integer(n), end)),
            None => None,
        },
    }
}

/// The alignment that a character stands for.
pub open spec fn align_of(c: char) -> Option<Align> {
    if c == '<' {
        Some(Align::Left)
    } else if c == '^' {
        Some(Align::Center)
    } else if c == '>' {
        Some(Align::Right)
    } else {
        None
    }
}

/// An optional alignment, which a fill character may precede. Any character
/// before an alignment character is taken as the fill, and only a space is
/// accepted there.
pub open spec fn align_at(s: Seq<char>, pos: int) -> Result<(Option<Align>, int), ParseError> {
    if 0 <= pos && pos + 1 < s.len() && align_of(s[pos + 1]) is Some {
        if s[pos] == ' ' {
            Ok((align_of(s[pos + 1]), pos + 2))
        } else {
            Err(ParseError::UnsupportedFill)
        }
    } else if 0 <= pos < s.len() && align_of(s[pos]) is Some {
        Ok((align_of(s[pos]), pos + 1))
    } else {
        Ok((None, pos))
    }
}

/// An optional sign flag.
pub open spec fn sign_at(s: Seq<char>, pos: int) -> (Option<Sign>, int) {
    if char_at(s, pos, '+') {
        (Some(Sign::Plus), pos + 1)
    } else if char_at(s, pos, '-') {
        (Some(Sign::Minus), pos + 1)
    } else {
        (None, pos)
    }
}

/// An optional flag that is a single character.
pub open spec fn flag_at(s: Seq<char>, pos: int, c: char) -> (bool, int) {
    if char_at(s, pos, c) {
        (true, pos + 1)
    } else {
        (false, pos)
    }
}

/// An optional width.
pub open spec fn width_at(s: Seq<char>, pos: int) -> (Option<CountView>, int) {
    match count_at(s, pos) {
        Some((count, end)) => (Some(count), end),
        None => (None, pos),
    }
}

/// An optional precision: `.` and a count.
pub open spec fn precision_at(s: Seq<char>, pos: int) -> (Option<CountView>, int) {
    if char_at(s, pos, '.') {
        match count_at(s, pos + 1) {
            Some((count, end)) => (Some(count), end),
            None => (None, pos),
        }
    } else {
        (None, pos)
    }
}

/// The selector of the rendering, with the hexadecimal variant of the debug
/// rendering; plain display where none is written.
pub open spec fn format_trait_at(s: Seq<char>, pos: int) -> (Option<DebugHex>, FormatTrait, int) {
    if char_at(s, pos, '?') {
        (None, FormatTrait::Debug, pos + 1)
    } else if char_at(s, pos, 'x') && char_at(s, pos + 1, '?') {
        (Some(DebugHex::Lower), FormatTrait::Debug, pos + 2)
    } else if char_at(s, pos, 'X') && char_at(s, pos + 1, '?') {
        (Some(DebugHex::Upper), FormatTrait::Debug, pos + 2)
    } else if char_at(s, pos, 'o') {
        (None, FormatTrait::Octal, pos + 1)
    } else if char_at(s, pos, 'x') {
        (None, FormatTrait::LowerHex, pos + 1)
    } else if char_at(s, pos, 'X') {
        (None, FormatTrait::UpperHex, pos + 1)
    } else if char_at(s, pos, 'p') {
        (None, FormatTrait::Pointer, pos + 1)
    } else if char_at(s, pos, 'b') {
        (None, FormatTrait::Binary, pos + 1)
    } else if char_at(s, pos, 'e') {
        (None, FormatTrait::LowerExp, pos + 1)
    } else if char_at(s, pos, 'E') {
        (None, FormatTrait::UpperExp, pos + 1)
    } else if char_at(s, pos, 's') {
        (None, FormatTrait::Stylish, pos + 1)
    } else {
        (None, FormatTrait::Display, pos)
    }
}

/// What may stand after the colon of a placeholder, each part optional:
/// alignment, sign, `#`, `0`, width, precision, style directives, selector.
pub open spec fn format_spec_at(s: Seq<char>, pos: int) -> Result<
    (FormatSpecView, int),
    ParseError,
> {
    match align_at(s, pos) {
        Err(error) => Err(error),
        Ok((align, after_align)) => {
            let (sign, after_sign) = sign_at(s, after_align);
            let (alternate, after_alternate) = flag_at(s, after_sign, '#');
            let (zero, after_zero) = flag_at(s, after_alternate, '0');
            let (width, after_width) = width_at(s, after_zero);
            let (precision, after_precision) = precision_at(s, after_width);
            match style_at(s, after_precision) {
                Err(error) => Err(error),
                Ok((style, after_style)) => {
                    let (debug_hex, format_trait, end) = format_trait_at(s, after_style);
                    Ok(
                        (
                            FormatSpecView {
                                formatter_args: FormatterArgsView {
                                    align,
                                    sign,
                                    alternate,
                                    zero,
                                    width,
                                    precision,
                                    debug_hex,
                                },
                                style,
                                format_trait,
                            },
                            end,
                        ),
                    )
                },
            }
        },
    }
}

/// The inside of a placeholder: an optional reference to an argument, then an
/// optional colon with what follows it.
pub open spec fn format_arg_at(s: Seq<char>, pos: int) -> Result<(FormatArgView, int), ParseError> {
    let (arg, after_ref) = match arg_ref_at(s, pos) {
        Some((arg, end)) => (Some(arg), end),
        None => (None, pos),
    };
    if char_at(s, after_ref, ':') {
        match format_spec_at(s, after_ref + 1) {
            Err(error) => Err(error),
            Ok((format_spec, end)) => Ok((FormatArgView { arg, format_spec }, end)),
        }
    } else {
        Ok((FormatArgView { arg, format_spec: FormatSpecView::none() }, after_ref))
    }
}

/// The piece that starts at `pos`, which lies inside `s`: a run of text
/// without braces, as long as it goes; a doubled brace, which stands for one;
/// or a placeholder in braces.
pub open spec fn piece_at(s: Seq<char>, pos: int) -> Result<(PieceView, int), ParseError> {
    if CharClass::Text.has(s[pos]) {
        let end = run_end(s, pos, CharClass::Text);
        Ok((PieceView::Lit(s.subrange(pos, end)), end))
    } else if starts_with(s, pos, "{{"@) {
        Ok((PieceView::Lit("{"@), pos + "{{"@.len()))
    } else if starts_with(s, pos, "}}"@) {
        Ok((PieceView::Lit("}"@), pos + "}}"@.len()))
    } else if s[pos] == '{' {
        match format_arg_at(s, pos + 1) {
            Err(error) => Err(error),
            Ok((arg, end)) => {
                if end >= s.len() {
                    Err(ParseError::Unterminated)
                } else if s[end] == '}' {
                    Ok((PieceView::Arg(arg), end + 1))
                } else {
                    Err(ParseError::Malformed)
                }
            },
        }
    } else {
        Err(ParseError::Malformed)
    }
}

/// The pieces of `s` from `pos` to its end.
pub open spec fn pieces_from(s: Seq<char>, pos: int) -> Result<Seq<PieceView>, ParseError>
    decreases s.len() - pos,
{
    if pos < 0 || pos >= s.len() {
        Ok(Seq::empty())
    } else {
        match piece_at(s, pos) {
            Err(error) => Err(error),
            Ok((piece, end)) => {
                proof {
                    lemma_piece_bounds(s, pos);
                }
                match pieces_from(s, end) {
                    Err(error) => Err(error),
                    Ok(rest) => Ok(seq![piece] + rest),
                }
            },
        }
    }
}

/// What a template means: its pieces, or why it has none.
pub open spec fn parsed(s: Seq<char>) -> Result<Seq<PieceView>, ParseError> {
    pieces_from(s, 0)
}

/// A run ends at or after its start and inside the template, holds nothing
/// but characters of its class, and stops only where the template ends or
/// another character stands.
pub proof fn lemma_run_end(s: Seq<char>, pos: int, class: CharClass)
    requires
        0 <= pos <= s.len(),
    ensures
        pos <= run_end(s, pos, class) <= s.len(),
        forall|i: int| pos <= i < run_end(s, pos, class) ==> class.has(#[trigger] s[i]),
        run_end(s, pos, class) < s.len() ==> !class.has(s[run_end(s, pos, class)]),
    decreases s.len() - pos,
{
    if pos < s.len() && class.has(s[pos]) {
        lemma_run_end(s, pos + 1, class);
    }
}

/// A style directive ends at or after its start and inside the template.
pub proof fn lemma_restyle_bounds(s: Seq<char>, pos: int, style: Style)
    requires
        0 <= pos <= s.len(),
    ensures
        restyle_at(s, pos, style) matches Ok(Some((_, end))) ==> pos <= end <= s.len(),
{
}

/// A list of style directives ends at or after its start and inside the
/// template.
pub proof fn lemma_restyle_list_bounds(s: Seq<char>, pos: int, style: Style)
    requires
        0 <= pos <= s.len(),
    ensures
        restyle_list_at(s, pos, style) matches Ok((_, end)) ==> pos <= end <= s.len(),
    decreases s.len() - pos,
{
    lemma_restyle_bounds(s, pos, style);
    if let Ok(Some((next, end))) = restyle_at(s, pos, style) {
        if char_at(s, end, ',') {
            lemma_restyle_list_bounds(s, end + 1, next);
        }
    }
}

/// A reference to an argument ends after its start and inside the template.
pub proof fn lemma_arg_ref_bounds(s: Seq<char>, pos: int)
    requires
        0 <= pos <= s.len(),
    ensures
        arg_ref_at(s, pos) matches Some((_, end)) ==> pos < end <= s.len(),
{
    lemma_run_end(s, pos, CharClass::Digit);
    if pos < s.len() {
        lemma_run_end(s, pos + 1, CharClass::Continue);
    }
}

/// A count ends after its start and inside the template.
pub proof fn lemma_count_bounds(s: Seq<char>, pos: int)
    requires
        0 <= pos <= s.len(),
    ensures
        count_at(s, pos) matches Some((_, end)) ==> pos < end <= s.len(),
{
    lemma_arg_ref_bounds(s, pos);
    lemma_run_end(s, pos, CharClass::Digit);
}

/// What follows a colon ends at or after its start and inside the template.
pub proof fn lemma_format_spec_bounds(s: Seq<char>, pos: int)
    requires
        0 <= pos <= s.len(),
    ensures
        format_spec_at(s, pos) matches Ok((_, end)) ==> pos <= end <= s.len(),
{
    if let Ok((_, after_align)) = align_at(s, pos) {
        let (_, after_sign) = sign_at(s, after_align);
        let (_, after_alternate) = flag_at(s, after_sign, '#');
        let (_, after_zero) = flag_at(s, after_alternate, '0');
        lemma_count_bounds(s, after_zero);
        let (_, after_width) = width_at(s, after_zero);
        if after_width < s.len() {
            lemma_count_bounds(s, after_width + 1);
        }
        let (_, after_precision) = precision_at(s, after_width);
        if after_precision < s.len() {
            lemma_restyle_list_bounds(s, after_precision + 1, Style::plain());
        }
    }
}

/// The inside of a placeholder ends at or after its start and inside the
/// template.
pub proof fn lemma_format_arg_bounds(s: Seq<char>, pos: int)
    requires
        0 <= pos <= s.len(),
    ensures
        format_arg_at(s, pos) matches Ok((_, end)) ==> pos <= end <= s.len(),
{
    lemma_arg_ref_bounds(s, pos);
    let after_ref = match arg_ref_at(s, pos) {
        Some((_, end)) => end,
        None => pos,
    };
    if after_ref < s.len() {
        lemma_format_spec_bounds(s, after_ref + 1);
    }
}

/// A piece ends after its start and inside the template: it is never empty.
pub proof fn lemma_piece_bounds(s: Seq<char>, pos: int)
    requires
        0 <= pos < s.len(),
    ensures
        piece_at(s, pos) matches Ok((_, end)) ==> pos < end <= s.len(),
{
    reveal_strlit("{{");
    reveal_strlit("}}");
    lemma_run_end(s, pos, CharClass::Text);
    lemma_run_end(s, pos + 1, CharClass::Text);
    lemma_format_arg_bounds(s, pos + 1);
}

/// The empty template has no pieces.
pub proof fn lemma_empty_template()
    ensures
        parsed(Seq::empty()) == Ok::<Seq<PieceView>, ParseError>(Seq::empty()),
{
}

/// A template without braces is one literal: itself.
pub proof fn lemma_text_without_braces(s: Seq<char>)
    requires
        s.len() > 0,
        forall|i: int| 0 <= i < s.len() ==> s[i] != '{' && s[i] != '}',
    ensures
        parsed(s) == Ok::<Seq<PieceView>, ParseError>(seq![PieceView::Lit(s)]),
{
    lemma_run_end(s, 0, CharClass::Text);
    let end = run_end(s, 0, CharClass::Text);
    assert(end == s.len());
    assert(s.subrange(0, end) =~= s);
    assert(pieces_from(s, end) == Ok::<Seq<PieceView>, ParseError>(Seq::empty()));
    assert(seq![PieceView::Lit(s)] + Seq::<PieceView>::empty() =~= seq![PieceView::Lit(s)]);
}

/// What a literal of a parsed template can be: one brace, which was written
/// doubled, or text without braces, which is not empty.
pub open spec fn is_literal_text(text: Seq<char>) -> bool {
    ||| text == "{"@
    ||| text == "}"@
    ||| (text.len() > 0 && forall|i: int| 0 <= i < text.len() ==> CharClass::Text.has(text[i]))
}

/// Every literal among the pieces of a template is one brace or text
/// without braces.
pub proof fn lemma_literals_are_text(s: Seq<char>, pos: int)
    requires
        0 <= pos <= s.len(),
    ensures
        pieces_from(s, pos) matches Ok(pieces) ==> forall|k: int|
            0 <= k < pieces.len() ==> (#[trigger] pieces[k] matches PieceView::Lit(text)
                ==> is_literal_text(text)),
    decreases s.len() - pos,
{
    if pos < s.len() {
        if let Ok((piece, end)) = piece_at(s, pos) {
            lemma_piece_bounds(s, pos);
            lemma_run_end(s, pos, CharClass::Text);
            lemma_literals_are_text(s, end);
            if let Ok(rest) = pieces_from(s, end) {
                let pieces = seq![piece] + rest;
                assert forall|k: int| 0 <= k < pieces.len() implies (
                #[trigger] pieces[k] matches PieceView::Lit(text) ==> is_literal_text(text)) by {
                    if k > 0 {
                        assert(pieces[k] == rest[k - 1]);
                    }
                }
            }
        }
    }
}

} // verus!
