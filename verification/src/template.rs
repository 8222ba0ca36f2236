//! The template language: its data types, its grammar as specification
//! functions over `Seq<char>`, and the parser that is proved to follow it.

use vstd::prelude::*;
use vstd::string::StrSliceExecFns;

use crate::grammar::{
    align_at, align_of, arg_ref_at, assigned_color_at, char_at, color_at, count_at,
    decimal_value, digit_value, flag_at, format_arg_at, format_spec_at, format_trait_at,
    identifier_at, intensity_at, lemma_piece_bounds, lemma_run_end, number_at, parsed, piece_at,
    pieces_from, precision_at, restyle_at, restyle_list_at, run_end, sign_at, starts_with,
    style_at, width_at, CharClass,
};
use crate::style::{Background, Color, Foreground, Intensity, Style, StyleDiff};

verus! {

/// Where padding goes when the text is shorter than the width.
#[derive(Debug, Clone, Copy, PartialEq, Eq, Structural)]
pub enum Align {
    Left,
    Center,
    Right,
}

/// The sign flag of a placeholder.
#[derive(Debug, Clone, Copy, PartialEq, Eq, Structural)]
pub enum Sign {
    Plus,
    Minus,
}

/// Whether a debug rendering shows integers in hexadecimal, and in which case.
#[derive(Debug, Clone, Copy, PartialEq, Eq, Structural)]
pub enum DebugHex {
    Lower,
    Upper,
}

/// Which rendering of the value a placeholder asks for.
#[derive(Debug, Clone, Copy, PartialEq, Eq, Structural)]
pub enum FormatTrait {
    Display,
    Debug,
    Octal,
    LowerHex,
    UpperHex,
    Pointer,
    Binary,
    LowerExp,
    UpperExp,
    /// The value writes styled text itself.
    Stylish,
}

impl Default for FormatTrait {
    fn default() -> (out: Self)
        ensures
            out == FormatTrait::Display,
    {
        FormatTrait::Display
    }
}

/// Why a template was rejected.
#[derive(Debug, Clone, Copy, PartialEq, Eq, Structural)]
pub enum ParseError {
    /// The template ends inside a placeholder.
    Unterminated,
    /// A placeholder holds something that the grammar has no place for, or a
    /// `}` stands alone.
    Malformed,
    /// A style directive is none of `fg=<color>`, `bg=<color>`, `bold`,
    /// `normal`, `faint`.
    UnknownRestyle,
    /// The fill character of an alignment is not a space.
    UnsupportedFill,
}

impl ParseError {
    /// What is wrong, in words.
    pub open spec fn description(self) -> Seq<char> {
        match self {
            ParseError::Unterminated => "template ends inside a placeholder"@,
            ParseError::Malformed => "unexpected character in template"@,
            ParseError::UnknownRestyle => "unknown style directive"@,
            ParseError::UnsupportedFill => "fill characters other than space are not supported"@,
        }
    }

    /// Says in words what is wrong.
    pub fn describe(&self) -> (words: &'static str)
        ensures
            words@ == self.description(),
    {
        match self {
            ParseError::Unterminated => "template ends inside a placeholder",
            ParseError::Malformed => "unexpected character in template",
            ParseError::UnknownRestyle => "unknown style directive",
            ParseError::UnsupportedFill => "fill characters other than space are not supported",
        }
    }
}

/// A reference from a placeholder to an argument.
#[derive(Debug, Clone, Copy)]
pub enum FormatArgRef<'a> {
    Positional(usize),
    Named(&'a str),
}

/// The mathematical value of a [`FormatArgRef`].
pub enum ArgRefView {
    Positional(usize),
    Named(Seq<char>),
}

impl<'a> View for FormatArgRef<'a> {
    type V = ArgRefView;

    open spec fn view(&self) -> ArgRefView {
        match self {
            FormatArgRef::Positional(index) => ArgRefView::Positional(*index),
            FormatArgRef::Named(name) => ArgRefView::Named(name@),
        }
    }
}

/// A width or a precision: written out, or taken from an argument.
#[derive(Debug, Clone, Copy)]
pub enum Count<'a> {
    Parameter(FormatArgRef<'a>),
    Integer(usize),
}

/// The mathematical value of a [`Count`].
pub enum CountView {
    Parameter(ArgRefView),
    Integer(usize),
}

impl<'a> View for Count<'a> {
    type V = CountView;

    open spec fn view(&self) -> CountView {
        match self {
            Count::Parameter(arg) => CountView::Parameter(arg@),
            Count::Integer(n) => CountView::Integer(*n),
        }
    }
}

/// The view of an optional value.
pub open spec fn view_opt<T: View>(value: Option<T>) -> Option<T::V> {
    match value {
        Some(inner) => Some(inner@),
        None => None,
    }
}

/// The flags of a placeholder, as written in the template.
#[derive(Debug, Clone, Copy)]
pub struct FormatterArgs<'a> {
    pub align: Option<Align>,
    pub sign: Option<Sign>,
    pub alternate: bool,
    pub zero: bool,
    pub width: Option<Count<'a>>,
    pub precision: Option<Count<'a>>,
    pub debug_hex: Option<DebugHex>,
}

/// The mathematical value of a [`FormatterArgs`].
pub struct FormatterArgsView {
    pub align: Option<Align>,
    pub sign: Option<Sign>,
    pub alternate: bool,
    pub zero: bool,
    pub width: Option<CountView>,
    pub precision: Option<CountView>,
    pub debug_hex: Option<DebugHex>,
}

impl FormatterArgsView {
    /// No flag set.
    pub open spec fn none() -> FormatterArgsView {
        FormatterArgsView {
            align: None,
            sign: None,
            alternate: false,
            zero: false,
            width: None,
            precision: None,
            debug_hex: None,
        }
    }
}

impl<'a> View for FormatterArgs<'a> {
    type V = FormatterArgsView;

    open spec fn view(&self) -> FormatterArgsView {
        FormatterArgsView {
            align: self.align,
            sign: self.sign,
            alternate: self.alternate,
            zero: self.zero,
            width: view_opt(self.width),
            precision: view_opt(self.precision),
            debug_hex: self.debug_hex,
        }
    }
}

impl<'a> Default for FormatterArgs<'a> {
    fn default() -> (out: Self)
        ensures
            out@ == FormatterArgsView::none(),
    {
        FormatterArgs {
            align: None,
            sign: None,
            alternate: false,
            zero: false,
            width: None,
            precision: None,
            debug_hex: None,
        }
    }
}

/// What stands after the colon of a placeholder.
#[derive(Debug, Clone)]
pub struct FormatSpec<'a> {
    pub formatter_args: FormatterArgs<'a>,
    pub style: StyleDiff,
    pub format_trait: FormatTrait,
}

/// The mathematical value of a [`FormatSpec`].
pub struct FormatSpecView {
    pub formatter_args: FormatterArgsView,
    pub style: StyleDiff,
    pub format_trait: FormatTrait,
}

impl FormatSpecView {
    /// What a placeholder without a colon means: no flag, no style, plain
    /// display.
    pub open spec fn none() -> FormatSpecView {
        FormatSpecView {
            formatter_args: FormatterArgsView::none(),
            style: StyleDiff::none(),
            format_trait: FormatTrait::Display,
        }
    }
}

impl<'a> View for FormatSpec<'a> {
    type V = FormatSpecView;

    open spec fn view(&self) -> FormatSpecView {
        FormatSpecView {
            formatter_args: self.formatter_args@,
            style: self.style,
            format_trait: self.format_trait,
        }
    }
}

impl<'a> Default for FormatSpec<'a> {
    fn default() -> (out: Self)
        ensures
            out@ == FormatSpecView::none(),
    {
        FormatSpec {
            formatter_args: FormatterArgs::default(),
            style: StyleDiff::default(),
            format_trait: FormatTrait::default(),
        }
    }
}

/// A placeholder: which argument, and how to show it.
#[derive(Debug, Clone)]
pub struct FormatArg<'a> {
    pub arg: Option<FormatArgRef<'a>>,
    pub format_spec: FormatSpec<'a>,
}

/// The mathematical value of a [`FormatArg`].
pub struct FormatArgView {
    pub arg: Option<ArgRefView>,
    pub format_spec: FormatSpecView,
}

impl<'a> View for FormatArg<'a> {
    type V = FormatArgView;

    open spec fn view(&self) -> FormatArgView {
        FormatArgView { arg: view_opt(self.arg), format_spec: self.format_spec@ }
    }
}

/// One unit of a parsed template.
#[derive(Debug, Clone)]
pub enum Piece<'a> {
    /// Text that is written as it stands.
    Lit(&'a str),
    /// A placeholder.
    Arg(FormatArg<'a>),
}

/// The mathematical value of a [`Piece`].
pub enum PieceView {
    Lit(Seq<char>),
    Arg(FormatArgView),
}

impl<'a> View for Piece<'a> {
    type V = PieceView;

    open spec fn view(&self) -> PieceView {
        match self {
            Piece::Lit(text) => PieceView::Lit(text@),
            Piece::Arg(arg) => PieceView::Arg(arg@),
        }
    }
}

/// A parsed template: its pieces in the order in which they were written.
#[derive(Debug, Clone)]
pub struct Format<'a> {
    pub pieces: Vec<Piece<'a>>,
}

/// The mathematical values of a sequence of pieces.
pub open spec fn views_of<'a>(pieces: Seq<Piece<'a>>) -> Seq<PieceView> {
    Seq::new(pieces.len(), |i: int| pieces[i]@)
}

impl<'a> View for Format<'a> {
    type V = Seq<PieceView>;

    open spec fn view(&self) -> Seq<PieceView> {
        views_of(self.pieces@)
    }
}

/// The characters of a string, one by one.
pub(crate) fn chars_of(input: &str) -> (chars: Vec<char>)
    ensures
        chars@ == input@,
{
    let mut chars: Vec<char> = Vec::new();
    for c in it: input.chars()
        invariant
            chars@ == it.seq().take(it.index() as int),
    {
        chars.push(c);
    }
    chars
}

/// Whether `c` stands at `pos`.
fn is_at(chars: &Vec<char>, pos: usize, c: char) -> (found: bool)
    ensures
        found == char_at(chars@, pos as int, c),
{
    pos < chars.len() && chars[pos] == c
}

/// Where `word` ends if it stands at `pos`.
fn keyword(chars: &Vec<char>, pos: usize, word: &str) -> (end: Option<usize>)
    requires
        pos <= chars.len(),
    ensures
        end is Some == starts_with(chars@, pos as int, word@),
        end matches Some(end) ==> end == pos + word@.len(),
{
    let n = word.unicode_len();
    if n > chars.len() - pos {
        return None;
    }
    let mut i: usize = 0;
    while i < n
        invariant
            i <= n,
            n == word@.len(),
            pos + n <= chars.len(),
            forall|j: int| 0 <= j < i ==> chars@[pos + j] == word@[j],
        decreases n - i,
    {
        if chars[pos + i] != word.get_char(i) {
            assert(chars@.subrange(pos as int, pos + n)[i as int] != word@[i as int]);
            return None;
        }
        i += 1;
    }
    assert(chars@.subrange(pos as int, pos + n) =~= word@);
    Some(pos + n)
}

/// Where the run of text without braces that starts at `pos` ends.
fn text_end(chars: &Vec<char>, pos: usize) -> (end: usize)
    requires
        pos <= chars.len(),
    ensures
        end == run_end(chars@, pos as int, CharClass::Text),
        pos <= end <= chars.len(),
{
    let mut end = pos;
    while end < chars.len() && chars[end] != '{' && chars[end] != '}'
        invariant
            pos <= end <= chars.len(),
            run_end(chars@, pos as int, CharClass::Text) == run_end(
                chars@,
                end as int,
                CharClass::Text,
            ),
        decreases chars.len() - end,
    {
        end += 1;
    }
    end
}

/// Where the run of decimal digits that starts at `pos` ends.
fn digits_end(chars: &Vec<char>, pos: usize) -> (end: usize)
    requires
        pos <= chars.len(),
    ensures
        end == run_end(chars@, pos as int, CharClass::Digit),
        pos <= end <= chars.len(),
{
    let mut end = pos;
    while end < chars.len() && chars[end] >= '0' && chars[end] <= '9'
        invariant
            pos <= end <= chars.len(),
            run_end(chars@, pos as int, CharClass::Digit) == run_end(
                chars@,
                end as int,
                CharClass::Digit,
            ),
        decreases chars.len() - end,
    {
        end += 1;
    }
    end
}

/// Where the run of characters of XID_Continue that starts at `pos` ends.
fn continue_end(chars: &Vec<char>, pos: usize) -> (end: usize)
    requires
        pos <= chars.len(),
    ensures
        end == run_end(chars@, pos as int, CharClass::Continue),
        pos <= end <= chars.len(),
{
    let mut end = pos;
    while end < chars.len() && unicode_ident::is_xid_continue(chars[end])
        invariant
            pos <= end <= chars.len(),
            run_end(chars@, pos as int, CharClass::Continue) == run_end(
                chars@,
                end as int,
                CharClass::Continue,
            ),
        decreases chars.len() - end,
    {
        end += 1;
    }
    end
}

/// A string of digits denotes at least what any string that it begins with
/// denotes.
proof fn lemma_decimal_value_grows(digits: Seq<char>, k: int)
    requires
        0 <= k <= digits.len(),
    ensures
        decimal_value(digits.take(k)) <= decimal_value(digits),
    decreases digits.len() - k,
{
    if k == digits.len() {
        assert(digits.take(k) =~= digits);
    } else {
        lemma_decimal_value_grows(digits.drop_last(), k);
        assert(digits.drop_last().take(k) =~= digits.take(k));
    }
}

/// The number at `pos` and where it ends.
fn parse_number(chars: &Vec<char>, pos: usize) -> (found: Option<(usize, usize)>)
    requires
        pos <= chars.len(),
    ensures
        found is Some == number_at(chars@, pos as int) is Some,
        found matches Some((value, end)) ==> number_at(chars@, pos as int) == Some(
            (value, end as int),
        ) && pos < end <= chars.len(),
{
    let end = digits_end(chars, pos);
    if end == pos {
        return None;
    }
    let ghost digits = chars@.subrange(pos as int, end as int);
    proof {
        lemma_run_end(chars@, pos as int, CharClass::Digit);
    }
    let mut value: usize = 0;
    let mut i = pos;
    while i < end
        invariant
            pos <= i <= end <= chars.len(),
            end == run_end(chars@, pos as int, CharClass::Digit),
            digits == chars@.subrange(pos as int, end as int),
            forall|j: int| pos <= j < end ==> CharClass::Digit.has(#[trigger] chars@[j]),
            value == decimal_value(digits.take(i - pos)),
        decreases end - i,
    {
        let c = chars[i];
        let digit = (c as u32 - '0' as u32) as usize;
        proof {
            assert(digits.take(i + 1 - pos).drop_last() =~= digits.take(i - pos));
            assert(digits.take(i + 1 - pos).last() == c);
            assert(digit == digit_value(c));
            assert(decimal_value(digits.take(i + 1 - pos)) == value * 10 + digit);
            lemma_decimal_value_grows(digits, i + 1 - pos);
        }
        let next = match value.checked_mul(10) {
            Some(tens) => tens.checked_add(digit),
            None => None,
        };
        match next {
            Some(next) => {
                value = next;
            },
            None => {
                return None;
            },
        }
        i += 1;
    }
    assert(digits.take(end - pos) =~= digits);
    Some((value, end))
}

/// Where the identifier at `pos` ends.
fn parse_identifier(chars: &Vec<char>, pos: usize) -> (found: Option<usize>)
    requires
        pos <= chars.len(),
    ensures
        found is Some == identifier_at(chars@, pos as int) is Some,
        found matches Some(end) ==> identifier_at(chars@, pos as int) == Some(end as int) && pos
            < end <= chars.len(),
{
    if pos < chars.len() && (unicode_ident::is_xid_start(chars[pos]) || chars[pos] == '_') {
        Some(continue_end(chars, pos + 1))
    } else {
        None
    }
}

/// The reference to an argument at `pos` and where it ends.
fn parse_arg_ref<'a>(input: &'a str, chars: &Vec<char>, pos: usize) -> (found: Option<
    (FormatArgRef<'a>, usize),
>)
    requires
        chars@ == input@,
        pos <= chars.len(),
    ensures
        found is Some == arg_ref_at(chars@, pos as int) is Some,
        found matches Some((arg, end)) ==> arg_ref_at(chars@, pos as int) == Some(
            (arg@, end as int),
        ) && pos < end <= chars.len(),
{
    match parse_number(chars, pos) {
        Some((index, end)) => Some((FormatArgRef::Positional(index), end)),
        None => match parse_identifier(chars, pos) {
            Some(end) => Some((FormatArgRef::Named(input.substring_char(pos, end)), end)),
            None => None,
        },
    }
}

/// The count at `pos` and where it ends.
fn parse_count<'a>(input: &'a str, chars: &Vec<char>, pos: usize) -> (found: Option<
    (Count<'a>, usize),
>)
    requires
        chars@ == input@,
        pos <= chars.len(),
    ensures
        found is Some == count_at(chars@, pos as int) is Some,
        found matches Some((count, end)) ==> count_at(chars@, pos as int) == Some(
            (count@, end as int),
        ) && pos < end <= chars.len(),
{
    if let Some((arg, end)) = parse_arg_ref(input, chars, pos) {
        if is_at(chars, end, '$') {
            return Some((Count::Parameter(arg), end + 1));
        }
    }
    match parse_number(chars, pos) {
        Some((n, end)) => Some((Count::Integer(n), end)),
        None => None,
    }
}

/// The colour name at `pos` and where it ends.
fn parse_color(chars: &Vec<char>, pos: usize) -> (found: Option<(Color, usize)>)
    requires
        pos <= chars.len(),
    ensures
        found is Some == color_at(chars@, pos as int) is Some,
        found matches Some((color, end)) ==> color_at(chars@, pos as int) == Some(
            (color, end as int),
        ) && pos <= end <= chars.len(),
{
    if let Some(end) = keyword(chars, pos, "black") {
        Some((Color::Black, end))
    } else if let Some(end) = keyword(chars, pos, "red") {
        Some((Color::Red, end))
    } else if let Some(end) = keyword(chars, pos, "green") {
        Some((Color::Green, end))
    } else if let Some(end) = keyword(chars, pos, "yellow") {
        Some((Color::Yellow, end))
    } else if let Some(end) = keyword(chars, pos, "blue") {
        Some((Color::Blue, end))
    } else if let Some(end) = keyword(chars, pos, "magenta") {
        Some((Color::Magenta, end))
    } else if let Some(end) = keyword(chars, pos, "cyan") {
        Some((Color::Cyan, end))
    } else if let Some(end) = keyword(chars, pos, "white") {
        Some((Color::White, end))
    } else if let Some(end) = keyword(chars, pos, "default") {
        Some((Color::Default, end))
    } else {
        None
    }
}

/// The intensity name at `pos` and where it ends.
fn parse_intensity(chars: &Vec<char>, pos: usize) -> (found: Option<(Intensity, usize)>)
    requires
        pos <= chars.len(),
    ensures
        found is Some == intensity_at(chars@, pos as int) is Some,
        found matches Some((intensity, end)) ==> intensity_at(chars@, pos as int) == Some(
            (intensity, end as int),
        ) && pos <= end <= chars.len(),
{
    if let Some(end) = keyword(chars, pos, "normal") {
        Some((Intensity::Normal, end))
    } else if let Some(end) = keyword(chars, pos, "bold") {
        Some((Intensity::Bold, end))
    } else if let Some(end) = keyword(chars, pos, "faint") {
        Some((Intensity::Faint, end))
    } else {
        None
    }
}

/// The colour after `=` at `pos`, and where it ends.
fn parse_assigned_color(chars: &Vec<char>, pos: usize) -> (found: Option<(Color, usize)>)
    requires
        pos <= chars.len(),
    ensures
        found is Some == assigned_color_at(chars@, pos as int) is Some,
        found matches Some((color, end)) ==> assigned_color_at(chars@, pos as int) == Some(
            (color, end as int),
        ) && pos <= end <= chars.len(),
{
    if is_at(chars, pos, '=') {
        parse_color(chars, pos + 1)
    } else {
        None
    }
}

/// The style directive at `pos`, applied to `style`, and where it ends.
fn parse_restyle(chars: &Vec<char>, pos: usize, style: Style) -> (found: Result<
    Option<(Style, usize)>,
    ParseError,
>)
    requires
        pos <= chars.len(),
    ensures
        match found {
            Ok(Some((next, end))) => restyle_at(chars@, pos as int, style) == Ok::<_, ParseError>(
                Some((next, end as int)),
            ) && pos <= end <= chars.len(),
            Ok(None) => restyle_at(chars@, pos as int, style) == Ok::<
                Option<(Style, int)>,
                ParseError,
            >(None),
            Err(error) => restyle_at(chars@, pos as int, style) == Err::<
                Option<(Style, int)>,
                _,
            >(error),
        },
{
    if let Some(after) = keyword(chars, pos, "fg") {
        match parse_assigned_color(chars, after) {
            Some((color, end)) => Ok(Some((style.with(Foreground(color)), end))),
            None => Err(ParseError::UnknownRestyle),
        }
    } else if let Some(after) = keyword(chars, pos, "bg") {
        match parse_assigned_color(chars, after) {
            Some((color, end)) => Ok(Some((style.with(Background(color)), end))),
            None => Err(ParseError::UnknownRestyle),
        }
    } else {
        match parse_intensity(chars, pos) {
            Some((intensity, end)) => Ok(Some((style.with(intensity), end))),
            None => Ok(None),
        }
    }
}

/// The list of style directives at `pos`, applied to the plain style, and
/// where it ends.
fn parse_restyle_list(chars: &Vec<char>, pos: usize) -> (found: Result<(Style, usize), ParseError>)
    requires
        pos <= chars.len(),
    ensures
        match found {
            Ok((style, end)) => restyle_list_at(chars@, pos as int, Style::plain()) == Ok::<
                _,
                ParseError,
            >((style, end as int)) && pos <= end <= chars.len(),
            Err(error) => restyle_list_at(chars@, pos as int, Style::plain()) == Err::<
                (Style, int),
                _,
            >(error),
        },
{
    let mut style = Style::default();
    let mut at = pos;
    loop
        invariant
            pos <= at <= chars.len(),
            restyle_list_at(chars@, pos as int, Style::plain()) == restyle_list_at(
                chars@,
                at as int,
                style,
            ),
        decreases chars.len() - at,
    {
        match parse_restyle(chars, at, style)? {
            None => {
                return Err(ParseError::UnknownRestyle);
            },
            Some((next, end)) => {
                if is_at(chars, end, ',') {
                    style = next;
                    at = end + 1;
                } else {
                    return Ok((next, end));
                }
            },
        }
    }
}

/// The style directives of a placeholder at `pos`, and where they end.
fn parse_style(chars: &Vec<char>, pos: usize) -> (found: Result<(StyleDiff, usize), ParseError>)
    requires
        pos <= chars.len(),
    ensures
        match found {
            Ok((diff, end)) => style_at(chars@, pos as int) == Ok::<_, ParseError>(
                (diff, end as int),
            ) && pos <= end <= chars.len(),
            Err(error) => style_at(chars@, pos as int) == Err::<(StyleDiff, int), _>(error),
        },
{
    if is_at(chars, pos, '(') {
        let (style, end) = parse_restyle_list(chars, pos + 1)?;
        if is_at(chars, end, ')') {
            Ok((style.diff_from(Style::default()), end + 1))
        } else {
            Ok((StyleDiff::default(), pos))
        }
    } else {
        Ok((StyleDiff::default(), pos))
    }
}

/// The alignment that a character stands for.
fn align_for(c: char) -> (align: Option<Align>)
    ensures
        align == align_of(c),
{
    if c == '<' {
        Some(Align::Left)
    } else if c == '^' {
        Some(Align::Center)
    } else if c == '>' {
        Some(Align::Right)
    } else {
        None
    }
}

/// The alignment at `pos`, with its fill, and where it ends.
fn parse_align(chars: &Vec<char>, pos: usize) -> (found: Result<(Option<Align>, usize), ParseError>)
    requires
        pos <= chars.len(),
    ensures
        match found {
            Ok((align, end)) => align_at(chars@, pos as int) == Ok::<_, ParseError>(
                (align, end as int),
            ) && pos <= end <= chars.len(),
            Err(error) => align_at(chars@, pos as int) == Err::<(Option<Align>, int), _>(error),
        },
{
    if pos < chars.len() {
        if pos + 1 < chars.len() {
            if let Some(align) = align_for(chars[pos + 1]) {
                if chars[pos] == ' ' {
                    return Ok((Some(align), pos + 2));
                } else {
                    return Err(ParseError::UnsupportedFill);
                }
            }
        }
        if let Some(align) = align_for(chars[pos]) {
            return Ok((Some(align), pos + 1));
        }
    }
    Ok((None, pos))
}

/// The sign flag at `pos`, and where it ends.
fn parse_sign(chars: &Vec<char>, pos: usize) -> (found: (Option<Sign>, usize))
    requires
        pos <= chars.len(),
    ensures
        sign_at(chars@, pos as int) == (found.0, found.1 as int),
        pos <= found.1 <= chars.len(),
{
    if is_at(chars, pos, '+') {
        (Some(Sign::Plus), pos + 1)
    } else if is_at(chars, pos, '-') {
        (Some(Sign::Minus), pos + 1)
    } else {
        (None, pos)
    }
}

/// Whether the flag `c` stands at `pos`, and where it ends.
fn parse_flag(chars: &Vec<char>, pos: usize, c: char) -> (found: (bool, usize))
    requires
        pos <= chars.len(),
    ensures
        flag_at(chars@, pos as int, c) == (found.0, found.1 as int),
        pos <= found.1 <= chars.len(),
{
    if is_at(chars, pos, c) {
        (true, pos + 1)
    } else {
        (false, pos)
    }
}

/// The width at `pos`, and where it ends.
fn parse_width<'a>(input: &'a str, chars: &Vec<char>, pos: usize) -> (found: (
    Option<Count<'a>>,
    usize,
))
    requires
        chars@ == input@,
        pos <= chars.len(),
    ensures
        width_at(chars@, pos as int) == (view_opt(found.0), found.1 as int),
        pos <= found.1 <= chars.len(),
{
    match parse_count(input, chars, pos) {
        Some((count, end)) => (Some(count), end),
        None => (None, pos),
    }
}

/// The precision at `pos`, and where it ends.
fn parse_precision<'a>(input: &'a str, chars: &Vec<char>, pos: usize) -> (found: (
    Option<Count<'a>>,
    usize,
))
    requires
        chars@ == input@,
        pos <= chars.len(),
    ensures
        precision_at(chars@, pos as int) == (view_opt(found.0), found.1 as int),
        pos <= found.1 <= chars.len(),
{
    if is_at(chars, pos, '.') {
        match parse_count(input, chars, pos + 1) {
            Some((count, end)) => (Some(count), end),
            None => (None, pos),
        }
    } else {
        (None, pos)
    }
}

/// The selector at `pos`, and where it ends.
fn parse_format_trait(chars: &Vec<char>, pos: usize) -> (found: (
    Option<DebugHex>,
    FormatTrait,
    usize,
))
    requires
        pos <= chars.len(),
    ensures
        format_trait_at(chars@, pos as int) == (found.0, found.1, found.2 as int),
        pos <= found.2 <= chars.len(),
{
    if is_at(chars, pos, '?') {
        (None, FormatTrait::Debug, pos + 1)
    } else if is_at(chars, pos, 'x') && is_at(chars, pos + 1, '?') {
        (Some(DebugHex::Lower), FormatTrait::Debug, pos + 2)
    } else if is_at(chars, pos, 'X') && is_at(chars, pos + 1, '?') {
        (Some(DebugHex::Upper), FormatTrait::Debug, pos + 2)
    } else if is_at(chars, pos, 'o') {
        (None, FormatTrait::Octal, pos + 1)
    } else if is_at(chars, pos, 'x') {
        (None, FormatTrait::LowerHex, pos + 1)
    } else if is_at(chars, pos, 'X') {
        (None, FormatTrait::UpperHex, pos + 1)
    } else if is_at(chars, pos, 'p') {
        (None, FormatTrait::Pointer, pos + 1)
    } else if is_at(chars, pos, 'b') {
        (None, FormatTrait::Binary, pos + 1)
    } else if is_at(chars, pos, 'e') {
        (None, FormatTrait::LowerExp, pos + 1)
    } else if is_at(chars, pos, 'E') {
        (None, FormatTrait::UpperExp, pos + 1)
    } else if is_at(chars, pos, 's') {
        (None, FormatTrait::Stylish, pos + 1)
    } else {
        (None, FormatTrait::Display, pos)
    }
}

/// What follows the colon of a placeholder, from `pos`, and where it ends.
fn parse_format_spec<'a>(input: &'a str, chars: &Vec<char>, pos: usize) -> (found: Result<
    (FormatSpec<'a>, usize),
    ParseError,
>)
    requires
        chars@ == input@,
        pos <= chars.len(),
    ensures
        match found {
            Ok((spec, end)) => format_spec_at(chars@, pos as int) == Ok::<_, ParseError>(
                (spec@, end as int),
            ) && pos <= end <= chars.len(),
            Err(error) => format_spec_at(chars@, pos as int) == Err::<(FormatSpecView, int), _>(
                error,
            ),
        },
{
    let (align, pos) = parse_align(chars, pos)?;
    let (sign, pos) = parse_sign(chars, pos);
    let (alternate, pos) = parse_flag(chars, pos, '#');
    let (zero, pos) = parse_flag(chars, pos, '0');
    let (width, pos) = parse_width(input, chars, pos);
    let (precision, pos) = parse_precision(input, chars, pos);
    let (style, pos) = parse_style(chars, pos)?;
    let (debug_hex, format_trait, pos) = parse_format_trait(chars, pos);
    Ok(
        (
            FormatSpec {
                formatter_args: FormatterArgs {
                    align,
                    sign,
                    alternate,
                    zero,
                    width,
                    precision,
                    debug_hex,
                },
                style,
                format_trait,
            },
            pos,
        ),
    )
}

/// The inside of a placeholder, from `pos`, and where it ends.
fn parse_format_arg<'a>(input: &'a str, chars: &Vec<char>, pos: usize) -> (found: Result<
    (FormatArg<'a>, usize),
    ParseError,
>)
    requires
        chars@ == input@,
        pos <= chars.len(),
    ensures
        match found {
            Ok((arg, end)) => format_arg_at(chars@, pos as int) == Ok::<_, ParseError>(
                (arg@, end as int),
            ) && pos <= end <= chars.len(),
            Err(error) => format_arg_at(chars@, pos as int) == Err::<(FormatArgView, int), _>(
                error,
            ),
        },
{
    let (arg, pos) = match parse_arg_ref(input, chars, pos) {
        Some((arg, end)) => (Some(arg), end),
        None => (None, pos),
    };
    if is_at(chars, pos, ':') {
        let (format_spec, end) = parse_format_spec(input, chars, pos + 1)?;
        Ok((FormatArg { arg, format_spec }, end))
    } else {
        Ok((FormatArg { arg, format_spec: FormatSpec::default() }, pos))
    }
}

/// The piece that starts at `pos`, and where it ends.
fn parse_piece<'a>(input: &'a str, chars: &Vec<char>, pos: usize) -> (found: Result<
    (Piece<'a>, usize),
    ParseError,
>)
    requires
        chars@ == input@,
        pos < chars.len(),
    ensures
        match found {
            Ok((piece, end)) => piece_at(chars@, pos as int) == Ok::<_, ParseError>(
                (piece@, end as int),
            ) && pos < end <= chars.len(),
            Err(error) => piece_at(chars@, pos as int) == Err::<(PieceView, int), _>(error),
        },
{
    proof {
        lemma_piece_bounds(chars@, pos as int);
    }
    if chars[pos] != '{' && chars[pos] != '}' {
        let end = text_end(chars, pos);
        Ok((Piece::Lit(input.substring_char(pos, end)), end))
    } else if let Some(end) = keyword(chars, pos, "{{") {
        Ok((Piece::Lit("{"), end))
    } else if let Some(end) = keyword(chars, pos, "}}") {
        Ok((Piece::Lit("}"), end))
    } else if chars[pos] == '{' {
        let (arg, end) = parse_format_arg(input, chars, pos + 1)?;
        if end >= chars.len() {
            Err(ParseError::Unterminated)
        } else if chars[end] == '}' {
            Ok((Piece::Arg(arg), end + 1))
        } else {
            Err(ParseError::Malformed)
        }
    } else {
        Err(ParseError::Malformed)
    }
}

/// `pieces` before what `rest` holds, or the error of `rest`.
pub open spec fn after(pieces: Seq<PieceView>, rest: Result<Seq<PieceView>, ParseError>) -> Result<
    Seq<PieceView>,
    ParseError,
> {
    match rest {
        Ok(rest) => Ok(pieces + rest),
        Err(error) => Err(error),
    }
}

impl<'a> Format<'a> {
    /// Parses a template. The whole of `input` must be one: the result is
    /// either all of its pieces or the reason why it has none.
    pub fn parse(input: &'a str) -> (found: Result<Format<'a>, ParseError>)
        ensures
            match found {
                Ok(format) => parsed(input@) == Ok::<_, ParseError>(format@),
                Err(error) => parsed(input@) == Err::<Seq<PieceView>, _>(error),
            },
    {
        let chars = chars_of(input);
        let mut pieces: Vec<Piece<'a>> = Vec::new();
        let mut pos: usize = 0;
        while pos < chars.len()
            invariant
                chars@ == input@,
                pos <= chars.len(),
                parsed(chars@) == after(views_of(pieces@), pieces_from(chars@, pos as int)),
            decreases chars.len() - pos,
        {
            let ghost before = views_of(pieces@);
            let (piece, end) = parse_piece(input, &chars, pos)?;
            pieces.push(piece);
            proof {
                assert(views_of(pieces@) =~= before.push(piece@));
                if let Ok(rest) = pieces_from(chars@, end as int) {
                    assert(before.push(piece@) + rest =~= before + (seq![piece@] + rest));
                }
            }
            pos = end;
        }
        proof {
            assert(views_of(pieces@) + Seq::<PieceView>::empty() =~= views_of(pieces@));
        }
        Ok(Format { pieces })
    }
}

} // verus!
