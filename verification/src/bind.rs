//! The binder: it decides which argument each placeholder of a template
//! shows, and refuses a template that does not fit the arguments.

use vstd::prelude::*;

use crate::arguments::{
    argument_view, lemma_pieces_view, Argument, ArgumentView, Arguments, Content, ContentView,
};
use crate::formatter::FormatterArgs;
use crate::style::StyleDiff;
use crate::template::{
    chars_of, ArgRefView, Count, CountView, Format, FormatArgRef, FormatTrait, FormatterArgsView,
    Piece, PieceView,
};

verus! {

/// The argument that a placeholder shows.
#[derive(Debug, Clone, Copy, PartialEq, Eq, Structural)]
pub enum Slot {
    /// The positional argument with this index.
    Positional(usize),
    /// The named argument with this index in the list of names.
    Named(usize),
}

/// Why a template does not fit the arguments.
#[derive(Debug, Clone, Copy, PartialEq, Eq, Structural)]
pub enum BindError {
    /// A placeholder without a reference stands where all positional
    /// arguments have been taken by those before it.
    MissingArgument,
    /// A placeholder refers to a positional argument that does not exist.
    MissingPositional(usize),
    /// A placeholder refers to a name that is not among the arguments.
    UnknownName,
    /// A width or a precision is to be taken from an argument.
    CountFromArgument,
    /// An argument is shown by no placeholder.
    Unused,
}

impl BindError {
    /// What is wrong, in words.
    pub open spec fn description(self) -> Seq<char> {
        match self {
            BindError::MissingArgument => "missing argument"@,
            BindError::MissingPositional(_) => "missing positional argument"@,
            BindError::UnknownName => "no argument of this name"@,
            BindError::CountFromArgument => "parameter reference counts are not supported"@,
            BindError::Unused => "unused formatting arguments"@,
        }
    }

    /// Says in words what is wrong.
    pub fn describe(&self) -> (words: &'static str)
        ensures
            words@ == self.description(),
    {
        match self {
            BindError::MissingArgument => "missing argument",
            BindError::MissingPositional(_) => "missing positional argument",
            BindError::UnknownName => "no argument of this name",
            BindError::CountFromArgument => "parameter reference counts are not supported",
            BindError::Unused => "unused formatting arguments",
        }
    }
}

/// A placeholder after binding: what it shows, and how.
#[derive(Debug, Clone, Copy)]
pub struct Placeholder {
    pub slot: Slot,
    pub format_trait: FormatTrait,
    pub args: FormatterArgs,
    pub style: StyleDiff,
}

/// One piece of a template after binding.
#[derive(Debug, Clone, Copy)]
pub enum BoundPiece<'a> {
    Lit(&'a str),
    Arg(Placeholder),
}

/// The mathematical value of a [`BoundPiece`].
pub enum BoundPieceView {
    Lit(Seq<char>),
    Arg(Placeholder),
}

impl<'a> View for BoundPiece<'a> {
    type V = BoundPieceView;

    open spec fn view(&self) -> BoundPieceView {
        match self {
            BoundPiece::Lit(text) => BoundPieceView::Lit(text@),
            BoundPiece::Arg(placeholder) => BoundPieceView::Arg(*placeholder),
        }
    }
}

/// A template after binding: every placeholder knows its argument.
#[derive(Debug, Clone)]
pub struct Binding<'a> {
    pub pieces: Vec<BoundPiece<'a>>,
}

/// The mathematical values of a sequence of bound pieces.
pub open spec fn bound_views<'a>(pieces: Seq<BoundPiece<'a>>) -> Seq<BoundPieceView> {
    Seq::new(pieces.len(), |i: int| pieces[i]@)
}

impl<'a> View for Binding<'a> {
    type V = Seq<BoundPieceView>;

    open spec fn view(&self) -> Seq<BoundPieceView> {
        bound_views(self.pieces@)
    }
}

/// The texts of a list of strings.
pub open spec fn texts(names: Seq<&str>) -> Seq<Seq<char>> {
    Seq::new(names.len(), |i: int| names[i]@)
}

/// The index under which `name` is found among `names`: that of the last
/// entry equal to it.
pub open spec fn position(names: Seq<Seq<char>>, name: Seq<char>) -> Option<int>
    decreases names.len(),
{
    if names.len() == 0 {
        None
    } else if names.last() == name {
        Some(names.len() - 1)
    } else {
        position(names.drop_last(), name)
    }
}

/// The argument that a placeholder shows. One without a reference takes the
/// positional argument `next`; a number must lie below `positional`; a name
/// must be among `names`.
pub open spec fn slot_of(
    arg: Option<ArgRefView>,
    next: nat,
    positional: nat,
    names: Seq<Seq<char>>,
) -> Result<Slot, BindError> {
    match arg {
        None => if next < positional {
            Ok(Slot::Positional(next as usize))
        } else {
            Err(BindError::MissingArgument)
        },
        Some(ArgRefView::Positional(index)) => if index < positional {
            Ok(Slot::Positional(index))
        } else {
            Err(BindError::MissingPositional(index))
        },
        Some(ArgRefView::Named(name)) => match position(names, name) {
            Some(index) => Ok(Slot::Named(index as usize)),
            None => Err(BindError::UnknownName),
        },
    }
}

/// A width or precision as a number, if it is written as one.
pub open spec fn number(count: Option<CountView>) -> Result<Option<usize>, BindError> {
    match count {
        None => Ok(None),
        Some(CountView::Integer(n)) => Ok(Some(n)),
        Some(CountView::Parameter(_)) => Err(BindError::CountFromArgument),
    }
}

/// The flags of a placeholder with width and precision as numbers.
pub open spec fn flags(args: FormatterArgsView) -> Result<FormatterArgs, BindError> {
    match number(args.width) {
        Err(error) => Err(error),
        Ok(width) => match number(args.precision) {
            Err(error) => Err(error),
            Ok(precision) => Ok(
                FormatterArgs {
                    align: args.align,
                    sign: args.sign,
                    alternate: args.alternate,
                    zero: args.zero,
                    width,
                    precision,
                    debug_hex: args.debug_hex,
                },
            ),
        },
    }
}

/// The pieces of a template bound one after the other, with the number of
/// placeholders without a reference among them; or the first error on the
/// way. In a placeholder the reference is looked at before the flags.
pub open spec fn bound_pieces(pieces: Seq<PieceView>, positional: nat, names: Seq<Seq<char>>)
    -> Result<(Seq<BoundPieceView>, nat), BindError>
    decreases pieces.len(),
{
    if pieces.len() == 0 {
        Ok((Seq::empty(), 0))
    } else {
        match bound_pieces(pieces.drop_last(), positional, names) {
            Err(error) => Err(error),
            Ok((before, next)) => match pieces.last() {
                PieceView::Lit(text) => Ok((before.push(BoundPieceView::Lit(text)), next)),
                PieceView::Arg(arg) => match slot_of(arg.arg, next, positional, names) {
                    Err(error) => Err(error),
                    Ok(slot) => match flags(arg.format_spec.formatter_args) {
                        Err(error) => Err(error),
                        Ok(args) => Ok(
                            (
                                before.push(
                                    BoundPieceView::Arg(
                                        Placeholder {
                                            slot,
                                            format_trait: arg.format_spec.format_trait,
                                            args,
                                            style: arg.format_spec.style,
                                        },
                                    ),
                                ),
                                if arg.arg is None {
                                    next + 1
                                } else {
                                    next
                                },
                            ),
                        ),
                    },
                },
            },
        }
    }
}

/// Whether a placeholder among `pieces` shows the argument `slot`.
pub open spec fn shown(pieces: Seq<BoundPieceView>, slot: Slot) -> bool {
    exists|k: int|
        0 <= k < pieces.len() && (#[trigger] pieces[k] matches BoundPieceView::Arg(placeholder)
            && placeholder.slot == slot)
}

/// Whether every argument is shown: each positional one, and each name
/// under one of the indices that hold it.
pub open spec fn all_shown(pieces: Seq<BoundPieceView>, positional: nat, names: Seq<Seq<char>>)
    -> bool {
    &&& forall|i: usize| i < positional ==> #[trigger] shown(pieces, Slot::Positional(i))
    &&& forall|j: int|
        0 <= j < names.len() ==> exists|k: usize|
            k < names.len() && names[k as int] == #[trigger] names[j] && #[trigger] shown(
                pieces,
                Slot::Named(k),
            )
}

/// What binding makes of a template for `positional` positional arguments
/// and the named arguments `names`: the bound pieces, or the first error in
/// the order of the pieces, or, where every piece can be bound, the error
/// that an argument is left over.
pub open spec fn bound(pieces: Seq<PieceView>, positional: nat, names: Seq<Seq<char>>) -> Result<
    Seq<BoundPieceView>,
    BindError,
> {
    match bound_pieces(pieces, positional, names) {
        Err(error) => Err(error),
        Ok((bound, _)) => if all_shown(bound, positional, names) {
            Ok(bound)
        } else {
            Err(BindError::Unused)
        },
    }
}

/// What `position` finds is the last index of the name, and without a find
/// the name is at no index.
pub proof fn lemma_position(names: Seq<Seq<char>>, name: Seq<char>)
    ensures
        match position(names, name) {
            Some(index) => 0 <= index < names.len() && names[index] == name && forall|k: int|
                index < k < names.len() ==> names[k] != name,
            None => forall|k: int| 0 <= k < names.len() ==> names[k] != name,
        },
    decreases names.len(),
{
    if names.len() > 0 && names.last() != name {
        lemma_position(names.drop_last(), name);
        assert forall|k: int| 0 <= k < names.len() - 1 implies names[k] == names.drop_last()[k] by {}
    }
}

/// Whether two strings hold the same text.
fn same_text(a: &Vec<char>, b: &str) -> (same: bool)
    ensures
        same == (a@ == b@),
{
    let other = chars_of(b);
    if a.len() != other.len() {
        return false;
    }
    let mut i: usize = 0;
    while i < a.len()
        invariant
            i <= a.len(),
            a.len() == other.len(),
            other@ == b@,
            forall|k: int| 0 <= k < i ==> a@[k] == other@[k],
        decreases a.len() - i,
    {
        if a[i] != other[i] {
            assert(a@[i as int] != b@[i as int]);
            return false;
        }
        i += 1;
    }
    assert(a@ =~= b@);
    true
}

/// The index under which `name` is found among `names`.
fn find(names: &[&str], name: &str) -> (found: Option<usize>)
    ensures
        match found {
            Some(index) => position(texts(names@), name@) == Some(index as int),
            None => position(texts(names@), name@) is None,
        },
{
    let name_chars = chars_of(name);
    let mut i = names.len();
    assert(texts(names@).take(i as int) =~= texts(names@));
    while i > 0
        invariant
            i <= names.len(),
            name_chars@ == name@,
            position(texts(names@), name@) == position(texts(names@).take(i as int), name@),
        decreases i,
    {
        let ghost here = texts(names@).take(i as int);
        proof {
            assert(here.last() == names@[i - 1]@);
            assert(here.drop_last() =~= texts(names@).take(i - 1));
        }
        if same_text(&name_chars, names[i - 1]) {
            return Some(i - 1);
        }
        i -= 1;
    }
    proof {
        assert(texts(names@).take(0).len() == 0);
    }
    None
}

/// A width or precision as a number.
fn count_number(count: &Option<Count<'_>>) -> (found: Result<Option<usize>, BindError>)
    ensures
        found == number(crate::template::view_opt(*count)),
{
    match count {
        None => Ok(None),
        Some(Count::Integer(n)) => Ok(Some(*n)),
        Some(Count::Parameter(_)) => Err(BindError::CountFromArgument),
    }
}

/// The flags of a placeholder with width and precision as numbers.
fn bind_flags(args: &crate::template::FormatterArgs<'_>) -> (found: Result<
    FormatterArgs,
    BindError,
>)
    ensures
        found == flags(args@),
{
    let width = count_number(&args.width)?;
    let precision = count_number(&args.precision)?;
    Ok(
        FormatterArgs {
            align: args.align,
            sign: args.sign,
            alternate: args.alternate,
            zero: args.zero,
            width,
            precision,
            debug_hex: args.debug_hex,
        },
    )
}

/// The argument that a placeholder shows.
fn bind_slot(arg: &Option<FormatArgRef<'_>>, next: usize, positional: usize, names: &[&str]) -> (found:
    Result<Slot, BindError>)
    ensures
        found == slot_of(
            crate::template::view_opt(*arg),
            next as nat,
            positional as nat,
            texts(names@),
        ),
        found matches Ok(Slot::Positional(index)) ==> index < positional,
        found matches Ok(Slot::Named(index)) ==> index < names@.len() && position(
            texts(names@),
            names@[index as int]@,
        ) == Some(index as int),
{
    match arg {
        None => if next < positional {
            Ok(Slot::Positional(next))
        } else {
            Err(BindError::MissingArgument)
        },
        Some(FormatArgRef::Positional(index)) => if *index < positional {
            Ok(Slot::Positional(*index))
        } else {
            Err(BindError::MissingPositional(*index))
        },
        Some(FormatArgRef::Named(name)) => {
            proof {
                lemma_position(texts(names@), name@);
            }
            match find(names, name) {
                Some(index) => Ok(Slot::Named(index)),
                None => Err(BindError::UnknownName),
            }
        },
    }
}

/// An error in binding the first pieces of a template is the error in
/// binding all of it.
pub proof fn lemma_bound_error_stays(
    pieces: Seq<PieceView>,
    k: int,
    positional: nat,
    names: Seq<Seq<char>>,
)
    requires
        0 <= k <= pieces.len(),
        bound_pieces(pieces.take(k), positional, names) is Err,
    ensures
        bound_pieces(pieces, positional, names) == bound_pieces(pieces.take(k), positional, names),
    decreases pieces.len() - k,
{
    if k == pieces.len() {
        assert(pieces.take(k) =~= pieces);
    } else {
        assert(pieces.take(k + 1).drop_last() =~= pieces.take(k));
        lemma_bound_error_stays(pieces, k + 1, positional, names);
    }
}

/// A template with a placeholder that refers to a positional argument
/// beyond those that are given is refused, whatever else it holds. Binding
/// writes nothing, so nothing has been written when it is refused.
pub proof fn lemma_missing_positional_is_refused(
    pieces: Seq<PieceView>,
    k: int,
    positional: nat,
    names: Seq<Seq<char>>,
)
    requires
        0 <= k < pieces.len(),
        pieces[k] matches PieceView::Arg(arg) && (arg.arg matches Some(
            ArgRefView::Positional(index),
        ) && index >= positional),
    ensures
        bound(pieces, positional, names) is Err,
{
    assert(pieces.take(k + 1).drop_last() =~= pieces.take(k));
    assert(pieces.take(k + 1).last() == pieces[k]);
    lemma_bound_error_stays(pieces, k + 1, positional, names);
}

/// A piece more shows what was shown before, and what the piece shows.
proof fn lemma_shown_push(pieces: Seq<BoundPieceView>, piece: BoundPieceView, slot: Slot)
    ensures
        shown(pieces.push(piece), slot) == (shown(pieces, slot) || (piece matches BoundPieceView::Arg(
            placeholder,
        ) && placeholder.slot == slot)),
{
    let more = pieces.push(piece);
    if shown(pieces, slot) {
        let k = choose|k: int|
            0 <= k < pieces.len() && (#[trigger] pieces[k] matches BoundPieceView::Arg(placeholder)
                && placeholder.slot == slot);
        assert(more[k] == pieces[k]);
    }
    if let BoundPieceView::Arg(placeholder) = piece {
        if placeholder.slot == slot {
            assert(more[pieces.len() as int] == piece);
        }
    }
    if shown(more, slot) {
        let k = choose|k: int|
            0 <= k < more.len() && (#[trigger] more[k] matches BoundPieceView::Arg(placeholder)
                && placeholder.slot == slot);
        if k < pieces.len() {
            assert(pieces[k] == more[k]);
        }
    }
}

/// A list of `n` flags, none of them set.
fn unset_flags(n: usize) -> (flags: Vec<bool>)
    ensures
        flags@.len() == n,
        forall|i: int| 0 <= i < n ==> !flags@[i],
{
    let mut flags: Vec<bool> = Vec::new();
    while flags.len() < n
        invariant
            flags@.len() <= n,
            forall|i: int| 0 <= i < flags@.len() ==> !flags@[i],
        decreases n - flags@.len(),
    {
        flags.push(false);
    }
    flags
}

impl<'a> Format<'a> {
    /// Binds the template to `positional` positional arguments and to the
    /// named arguments `names`. Placeholders without a reference take the
    /// positional arguments in their order; a number or a name picks its
    /// argument. Nothing is written: the result is the bound template, or
    /// the reason why the template does not fit.
    pub fn bind(&self, positional: usize, names: &[&str]) -> (found: Result<Binding<'a>, BindError>)
        ensures
            match found {
                Ok(binding) => bound(self@, positional as nat, texts(names@)) == Ok::<_, BindError>(
                    binding@,
                ),
                Err(error) => bound(self@, positional as nat, texts(names@)) == Err::<
                    Seq<BoundPieceView>,
                    _,
                >(error),
            },
    {
        let ghost all = texts(names@);
        let mut used_positional = unset_flags(positional);
        let mut used_named = unset_flags(names.len());
        let mut pieces: Vec<BoundPiece<'a>> = Vec::new();
        let mut next: usize = 0;
        let mut k: usize = 0;
        proof {
            assert(self@.take(0) =~= Seq::<PieceView>::empty());
            assert(bound_views(pieces@) =~= Seq::<BoundPieceView>::empty());
        }
        while k < self.pieces.len()
            invariant
                k <= self.pieces@.len(),
                next <= k,
                all == texts(names@),
                used_positional@.len() == positional,
                used_named@.len() == names@.len(),
                bound_pieces(self@.take(k as int), positional as nat, all) == Ok::<_, BindError>(
                    (bound_views(pieces@), next as nat),
                ),
                forall|i: usize|
                    i < positional ==> used_positional@[i as int] == #[trigger] shown(
                        bound_views(pieces@),
                        Slot::Positional(i),
                    ),
                forall|m: usize|
                    m < names@.len() ==> used_named@[m as int] == #[trigger] shown(
                        bound_views(pieces@),
                        Slot::Named(m),
                    ),
                forall|m: usize| #[trigger]
                    shown(bound_views(pieces@), Slot::Named(m)) ==> m < names@.len() && position(
                        all,
                        all[m as int],
                    ) == Some(m as int),
            decreases self.pieces@.len() - k,
        {
            let ghost before = bound_views(pieces@);
            let ghost source = self@.take(k + 1);
            proof {
                assert(source.drop_last() =~= self@.take(k as int));
                assert(source.last() == self.pieces@[k as int]@);
            }
            match &self.pieces[k] {
                Piece::Lit(text) => {
                    pieces.push(BoundPiece::Lit(*text));
                    proof {
                        let piece = BoundPieceView::Lit(text@);
                        assert(bound_views(pieces@) =~= before.push(piece));
                        assert forall|slot: Slot| #[trigger]
                            shown(bound_views(pieces@), slot) == shown(before, slot) by {
                            lemma_shown_push(before, piece, slot);
                        }
                    }
                },
                Piece::Arg(arg) => {
                    let slot = match bind_slot(&arg.arg, next, positional, names) {
                        Ok(slot) => slot,
                        Err(error) => {
                            proof {
                                lemma_bound_error_stays(self@, k + 1, positional as nat, all);
                            }
                            return Err(error);
                        },
                    };
                    let args = match bind_flags(&arg.format_spec.formatter_args) {
                        Ok(args) => args,
                        Err(error) => {
                            proof {
                                lemma_bound_error_stays(self@, k + 1, positional as nat, all);
                            }
                            return Err(error);
                        },
                    };
                    match slot {
                        Slot::Positional(index) => {
                            used_positional.set(index, true);
                        },
                        Slot::Named(index) => {
                            used_named.set(index, true);
                        },
                    }
                    if arg.arg.is_none() {
                        next += 1;
                    }
                    let placeholder = Placeholder {
                        slot,
                        format_trait: arg.format_spec.format_trait,
                        args,
                        style: arg.format_spec.style,
                    };
                    pieces.push(BoundPiece::Arg(placeholder));
                    proof {
                        let piece = BoundPieceView::Arg(placeholder);
                        assert(bound_views(pieces@) =~= before.push(piece));
                        assert forall|other: Slot| #[trigger]
                            shown(bound_views(pieces@), other) == (shown(before, other) || other
                                == slot) by {
                            lemma_shown_push(before, piece, other);
                        }
                    }
                },
            }
            k += 1;
        }
        proof {
            assert(self@.take(k as int) =~= self@);
        }
        let ghost result = bound_views(pieces@);
        let mut i: usize = 0;
        while i < positional
            invariant
                i <= positional,
                all == texts(names@),
                used_positional@.len() == positional,
                result == bound_views(pieces@),
                bound_pieces(self@, positional as nat, all) == Ok::<_, BindError>(
                    (result, next as nat),
                ),
                forall|i: usize|
                    i < positional ==> used_positional@[i as int] == #[trigger] shown(
                        result,
                        Slot::Positional(i),
                    ),
                forall|j: usize| j < i ==> #[trigger] shown(result, Slot::Positional(j)),
            decreases positional - i,
        {
            if !used_positional[i] {
                assert(!shown(result, Slot::Positional(i)));
                assert(!all_shown(result, positional as nat, all));
                return Err(BindError::Unused);
            }
            i += 1;
        }
        let mut j: usize = 0;
        while j < names.len()
            invariant
                j <= names@.len(),
                all == texts(names@),
                used_named@.len() == names@.len(),
                result == bound_views(pieces@),
                bound_pieces(self@, positional as nat, all) == Ok::<_, BindError>(
                    (result, next as nat),
                ),
                forall|j: usize| j < positional ==> #[trigger] shown(result, Slot::Positional(j)),
                forall|m: usize|
                    m < names@.len() ==> used_named@[m as int] == #[trigger] shown(
                        result,
                        Slot::Named(m),
                    ),
                forall|m: usize| #[trigger]
                    shown(result, Slot::Named(m)) ==> m < names@.len() && position(
                        all,
                        all[m as int],
                    ) == Some(m as int),
                forall|q: int|
                    0 <= q < j ==> exists|m: usize|
                        m < all.len() && all[m as int] == #[trigger] all[q] && #[trigger] shown(
                            result,
                            Slot::Named(m),
                        ),
            decreases names@.len() - j,
        {
            proof {
                lemma_position(all, all[j as int]);
            }
            // The name is found at the least under its own index.
            if let Some(index) = find(names, names[j]) {
                if !used_named[index] {
                    proof {
                        assert forall|m: usize|
                            m < all.len() && all[m as int] == all[j as int] implies !shown(
                            result,
                            Slot::Named(m),
                        ) by {
                            if shown(result, Slot::Named(m)) {
                                assert(position(all, all[m as int]) == Some(m as int));
                            }
                        }
                        assert(!all_shown(result, positional as nat, all));
                    }
                    return Err(BindError::Unused);
                }
                assert(shown(result, Slot::Named(index)));
            }
            j += 1;
        }
        assert(all_shown(result, positional as nat, all));
        Ok(Binding { pieces })
    }
}

/// How many placeholders there are among `pieces`.
pub open spec fn placeholders(pieces: Seq<BoundPieceView>) -> nat
    decreases pieces.len(),
{
    if pieces.len() == 0 {
        0
    } else if pieces.last() is Arg {
        placeholders(pieces.drop_last()) + 1
    } else {
        placeholders(pieces.drop_last())
    }
}

/// Whether `content` is of the kind that the placeholder asks for: a styled
/// string or a bound template where the selector is that of styled values,
/// and a text of the host under every other selector.
pub open spec fn fits(placeholder: Placeholder, content: ContentView) -> bool {
    (placeholder.format_trait == FormatTrait::Stylish) != (content is Text)
}

/// The content that belongs to the piece `k`, if that is a placeholder: the
/// contents go to the placeholders in their order.
pub open spec fn content_for(pieces: Seq<BoundPieceView>, contents: Seq<ContentView>, k: int)
    -> ContentView {
    contents[placeholders(pieces.take(k)) as int]
}

/// Whether `contents` holds one content for each placeholder among `pieces`,
/// each of the kind that its placeholder asks for.
pub open spec fn fillable(pieces: Seq<BoundPieceView>, contents: Seq<ContentView>) -> bool {
    &&& placeholders(pieces) == contents.len()
    &&& forall|k: int|
        0 <= k < pieces.len() ==> (#[trigger] pieces[k] matches BoundPieceView::Arg(placeholder)
            ==> fits(placeholder, content_for(pieces, contents, k)))
}

/// The bound template with the content of each placeholder in its place.
pub open spec fn filled(pieces: Seq<BoundPieceView>, contents: Seq<ContentView>) -> Seq<
    ArgumentView,
> {
    Seq::new(
        pieces.len(),
        |k: int|
            match pieces[k] {
                BoundPieceView::Lit(text) => ArgumentView::Lit(text),
                BoundPieceView::Arg(placeholder) => ArgumentView::Arg(
                    placeholder.args,
                    placeholder.style,
                    content_for(pieces, contents, k),
                ),
            },
    )
}

/// The mathematical values of a list of contents.
pub open spec fn content_views<'a>(contents: Seq<Content<'a>>) -> Seq<ContentView> {
    Seq::new(contents.len(), |i: int| contents[i]@)
}

/// Among the first pieces there are no more placeholders than among all.
proof fn lemma_placeholders_grow(pieces: Seq<BoundPieceView>, k: int)
    requires
        0 <= k <= pieces.len(),
    ensures
        placeholders(pieces.take(k)) <= placeholders(pieces),
    decreases pieces.len() - k,
{
    if k == pieces.len() {
        assert(pieces.take(k) =~= pieces);
    } else {
        assert(pieces.take(k + 1).drop_last() =~= pieces.take(k));
        lemma_placeholders_grow(pieces, k + 1);
    }
}

impl<'a> Arguments<'a> {
    /// Puts the content of each placeholder in its place. `contents` holds
    /// them in the order of the placeholders. The result is `None` where
    /// their number is not that of the placeholders, or where one is not of
    /// the kind that its placeholder asks for.
    pub fn new(binding: &Binding<'a>, contents: &[Content<'a>]) -> (found: Option<Arguments<'a>>)
        ensures
            found is Some == fillable(binding@, content_views(contents@)),
            found matches Some(arguments) ==> arguments@ == filled(
                binding@,
                content_views(contents@),
            ),
    {
        let ghost pieces = binding@;
        let ghost given = content_views(contents@);
        let mut out: Vec<Argument<'a>> = Vec::new();
        let mut j: usize = 0;
        let mut k: usize = 0;
        proof {
            assert(pieces.take(0) =~= Seq::<BoundPieceView>::empty());
        }
        while k < binding.pieces.len()
            invariant
                k <= binding.pieces@.len(),
                pieces == binding@,
                given == content_views(contents@),
                out@.len() == k,
                j == placeholders(pieces.take(k as int)),
                j <= contents@.len(),
                forall|q: int|
                    0 <= q < k ==> argument_view(#[trigger] out@[q]) == filled(pieces, given)[q],
                forall|q: int|
                    0 <= q < k ==> (#[trigger] pieces[q] matches BoundPieceView::Arg(placeholder)
                        ==> fits(placeholder, content_for(pieces, given, q))),
            decreases binding.pieces@.len() - k,
        {
            proof {
                assert(pieces.take(k + 1).drop_last() =~= pieces.take(k as int));
                assert(pieces.take(k + 1).last() == pieces[k as int]);
                lemma_placeholders_grow(pieces, k + 1);
            }
            match &binding.pieces[k] {
                BoundPiece::Lit(text) => {
                    out.push(Argument::Lit(*text));
                },
                BoundPiece::Arg(placeholder) => {
                    if j >= contents.len() {
                        return None;
                    }
                    let content = contents[j];
                    let styled = match placeholder.format_trait {
                        FormatTrait::Stylish => true,
                        _ => false,
                    };
                    let text = match content {
                        Content::Text(_) => true,
                        _ => false,
                    };
                    if styled == text {
                        assert(!fits(*placeholder, content_for(pieces, given, k as int)));
                        return None;
                    }
                    out.push(Argument::Arg(placeholder.args, placeholder.style, content));
                    j += 1;
                },
            }
            k += 1;
        }
        proof {
            assert(pieces.take(k as int) =~= pieces);
        }
        if j != contents.len() {
            return None;
        }
        let arguments = Arguments { pieces: out };
        proof {
            lemma_pieces_view(arguments.pieces@);
            assert(arguments@ =~= filled(pieces, given));
        }
        Some(arguments)
    }
}

} // verus!
