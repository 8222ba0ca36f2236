//! The style model: colours, intensity, and the operations that change them.

use vstd::prelude::*;

verus! {

/// A colour of the terminal palette.
#[derive(Copy, Clone, Debug, PartialEq, Eq, Structural)]
#[non_exhaustive]
pub enum Color {
    Black,
    Red,
    Green,
    Yellow,
    Blue,
    Magenta,
    Cyan,
    White,
    BrightBlack,
    BrightRed,
    BrightGreen,
    BrightYellow,
    BrightBlue,
    BrightMagenta,
    BrightCyan,
    BrightWhite,
    /// Whatever the output device shows when no colour is set.
    Default,
}

/// How heavy the text is drawn.
#[derive(Copy, Clone, Debug, PartialEq, Eq, Structural)]
#[non_exhaustive]
pub enum Intensity {
    Normal,
    Bold,
    Faint,
}

/// The complete style of a run of text.
#[derive(Copy, Clone, Debug, PartialEq, Eq, Structural)]
#[non_exhaustive]
pub struct Style {
    pub foreground: Color,
    pub background: Color,
    pub intensity: Intensity,
}

/// The fields in which one style differs from another; a field that is the
/// same in both is `None`.
#[derive(Copy, Clone, Debug, PartialEq, Eq, Structural)]
#[non_exhaustive]
pub struct StyleDiff {
    pub foreground: Option<Color>,
    pub background: Option<Color>,
    pub intensity: Option<Intensity>,
}

/// Sets the foreground colour and leaves the rest of a style alone.
#[derive(Copy, Clone, Debug, PartialEq, Eq, Structural)]
pub struct Foreground(pub Color);

/// Sets the background colour and leaves the rest of a style alone.
#[derive(Copy, Clone, Debug, PartialEq, Eq, Structural)]
pub struct Background(pub Color);

/// A change to a style. Changes compose from left to right: the last one to
/// touch a field decides it, and a field that none touches passes through.
pub trait Restyle {
    /// The style that this change makes of `style`.
    spec fn restyled(&self, style: Style) -> Style;

    fn apply(&self, style: Style) -> (out: Style)
        ensures
            out == self.restyled(style),
    ;
}

impl Default for Color {
    #[inline]
    fn default() -> (out: Self)
        ensures
            out == Color::Default,
    {
        Color::Default
    }
}

impl Default for Intensity {
    #[inline]
    fn default() -> (out: Self)
        ensures
            out == Intensity::Normal,
    {
        Intensity::Normal
    }
}

impl Default for Style {
    #[inline]
    fn default() -> (out: Self)
        ensures
            out == Style::plain(),
    {
        Style { foreground: Color::Default, background: Color::Default, intensity: Intensity::Normal }
    }
}

impl Default for StyleDiff {
    #[inline]
    fn default() -> (out: Self)
        ensures
            out == StyleDiff::none(),
    {
        StyleDiff { foreground: None, background: None, intensity: None }
    }
}

impl Default for Foreground {
    #[inline]
    fn default() -> (out: Self)
        ensures
            out == Foreground(Color::Default),
    {
        Foreground(Color::Default)
    }
}

impl Default for Background {
    #[inline]
    fn default() -> (out: Self)
        ensures
            out == Background(Color::Default),
    {
        Background(Color::Default)
    }
}

/// `Some(new)` where `new` differs from `original`, `None` where it does not.
pub open spec fn changed<T>(original: T, new: T) -> Option<T> {
    if original == new {
        None
    } else {
        Some(new)
    }
}

impl Style {
    /// The style of unstyled text: default colours, normal intensity.
    pub open spec fn plain() -> Style {
        Style { foreground: Color::Default, background: Color::Default, intensity: Intensity::Normal }
    }

    /// This style after the change `adj`.
    pub open spec fn spec_with<R: Restyle>(self, adj: R) -> Style {
        adj.restyled(self)
    }

    /// The change that leads from `original` to this style.
    pub open spec fn spec_diff_from(self, original: Style) -> StyleDiff {
        StyleDiff {
            foreground: changed(original.foreground, self.foreground),
            background: changed(original.background, self.background),
            intensity: changed(original.intensity, self.intensity),
        }
    }

    /// Applies a change to this style.
    pub fn with<R: Restyle>(self, adj: R) -> (out: Self)
        ensures
            out == self.spec_with(adj),
    {
        adj.apply(self)
    }

    /// Finds the fields in which this style differs from `original`.
    #[inline]
    pub fn diff_from(self, original: Style) -> (out: StyleDiff)
        ensures
            out == self.spec_diff_from(original),
    {
        StyleDiff {
            foreground: if original.foreground == self.foreground {
                None
            } else {
                Some(self.foreground)
            },
            background: if original.background == self.background {
                None
            } else {
                Some(self.background)
            },
            intensity: if original.intensity == self.intensity {
                None
            } else {
                Some(self.intensity)
            },
        }
    }
}

impl StyleDiff {
    /// The change that changes nothing.
    pub open spec fn none() -> StyleDiff {
        StyleDiff { foreground: None, background: None, intensity: None }
    }
}

impl<T: Restyle + ?Sized> Restyle for &T {
    open spec fn restyled(&self, style: Style) -> Style {
        (**self).restyled(style)
    }

    fn apply(&self, style: Style) -> (out: Style) {
        (**self).apply(style)
    }
}

impl<T: Restyle + ?Sized> Restyle for Box<T> {
    open spec fn restyled(&self, style: Style) -> Style {
        (**self).restyled(style)
    }

    fn apply(&self, style: Style) -> (out: Style) {
        (**self).apply(style)
    }
}

/// The style that the changes of `changes` make of `style`, applied from
/// the first to the last.
pub open spec fn restyled_by_all<T: Restyle>(changes: Seq<T>, style: Style) -> Style
    decreases changes.len(),
{
    if changes.len() == 0 {
        style
    } else {
        changes.last().restyled(restyled_by_all(changes.drop_last(), style))
    }
}

impl<T: Restyle> Restyle for [T] {
    open spec fn restyled(&self, style: Style) -> Style {
        restyled_by_all(self@, style)
    }

    fn apply(&self, style: Style) -> (out: Style) {
        let mut out = style;
        let mut i: usize = 0;
        while i < self.len()
            invariant
                i <= self@.len(),
                out == restyled_by_all(self@.take(i as int), style),
            decreases self@.len() - i,
        {
            proof {
                assert(self@.take(i + 1).drop_last() =~= self@.take(i as int));
            }
            out = self[i].apply(out);
            i += 1;
        }
        proof {
            assert(self@.take(i as int) =~= self@);
        }
        out
    }
}

impl<T: Restyle> Restyle for Option<T> {
    open spec fn restyled(&self, style: Style) -> Style {
        match self {
            Some(change) => change.restyled(style),
            None => style,
        }
    }

    fn apply(&self, style: Style) -> (out: Style) {
        match self {
            Some(change) => change.apply(style),
            None => style,
        }
    }
}

impl Restyle for StyleDiff {
    open spec fn restyled(&self, style: Style) -> Style {
        Style {
            foreground: match self.foreground {
                Some(color) => color,
                None => style.foreground,
            },
            background: match self.background {
                Some(color) => color,
                None => style.background,
            },
            intensity: match self.intensity {
                Some(intensity) => intensity,
                None => style.intensity,
            },
        }
    }

    #[inline]
    fn apply(&self, style: Style) -> (out: Style) {
        let foreground = match self.foreground {
            Some(color) => Some(Foreground(color)),
            None => None,
        };
        let background = match self.background {
            Some(color) => Some(Background(color)),
            None => None,
        };
        (foreground, background, self.intensity).apply(style)
    }
}

impl Restyle for Style {
    /// A whole style replaces the one it is applied to.
    open spec fn restyled(&self, style: Style) -> Style {
        *self
    }

    #[inline]
    fn apply(&self, _style: Style) -> (out: Style) {
        *self
    }
}

impl Restyle for Foreground {
    open spec fn restyled(&self, style: Style) -> Style {
        Style { foreground: self.0, ..style }
    }

    #[inline]
    fn apply(&self, style: Style) -> (out: Style) {
        Style { foreground: self.0, ..style }
    }
}

impl Restyle for Background {
    open spec fn restyled(&self, style: Style) -> Style {
        Style { background: self.0, ..style }
    }

    #[inline]
    fn apply(&self, style: Style) -> (out: Style) {
        Style { background: self.0, ..style }
    }
}

impl Restyle for Intensity {
    open spec fn restyled(&self, style: Style) -> Style {
        Style { intensity: *self, ..style }
    }

    #[inline]
    fn apply(&self, style: Style) -> (out: Style) {
        Style { intensity: *self, ..style }
    }
}

impl Restyle for () {
    open spec fn restyled(&self, style: Style) -> Style {
        style
    }

    #[inline]
    fn apply(&self, style: Style) -> (out: Style) {
        style
    }
}

impl<T: Restyle, U: Restyle> Restyle for (T, U) {
    open spec fn restyled(&self, style: Style) -> Style {
        self.1.restyled(self.0.restyled(style))
    }

    fn apply(&self, style: Style) -> (out: Style) {
        let first = self.0.apply(style);
        self.1.apply(first)
    }
}

impl<T: Restyle, U: Restyle, V: Restyle> Restyle for (T, U, V) {
    open spec fn restyled(&self, style: Style) -> Style {
        self.2.restyled(self.1.restyled(self.0.restyled(style)))
    }

    fn apply(&self, style: Style) -> (out: Style) {
        let first = self.0.apply(style);
        let second = self.1.apply(first);
        let out = self.2.apply(second);
        assert(out == self.2.restyled(self.1.restyled(self.0.restyled(style))));
        assert(self.restyled(style) == self.2.restyled(self.1.restyled(self.0.restyled(style))));
        out
    }
}

/// Applying to `base` the difference of `target` from `base` gives `target`
/// back, whatever the two styles are.
pub proof fn lemma_diff_restores_target(base: Style, target: Style)
    ensures
        base.spec_with(target.spec_diff_from(base)) == target,
{
}

/// Changes compose associatively: how three changes in a row are grouped
/// makes no difference.
pub proof fn lemma_composition_is_associative<A: Restyle, B: Restyle, C: Restyle>(
    first: A,
    second: B,
    third: C,
    style: Style,
)
    ensures
        ((first, second), third).restyled(style) == (first, (second, third)).restyled(style),
        (first, second, third).restyled(style) == ((first, second), third).restyled(style),
{
}

/// Of two changes to the same field the later one decides.
pub proof fn lemma_later_change_decides(style: Style, first: StyleDiff, second: StyleDiff)
    ensures
        (first, second).restyled(style).foreground == (match second.foreground {
            Some(color) => color,
            None => first.restyled(style).foreground,
        }),
        (first, second).restyled(style).background == (match second.background {
            Some(color) => color,
            None => first.restyled(style).background,
        }),
        (first, second).restyled(style).intensity == (match second.intensity {
            Some(intensity) => intensity,
            None => first.restyled(style).intensity,
        }),
{
}

/// Changes to different fields do not disturb each other: they give the
/// same style in any order.
pub proof fn lemma_fields_are_independent(
    style: Style,
    foreground: Foreground,
    background: Background,
    intensity: Intensity,
)
    ensures
        (foreground, background).restyled(style) == (background, foreground).restyled(style),
        (foreground, intensity).restyled(style) == (intensity, foreground).restyled(style),
        (background, intensity).restyled(style) == (intensity, background).restyled(style),
        (foreground, background, intensity).restyled(style) == (Style {
            foreground: foreground.0,
            background: background.0,
            intensity,
        }),
{
}

} // verus!
