//! The colored water that goes into bottles: single units, runs of units,
//! and units whose color may be unknown.
use vstd::prelude::*;

verus! {

/// One unit of colored water, with a specific color
#[derive(Debug, Clone, Copy, PartialEq, Eq, Hash, Structural)]
pub enum ColoredWaterUnit {
    Red,
    Maroon,
    Lime,
    Green,
    Aqua,
    Blue,
    Yellow,
    Orange,
    Pink,
    Purple,
    Tan,
    Brown,
}

/// Number of distinct colors
pub const COLOR_COUNT: usize = 12;

/// Position of a color in the order in which the variants are declared (`Red` is 0, `Brown` is 11)
pub open spec fn color_index(c: ColoredWaterUnit) -> nat {
    match c {
        ColoredWaterUnit::Red => 0,
        ColoredWaterUnit::Maroon => 1,
        ColoredWaterUnit::Lime => 2,
        ColoredWaterUnit::Green => 3,
        ColoredWaterUnit::Aqua => 4,
        ColoredWaterUnit::Blue => 5,
        ColoredWaterUnit::Yellow => 6,
        ColoredWaterUnit::Orange => 7,
        ColoredWaterUnit::Pink => 8,
        ColoredWaterUnit::Purple => 9,
        ColoredWaterUnit::Tan => 10,
        ColoredWaterUnit::Brown => 11,
    }
}

/// The color at a position of the declaration order (positions past the last give the last color)
pub open spec fn color_at(i: int) -> ColoredWaterUnit {
    if i <= 0 {
        ColoredWaterUnit::Red
    } else if i == 1 {
        ColoredWaterUnit::Maroon
    } else if i == 2 {
        ColoredWaterUnit::Lime
    } else if i == 3 {
        ColoredWaterUnit::Green
    } else if i == 4 {
        ColoredWaterUnit::Aqua
    } else if i == 5 {
        ColoredWaterUnit::Blue
    } else if i == 6 {
        ColoredWaterUnit::Yellow
    } else if i == 7 {
        ColoredWaterUnit::Orange
    } else if i == 8 {
        ColoredWaterUnit::Pink
    } else if i == 9 {
        ColoredWaterUnit::Purple
    } else if i == 10 {
        ColoredWaterUnit::Tan
    } else {
        ColoredWaterUnit::Brown
    }
}

/// `color_index` and `color_at` are inverse to each other
pub proof fn lemma_color_index_inverse(c: ColoredWaterUnit)
    ensures
        color_at(color_index(c) as int) == c,
        color_index(c) < COLOR_COUNT,
{
}

/// Distinct colors have distinct positions
pub proof fn lemma_color_index_injective(a: ColoredWaterUnit, b: ColoredWaterUnit)
    ensures
        color_index(a) == color_index(b) <==> a == b,
{
}

impl ColoredWaterUnit {
    /// The position of this color in the declaration order
    pub fn ordinal(&self) -> (r: u8)
        ensures
            r == color_index(*self),
            r < COLOR_COUNT,
    {
        match self {
            ColoredWaterUnit::Red => 0,
            ColoredWaterUnit::Maroon => 1,
            ColoredWaterUnit::Lime => 2,
            ColoredWaterUnit::Green => 3,
            ColoredWaterUnit::Aqua => 4,
            ColoredWaterUnit::Blue => 5,
            ColoredWaterUnit::Yellow => 6,
            ColoredWaterUnit::Orange => 7,
            ColoredWaterUnit::Pink => 8,
            ColoredWaterUnit::Purple => 9,
            ColoredWaterUnit::Tan => 10,
            ColoredWaterUnit::Brown => 11,
        }
    }

    /// The color at the given position of the declaration order, if there is one
    pub fn from_ordinal(i: usize) -> (r: Option<ColoredWaterUnit>)
        ensures
            i < COLOR_COUNT ==> r == Some(color_at(i as int)),
            i >= COLOR_COUNT ==> r is None,
    {
        if i == 0 {
            Some(ColoredWaterUnit::Red)
        } else if i == 1 {
            Some(ColoredWaterUnit::Maroon)
        } else if i == 2 {
            Some(ColoredWaterUnit::Lime)
        } else if i == 3 {
            Some(ColoredWaterUnit::Green)
        } else if i == 4 {
            Some(ColoredWaterUnit::Aqua)
        } else if i == 5 {
            Some(ColoredWaterUnit::Blue)
        } else if i == 6 {
            Some(ColoredWaterUnit::Yellow)
        } else if i == 7 {
            Some(ColoredWaterUnit::Orange)
        } else if i == 8 {
            Some(ColoredWaterUnit::Pink)
        } else if i == 9 {
            Some(ColoredWaterUnit::Purple)
        } else if i == 10 {
            Some(ColoredWaterUnit::Tan)
        } else if i == 11 {
            Some(ColoredWaterUnit::Brown)
        } else {
            None
        }
    }

    /// Return the 'next' variant, or [None] if there is no next variant
    pub fn next(&self) -> (r: Option<ColoredWaterUnit>)
        ensures
            color_index(*self) + 1 < COLOR_COUNT ==> r == Some(color_at(color_index(*self) + 1int)),
            color_index(*self) + 1 >= COLOR_COUNT ==> r is None,
    {
        match self {
            Self::Red => Some(Self::Maroon),
            Self::Maroon => Some(Self::Lime),
            Self::Lime => Some(Self::Green),
            Self::Green => Some(Self::Aqua),
            Self::Aqua => Some(Self::Blue),
            Self::Blue => Some(Self::Yellow),
            Self::Yellow => Some(Self::Orange),
            Self::Orange => Some(Self::Pink),
            Self::Pink => Some(Self::Purple),
            Self::Purple => Some(Self::Tan),
            Self::Tan => Some(Self::Brown),
            Self::Brown => None,
        }
    }

    /// Return the 'previous' variant, or [None] if there is no previous variant
    pub fn prev(&self) -> (r: Option<ColoredWaterUnit>)
        ensures
            color_index(*self) > 0 ==> r == Some(color_at(color_index(*self) - 1)),
            color_index(*self) == 0 ==> r is None,
    {
        match self {
            Self::Red => None,
            Self::Maroon => Some(Self::Red),
            Self::Lime => Some(Self::Maroon),
            Self::Green => Some(Self::Lime),
            Self::Aqua => Some(Self::Green),
            Self::Blue => Some(Self::Aqua),
            Self::Yellow => Some(Self::Blue),
            Self::Orange => Some(Self::Yellow),
            Self::Pink => Some(Self::Orange),
            Self::Purple => Some(Self::Pink),
            Self::Tan => Some(Self::Purple),
            Self::Brown => Some(Self::Tan),
        }
    }

    /// Return the 'first' variant
    pub fn first() -> (r: ColoredWaterUnit)
        ensures
            r == color_at(0),
            color_index(r) == 0,
    {
        Self::Red
    }

    /// Return the 'last' variant
    pub fn last() -> (r: ColoredWaterUnit)
        ensures
            r == color_at(COLOR_COUNT - 1),
            color_index(r) == COLOR_COUNT - 1,
    {
        Self::Brown
    }
}

/// Stepping to the next color and back leads to the same color, and so does stepping back and
/// forward again
pub proof fn lemma_next_prev(c: ColoredWaterUnit)
    ensures
        color_index(c) + 1 < COLOR_COUNT ==> color_index(color_at(color_index(c) + 1int)) > 0 && color_at(
            color_index(color_at(color_index(c) + 1int)) - 1,
        ) == c,
        color_index(c) > 0 ==> color_index(color_at(color_index(c) - 1)) + 1 < COLOR_COUNT && color_at(
            color_index(color_at(color_index(c) - 1)) + 1int,
        ) == c,
{
    lemma_color_index_inverse(c);
    if color_index(c) + 1 < COLOR_COUNT {
        lemma_color_index_inverse(color_at(color_index(c) + 1int));
    }
    if color_index(c) > 0 {
        lemma_color_index_inverse(color_at(color_index(c) - 1));
    }
}

/// The red, green and blue components of the color a unit is drawn in
pub open spec fn color_rgb(c: ColoredWaterUnit) -> (u8, u8, u8) {
    match c {
        ColoredWaterUnit::Red => (255, 0, 0),
        ColoredWaterUnit::Maroon => (128, 0, 0),
        ColoredWaterUnit::Lime => (0, 255, 0),
        ColoredWaterUnit::Green => (0, 128, 0),
        ColoredWaterUnit::Aqua => (0, 255, 255),
        ColoredWaterUnit::Blue => (0, 0, 255),
        ColoredWaterUnit::Yellow => (255, 215, 0),
        ColoredWaterUnit::Orange => (254, 138, 24),
        ColoredWaterUnit::Pink => (255, 105, 180),
        ColoredWaterUnit::Purple => (70, 20, 101),
        ColoredWaterUnit::Tan => (210, 180, 140),
        ColoredWaterUnit::Brown => (139, 69, 19),
    }
}

impl ColoredWaterUnit {
    /// The red, green and blue components of the color this unit is drawn in
    pub fn rgb(&self) -> (r: (u8, u8, u8))
        ensures
            r == color_rgb(*self),
    {
        match self {
            ColoredWaterUnit::Red => (255, 0, 0),
            ColoredWaterUnit::Maroon => (128, 0, 0),
            ColoredWaterUnit::Lime => (0, 255, 0),
            ColoredWaterUnit::Green => (0, 128, 0),
            ColoredWaterUnit::Aqua => (0, 255, 255),
            ColoredWaterUnit::Blue => (0, 0, 255),
            ColoredWaterUnit::Yellow => (255, 215, 0),
            ColoredWaterUnit::Orange => (254, 138, 24),
            ColoredWaterUnit::Pink => (255, 105, 180),
            ColoredWaterUnit::Purple => (70, 20, 101),
            ColoredWaterUnit::Tan => (210, 180, 140),
            ColoredWaterUnit::Brown => (139, 69, 19),
        }
    }
}

/// A group of consecutive [ColoredWaterUnit]s that are all the same color
#[derive(Debug, Clone, Copy, PartialEq, Eq, Structural)]
pub struct ColoredWaterRun {
    pub color: ColoredWaterUnit,
    pub size: usize,
}

/// Reasons converting from a `&[ColoredWaterUnit]` may fail
#[derive(Debug, Clone, Copy, PartialEq, Eq, Structural)]
pub enum ColoredWaterRunError {
    /// The source is empty and it is therefore impossible to know what color to use
    Empty,
    /// The given source has multiple colors
    MismatchedColors,
}

/// Whether every unit of `s` is `c`
pub open spec fn all_units_are(s: Seq<ColoredWaterUnit>, c: ColoredWaterUnit) -> bool {
    forall|i: int| 0 <= i < s.len() ==> s[i] == c
}

/// What converting a sequence of units into a single run gives
pub open spec fn run_of(s: Seq<ColoredWaterUnit>) -> Result<ColoredWaterRun, ColoredWaterRunError> {
    if s.len() == 0 {
        Err(ColoredWaterRunError::Empty)
    } else if all_units_are(s, s[0]) && s.len() <= usize::MAX {
        Ok(ColoredWaterRun { color: s[0], size: s.len() as usize })
    } else {
        Err(ColoredWaterRunError::MismatchedColors)
    }
}

/// The sequence of units a run stands for
pub open spec fn run_units(r: ColoredWaterRun) -> Seq<ColoredWaterUnit> {
    Seq::new(r.size as nat, |i: int| r.color)
}

impl ColoredWaterRun {
    /// Convert a sequence of units into a single run; fails when the sequence is empty
    /// or holds more than one color
    pub fn try_from_units(value: &[ColoredWaterUnit]) -> (r: Result<ColoredWaterRun, ColoredWaterRunError>)
        ensures
            r == run_of(value@),
    {
        let mut encountered_color: Option<ColoredWaterUnit> = None;
        let mut i: usize = 0;
        while i < value.len()
            invariant
                i <= value@.len(),
                i == 0 <==> encountered_color is None,
                encountered_color matches Some(c) ==> c == value@[0] && all_units_are(
                    value@.take(i as int),
                    c,
                ),
            decreases value@.len() - i,
        {
            let color_unit = value[i];
            match encountered_color {
                None => {
                    encountered_color = Some(color_unit);
                },
                Some(c) => {
                    if c != color_unit {
                        assert(!all_units_are(value@, value@[0]));
                        return Err(ColoredWaterRunError::MismatchedColors);
                    }
                },
            }
            i = i + 1;
            assert(value@.take(i as int) =~= value@.take(i - 1) + seq![color_unit]);
        }
        assert(value@.take(i as int) =~= value@);
        match encountered_color {
            Some(color) => Ok(ColoredWaterRun { color, size: value.len() }),
            None => Err(ColoredWaterRunError::Empty),
        }
    }

    /// The units this run stands for, as a [Vec]
    pub fn to_units(&self) -> (r: Vec<ColoredWaterUnit>)
        ensures
            r@ == run_units(*self),
    {
        let mut out: Vec<ColoredWaterUnit> = Vec::new();
        let mut i: usize = 0;
        while i < self.size
            invariant
                i <= self.size,
                out@ =~= Seq::new(i as nat, |j: int| self.color),
            decreases self.size - i,
        {
            out.push(self.color);
            i = i + 1;
        }
        out
    }
}

/// A copy of a sequence of units
pub fn copy_units(v: &[ColoredWaterUnit]) -> (r: Vec<ColoredWaterUnit>)
    ensures
        r@ == v@,
{
    let mut out: Vec<ColoredWaterUnit> = Vec::new();
    let mut i: usize = 0;
    while i < v.len()
        invariant
            i <= v@.len(),
            out@ == v@.take(i as int),
        decreases v@.len() - i,
    {
        out.push(v[i]);
        i = i + 1;
        assert(out@ =~= v@.take(i as int));
    }
    assert(v@.take(i as int) =~= v@);
    out
}

/// A [ColoredWaterUnit] that may be unknown, used with partially known bottles
#[derive(Debug, Clone, Copy, PartialEq, Eq, Hash, Structural)]
pub enum PartialColoredWaterUnit {
    /// This unit has a known color (includes the specific color)
    Color(ColoredWaterUnit),
    /// This unit has a color, but which color specifically is not known
    UnknownColor,
}

/// Position of a possibly unknown unit in the order used by [PartialColoredWaterIter]:
/// the unknown color comes first, followed by the known colors in declaration order
pub open spec fn partial_index(u: PartialColoredWaterUnit) -> nat {
    match u {
        PartialColoredWaterUnit::UnknownColor => 0,
        PartialColoredWaterUnit::Color(c) => color_index(c) + 1,
    }
}

/// The possibly unknown unit at a position of the order used by [PartialColoredWaterIter]
pub open spec fn partial_at(i: int) -> PartialColoredWaterUnit {
    if i <= 0 {
        PartialColoredWaterUnit::UnknownColor
    } else {
        PartialColoredWaterUnit::Color(color_at(i - 1))
    }
}

/// Number of distinct possibly unknown units
pub const PARTIAL_COUNT: usize = 13;

impl PartialColoredWaterUnit {
    /// Return the 'next' value, or [None] if there is no next value.
    ///
    /// The unknown color comes first, followed by the known colors in declaration order.
    pub fn next(&self) -> (r: Option<PartialColoredWaterUnit>)
        ensures
            partial_index(*self) + 1 < PARTIAL_COUNT ==> r == Some(partial_at(partial_index(*self) + 1int)),
            partial_index(*self) + 1 >= PARTIAL_COUNT ==> r is None,
    {
        match self {
            PartialColoredWaterUnit::UnknownColor => Some(
                PartialColoredWaterUnit::Color(ColoredWaterUnit::first()),
            ),
            PartialColoredWaterUnit::Color(c) => match c.next() {
                Some(n) => Some(PartialColoredWaterUnit::Color(n)),
                None => None,
            },
        }
    }

    /// Return the 'previous' value, or [None] if there is no previous value
    pub fn prev(&self) -> (r: Option<PartialColoredWaterUnit>)
        ensures
            partial_index(*self) > 0 ==> r == Some(partial_at(partial_index(*self) - 1)),
            partial_index(*self) == 0 ==> r is None,
    {
        match self {
            PartialColoredWaterUnit::UnknownColor => None,
            PartialColoredWaterUnit::Color(c) => match c.prev() {
                Some(p) => Some(PartialColoredWaterUnit::Color(p)),
                None => Some(PartialColoredWaterUnit::UnknownColor),
            },
        }
    }

    /// Return the 'first' value (the unknown color)
    pub fn first() -> (r: PartialColoredWaterUnit)
        ensures
            r == partial_at(0),
    {
        PartialColoredWaterUnit::UnknownColor
    }

    /// Return the 'last' value
    pub fn last() -> (r: PartialColoredWaterUnit)
        ensures
            r == partial_at(PARTIAL_COUNT - 1),
    {
        PartialColoredWaterUnit::Color(ColoredWaterUnit::last())
    }

    /// Convert into a [ColoredWaterUnit]; fails when the color is unknown
    pub fn try_into_known(self) -> (r: Result<ColoredWaterUnit, PartialColorConversionError>)
        ensures
            r == (match self {
                PartialColoredWaterUnit::Color(c) => Ok(c),
                PartialColoredWaterUnit::UnknownColor => Err(
                    PartialColorConversionError::UnknownColor,
                ),
            }),
    {
        match self {
            PartialColoredWaterUnit::Color(v) => Ok(v),
            PartialColoredWaterUnit::UnknownColor => Err(PartialColorConversionError::UnknownColor),
        }
    }
}

impl From<ColoredWaterUnit> for PartialColoredWaterUnit {
    fn from(value: ColoredWaterUnit) -> (r: Self) {
        PartialColoredWaterUnit::Color(value)
    }
}

impl vstd::std_specs::convert::FromSpecImpl<ColoredWaterUnit> for PartialColoredWaterUnit {
    open spec fn obeys_from_spec() -> bool {
        true
    }

    open spec fn from_spec(v: ColoredWaterUnit) -> Self {
        PartialColoredWaterUnit::Color(v)
    }
}

/// A group of consecutive [PartialColoredWaterUnit]s that are all the same color
/// or all unknown
#[derive(Debug, Clone, Copy, PartialEq, Eq, Structural)]
pub struct PartialColoredWaterRun {
    pub color: PartialColoredWaterUnit,
    pub size: usize,
}

impl PartialColoredWaterRun {
    /// The same run, seen as possibly unknown
    pub fn from_known(value: ColoredWaterRun) -> (r: PartialColoredWaterRun)
        ensures
            r == (PartialColoredWaterRun {
                color: PartialColoredWaterUnit::Color(value.color),
                size: value.size,
            }),
    {
        PartialColoredWaterRun { color: PartialColoredWaterUnit::Color(value.color), size: value.size }
    }

    /// Convert into a [ColoredWaterRun]; fails when the color is unknown
    pub fn try_into_known(self) -> (r: Result<ColoredWaterRun, PartialColorConversionError>)
        ensures
            r == (match self.color {
                PartialColoredWaterUnit::Color(c) => Ok(ColoredWaterRun { color: c, size: self.size }),
                PartialColoredWaterUnit::UnknownColor => Err(
                    PartialColorConversionError::UnknownColor,
                ),
            }),
    {
        match self.color {
            PartialColoredWaterUnit::Color(color) => Ok(ColoredWaterRun { color, size: self.size }),
            PartialColoredWaterUnit::UnknownColor => Err(PartialColorConversionError::UnknownColor),
        }
    }
}

/// Reasons converting from a [PartialColoredWaterUnit] to a [ColoredWaterUnit]
/// or from a [PartialColoredWaterRun] to a [ColoredWaterRun] may fail
#[derive(Debug, Clone, Copy, PartialEq, Eq, Structural)]
pub enum PartialColorConversionError {
    /// The [PartialColoredWaterUnit] is unknown
    UnknownColor,
}

/// Iterator over possible values of [ColoredWaterUnit]
///
/// The only field tracks the color last yielded. It may be [None]; when it is,
/// the next color to be yielded will be [ColoredWaterUnit::first]. In other words,
/// this iterator resumes iteration after it has ended.
pub struct ColoredWaterIter(pub Option<ColoredWaterUnit>);

impl ColoredWaterIter {
    /// Advance to the next color (or to [None] after the last)
    pub fn next(&mut self) -> (r: Option<ColoredWaterUnit>)
        ensures
            final(self).0 == r,
            old(self).0 is None ==> r == Some(ColoredWaterUnit::Red),
            old(self).0 matches Some(c) ==> (if color_index(c) + 1 < COLOR_COUNT {
                r == Some(color_at(color_index(c) + 1int))
            } else {
                r is None
            }),
    {
        self.0 = match self.0 {
            Some(last_color) => last_color.next(),
            None => Some(ColoredWaterUnit::first()),
        };
        self.0
    }

    /// Step back to the previous color (or to [None] before the first)
    pub fn next_back(&mut self) -> (r: Option<ColoredWaterUnit>)
        ensures
            final(self).0 == r,
            old(self).0 is None ==> r == Some(ColoredWaterUnit::Brown),
            old(self).0 matches Some(c) ==> (if color_index(c) > 0 {
                r == Some(color_at(color_index(c) - 1))
            } else {
                r is None
            }),
    {
        self.0 = match self.0 {
            Some(last_color) => last_color.prev(),
            None => Some(ColoredWaterUnit::last()),
        };
        self.0
    }
}

/// Iterator over possible values of [PartialColoredWaterUnit]
///
/// The only field tracks the value last yielded. It may be [None]; when it is,
/// the next value to be yielded will be [PartialColoredWaterUnit::first]. In other words,
/// this iterator resumes iteration after it has ended.
pub struct PartialColoredWaterIter(pub Option<PartialColoredWaterUnit>);

impl PartialColoredWaterIter {
    /// Advance to the next value (or to [None] after the last)
    pub fn next(&mut self) -> (r: Option<PartialColoredWaterUnit>)
        ensures
            final(self).0 == r,
            old(self).0 is None ==> r == Some(PartialColoredWaterUnit::UnknownColor),
            old(self).0 matches Some(u) ==> (if partial_index(u) + 1 < PARTIAL_COUNT {
                r == Some(partial_at(partial_index(u) + 1int))
            } else {
                r is None
            }),
    {
        self.0 = match self.0 {
            Some(last) => last.next(),
            None => Some(PartialColoredWaterUnit::first()),
        };
        self.0
    }

    /// Step back to the previous value (or to [None] before the first)
    pub fn next_back(&mut self) -> (r: Option<PartialColoredWaterUnit>)
        ensures
            final(self).0 == r,
            old(self).0 is None ==> r == Some(
                PartialColoredWaterUnit::Color(ColoredWaterUnit::Brown),
            ),
            old(self).0 matches Some(u) ==> (if partial_index(u) > 0 {
                r == Some(partial_at(partial_index(u) - 1))
            } else {
                r is None
            }),
    {
        self.0 = match self.0 {
            Some(last) => last.prev(),
            None => Some(PartialColoredWaterUnit::last()),
        };
        self.0
    }
}

/// Iterator over possible values of [PartialColoredWaterUnit], in reverse order
///
/// Same as [PartialColoredWaterIter] with `next` and `next_back` swapped.
pub struct RevPartialColoredWaterIter(pub Option<PartialColoredWaterUnit>);

impl RevPartialColoredWaterIter {
    /// Step to the previous value in the forward order (or to [None] before the first)
    pub fn next(&mut self) -> (r: Option<PartialColoredWaterUnit>)
        ensures
            final(self).0 == r,
            old(self).0 is None ==> r == Some(
                PartialColoredWaterUnit::Color(ColoredWaterUnit::Brown),
            ),
            old(self).0 matches Some(u) ==> (if partial_index(u) > 0 {
                r == Some(partial_at(partial_index(u) - 1))
            } else {
                r is None
            }),
    {
        let mut inner = PartialColoredWaterIter(self.0);
        let r = inner.next_back();
        self.0 = r;
        r
    }
}

} // verus!
