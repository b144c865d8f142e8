//! The [Bottle] trait, what sampling a bottle gives, and the mathematical model of a bottle:
//! its capacity and the sequence of its units from the bottom up.
use vstd::prelude::*;

use super::{PourInError, PourOutError};
use crate::colored_water::{
    ColoredWaterRun, ColoredWaterUnit, PartialColoredWaterRun, PartialColoredWaterUnit,
};

verus! {

/// Reasons that setting a [PartialColoredWaterUnit] within a [Bottle] may fail.
#[derive(Debug, Clone, Copy, PartialEq, Eq, Structural)]
pub enum ColorSetError {
    /// Attempted to set a unit to a color (known or unknown) at a location that has empty space below it
    EmptyBelow,
    /// Attempted to set a unit to empty at a location that has non-empty space above it
    FullAbove,
    /// Attempted to set a unit to an unknown color at a location that has known colors below it
    KnownBelow,
    /// Attempted to set a unit to a known color at a location that has unknown colors above it
    UnknownAbove,
    /// Attempted to set a unit at a location beyond the capacity of the destination bottle
    ExceedsCapacity,
    /// Attempted to set a unit to an unknown color in a bottle that only supports known colors
    UnknownNotSupported,
}

/// The possible values that [Bottle::sample_at] may return
#[derive(Debug, Clone, Copy, PartialEq, Eq, Structural)]
pub enum BottleSampleResult {
    /// There is a known color at the sampled location
    KnownColor(ColoredWaterUnit),
    /// There is an unknown color at the sampled location
    UnknownColor,
    /// There is empty space at the sampled location, but the location
    /// is still within the capacity of the sampled item
    Empty,
    /// The sampled location is outside the capacity of the sampled item
    OutOfBounds,
}

/// Reasons converting a [BottleSampleResult] into a [ColoredWaterUnit] or [PartialColoredWaterUnit] may fail
#[derive(Debug, Clone, Copy, PartialEq, Eq, Structural)]
pub enum BottleSampleConversionError {
    /// Trying to convert into a [ColoredWaterUnit] but the specific color sampled isn't known
    UnknownColor,
    /// The sample did not result in any color: it was [BottleSampleResult::Empty] or
    /// [BottleSampleResult::OutOfBounds]
    NoColor,
}

/// What sampling a unit gives
pub open spec fn unit_sample(u: PartialColoredWaterUnit) -> BottleSampleResult {
    match u {
        PartialColoredWaterUnit::Color(c) => BottleSampleResult::KnownColor(c),
        PartialColoredWaterUnit::UnknownColor => BottleSampleResult::UnknownColor,
    }
}

impl BottleSampleResult {
    /// The sample of a (possibly unknown) unit
    pub fn from_partial(value: PartialColoredWaterUnit) -> (r: BottleSampleResult)
        ensures
            r == unit_sample(value),
    {
        match value {
            PartialColoredWaterUnit::Color(c) => BottleSampleResult::KnownColor(c),
            PartialColoredWaterUnit::UnknownColor => BottleSampleResult::UnknownColor,
        }
    }

    /// The (possibly unknown) unit sampled; fails when nothing was sampled
    pub fn try_into_partial(self) -> (r: Result<PartialColoredWaterUnit, BottleSampleConversionError>)
        ensures
            r == (match self {
                BottleSampleResult::KnownColor(c) => Ok(PartialColoredWaterUnit::Color(c)),
                BottleSampleResult::UnknownColor => Ok(PartialColoredWaterUnit::UnknownColor),
                _ => Err(BottleSampleConversionError::NoColor),
            }),
    {
        match self {
            BottleSampleResult::KnownColor(c) => Ok(PartialColoredWaterUnit::Color(c)),
            BottleSampleResult::UnknownColor => Ok(PartialColoredWaterUnit::UnknownColor),
            BottleSampleResult::Empty | BottleSampleResult::OutOfBounds => Err(
                BottleSampleConversionError::NoColor,
            ),
        }
    }

    /// The known color sampled; fails when the color is unknown or nothing was sampled
    pub fn try_into_known(self) -> (r: Result<ColoredWaterUnit, BottleSampleConversionError>)
        ensures
            r == (match self {
                BottleSampleResult::KnownColor(c) => Ok(c),
                BottleSampleResult::UnknownColor => Err(BottleSampleConversionError::UnknownColor),
                _ => Err(BottleSampleConversionError::NoColor),
            }),
    {
        match self {
            BottleSampleResult::KnownColor(c) => Ok(c),
            BottleSampleResult::UnknownColor => Err(BottleSampleConversionError::UnknownColor),
            BottleSampleResult::Empty | BottleSampleResult::OutOfBounds => Err(
                BottleSampleConversionError::NoColor,
            ),
        }
    }
}

impl From<PartialColoredWaterUnit> for BottleSampleResult {
    fn from(value: PartialColoredWaterUnit) -> (r: Self) {
        BottleSampleResult::from_partial(value)
    }
}

impl vstd::std_specs::convert::FromSpecImpl<PartialColoredWaterUnit> for BottleSampleResult {
    open spec fn obeys_from_spec() -> bool {
        true
    }

    open spec fn from_spec(v: PartialColoredWaterUnit) -> Self {
        unit_sample(v)
    }
}

impl From<ColoredWaterUnit> for BottleSampleResult {
    fn from(value: ColoredWaterUnit) -> (r: Self) {
        BottleSampleResult::KnownColor(value)
    }
}

impl vstd::std_specs::convert::FromSpecImpl<ColoredWaterUnit> for BottleSampleResult {
    open spec fn obeys_from_spec() -> bool {
        true
    }

    open spec fn from_spec(v: ColoredWaterUnit) -> Self {
        BottleSampleResult::KnownColor(v)
    }
}

// ---------------------------------------------------------------------------------------
// The model of a bottle: a capacity and a sequence of units, bottom first.
// ---------------------------------------------------------------------------------------
/// Known colors seen as units
pub open spec fn known_units(s: Seq<ColoredWaterUnit>) -> Seq<PartialColoredWaterUnit> {
    s.map_values(|c: ColoredWaterUnit| PartialColoredWaterUnit::Color(c))
}

/// `n` units of unknown color
pub open spec fn unknown_units(n: nat) -> Seq<PartialColoredWaterUnit> {
    Seq::new(n, |i: int| PartialColoredWaterUnit::UnknownColor)
}

/// `n` units of the same known color
pub open spec fn color_units(c: ColoredWaterUnit, n: nat) -> Seq<PartialColoredWaterUnit> {
    Seq::new(n, |i: int| PartialColoredWaterUnit::Color(c))
}

/// What [Bottle::sample_at] gives at `idx` for a bottle with these units and this capacity.
///
/// Indices from the capacity on are out of bounds; below it, an index past the units is empty.
pub open spec fn sample_of(units: Seq<PartialColoredWaterUnit>, cap: nat, idx: int) -> BottleSampleResult {
    if idx >= cap {
        BottleSampleResult::OutOfBounds
    } else if 0 <= idx < units.len() {
        unit_sample(units[idx])
    } else {
        BottleSampleResult::Empty
    }
}

/// The unit at the top, if any
pub open spec fn top_unit(units: Seq<PartialColoredWaterUnit>) -> Option<PartialColoredWaterUnit> {
    if units.len() == 0 {
        None
    } else {
        Some(units.last())
    }
}

/// Number of consecutive units equal to `u`, from index `i` downwards
pub open spec fn run_down(units: Seq<PartialColoredWaterUnit>, i: int, u: PartialColoredWaterUnit) -> nat
    decreases i + 1,
{
    if i < 0 || i >= units.len() || units[i] != u {
        0
    } else {
        1 + run_down(units, i - 1, u)
    }
}

/// Number of consecutive units equal to `u`, from index `i` upwards
pub open spec fn run_up(units: Seq<PartialColoredWaterUnit>, i: int, u: PartialColoredWaterUnit) -> nat
    decreases units.len() - i,
{
    if i < 0 || i >= units.len() || units[i] != u {
        0
    } else {
        1 + run_up(units, i + 1, u)
    }
}

/// Size of the run at the top: how many units from the top down equal the top unit
pub open spec fn top_run_len(units: Seq<PartialColoredWaterUnit>) -> nat {
    if units.len() == 0 {
        0
    } else {
        run_down(units, units.len() - 1, units.last())
    }
}

/// The run at the top, if there is any content
pub open spec fn top_run(units: Seq<PartialColoredWaterUnit>) -> Option<PartialColoredWaterRun> {
    if units.len() == 0 {
        None
    } else {
        Some(PartialColoredWaterRun { color: units.last(), size: top_run_len(units) as usize })
    }
}

/// Whether the top unit exists and differs from the given color
pub open spec fn top_mismatch(units: Seq<PartialColoredWaterUnit>, c: ColoredWaterUnit) -> bool {
    units.len() > 0 && units.last() != PartialColoredWaterUnit::Color(c)
}

/// Empty space left in a bottle
pub open spec fn space_left(units: Seq<PartialColoredWaterUnit>, cap: nat) -> nat {
    if units.len() <= cap {
        (cap - units.len()) as nat
    } else {
        0
    }
}

/// How many units of a run pouring into a bottle adds to it, when the colors match
pub open spec fn pour_in_amount(units: Seq<PartialColoredWaterUnit>, cap: nat, run: ColoredWaterRun) -> nat {
    if run.size <= space_left(units, cap) {
        run.size as nat
    } else {
        space_left(units, cap)
    }
}

/// What pouring a run into a bottle returns: the part of the run that did not fit, or why nothing was poured
pub open spec fn pour_in_result(units: Seq<PartialColoredWaterUnit>, cap: nat, run: ColoredWaterRun) -> Result<
    ColoredWaterRun,
    PourInError,
> {
    if top_mismatch(units, run.color) {
        Err(PourInError::MismatchedColors)
    } else if pour_in_amount(units, cap, run) == 0 {
        Err(PourInError::AlreadyFull)
    } else {
        Ok(ColoredWaterRun { color: run.color, size: (run.size - pour_in_amount(units, cap, run)) as usize })
    }
}

/// The run that pouring out of a bottle moves, when its top color is known
pub open spec fn out_run(units: Seq<PartialColoredWaterUnit>) -> Option<ColoredWaterRun> {
    if units.len() > 0 {
        match units.last() {
            PartialColoredWaterUnit::Color(c) => Some(
                ColoredWaterRun { color: c, size: top_run_len(units) as usize },
            ),
            PartialColoredWaterUnit::UnknownColor => None,
        }
    } else {
        None
    }
}

/// What pouring out of a bottle with units `src` into a bottle with units `dst` and capacity
/// `dst_cap` returns.
///
/// Units of unknown color cannot be poured: it is not known whether their color matches the
/// destination's, so such a pour fails as a destination color mismatch.
pub open spec fn pour_out_result(
    src: Seq<PartialColoredWaterUnit>,
    dst: Seq<PartialColoredWaterUnit>,
    dst_cap: nat,
) -> Result<(), PourOutError> {
    if src.len() == 0 {
        Err(PourOutError::Empty)
    } else {
        match out_run(src) {
            None => Err(PourOutError::DestinationError(PourInError::MismatchedColors)),
            Some(run) => match pour_in_result(dst, dst_cap, run) {
                Ok(_) => Ok(()),
                Err(e) => Err(PourOutError::DestinationError(e)),
            },
        }
    }
}

/// How many units a successful pour moves
pub open spec fn pour_out_amount(
    src: Seq<PartialColoredWaterUnit>,
    dst: Seq<PartialColoredWaterUnit>,
    dst_cap: nat,
) -> nat {
    match out_run(src) {
        Some(run) => pour_in_amount(dst, dst_cap, run),
        None => 0,
    }
}

/// The color that a successful pour moves
pub open spec fn poured_color(src: Seq<PartialColoredWaterUnit>) -> ColoredWaterUnit {
    match out_run(src) {
        Some(run) => run.color,
        None => ColoredWaterUnit::Red,
    }
}

/// The units set at `idx` when a color change succeeds: the unit at `idx` becomes `new_color`,
/// a unit added just above the top, or the top unit removed (setting it to empty)
pub open spec fn units_after_set(
    units: Seq<PartialColoredWaterUnit>,
    idx: int,
    new_color: Option<PartialColoredWaterUnit>,
) -> Seq<PartialColoredWaterUnit> {
    match new_color {
        Some(u) => if idx < units.len() {
            units.update(idx, u)
        } else {
            units.push(u)
        },
        None => if idx == units.len() - 1 {
            units.drop_last()
        } else {
            units
        },
    }
}

/// Number of color runs in `units` from `i` upwards, where `prev` is the unit just below `i`
/// as far as the count is concerned. Every unknown unit counts as a run of its own.
pub open spec fn runs_from(
    units: Seq<PartialColoredWaterUnit>,
    i: int,
    prev: Option<PartialColoredWaterUnit>,
) -> nat
    decreases units.len() - i,
{
    if i < 0 || i >= units.len() {
        0
    } else {
        let u = units[i];
        (if u is Color && prev == Some(u) {
            0nat
        } else {
            1nat
        }) + runs_from(units, i + 1, Some(u))
    }
}

/// Number of units at the bottom that already have the (known) bottom color
pub open spec fn done_count(units: Seq<PartialColoredWaterUnit>) -> nat {
    if units.len() > 0 && units[0] is Color {
        run_up(units, 0, units[0])
    } else {
        0
    }
}

/// The estimated number of pours needed to finish a bottle: one pour out per color run above the
/// bottom run, and one pour in per unit of space above the bottom run
pub open spec fn finish_estimate(units: Seq<PartialColoredWaterUnit>, cap: nat) -> int {
    runs_from(units, done_count(units) as int, None) + (cap - done_count(units))
}

pub proof fn lemma_run_down_bound(units: Seq<PartialColoredWaterUnit>, i: int, u: PartialColoredWaterUnit)
    ensures
        run_down(units, i, u) <= (if i < 0 { 0 } else { i + 1 }),
    decreases i + 1,
{
    if i >= 0 {
        lemma_run_down_bound(units, i - 1, u);
    }
}

pub proof fn lemma_run_up_bound(units: Seq<PartialColoredWaterUnit>, i: int, u: PartialColoredWaterUnit)
    requires
        0 <= i,
    ensures
        run_up(units, i, u) <= (if i > units.len() { 0 } else { units.len() - i }),
    decreases units.len() - i,
{
    if i < units.len() {
        lemma_run_up_bound(units, i + 1, u);
    }
}

pub proof fn lemma_runs_from_bound(
    units: Seq<PartialColoredWaterUnit>,
    i: int,
    prev: Option<PartialColoredWaterUnit>,
)
    requires
        0 <= i,
    ensures
        runs_from(units, i, prev) <= (if i > units.len() { 0 } else { units.len() - i }),
    decreases units.len() - i,
{
    if i < units.len() {
        lemma_runs_from_bound(units, i + 1, Some(units[i]));
    }
}

/// The estimated number of pours to finish a bottle is between none and twice its capacity, so
/// that the share of them still needed lies between 0 and 1; it is none exactly when the bottom
/// run already fills the whole bottle
pub proof fn lemma_finish_estimate_bounds(units: Seq<PartialColoredWaterUnit>, cap: nat)
    requires
        units.len() <= cap,
    ensures
        0 <= finish_estimate(units, cap) <= 2 * cap,
        finish_estimate(units, cap) == 0 <==> done_count(units) == cap,
{
    let done = done_count(units);
    if units.len() > 0 && units[0] is Color {
        lemma_run_up_bound(units, 0, units[0]);
    }
    assert(done <= units.len());
    lemma_runs_from_bound(units, done as int, None);
}

/// The top run spans the units from `len - top_run_len` to the top, all equal to the top unit,
/// and the unit just below it (if any) differs
pub proof fn lemma_top_run(units: Seq<PartialColoredWaterUnit>)
    requires
        units.len() > 0,
    ensures
        1 <= top_run_len(units) <= units.len(),
        forall|j: int|
            units.len() - top_run_len(units) <= j < units.len() ==> units[j] == units.last(),
        top_run_len(units) < units.len() ==> units[units.len() - top_run_len(units) - 1]
            != units.last(),
{
    lemma_run_down_span(units, units.len() - 1, units.last());
}

proof fn lemma_run_down_span(units: Seq<PartialColoredWaterUnit>, i: int, u: PartialColoredWaterUnit)
    requires
        -1 <= i < units.len(),
    ensures
        run_down(units, i, u) <= i + 1,
        forall|j: int| i - run_down(units, i, u) < j <= i ==> units[j] == u,
        run_down(units, i, u) <= i ==> units[i - run_down(units, i, u)] != u,
    decreases i + 1,
{
    if i >= 0 && units[i] == u {
        lemma_run_down_span(units, i - 1, u);
    }
}

/// Whether a bottle's storage, which holds at most `scap` units, can hold as many units as its capacity
pub open spec fn fillable_v(units: Seq<PartialColoredWaterUnit>, cap: nat, scap: nat) -> bool {
    cap <= scap
}

/// Whether the storage of `b` can hold enough units to fill it up to its capacity
pub open spec fn fillable<B: Bottle>(b: B) -> bool {
    fillable_v(b.units(), b.bcap(), b.storage_cap())
}

/// Whether pouring `run` into a bottle stays within its storage, which holds at most `scap` units
pub open spec fn pour_in_fits_v(units: Seq<PartialColoredWaterUnit>, cap: nat, scap: nat, run: ColoredWaterRun) -> bool {
    pour_in_result(units, cap, run) is Ok ==> units.len() + pour_in_amount(units, cap, run) <= scap
}

/// Whether pouring `run` into `b` stays within the storage `b` has
pub open spec fn pour_in_fits<B: Bottle>(b: B, run: ColoredWaterRun) -> bool {
    pour_in_fits_v(b.units(), b.bcap(), b.storage_cap(), run)
}

/// A bottle that can be filled up within its storage accepts every pour
pub proof fn lemma_fillable_fits(units: Seq<PartialColoredWaterUnit>, cap: nat, scap: nat, run: ColoredWaterRun)
    requires
        fillable_v(units, cap, scap),
        units.len() <= cap,
    ensures
        pour_in_fits_v(units, cap, scap, run),
{
}

/// Whether pouring out of `src` into `dst` stays within the storage `dst` has
pub open spec fn pour_out_fits<S: Bottle, D: Bottle>(src: S, dst: D) -> bool {
    pour_out_result(src.units(), dst.units(), dst.bcap()) is Ok ==> dst.units().len() + pour_out_amount(
        src.units(),
        dst.units(),
        dst.bcap(),
    ) <= dst.storage_cap()
}

/// Types representing bottles of colored water.
///
/// A bottle is modelled by its capacity ([Bottle::bcap]) and its units from the bottom up
/// ([Bottle::units]); [Bottle::storage_cap] is how many units its storage can hold in all.
pub trait Bottle: Sized {
    /// The capacity of this bottle
    spec fn bcap(&self) -> nat;

    /// The units in this bottle, bottom first
    spec fn units(&self) -> Seq<PartialColoredWaterUnit>;

    /// How many units the storage of this bottle can hold in all
    spec fn storage_cap(&self) -> nat;

    /// Whether this bottle is well formed
    spec fn inv(&self) -> bool;

    /// Whether setting a color at `idx` stays within the storage of this bottle
    spec fn set_color_fits(&self, idx: int, new_color: Option<PartialColoredWaterUnit>) -> bool;

    /// What setting the color at `idx` to `new_color` returns for this bottle
    spec fn set_color_result(&self, idx: int, new_color: Option<PartialColoredWaterUnit>) -> Result<(), ColorSetError>;

    /// A bottle that can be filled up within its storage accepts every color change
    proof fn lemma_fillable_set_fits(&self, idx: int, new_color: Option<PartialColoredWaterUnit>)
        requires
            self.inv(),
            fillable_v(self.units(), self.bcap(), self.storage_cap()),
        ensures
            self.set_color_fits(idx, new_color),
    ;

    /// A well-formed bottle holds no more units than its capacity
    proof fn lemma_inv(&self)
        requires
            self.inv(),
        ensures
            self.units().len() <= self.bcap(),
            self.bcap() <= usize::MAX,
    ;

    /// Try to set the [PartialColoredWaterUnit] at index `idx` within this bottle to the given `new_color`
    ///
    /// If `new_color` is [Some] and the inner value is [PartialColoredWaterUnit::Color], will try to set the
    /// specified unit to the specified [ColoredWaterUnit].
    ///
    /// If `new_color` is [Some] and the inner value is [PartialColoredWaterUnit::UnknownColor], will try to set the
    /// specified unit to an unknown unit.
    ///
    /// If `new_color` is [None], will instead try to clear the unit at the given `idx` so that it becomes empty.
    ///
    /// If this fails (i.e. returns [Err]), the Bottle will be left unchanged.
    fn try_set_color(&mut self, idx: usize, new_color: Option<PartialColoredWaterUnit>) -> (r: Result<
        (),
        ColorSetError,
    >)
        requires
            old(self).inv(),
            old(self).set_color_fits(idx as int, new_color),
        ensures
            final(self).inv(),
            fillable_v(old(self).units(), old(self).bcap(), old(self).storage_cap()) ==> fillable_v(final(self).units(), final(self).bcap(), final(self).storage_cap()),
            r == old(self).set_color_result(idx as int, new_color),
            r is Ok ==> final(self).units() == units_after_set(old(self).units(), idx as int, new_color),
            r is Ok ==> final(self).bcap() == old(self).bcap(),
            r is Err ==> *final(self) == *old(self),
    ;

    /// A copy of this bottle
    fn duplicate(&self) -> (r: Self)
        requires
            self.inv(),
        ensures
            r.inv(),
            r.bcap() == self.bcap(),
            r.units() == self.units(),
            r.storage_cap() == self.storage_cap(),
    ;

    /// Sample the color in this bottle at the given index.
    fn sample_at(&self, idx: usize) -> (r: BottleSampleResult)
        requires
            self.inv(),
        ensures
            r == sample_of(self.units(), self.bcap(), idx as int),
    ;

    /// Return the capacity of this bottle
    fn capacity(&self) -> (r: usize)
        ensures
            r == self.bcap(),
    ;

    /// Returns the [PartialColoredWaterUnit] at the top of this bottle
    ///
    /// This returns [None] if there isn't any water in the bottle.
    fn get_top_color(&self) -> (r: Option<PartialColoredWaterUnit>)
        requires
            self.inv(),
        ensures
            r == top_unit(self.units()),
    {
        proof {
            self.lemma_inv();
        }
        if let Some(idx) = self.get_top_content_idx() {
            self.sample_content_at(idx)
        } else {
            None
        }
    }

    /// Returns the [PartialColoredWaterRun] at the top of this bottle
    ///
    /// This returns [None] if there isn't any water in the bottle.
    fn get_top_color_run(&self) -> (r: Option<PartialColoredWaterRun>)
        requires
            self.inv(),
        ensures
            r == top_run(self.units()),
    {
        proof {
            self.lemma_inv();
        }
        if let Some(top_idx) = self.get_top_content_idx() {
            let ghost units = self.units();
            let color = self.sample_content_at(top_idx).unwrap();
            let mut color_count: usize = 0;
            let mut cur_idx = top_idx + 1;
            while cur_idx > 0
                invariant
                    self.inv(),
                    units == self.units(),
                    units.len() <= self.bcap() <= usize::MAX,
                    top_idx == units.len() - 1,
                    color == units.last(),
                    cur_idx <= top_idx + 1,
                    color_count + cur_idx == top_idx + 1,
                    color_count + run_down(units, cur_idx - 1, color) == run_down(
                        units,
                        top_idx as int,
                        color,
                    ),
                ensures
                    color_count == run_down(units, top_idx as int, color),
                decreases cur_idx,
            {
                let sample_result = self.sample_content_at(cur_idx - 1).unwrap();
                if sample_result == color {
                    color_count += 1;
                    cur_idx = cur_idx - 1;
                } else {
                    break;
                }
            }
            Some(PartialColoredWaterRun { color, size: color_count })
        } else {
            None
        }
    }

    /// Return the largest index in this bottle that holds content.
    ///
    /// A return value of [None] indicates that there is no content at all.
    fn get_top_content_idx(&self) -> (r: Option<usize>)
        requires
            self.inv(),
        ensures
            self.units().len() == 0 ==> r is None,
            self.units().len() > 0 ==> r == Some((self.units().len() - 1) as usize),
    {
        proof {
            self.lemma_inv();
        }
        let mut idx = self.capacity();
        while idx > 0
            invariant
                self.inv(),
                idx <= self.bcap(),
                self.units().len() <= idx,
                self.units().len() <= self.bcap(),
            decreases idx,
        {
            idx = idx - 1;
            let sample_result = self.sample_content_at(idx);
            if sample_result.is_some() {
                return Some(idx);
            }
        }
        None
    }

    /// Return whether this bottle has no content.
    fn is_empty(&self) -> (r: bool)
        requires
            self.inv(),
        ensures
            r == (self.units().len() == 0),
    {
        proof {
            self.lemma_inv();
        }
        let cap = self.capacity();
        let mut idx: usize = 0;
        while idx < cap
            invariant
                self.inv(),
                cap == self.bcap(),
                idx <= cap,
                self.units().len() <= cap,
                idx > 0 ==> self.units().len() == 0,
            decreases cap - idx,
        {
            if self.sample_content_at(idx).is_some() {
                return false;
            }
            idx = idx + 1;
        }
        true
    }

    /// Sample the color (known or unknown) in this bottle at the given index. If there is no color
    /// at that index for any reason, return [None].
    fn sample_content_at(&self, idx: usize) -> (r: Option<PartialColoredWaterUnit>)
        requires
            self.inv(),
        ensures
            idx < self.units().len() ==> r == Some(self.units()[idx as int]),
            idx >= self.units().len() ==> r is None,
    {
        proof {
            self.lemma_inv();
        }
        match self.sample_at(idx).try_into_partial() {
            Ok(u) => Some(u),
            Err(_) => None,
        }
    }

    /// Sample the known color in this bottle at the given index. If there is no color at
    /// that index for any reason, or if there is a color but it's unknown, return [None].
    fn sample_known_color_at(&self, idx: usize) -> (r: Option<ColoredWaterUnit>)
        requires
            self.inv(),
        ensures
            r == (if idx < self.units().len() {
                match self.units()[idx as int] {
                    PartialColoredWaterUnit::Color(c) => Some(c),
                    PartialColoredWaterUnit::UnknownColor => None,
                }
            } else {
                None
            }),
    {
        proof {
            self.lemma_inv();
        }
        match self.sample_at(idx).try_into_known() {
            Ok(c) => Some(c),
            Err(_) => None,
        }
    }

    /// Estimate how many pours it would take to finish this bottle.
    ///
    /// This is done under a few assumptions:
    /// - Every pour out removes the entire top color run and is always possible
    /// - Every pour in adds exactly one unit of the desired color
    /// - The known color currently at the bottom (if there is one) is the color we want for this bottle
    /// - No two unknown colors are ever the same
    fn pours_to_finish_estimate(&self) -> (r: usize)
        requires
            self.inv(),
            self.units().len() + self.bcap() <= usize::MAX,
        ensures
            r == finish_estimate(self.units(), self.bcap()),
    {
        proof {
            self.lemma_inv();
        }
        let ghost units = self.units();
        let cap = self.capacity();
        // the number of units at the bottom whose color matches
        let mut already_done_count: usize = 0;
        match self.sample_at(0) {
            BottleSampleResult::KnownColor(c) => {
                let ghost u = PartialColoredWaterUnit::Color(c);
                let mut idx: usize = 0;
                while idx < cap
                    invariant
                        self.inv(),
                        units == self.units(),
                        cap == self.bcap(),
                        units.len() <= cap,
                        units.len() > 0 && units[0] == u,
                        u == PartialColoredWaterUnit::Color(c),
                        idx <= cap,
                        already_done_count == idx,
                        already_done_count + run_up(units, idx as int, u) == run_up(units, 0, u),
                    ensures
                        already_done_count == run_up(units, 0, u),
                    decreases cap - idx,
                {
                    let sample_result = self.sample_at(idx);
                    if sample_result == BottleSampleResult::KnownColor(c) {
                        already_done_count += 1;
                    } else {
                        break;
                    }
                    idx = idx + 1;
                }
            },
            BottleSampleResult::UnknownColor => {
                already_done_count = 0;
            },
            BottleSampleResult::Empty => {},
            BottleSampleResult::OutOfBounds => {
                return 0;
            },
        }
        proof {
            if units.len() > 0 {
                lemma_run_up_bound(units, 0, units[0]);
            }
            lemma_runs_from_bound(units, already_done_count as int, None);
        }
        assert(already_done_count == done_count(units));
        // count the color runs above the bottom run
        let mut run_count: usize = 0;
        let mut current_run_color: Option<PartialColoredWaterUnit> = None;
        let mut idx: usize = already_done_count;
        while idx < cap
            invariant
                self.inv(),
                units == self.units(),
                cap == self.bcap(),
                units.len() <= cap,
                already_done_count <= units.len(),
                already_done_count <= idx <= cap,
                runs_from(units, already_done_count as int, None) <= units.len() - already_done_count,
                run_count + runs_from(units, idx as int, current_run_color) == runs_from(
                    units,
                    already_done_count as int,
                    None,
                ),
            ensures
                run_count == runs_from(units, already_done_count as int, None),
                run_count <= units.len() - already_done_count,
            decreases cap - idx,
        {
            match self.sample_content_at(idx) {
                Some(PartialColoredWaterUnit::Color(c)) => {
                    if current_run_color.is_none() || current_run_color.unwrap()
                        != PartialColoredWaterUnit::Color(c) {
                        run_count += 1;
                        current_run_color = Some(PartialColoredWaterUnit::Color(c));
                    }
                },
                Some(PartialColoredWaterUnit::UnknownColor) => {
                    run_count += 1;
                    current_run_color = Some(PartialColoredWaterUnit::UnknownColor);
                },
                None => {
                    assert(runs_from(units, idx as int, current_run_color) == 0);
                    break;
                },
            }
            idx = idx + 1;
        }
        run_count + (cap - already_done_count)
    }

    /// Attempt to pour a [ColoredWaterRun] into this bottle.
    ///
    /// If this is successful, will return a new [ColoredWaterRun] representing the portion of
    /// the given `content_to_pour` that wouldn't fit into this bottle. Its `size` may be 0; this
    /// indicates that the entirety of `content_to_pour` fit into this bottle.
    ///
    /// If this is unsuccessful, an [Err] is returned with an appropriate [PourInError] variant.
    /// No change is made to this bottle in this case.
    ///
    /// Unknown colors cannot be poured in, and nothing can be poured onto an unknown color:
    /// it is not known whether the colors match.
    fn try_pour_in(&mut self, content_to_pour: ColoredWaterRun) -> (r: Result<ColoredWaterRun, PourInError>)
        requires
            old(self).inv(),
            pour_in_fits_v(old(self).units(), old(self).bcap(), old(self).storage_cap(), content_to_pour),
        ensures
            final(self).inv(),
            r == pour_in_result(old(self).units(), old(self).bcap(), content_to_pour),
            final(self).bcap() == old(self).bcap(),
            r is Ok ==> final(self).units() == old(self).units() + color_units(
                content_to_pour.color,
                pour_in_amount(old(self).units(), old(self).bcap(), content_to_pour),
            ),
            fillable_v(old(self).units(), old(self).bcap(), old(self).storage_cap()) ==> fillable_v(final(self).units(), final(self).bcap(), final(self).storage_cap()),
            r is Err ==> *final(self) == *old(self),
    ;

    /// Determine what running [Bottle::try_pour_in] would return given the current content of
    /// this bottle and the provided `content_to_pour`, without modifying this bottle.
    ///
    /// This is exactly what [Bottle::try_pour_in] returns, an empty run included.
    fn test_pour_in(&self, content_to_pour: ColoredWaterRun) -> (r: Result<ColoredWaterRun, PourInError>)
        requires
            self.inv(),
        ensures
            r == pour_in_result(self.units(), self.bcap(), content_to_pour),
    ;

    /// Remove `n` units from the top of this bottle; they must all belong to the top run,
    /// which must be of a known color
    fn remove_top_units(&mut self, n: usize)
        requires
            old(self).inv(),
            out_run(old(self).units()) is Some,
            n <= top_run_len(old(self).units()),
        ensures
            final(self).inv(),
            final(self).bcap() == old(self).bcap(),
            final(self).units() == old(self).units().take(old(self).units().len() - n),
            fillable_v(old(self).units(), old(self).bcap(), old(self).storage_cap()) ==> fillable_v(final(self).units(), final(self).bcap(), final(self).storage_cap()),
    ;
}

/// Attempt to pour the run at the top of `source` into `destination`.
///
/// If this is successful, will return `Ok(())`.
///
/// If this is unsuccessful, an [Err] is returned with an appropriate [PourOutError] variant.
/// No change is made to either bottle in this case.
pub fn try_pour_out<S: Bottle, D: Bottle>(source: &mut S, destination: &mut D) -> (r: Result<(), PourOutError>)
    requires
        old(source).inv(),
        old(destination).inv(),
        pour_out_fits(*old(source), *old(destination)),
    ensures
        final(source).inv(),
        final(destination).inv(),
        r == pour_out_result(old(source).units(), old(destination).units(), old(destination).bcap()),
        final(source).bcap() == old(source).bcap(),
        final(destination).bcap() == old(destination).bcap(),
        r is Ok ==> final(source).units() == old(source).units().take(
            old(source).units().len() - pour_out_amount(
                old(source).units(),
                old(destination).units(),
                old(destination).bcap(),
            ),
        ),
        r is Ok ==> final(destination).units() == old(destination).units() + color_units(
            poured_color(old(source).units()),
            pour_out_amount(old(source).units(), old(destination).units(), old(destination).bcap()),
        ),
        fillable(*old(source)) ==> fillable(*final(source)),
        fillable(*old(destination)) ==> fillable(*final(destination)),
        r is Err ==> *final(source) == *old(source) && *final(destination) == *old(destination),
{
    let ghost src_units = source.units();
    proof {
        source.lemma_inv();
    }
    match source.get_top_color_run() {
        None => Err(PourOutError::Empty),
        Some(top) => match top.color {
            PartialColoredWaterUnit::UnknownColor => Err(
                PourOutError::DestinationError(PourInError::MismatchedColors),
            ),
            PartialColoredWaterUnit::Color(c) => {
                proof {
                    lemma_top_run(src_units);
                }
                let run_to_pour = ColoredWaterRun { color: c, size: top.size };
                match destination.try_pour_in(run_to_pour) {
                    Ok(remaining_part_of_run) => {
                        let units_poured = run_to_pour.size - remaining_part_of_run.size;
                        source.remove_top_units(units_poured);
                        Ok(())
                    },
                    Err(e) => Err(PourOutError::DestinationError(e)),
                }
            },
        },
    }
}

/// Determine what running [try_pour_out] would return given the current content of
/// `source` and `destination`, without modifying either bottle.
pub fn test_pour_out<S: Bottle, D: Bottle>(source: &S, destination: &D) -> (r: Result<(), PourOutError>)
    requires
        source.inv(),
        destination.inv(),
    ensures
        r == pour_out_result(source.units(), destination.units(), destination.bcap()),
{
    let ghost src_units = source.units();
    proof {
        source.lemma_inv();
    }
    match source.get_top_color_run() {
        None => Err(PourOutError::Empty),
        Some(top) => match top.color {
            PartialColoredWaterUnit::UnknownColor => Err(
                PourOutError::DestinationError(PourInError::MismatchedColors),
            ),
            PartialColoredWaterUnit::Color(c) => {
                proof {
                    lemma_top_run(src_units);
                }
                match destination.test_pour_in(ColoredWaterRun { color: c, size: top.size }) {
                    Ok(_) => Ok(()),
                    Err(e) => Err(PourOutError::DestinationError(e)),
                }
            },
        },
    }
}

} // verus!
