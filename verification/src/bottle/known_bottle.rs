//! A [KnownBottle]: a [Bottle] whose units all have known colors.
use vstd::prelude::*;

use super::bottle_trait::{
    ColorSetError, BottleSampleResult, BottleSampleConversionError, unit_sample, known_units, unknown_units, color_units, sample_of, top_unit, run_down, run_up, top_run_len, top_run, top_mismatch, space_left, pour_in_amount, pour_in_result, out_run, pour_out_result, pour_out_amount, poured_color, units_after_set, runs_from, done_count, finish_estimate, lemma_run_down_bound, lemma_run_up_bound, lemma_runs_from_bound, lemma_top_run, fillable_v, fillable, pour_in_fits_v, pour_in_fits, lemma_fillable_fits, pour_out_fits, Bottle, try_pour_out, test_pour_out,
};
use super::{BottleCapacityError, BottleMaxCapError, PartialBottle, PourInError, PourOutError};
use crate::colored_water::{ColoredWaterRun, ColoredWaterUnit, PartialColoredWaterUnit, color_index, copy_units, run_of};

verus! {

/// One Bottle that may contain [ColoredWaterUnit]s, all of which are known.
///
/// Each bottle has a capacity, and some content. The capacity is the number of water units the
/// bottle is allowed to hold, and the content is the water units that the bottle is currently
/// holding, bottom first. The content may be shorter than the capacity, but never longer.
///
/// `MAX_CAP` bounds the size of the content: a bottle never holds more than `MAX_CAP` units.
#[derive(Debug, Clone, PartialEq, Eq, Hash)]
pub struct KnownBottle<const MAX_CAP: usize> {
    capacity: usize,
    content: Vec<ColoredWaterUnit>,
}

/// Reasons converting from a [PartialBottle] to a [KnownBottle] may fail
#[derive(Debug, Clone, Copy, PartialEq, Eq, Structural)]
pub enum PartialBottleConversionError {
    /// The [PartialBottle] contains one or more units of unknown color
    UnknownUnits,
}

/// What setting a color within a known bottle with `len` units and capacity `cap` returns
pub open spec fn known_set_result(len: nat, cap: nat, idx: int, new_color: Option<PartialColoredWaterUnit>) -> Result<
    (),
    ColorSetError,
> {
    if new_color == Some(PartialColoredWaterUnit::UnknownColor) {
        Err(ColorSetError::UnknownNotSupported)
    } else if idx > len {
        Err(ColorSetError::EmptyBelow)
    } else if idx == len {
        if len + 1 > cap {
            Err(ColorSetError::ExceedsCapacity)
        } else {
            Ok(())
        }
    } else if idx + 1 == len {
        Ok(())
    } else if new_color is Some {
        Ok(())
    } else {
        Err(ColorSetError::FullAbove)
    }
}

/// Whether a known bottle is in its final state: entirely full of a single color
pub open spec fn known_final(content: Seq<ColoredWaterUnit>, cap: nat) -> bool {
    run_of(content) matches Ok(run) && run.size == cap
}

/// Where one value stands against another in a standard order: of bottles, or of game states
#[derive(Debug, Clone, Copy, PartialEq, Eq, Structural)]
pub enum Comparison {
    Less,
    Equal,
    Greater,
}

/// The order of two contents of the same length: decided by the first position, from the
/// bottom, where their colors differ, colors ordered as [color_index] orders them
pub open spec fn content_order(a: Seq<ColoredWaterUnit>, b: Seq<ColoredWaterUnit>) -> Comparison
    decreases a.len(),
{
    if a.len() == 0 || b.len() == 0 {
        Comparison::Equal
    } else if color_index(a[0]) < color_index(b[0]) {
        Comparison::Less
    } else if color_index(a[0]) > color_index(b[0]) {
        Comparison::Greater
    } else {
        content_order(a.drop_first(), b.drop_first())
    }
}

/// The standard order of bottles: by capacity, then by the number of units, then by content
pub open spec fn bottle_order(cap_a: nat, a: Seq<ColoredWaterUnit>, cap_b: nat, b: Seq<ColoredWaterUnit>) -> Comparison {
    if cap_a < cap_b {
        Comparison::Less
    } else if cap_a > cap_b {
        Comparison::Greater
    } else if a.len() < b.len() {
        Comparison::Less
    } else if a.len() > b.len() {
        Comparison::Greater
    } else {
        content_order(a, b)
    }
}

/// Contents of the same length are equal in the order exactly when they are equal, and swapping
/// them swaps less and greater
proof fn lemma_content_order(a: Seq<ColoredWaterUnit>, b: Seq<ColoredWaterUnit>)
    requires
        a.len() == b.len(),
    ensures
        content_order(a, b) == Comparison::Equal <==> a == b,
        content_order(a, b) == Comparison::Less <==> content_order(b, a) == Comparison::Greater,
    decreases a.len(),
{
    if a.len() > 0 {
        lemma_content_order(a.drop_first(), b.drop_first());
        crate::colored_water::lemma_color_index_injective(a[0], b[0]);
        if a.drop_first() == b.drop_first() && a[0] == b[0] {
            assert forall|j: int| 0 <= j < a.len() implies a[j] == b[j] by {
                if j > 0 {
                    assert(a.drop_first()[j - 1] == b.drop_first()[j - 1]);
                }
            }
            assert(a =~= b);
        }
        if a == b {
            assert(a.drop_first() == b.drop_first());
        }
    } else {
        assert(a =~= b);
    }
}

/// Among contents of one length, less than is transitive
proof fn lemma_content_order_transitive(a: Seq<ColoredWaterUnit>, b: Seq<ColoredWaterUnit>, c: Seq<ColoredWaterUnit>)
    requires
        a.len() == b.len(),
        b.len() == c.len(),
        content_order(a, b) == Comparison::Less,
        content_order(b, c) == Comparison::Less,
    ensures
        content_order(a, c) == Comparison::Less,
    decreases a.len(),
{
    if color_index(a[0]) == color_index(b[0]) && color_index(b[0]) == color_index(c[0]) {
        lemma_content_order_transitive(a.drop_first(), b.drop_first(), c.drop_first());
    }
}

/// The standard order of bottles is a total order: two bottles are equal in it exactly when they
/// have the same capacity and content, swapping them swaps less and greater, and less than is
/// transitive
pub proof fn lemma_bottle_order(
    cap_a: nat,
    a: Seq<ColoredWaterUnit>,
    cap_b: nat,
    b: Seq<ColoredWaterUnit>,
    cap_c: nat,
    c: Seq<ColoredWaterUnit>,
)
    ensures
        bottle_order(cap_a, a, cap_b, b) == Comparison::Equal <==> (cap_a == cap_b && a == b),
        bottle_order(cap_a, a, cap_b, b) == Comparison::Less <==> bottle_order(cap_b, b, cap_a, a)
            == Comparison::Greater,
        bottle_order(cap_a, a, cap_b, b) == Comparison::Less && bottle_order(cap_b, b, cap_c, c)
            == Comparison::Less ==> bottle_order(cap_a, a, cap_c, c) == Comparison::Less,
{
    if a.len() == b.len() {
        lemma_content_order(a, b);
    }
    if cap_a == cap_b && cap_b == cap_c && a.len() == b.len() && b.len() == c.len() && bottle_order(
        cap_a,
        a,
        cap_b,
        b,
    ) == Comparison::Less && bottle_order(cap_b, b, cap_c, c) == Comparison::Less {
        lemma_content_order_transitive(a, b, c);
    }
}

impl<const MAX_CAP: usize> KnownBottle<MAX_CAP> {
    /// The capacity of this bottle
    pub closed spec fn cap_v(&self) -> nat {
        self.capacity as nat
    }

    /// The content of this bottle, bottom first
    pub closed spec fn content_v(&self) -> Seq<ColoredWaterUnit> {
        self.content@
    }

    /// This bottle is well formed: no more content than capacity or than `MAX_CAP`
    pub closed spec fn wf(&self) -> bool {
        &&& self.content@.len() <= self.capacity
        &&& self.content@.len() <= MAX_CAP
    }

    /// What well-formedness means
    pub proof fn lemma_wf(&self)
        requires
            self.wf(),
        ensures
            self.content_v().len() <= self.cap_v(),
            self.content_v().len() <= MAX_CAP,
            self.cap_v() <= usize::MAX,
    {
    }

    /// Tries to create a new, empty KnownBottle
    ///
    /// This will fail if the given `capacity` is greater than `MAX_CAP`
    pub fn try_new(capacity: usize) -> (r: Result<Self, BottleMaxCapError>)
        ensures
            capacity <= MAX_CAP ==> (r matches Ok(b) && b.wf() && b.cap_v() == capacity && b.content_v()
                == Seq::<ColoredWaterUnit>::empty()),
            capacity > MAX_CAP ==> r == Err::<Self, _>(BottleMaxCapError::MaxCapExceeded),
    {
        if capacity <= MAX_CAP {
            Ok(KnownBottle { capacity, content: Vec::new() })
        } else {
            Err(BottleMaxCapError::MaxCapExceeded)
        }
    }

    /// Tries to create a new KnownBottle with the given content. Capacity is set to the number
    /// of elements in `content`.
    ///
    /// This will fail if the size of `content` is greater than `MAX_CAP`
    pub fn try_with_content(content: &[ColoredWaterUnit]) -> (r: Result<Self, BottleMaxCapError>)
        ensures
            content@.len() <= MAX_CAP ==> (r matches Ok(b) && b.wf() && b.cap_v() == content@.len()
                && b.content_v() == content@),
            content@.len() > MAX_CAP ==> r == Err::<Self, _>(BottleMaxCapError::MaxCapExceeded),
    {
        if content.len() > MAX_CAP {
            return Err(BottleMaxCapError::MaxCapExceeded);
        }
        let mut v: Vec<ColoredWaterUnit> = Vec::new();
        let mut i: usize = 0;
        while i < content.len()
            invariant
                i <= content@.len(),
                v@ == content@.take(i as int),
            decreases content@.len() - i,
        {
            v.push(content[i]);
            i = i + 1;
            assert(v@ =~= content@.take(i as int));
        }
        assert(content@.take(i as int) =~= content@);
        Ok(KnownBottle { capacity: content.len(), content: v })
    }

    /// Create a bottle from its capacity and content, as stored; fails when the content is
    /// longer than `MAX_CAP` ([BottleCapacityError::MaxCapExceeded]) or longer than the capacity
    /// ([BottleCapacityError::CapExceeded])
    pub fn try_from_parts(capacity: usize, content: Vec<ColoredWaterUnit>) -> (r: Result<Self, BottleCapacityError>)
        ensures
            content@.len() > MAX_CAP ==> r == Err::<Self, _>(BottleCapacityError::MaxCapExceeded),
            content@.len() <= MAX_CAP && content@.len() > capacity ==> r == Err::<Self, _>(
                BottleCapacityError::CapExceeded,
            ),
            content@.len() <= MAX_CAP && content@.len() <= capacity ==> (r matches Ok(b) && b.wf()
                && b.cap_v() == capacity && b.content_v() == content@),
    {
        if content.len() > MAX_CAP {
            Err(BottleCapacityError::MaxCapExceeded)
        } else if content.len() <= capacity {
            Ok(KnownBottle { capacity, content })
        } else {
            Err(BottleCapacityError::CapExceeded)
        }
    }

    /// Immutably borrow the content of this KnownBottle.
    ///
    /// Note that the length of the return value may be less than the capacity of this Bottle,
    /// though it will never be greater.
    pub fn get_content(&self) -> (r: &Vec<ColoredWaterUnit>)
        ensures
            r@ == self.content_v(),
    {
        &self.content
    }

    /// Take the content of this KnownBottle
    pub fn take_content(self) -> (r: Vec<ColoredWaterUnit>)
        ensures
            r@ == self.content_v(),
    {
        self.content
    }

    /// Return the maximum capacity of this KnownBottle
    pub fn get_max_capacity(&self) -> (r: usize)
        ensures
            r == MAX_CAP,
    {
        MAX_CAP
    }

    /// Sets a new capacity for this KnownBottle.
    ///
    /// If `new_capacity` is larger than current capacity, empty space will be added to the 'top' of the KnownBottle.
    /// If `new_capacity` is smaller than current capacity, space will be removed from the 'top' of the KnownBottle.
    ///
    /// This will fail if `new_capacity` is greater than `MAX_CAP`
    pub fn resize_in_place(&mut self, new_capacity: usize) -> (r: Result<(), BottleMaxCapError>)
        requires
            old(self).wf(),
        ensures
            final(self).wf(),
            new_capacity > MAX_CAP ==> r == Err::<(), _>(BottleMaxCapError::MaxCapExceeded) && *final(self)
                == *old(self),
            new_capacity <= MAX_CAP ==> r is Ok && final(self).cap_v() == new_capacity
                && final(self).content_v() == (if old(self).content_v().len() > new_capacity {
                old(self).content_v().take(new_capacity as int)
            } else {
                old(self).content_v()
            }),
    {
        if new_capacity > MAX_CAP {
            Err(BottleMaxCapError::MaxCapExceeded)
        } else {
            self.capacity = new_capacity;
            if self.content.len() > self.capacity {
                self.content.truncate(self.capacity);
            }
            Ok(())
        }
    }

    /// Creates a new KnownBottle with the same content as this KnownBottle, but a different capacity.
    ///
    /// If `new_capacity` is smaller than the content, the content above it is dropped.
    ///
    /// This fails if the content that is kept is longer than `NEW_MAX_CAP`. It does not fail
    /// when `new_capacity` alone exceeds `NEW_MAX_CAP`: the new bottle then has that capacity,
    /// though its content can never grow past `NEW_MAX_CAP` units.
    pub fn try_get_resized<const NEW_MAX_CAP: usize>(&self, new_capacity: usize) -> (r: Result<
        KnownBottle<NEW_MAX_CAP>,
        BottleMaxCapError,
    >)
        requires
            self.wf(),
        ensures
            ({
                let kept = if new_capacity <= self.content_v().len() {
                    self.content_v().take(new_capacity as int)
                } else {
                    self.content_v()
                };
                &&& kept.len() > NEW_MAX_CAP ==> r == Err::<KnownBottle<NEW_MAX_CAP>, _>(
                    BottleMaxCapError::MaxCapExceeded,
                )
                &&& kept.len() <= NEW_MAX_CAP ==> (r matches Ok(b) && b.wf() && b.cap_v() == new_capacity
                    && b.content_v() == kept
            )}),
    {
        let len_to_copy = if new_capacity <= self.content.len() {
            new_capacity
        } else {
            self.content.len()
        };
        if len_to_copy > NEW_MAX_CAP {
            return Err(BottleMaxCapError::MaxCapExceeded);
        }
        let mut new_content: Vec<ColoredWaterUnit> = Vec::new();
        let mut i: usize = 0;
        while i < len_to_copy
            invariant
                i <= len_to_copy <= self.content@.len(),
                new_content@ == self.content@.take(i as int),
            decreases len_to_copy - i,
        {
            new_content.push(self.content[i]);
            i = i + 1;
            assert(new_content@ =~= self.content@.take(i as int));
        }
        assert(len_to_copy == self.content@.len() ==> self.content@.take(len_to_copy as int)
            =~= self.content@);
        Ok(KnownBottle { capacity: new_capacity, content: new_content })
    }

    /// Creates a new KnownBottle with the same content as this KnownBottle, but a different capacity,
    /// consuming this KnownBottle.
    ///
    /// This will fail if `new_capacity` is greater than `MAX_CAP`.
    pub fn try_take_as_resized(self, new_capacity: usize) -> (r: Result<Self, BottleMaxCapError>)
        requires
            self.wf(),
        ensures
            new_capacity > MAX_CAP ==> r == Err::<Self, _>(BottleMaxCapError::MaxCapExceeded),
            new_capacity <= MAX_CAP ==> (r matches Ok(b) && b.wf() && b.cap_v() == new_capacity
                && b.content_v() == (if self.content_v().len() > new_capacity {
                self.content_v().take(new_capacity as int)
            } else {
                self.content_v()
            })),
    {
        if new_capacity > MAX_CAP {
            return Err(BottleMaxCapError::MaxCapExceeded);
        }
        let mut new_content = self.content;
        if new_content.len() > new_capacity {
            new_content.truncate(new_capacity);
        }
        Ok(KnownBottle { capacity: new_capacity, content: new_content })
    }

    /// Returns the [ColoredWaterUnit] at the top of this bottle
    ///
    /// This returns [None] if there isn't any water in the bottle.
    pub fn get_top_color(&self) -> (r: Option<ColoredWaterUnit>)
        ensures
            self.content_v().len() == 0 ==> r is None,
            self.content_v().len() > 0 ==> r == Some(self.content_v().last()),
    {
        if self.content.len() > 0 {
            Some(self.content[self.content.len() - 1])
        } else {
            None
        }
    }

    /// Returns the [ColoredWaterRun] at the top of this bottle
    ///
    /// This returns [None] if there isn't any water in the bottle.
    pub fn get_top_color_run(&self) -> (r: Option<ColoredWaterRun>)
        requires
            self.wf(),
        ensures
            r == out_run(self.units()),
    {
        let ghost units = self.units();
        if self.content.len() == 0 {
            return None;
        }
        let top_color = self.content[self.content.len() - 1];
        let ghost u = PartialColoredWaterUnit::Color(top_color);
        let mut color_count: usize = 0;
        let mut idx = self.content.len();
        while idx > 0
            invariant
                units == known_units(self.content@),
                units.len() == self.content@.len(),
                self.content@.len() <= usize::MAX,
                units.len() > 0,
                u == units.last(),
                u == PartialColoredWaterUnit::Color(top_color),
                idx <= units.len(),
                color_count + idx == units.len(),
                color_count + run_down(units, idx - 1, u) == run_down(units, units.len() - 1, u),
            ensures
                color_count == run_down(units, units.len() - 1, u),
            decreases idx,
        {
            assert(units[idx - 1] == PartialColoredWaterUnit::Color(self.content@[idx - 1]));
            if self.content[idx - 1] == top_color {
                assert(run_down(units, idx - 1, u) == 1 + run_down(units, idx - 2, u));
                color_count += 1;
                idx = idx - 1;
            } else {
                assert(units[idx - 1] != u);
                break;
            }
        }
        Some(ColoredWaterRun { color: top_color, size: color_count })
    }

    /// Attempt to pour a [ColoredWaterRun] into this bottle.
    ///
    /// If this is successful, will return a new [ColoredWaterRun] representing the portion of
    /// the given `content_to_pour` that wouldn't fit into this bottle. Its `size` may be 0; this
    /// indicates that the entirety of `content_to_pour` fit into this bottle.
    ///
    /// If this is unsuccessful, an [Err] is returned with an appropriate [PourInError] variant.
    /// No change is made to this bottle in this case.
    pub fn try_pour_in(&mut self, content_to_pour: ColoredWaterRun) -> (r: Result<ColoredWaterRun, PourInError>)
        requires
            old(self).wf(),
            pour_in_fits_v(old(self).units(), old(self).bcap(), old(self).storage_cap(), content_to_pour),
        ensures
            final(self).wf(),
            r == pour_in_result(old(self).units(), old(self).bcap(), content_to_pour),
            final(self).cap_v() == old(self).cap_v(),
            r is Ok ==> final(self).units() == old(self).units() + color_units(
                content_to_pour.color,
                pour_in_amount(old(self).units(), old(self).bcap(), content_to_pour),
            ),
            r is Ok ==> final(self).content_v() == old(self).content_v() + Seq::new(
                pour_in_amount(old(self).units(), old(self).bcap(), content_to_pour),
                |i: int| content_to_pour.color,
            ),
            r is Err ==> *final(self) == *old(self),
    {
        let ghost old_units = self.units();
        if let Some(top_color) = self.get_top_color() {
            if top_color != content_to_pour.color {
                return Err(PourInError::MismatchedColors);
            }
        }
        let empty_space = self.capacity - self.content.len();
        let count_to_pour = if content_to_pour.size <= empty_space {
            content_to_pour.size
        } else {
            empty_space
        };
        if count_to_pour == 0 {
            return Err(PourInError::AlreadyFull);
        }
        let mut count_poured: usize = 0;
        let ghost old_content = self.content@;
        while count_poured < count_to_pour
            invariant
                count_poured <= count_to_pour,
                self.capacity == old(self).capacity,
                old_content == old(self).content@,
                self.content@ == old_content + Seq::new(
                    count_poured as nat,
                    |i: int| content_to_pour.color,
                ),
            decreases count_to_pour - count_poured,
        {
            self.content.push(content_to_pour.color);
            count_poured += 1;
            assert(self.content@ =~= old_content + Seq::new(
                count_poured as nat,
                |i: int| content_to_pour.color,
            ));
        }
        assert(self.units() =~= old_units + color_units(content_to_pour.color, count_poured as nat));
        Ok(ColoredWaterRun { color: content_to_pour.color, size: content_to_pour.size - count_poured })
    }

    /// Determine what running [KnownBottle::try_pour_in] would return given the current content
    /// of this bottle and the provided `content_to_pour`, without modifying this bottle.
    pub fn test_pour_in(&self, content_to_pour: ColoredWaterRun) -> (r: Result<ColoredWaterRun, PourInError>)
        requires
            self.wf(),
        ensures
            r == pour_in_result(self.units(), self.bcap(), content_to_pour),
    {
        if let Some(top_color) = self.get_top_color() {
            if top_color != content_to_pour.color {
                return Err(PourInError::MismatchedColors);
            }
        }
        let empty_space = self.capacity - self.content.len();
        // nothing can be poured into a full bottle, and nothing is poured of an empty run
        if empty_space == 0 || content_to_pour.size == 0 {
            return Err(PourInError::AlreadyFull);
        }
        Ok(ColoredWaterRun {
            color: content_to_pour.color,
            size: if content_to_pour.size <= empty_space {
                0
            } else {
                content_to_pour.size - empty_space
            },
        })
    }

    /// Attempt to pour the run at the top of this bottle into `destination`.
    ///
    /// If this is unsuccessful (i.e., this bottle is empty or the destination bottle couldn't
    /// accept the pour), an [Err] is returned with an appropriate [PourOutError] variant. No
    /// change is made to either bottle in this case.
    pub fn try_pour_out<const OTHER_MAX_CAP: usize>(&mut self, destination: &mut KnownBottle<OTHER_MAX_CAP>) -> (r:
        Result<(), PourOutError>)
        requires
            old(self).wf(),
            old(destination).wf(),
            pour_out_fits(*old(self), *old(destination)),
        ensures
            final(self).wf(),
            final(destination).wf(),
            r == pour_out_result(old(self).units(), old(destination).units(), old(destination).bcap()),
            final(self).cap_v() == old(self).cap_v(),
            final(destination).cap_v() == old(destination).cap_v(),
            r is Ok ==> final(self).units() == old(self).units().take(
                old(self).units().len() - pour_out_amount(
                    old(self).units(),
                    old(destination).units(),
                    old(destination).bcap(),
                ),
            ),
            r is Ok ==> final(destination).units() == old(destination).units() + color_units(
                poured_color(old(self).units()),
                pour_out_amount(old(self).units(), old(destination).units(), old(destination).bcap()),
            ),
            r is Err ==> *final(self) == *old(self) && *final(destination) == *old(destination),
    {
        try_pour_out(self, destination)
    }

    /// Determine what running [KnownBottle::try_pour_out] would return, without modifying either bottle.
    pub fn test_pour_out<const OTHER_MAX_CAP: usize>(&self, destination: &KnownBottle<OTHER_MAX_CAP>) -> (r: Result<
        (),
        PourOutError,
    >)
        requires
            self.wf(),
            destination.wf(),
        ensures
            r == pour_out_result(self.units(), destination.units(), destination.bcap()),
    {
        test_pour_out(self, destination)
    }

    /// Determine if this KnownBottle is in its final state: entirely full of a single color.
    ///
    /// Entirely empty bottles are not considered in their final state by this function; although
    /// they can be a part of a finished game state, they can also still be poured into.
    pub fn is_in_final_state(&self) -> (r: bool)
        ensures
            r == known_final(self.content_v(), self.cap_v()),
    {
        match ColoredWaterRun::try_from_units(self.content.as_slice()) {
            Ok(run) => run.size == self.capacity,
            Err(_) => false,
        }
    }

    /// Convert a [PartialBottle] into a KnownBottle; fails when it has units of unknown color
    pub fn try_from_partial(value: PartialBottle<MAX_CAP>) -> (r: Result<Self, PartialBottleConversionError>)
        requires
            value.wf(),
        ensures
            value.unknown_v() > 0 ==> r == Err::<Self, _>(PartialBottleConversionError::UnknownUnits),
            value.unknown_v() == 0 ==> (r matches Ok(b) && b.wf() && b.cap_v() == value.cap_v()
                && b.content_v() == value.known_v() && b.units() == value.units()),
    {
        proof {
            value.lemma_wf();
            value.lemma_units();
        }
        if value.get_unknown_count() > 0 {
            Err(PartialBottleConversionError::UnknownUnits)
        } else {
            let capacity = value.get_capacity();
            let content = value.take_known_content();
            let b = KnownBottle { capacity, content };
            assert(b.units() =~= value.units());
            Ok(b)
        }
    }
}

impl<const MAX_CAP: usize> KnownBottle<MAX_CAP> {
    /// Where this bottle stands against `other` in the standard order of bottles, which game
    /// states use to compare their bottles regardless of the order in which they come: a bottle
    /// is less than another when it has less capacity, or the same capacity and fewer units, or
    /// the same of both and, at the lowest position where their colors differ, the color that
    /// comes first in the declaration of [ColoredWaterUnit].
    pub fn compare<const OTHER_MAX_CAP: usize>(&self, other: &KnownBottle<OTHER_MAX_CAP>) -> (r: Comparison)
        ensures
            r == bottle_order(self.cap_v(), self.content_v(), other.cap_v(), other.content_v()),
    {
        if self.capacity < other.capacity {
            return Comparison::Less;
        }
        if self.capacity > other.capacity {
            return Comparison::Greater;
        }
        let n = self.content.len();
        if n < other.content.len() {
            return Comparison::Less;
        }
        if n > other.content.len() {
            return Comparison::Greater;
        }
        let ghost a = self.content@;
        let ghost b = other.content@;
        let mut i: usize = 0;
        assert(a.skip(0) =~= a);
        assert(b.skip(0) =~= b);
        while i < n
            invariant
                self.capacity == other.capacity,
                a == self.content@,
                b == other.content@,
                n == a.len(),
                n == b.len(),
                i <= n,
                content_order(a, b) == content_order(a.skip(i as int), b.skip(i as int)),
            decreases n - i,
        {
            let x = self.content[i].ordinal();
            let y = other.content[i].ordinal();
            assert(a.skip(i as int)[0] == a[i as int]);
            assert(b.skip(i as int)[0] == b[i as int]);
            if x < y {
                return Comparison::Less;
            }
            if x > y {
                return Comparison::Greater;
            }
            assert(a.skip(i as int).drop_first() =~= a.skip(i + 1));
            assert(b.skip(i as int).drop_first() =~= b.skip(i + 1));
            i = i + 1;
        }
        assert(a.skip(n as int).len() == 0);
        Comparison::Equal
    }
}

impl<const MAX_CAP: usize> Bottle for KnownBottle<MAX_CAP> {
    open spec fn bcap(&self) -> nat {
        self.cap_v()
    }

    open spec fn units(&self) -> Seq<PartialColoredWaterUnit> {
        known_units(self.content_v())
    }

    open spec fn storage_cap(&self) -> nat {
        MAX_CAP as nat
    }

    open spec fn inv(&self) -> bool {
        self.wf()
    }

    open spec fn set_color_result(&self, idx: int, new_color: Option<PartialColoredWaterUnit>) -> Result<(), ColorSetError> {
        known_set_result(self.content_v().len(), self.cap_v(), idx, new_color)
    }

    open spec fn set_color_fits(&self, idx: int, new_color: Option<PartialColoredWaterUnit>) -> bool {
        (new_color is Some && idx == self.content_v().len() && self.content_v().len() + 1 <= self.cap_v())
            ==> self.content_v().len() + 1 <= MAX_CAP
    }

    proof fn lemma_fillable_set_fits(&self, idx: int, new_color: Option<PartialColoredWaterUnit>) {
    }

    proof fn lemma_inv(&self) {
        assert(self.wf());
        assert(self.content@.len() <= self.capacity);
        assert(self.units().len() == self.content@.len());
        assert(self.bcap() == self.capacity as nat);
        assert(self.bcap() <= usize::MAX);
    }

    /// Try to set the unit at index `idx` within this bottle to the given `new_color`.
    ///
    /// Unknown colors are not supported and always result in [ColorSetError::UnknownNotSupported].
    fn try_set_color(&mut self, idx: usize, new_color: Option<PartialColoredWaterUnit>) -> (r: Result<
        (),
        ColorSetError,
    >)
        ensures
            r == known_set_result(old(self).content_v().len(), old(self).cap_v(), idx as int, new_color),
    {
        let ghost old_units = self.units();
        let new_color: Option<ColoredWaterUnit> = match new_color {
            Some(PartialColoredWaterUnit::Color(c)) => Some(c),
            Some(PartialColoredWaterUnit::UnknownColor) => {
                return Err(ColorSetError::UnknownNotSupported);
            },
            None => None,
        };
        let len = self.content.len();
        if idx > len {
            Err(ColorSetError::EmptyBelow)
        } else if idx == len {
            if len >= self.capacity {
                Err(ColorSetError::ExceedsCapacity)
            } else {
                if let Some(new_color) = new_color {
                    self.content.push(new_color);
                    assert(self.units() =~= old_units.push(PartialColoredWaterUnit::Color(new_color)));
                }
                Ok(())
            }
        } else if idx == len - 1 {
            if let Some(new_color) = new_color {
                self.content.set(idx, new_color);
                assert(self.units() =~= old_units.update(
                    idx as int,
                    PartialColoredWaterUnit::Color(new_color),
                ));
            } else {
                self.content.pop();
                assert(self.units() =~= old_units.drop_last());
            }
            Ok(())
        } else {
            if let Some(new_color) = new_color {
                self.content.set(idx, new_color);
                assert(self.units() =~= old_units.update(
                    idx as int,
                    PartialColoredWaterUnit::Color(new_color),
                ));
                Ok(())
            } else {
                Err(ColorSetError::FullAbove)
            }
        }
    }

    fn duplicate(&self) -> (r: Self) {
        KnownBottle { capacity: self.capacity, content: copy_units(self.content.as_slice()) }
    }

    fn sample_at(&self, idx: usize) -> (r: BottleSampleResult) {
        if idx >= self.capacity {
            BottleSampleResult::OutOfBounds
        } else if idx < self.content.len() {
            BottleSampleResult::KnownColor(self.content[idx])
        } else {
            BottleSampleResult::Empty
        }
    }

    fn capacity(&self) -> (r: usize) {
        self.capacity
    }

    fn get_top_content_idx(&self) -> (r: Option<usize>) {
        self.content.len().checked_sub(1)
    }

    fn try_pour_in(&mut self, content_to_pour: ColoredWaterRun) -> (r: Result<ColoredWaterRun, PourInError>) {
        KnownBottle::try_pour_in(self, content_to_pour)
    }

    fn test_pour_in(&self, content_to_pour: ColoredWaterRun) -> (r: Result<ColoredWaterRun, PourInError>) {
        KnownBottle::test_pour_in(self, content_to_pour)
    }

    fn remove_top_units(&mut self, n: usize) {
        let ghost old_units = self.units();
        proof {
            lemma_top_run(old_units);
        }
        let new_len = self.content.len() - n;
        self.content.truncate(new_len);
        assert(self.units() =~= old_units.take(new_len as int));
    }
}

} // verus!
