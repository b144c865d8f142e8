//! A [PartialBottle]: a [Bottle] with some units of unknown color at the bottom.
use vstd::prelude::*;

use super::bottle_trait::{
    ColorSetError, BottleSampleResult, BottleSampleConversionError, unit_sample, known_units, unknown_units, color_units, sample_of, top_unit, run_down, run_up, top_run_len, top_run, top_mismatch, space_left, pour_in_amount, pour_in_result, out_run, pour_out_result, pour_out_amount, poured_color, units_after_set, runs_from, done_count, finish_estimate, lemma_run_down_bound, lemma_run_up_bound, lemma_runs_from_bound, lemma_top_run, fillable_v, fillable, pour_in_fits_v, pour_in_fits, lemma_fillable_fits, pour_out_fits, Bottle, try_pour_out, test_pour_out,
};
use super::{BottleCapacityError, BottleMaxCapError, KnownBottle, PourInError, PourOutError};
use crate::colored_water::{ColoredWaterRun, ColoredWaterUnit, PartialColoredWaterRun, PartialColoredWaterUnit, copy_units};

verus! {

/// One Bottle that may contain [ColoredWaterUnit]s, but where the specific color of some
/// of the units is unknown.
///
/// Each bottle has a capacity, some known content and an "unknown count": the number of units
/// that are filled with some color, but where that color is not known. Unknown units are always
/// at the bottom of the bottle, below the known content.
///
/// The unknown count plus the length of the known content never exceeds the capacity, and the
/// known content is never longer than `MAX_CAP`.
#[derive(Debug, Clone, PartialEq, Eq, Hash)]
pub struct PartialBottle<const MAX_CAP: usize> {
    capacity: usize,
    content: Vec<ColoredWaterUnit>,
    unknown_count: usize,
}

/// Reasons that setting a [PartialColoredWaterUnit] within a [PartialBottle] may fail.
#[derive(Debug, Clone, Copy, PartialEq, Eq, Structural)]
pub enum PartialColorSetError {
    /// Attempted to set a unit to a color (known or unknown) at a location that has empty space below it
    EmptyBelow,
    /// Attempted to set a unit to empty at a location that has non-empty space above it
    FullAbove,
    /// Attempted to set a unit to an unknown color at a location that has known colors below it
    KnownBelow,
    /// Attempted to set a unit to a known color at a location that has unknown colors above it
    UnknownAbove,
    /// Attempted to set a unit at a location beyond the capacity of the destination [PartialBottle]
    ExceedsCapacity,
}

/// The [ColorSetError] that stands for a [PartialColorSetError]
pub open spec fn as_color_set_error(e: PartialColorSetError) -> ColorSetError {
    match e {
        PartialColorSetError::EmptyBelow => ColorSetError::EmptyBelow,
        PartialColorSetError::FullAbove => ColorSetError::FullAbove,
        PartialColorSetError::KnownBelow => ColorSetError::KnownBelow,
        PartialColorSetError::UnknownAbove => ColorSetError::UnknownAbove,
        PartialColorSetError::ExceedsCapacity => ColorSetError::ExceedsCapacity,
    }
}

/// The result of setting a color within a partial bottle, with its error as one of any bottle
pub open spec fn as_set_result(r: Result<(), PartialColorSetError>) -> Result<(), ColorSetError> {
    match r {
        Ok(_) => Ok(()),
        Err(e) => Err(as_color_set_error(e)),
    }
}

/// What setting a color within a partial bottle with `k` unknown units, `len` known units and
/// capacity `cap` returns. `idx` counts the unknown units: index 0 is the bottom unit.
pub open spec fn partial_set_result(
    k: nat,
    len: nat,
    cap: nat,
    idx: int,
    new_color: Option<PartialColoredWaterUnit>,
) -> Result<(), PartialColorSetError> {
    match new_color {
        None => if idx < k {
            if idx + 1 == k && len == 0 {
                Ok(())
            } else {
                Err(PartialColorSetError::FullAbove)
            }
        } else if idx - k + 1 == len || idx - k == len {
            Ok(())
        } else if idx - k > len {
            Err(PartialColorSetError::EmptyBelow)
        } else {
            Err(PartialColorSetError::FullAbove)
        },
        Some(PartialColoredWaterUnit::UnknownColor) => if idx < k {
            Ok(())
        } else if idx == k {
            if len > 0 || k + 1 <= cap {
                Ok(())
            } else {
                Err(PartialColorSetError::ExceedsCapacity)
            }
        } else if idx - k < len {
            Err(PartialColorSetError::KnownBelow)
        } else {
            Err(PartialColorSetError::EmptyBelow)
        },
        Some(PartialColoredWaterUnit::Color(_)) => if idx < k {
            if idx + 1 == k {
                Ok(())
            } else {
                Err(PartialColorSetError::UnknownAbove)
            }
        } else if idx - k < len {
            Ok(())
        } else if idx - k == len {
            if k + len + 1 <= cap {
                Ok(())
            } else {
                Err(PartialColorSetError::ExceedsCapacity)
            }
        } else {
            Err(PartialColorSetError::EmptyBelow)
        },
    }
}

/// The first `n` units of `k` unknown units followed by known content `c`
pub proof fn lemma_take_units(k: nat, c: Seq<ColoredWaterUnit>, n: nat)
    requires
        n <= k + c.len(),
    ensures
        (unknown_units(k) + known_units(c)).take(n as int) == (if n <= k {
            unknown_units(n)
        } else {
            unknown_units(k) + known_units(c.take(n - k))
        }),
{
    let u = unknown_units(k) + known_units(c);
    if n <= k {
        assert(u.take(n as int) =~= unknown_units(n));
    } else {
        assert(u.take(n as int) =~= unknown_units(k) + known_units(c.take(n - k)));
    }
}

/// A run of unknown units going down from the top of `k` unknown units covers all of them
proof fn lemma_run_down_unknown(units: Seq<PartialColoredWaterUnit>, k: nat, i: int)
    requires
        k <= units.len(),
        -1 <= i < k,
        forall|j: int| 0 <= j < k ==> units[j] == PartialColoredWaterUnit::UnknownColor,
    ensures
        run_down(units, i, PartialColoredWaterUnit::UnknownColor) == i + 1,
    decreases i + 1,
{
    if i >= 0 {
        lemma_run_down_unknown(units, k, i - 1);
    }
}

impl<const MAX_CAP: usize> PartialBottle<MAX_CAP> {
    /// The capacity of this bottle
    pub closed spec fn cap_v(&self) -> nat {
        self.capacity as nat
    }

    /// The known content of this bottle, bottom first
    pub closed spec fn known_v(&self) -> Seq<ColoredWaterUnit> {
        self.content@
    }

    /// The number of unknown units at the bottom of this bottle
    pub closed spec fn unknown_v(&self) -> nat {
        self.unknown_count as nat
    }

    /// This bottle is well formed: its units fit its capacity and its known content fits `MAX_CAP`
    pub closed spec fn wf(&self) -> bool {
        &&& self.unknown_count + self.content@.len() <= self.capacity
        &&& self.content@.len() <= MAX_CAP
    }

    /// What well-formedness means
    pub proof fn lemma_wf(&self)
        requires
            self.wf(),
        ensures
            self.unknown_v() + self.known_v().len() <= self.cap_v(),
            self.known_v().len() <= MAX_CAP,
            self.cap_v() <= usize::MAX,
    {
    }

    /// The units of a partial bottle are its unknown units followed by its known content
    pub proof fn lemma_units(&self)
        ensures
            self.units() == unknown_units(self.unknown_v()) + known_units(self.known_v()),
            self.units().len() == self.unknown_v() + self.known_v().len(),
            forall|j: int|
                0 <= j < self.unknown_v() ==> self.units()[j] == PartialColoredWaterUnit::UnknownColor,
            forall|j: int|
                self.unknown_v() <= j < self.units().len() ==> self.units()[j]
                    == PartialColoredWaterUnit::Color(self.known_v()[j - self.unknown_v()]),
    {
    }

    /// Tries to create a new, empty PartialBottle.
    ///
    /// `capacity` is the capacity of the bottle to create. `unknown_count`
    /// is the number of units of that capacity to treat as unknown colors.
    ///
    /// This will fail if:
    /// - The given `capacity` is greater than `MAX_CAP` (results in [BottleCapacityError::MaxCapExceeded])
    /// - The given `unknown_count` is greater than `MAX_CAP` (results in [BottleCapacityError::MaxCapExceeded])
    /// - The given `unknown_count` is greater than the given `capacity` (results in [BottleCapacityError::CapExceeded])
    pub fn try_new(capacity: usize, unknown_count: usize) -> (r: Result<Self, BottleCapacityError>)
        ensures
            capacity > MAX_CAP || unknown_count > MAX_CAP ==> r == Err::<Self, _>(
                BottleCapacityError::MaxCapExceeded,
            ),
            capacity <= MAX_CAP && unknown_count <= MAX_CAP && unknown_count > capacity ==> r == Err::<
                Self,
                _,
            >(BottleCapacityError::CapExceeded),
            capacity <= MAX_CAP && unknown_count <= capacity ==> (r matches Ok(b) && b.wf()
                && b.cap_v() == capacity && b.unknown_v() == unknown_count && b.known_v().len() == 0),
    {
        if capacity > MAX_CAP || unknown_count > MAX_CAP {
            Err(BottleCapacityError::MaxCapExceeded)
        } else if unknown_count > capacity {
            Err(BottleCapacityError::CapExceeded)
        } else {
            Ok(PartialBottle { capacity, unknown_count, content: Vec::new() })
        }
    }

    /// Tries to create a new PartialBottle with the given content and unknown count.
    /// Capacity is set to the number of elements in `content` plus the unknown count.
    ///
    /// This will fail if the size of `content` plus the `unknown_count` is greater than `MAX_CAP`
    pub fn try_with_content(content: &[ColoredWaterUnit], unknown_count: usize) -> (r: Result<Self, BottleMaxCapError>)
        ensures
            content@.len() + unknown_count > MAX_CAP ==> r == Err::<Self, _>(
                BottleMaxCapError::MaxCapExceeded,
            ),
            content@.len() + unknown_count <= MAX_CAP ==> (r matches Ok(b) && b.wf() && b.cap_v()
                == content@.len() + unknown_count && b.unknown_v() == unknown_count && b.known_v()
                == content@),
    {
        if content.len() > MAX_CAP || unknown_count > MAX_CAP - content.len() {
            return Err(BottleMaxCapError::MaxCapExceeded);
        }
        let mut v: Vec<ColoredWaterUnit> = Vec::new();
        let mut i: usize = 0;
        while i < content.len()
            invariant
                i <= content@.len(),
                v@ == content@.take(i as int),
            decreases content@.len() - i,
        {
            v.push(content[i]);
            i = i + 1;
            assert(v@ =~= content@.take(i as int));
        }
        assert(content@.take(i as int) =~= content@);
        Ok(PartialBottle { capacity: content.len() + unknown_count, content: v, unknown_count })
    }

    /// Create a bottle from its capacity, known content and unknown count, as stored; fails when
    /// the known content is longer than `MAX_CAP` ([BottleCapacityError::MaxCapExceeded]) or when
    /// the unknown count and the content together exceed the capacity
    /// ([BottleCapacityError::CapExceeded])
    pub fn try_from_parts(capacity: usize, content: Vec<ColoredWaterUnit>, unknown_count: usize) -> (r: Result<
        Self,
        BottleCapacityError,
    >)
        ensures
            content@.len() > MAX_CAP ==> r == Err::<Self, _>(BottleCapacityError::MaxCapExceeded),
            content@.len() <= MAX_CAP && content@.len() + unknown_count > capacity ==> r == Err::<
                Self,
                _,
            >(BottleCapacityError::CapExceeded),
            content@.len() <= MAX_CAP && content@.len() + unknown_count <= capacity ==> (r matches Ok(b)
                && b.wf() && b.cap_v() == capacity && b.known_v() == content@ && b.unknown_v()
                == unknown_count),
    {
        if content.len() > MAX_CAP {
            Err(BottleCapacityError::MaxCapExceeded)
        } else if unknown_count <= capacity && content.len() <= capacity - unknown_count {
            Ok(PartialBottle { capacity, content, unknown_count })
        } else {
            Err(BottleCapacityError::CapExceeded)
        }
    }

    /// A partial bottle with no unknown units and the content of a [KnownBottle]
    pub fn from_known(value: KnownBottle<MAX_CAP>) -> (r: Self)
        requires
            value.wf(),
        ensures
            r.wf(),
            r.cap_v() == value.cap_v(),
            r.known_v() == value.content_v(),
            r.unknown_v() == 0,
            r.units() == value.units(),
    {
        proof {
            value.lemma_wf();
        }
        let capacity = value.capacity();
        let content = value.take_content();
        let r = PartialBottle { capacity, content, unknown_count: 0 };
        assert(r.units() =~= value.units());
        r
    }

    /// Immutably borrow the known content of this PartialBottle. Does not include unknown content.
    pub fn get_known_content(&self) -> (r: &Vec<ColoredWaterUnit>)
        ensures
            r@ == self.known_v(),
    {
        &self.content
    }

    /// Take the known content of this PartialBottle. Does not include unknown content.
    pub fn take_known_content(self) -> (r: Vec<ColoredWaterUnit>)
        ensures
            r@ == self.known_v(),
    {
        self.content
    }

    /// Return the capacity of this PartialBottle.
    pub fn get_capacity(&self) -> (r: usize)
        ensures
            r == self.cap_v(),
    {
        self.capacity
    }

    /// Return the maximum capacity of this PartialBottle
    pub fn get_max_capacity(&self) -> (r: usize)
        ensures
            r == MAX_CAP,
    {
        MAX_CAP
    }

    /// Return the unknown count of this PartialBottle
    pub fn get_unknown_count(&self) -> (r: usize)
        ensures
            r == self.unknown_v(),
    {
        self.unknown_count
    }

    /// Try to set the unit at index `idx` within this bottle to the given `new_color`
    ///
    /// Note that `idx` here is 0-based and includes `unknown_count`. If the `unknown_count` is 1, `idx` 0 points
    /// to the single unknown unit and `idx` 1 points to the first known unit.
    ///
    /// If `new_color` is [Some] and the inner value is [PartialColoredWaterUnit::Color], will try to set the
    /// specified unit to the specified (known) color.
    ///
    /// If `new_color` is [Some] and the inner value is [PartialColoredWaterUnit::UnknownColor], will try to set the
    /// specified unit to an unknown unit.
    ///
    /// If `new_color` is [None], will instead try to clear the unit at the given `idx` so that it becomes empty.
    ///
    /// If this fails (i.e. returns [Err]), the PartialBottle will be left unchanged.
    pub fn try_set_color(&mut self, idx: usize, new_color: Option<PartialColoredWaterUnit>) -> (r: Result<
        (),
        PartialColorSetError,
    >)
        requires
            old(self).wf(),
            old(self).set_color_fits(idx as int, new_color),
        ensures
            final(self).wf(),
            final(self).cap_v() == old(self).cap_v(),
            r == partial_set_result(
                old(self).unknown_v(),
                old(self).known_v().len(),
                old(self).cap_v(),
                idx as int,
                new_color,
            ),
            r is Ok ==> final(self).units() == units_after_set(old(self).units(), idx as int, new_color),
            r is Err ==> *final(self) == *old(self),
    {
        let ghost old_units = self.units();
        proof {
            self.lemma_units();
        }
        let k = self.unknown_count;
        let len = self.content.len();
        match new_color {
            None => {
                if idx < k {
                    if idx == k - 1 {
                        if len == 0 {
                            self.unknown_count = k - 1;
                            assert(self.units() =~= old_units.drop_last());
                            Ok(())
                        } else {
                            Err(PartialColorSetError::FullAbove)
                        }
                    } else {
                        Err(PartialColorSetError::FullAbove)
                    }
                } else {
                    let j = idx - k;
                    if len > 0 && j == len - 1 {
                        self.content.pop();
                        assert(self.units() =~= old_units.drop_last());
                        Ok(())
                    } else if j == len {
                        Ok(())
                    } else if j > len {
                        Err(PartialColorSetError::EmptyBelow)
                    } else {
                        Err(PartialColorSetError::FullAbove)
                    }
                }
            },
            Some(PartialColoredWaterUnit::UnknownColor) => {
                if idx < k {
                    assert(old_units.update(idx as int, PartialColoredWaterUnit::UnknownColor)
                        =~= old_units);
                    Ok(())
                } else if idx == k {
                    if len > 0 {
                        self.content.remove(0);
                        self.unknown_count = k + 1;
                        assert(self.units() =~= old_units.update(
                            idx as int,
                            PartialColoredWaterUnit::UnknownColor,
                        ));
                        Ok(())
                    } else if k < self.capacity {
                        self.unknown_count = k + 1;
                        assert(self.units() =~= old_units.push(PartialColoredWaterUnit::UnknownColor));
                        Ok(())
                    } else {
                        Err(PartialColorSetError::ExceedsCapacity)
                    }
                } else {
                    let j = idx - k;
                    if j < len {
                        Err(PartialColorSetError::KnownBelow)
                    } else {
                        Err(PartialColorSetError::EmptyBelow)
                    }
                }
            },
            Some(PartialColoredWaterUnit::Color(c)) => {
                if idx < k {
                    if idx == k - 1 {
                        self.unknown_count = k - 1;
                        self.content.insert(0, c);
                        assert(self.units() =~= old_units.update(
                            idx as int,
                            PartialColoredWaterUnit::Color(c),
                        ));
                        Ok(())
                    } else {
                        Err(PartialColorSetError::UnknownAbove)
                    }
                } else {
                    let j = idx - k;
                    if j < len {
                        self.content.set(j, c);
                        assert(self.units() =~= old_units.update(
                            idx as int,
                            PartialColoredWaterUnit::Color(c),
                        ));
                        Ok(())
                    } else if j == len {
                        if len < self.capacity - k {
                            self.content.push(c);
                            assert(self.units() =~= old_units.push(PartialColoredWaterUnit::Color(c)));
                            Ok(())
                        } else {
                            Err(PartialColorSetError::ExceedsCapacity)
                        }
                    } else {
                        Err(PartialColorSetError::EmptyBelow)
                    }
                }
            },
        }
    }

    /// Sets a new capacity for this PartialBottle.
    ///
    /// If `new_capacity` is larger than current capacity, empty space will be added to the 'top' of the PartialBottle.
    /// If `new_capacity` is smaller than current capacity, space (and any water in that space, known or unknown)
    /// will be removed from the 'top' of the PartialBottle.
    ///
    /// This will fail if `new_capacity` is greater than `MAX_CAP`
    pub fn resize_in_place(&mut self, new_capacity: usize) -> (r: Result<(), BottleMaxCapError>)
        requires
            old(self).wf(),
        ensures
            final(self).wf(),
            new_capacity > MAX_CAP ==> r == Err::<(), _>(BottleMaxCapError::MaxCapExceeded) && *final(self)
                == *old(self),
            new_capacity <= MAX_CAP ==> r is Ok && final(self).cap_v() == new_capacity
                && final(self).units() == old(self).units().take(
                if old(self).units().len() <= new_capacity {
                    old(self).units().len() as int
                } else {
                    new_capacity as int
                },
            ),
    {
        proof {
            self.lemma_units();
        }
        if new_capacity > MAX_CAP {
            Err(BottleMaxCapError::MaxCapExceeded)
        } else {
            let ghost old_units = self.units();
            let ghost k = self.unknown_v();
            let ghost c = self.known_v();
            let capacity_for_known = if new_capacity >= self.unknown_count {
                new_capacity - self.unknown_count
            } else {
                0
            };
            if self.content.len() > capacity_for_known {
                self.content.truncate(capacity_for_known);
            }
            if self.unknown_count > new_capacity {
                self.unknown_count = new_capacity;
            }
            self.capacity = new_capacity;
            proof {
                let n: nat = if old_units.len() <= new_capacity {
                    old_units.len()
                } else {
                    new_capacity as nat
                };
                lemma_take_units(k, c, n);
                assert(old_units.take(old_units.len() as int) =~= old_units);
                assert(c.take(c.len() as int) =~= c);
                assert(self.units() =~= old_units.take(n as int));
            }
            Ok(())
        }
    }

    /// Creates a new PartialBottle with the same content as this PartialBottle, but a different capacity.
    ///
    /// If `new_capacity` is smaller than current capacity, space (and any water in that space, known or unknown)
    /// will be removed from the 'top' of the new PartialBottle.
    ///
    /// If `new_capacity` is larger than current capacity, empty space will be added to the 'top'
    /// of the new PartialBottle.
    ///
    /// This will fail if `new_capacity` is greater than `MAX_CAP`, or than the `NEW_MAX_CAP` of
    /// the new PartialBottle, which could not hold it
    pub fn try_get_resized<const NEW_MAX_CAP: usize>(&self, new_capacity: usize) -> (r: Result<
        PartialBottle<NEW_MAX_CAP>,
        BottleMaxCapError,
    >)
        requires
            self.wf(),
        ensures
            new_capacity > MAX_CAP || new_capacity > NEW_MAX_CAP ==> r == Err::<PartialBottle<NEW_MAX_CAP>, _>(
                BottleMaxCapError::MaxCapExceeded,
            ),
            new_capacity <= MAX_CAP && new_capacity <= NEW_MAX_CAP ==> (r matches Ok(b) && b.wf() && b.cap_v() == new_capacity
                && b.units() == self.units().take(
                if self.units().len() <= new_capacity {
                    self.units().len() as int
                } else {
                    new_capacity as int
                },
            )),
    {
        proof {
            self.lemma_units();
        }
        if new_capacity > MAX_CAP || new_capacity > NEW_MAX_CAP {
            return Err(BottleMaxCapError::MaxCapExceeded);
        }
        let capacity_for_known = if new_capacity >= self.unknown_count {
            new_capacity - self.unknown_count
        } else {
            0
        };
        let new_unknown_count = if new_capacity < self.unknown_count {
            new_capacity
        } else {
            self.unknown_count
        };
        let len_to_copy = if capacity_for_known < self.content.len() {
            capacity_for_known
        } else {
            self.content.len()
        };
        let mut new_content: Vec<ColoredWaterUnit> = Vec::new();
        let mut i: usize = 0;
        while i < len_to_copy
            invariant
                i <= len_to_copy <= self.content@.len(),
                new_content@ == self.content@.take(i as int),
            decreases len_to_copy - i,
        {
            new_content.push(self.content[i]);
            i = i + 1;
            assert(new_content@ =~= self.content@.take(i as int));
        }
        let r = PartialBottle::<NEW_MAX_CAP> {
            capacity: new_capacity,
            content: new_content,
            unknown_count: new_unknown_count,
        };
        proof {
            let old_units = self.units();
            let n: nat = if old_units.len() <= new_capacity {
                old_units.len()
            } else {
                new_capacity as nat
            };
            lemma_take_units(self.unknown_v(), self.known_v(), n);
            assert(old_units.take(old_units.len() as int) =~= old_units);
            assert(self.content@.take(self.content@.len() as int) =~= self.content@);
            assert(r.units() =~= old_units.take(n as int));
        }
        Ok(r)
    }

    /// Creates a new PartialBottle with the same content as this PartialBottle, but a different
    /// capacity, consuming this PartialBottle.
    ///
    /// This will fail if `new_capacity` is greater than `MAX_CAP`
    pub fn try_take_as_resized(self, new_capacity: usize) -> (r: Result<Self, BottleMaxCapError>)
        requires
            self.wf(),
        ensures
            new_capacity > MAX_CAP ==> r == Err::<Self, _>(BottleMaxCapError::MaxCapExceeded),
            new_capacity <= MAX_CAP ==> (r matches Ok(b) && b.wf() && b.cap_v() == new_capacity
                && b.units() == self.units().take(
                if self.units().len() <= new_capacity {
                    self.units().len() as int
                } else {
                    new_capacity as int
                },
            )),
    {
        let mut b = self;
        match b.resize_in_place(new_capacity) {
            Ok(()) => Ok(b),
            Err(e) => Err(e),
        }
    }

    /// Returns the [PartialColoredWaterUnit] at the top of this bottle
    ///
    /// This returns [None] if there isn't any water in the bottle.
    pub fn get_top_color(&self) -> (r: Option<PartialColoredWaterUnit>)
        requires
            self.wf(),
        ensures
            r == top_unit(self.units()),
    {
        proof {
            self.lemma_units();
        }
        if self.content.len() > 0 {
            Some(PartialColoredWaterUnit::Color(self.content[self.content.len() - 1]))
        } else if self.unknown_count > 0 {
            Some(PartialColoredWaterUnit::UnknownColor)
        } else {
            None
        }
    }

    /// Returns the [PartialColoredWaterRun] at the top of this bottle
    ///
    /// This returns [None] if there isn't any water in the bottle.
    pub fn get_top_color_run(&self) -> (r: Option<PartialColoredWaterRun>)
        requires
            self.wf(),
        ensures
            r == top_run(self.units()),
    {
        proof {
            self.lemma_units();
        }
        let ghost units = self.units();
        let k = self.unknown_count;
        if self.content.len() > 0 {
            let top_color = self.content[self.content.len() - 1];
            let ghost u = PartialColoredWaterUnit::Color(top_color);
            let mut color_count: usize = 0;
            let mut idx = self.content.len();
            while idx > 0
                invariant
                    units == unknown_units(k as nat) + known_units(self.content@),
                    k == self.unknown_v(),
                    units.len() == k + self.content@.len(),
                    self.content@.len() > 0,
                    u == units.last(),
                    u == PartialColoredWaterUnit::Color(top_color),
                    idx <= self.content@.len(),
                    color_count + idx == self.content@.len(),
                    color_count + run_down(units, k + idx - 1, u) == run_down(units, units.len() - 1, u),
                    self.content@.len() <= usize::MAX,
                ensures
                    color_count == run_down(units, units.len() - 1, u),
                decreases idx,
            {
                assert(units[k + idx - 1] == PartialColoredWaterUnit::Color(self.content@[idx - 1]));
                if self.content[idx - 1] == top_color {
                    assert(run_down(units, k + idx - 1, u) == 1 + run_down(units, k + idx - 2, u));
                    color_count += 1;
                    idx = idx - 1;
                } else {
                    assert(units[k + idx - 1] != u);
                    break;
                }
            }
            if idx == 0 {
                assert(k == 0 || units[k - 1] != u);
            }
            Some(PartialColoredWaterRun { color: PartialColoredWaterUnit::Color(top_color), size: color_count })
        } else if k > 0 {
            proof {
                lemma_run_down_unknown(units, k as nat, k - 1);
            }
            Some(PartialColoredWaterRun { color: PartialColoredWaterUnit::UnknownColor, size: k })
        } else {
            None
        }
    }
}

impl<const MAX_CAP: usize> Bottle for PartialBottle<MAX_CAP> {
    open spec fn bcap(&self) -> nat {
        self.cap_v()
    }

    open spec fn units(&self) -> Seq<PartialColoredWaterUnit> {
        unknown_units(self.unknown_v()) + known_units(self.known_v())
    }

    /// Unknown units count towards the storage they will take once their colors are known
    open spec fn storage_cap(&self) -> nat {
        MAX_CAP as nat
    }

    open spec fn inv(&self) -> bool {
        self.wf()
    }

    open spec fn set_color_result(&self, idx: int, new_color: Option<PartialColoredWaterUnit>) -> Result<(), ColorSetError> {
        as_set_result(partial_set_result(self.unknown_v(), self.known_v().len(), self.cap_v(), idx, new_color))
    }

    open spec fn set_color_fits(&self, idx: int, new_color: Option<PartialColoredWaterUnit>) -> bool {
        (new_color is Some && new_color != Some(PartialColoredWaterUnit::UnknownColor) && ((idx
            == self.unknown_v() + self.known_v().len() && self.unknown_v() + self.known_v().len() + 1
            <= self.cap_v()) || (0 <= idx && idx + 1 == self.unknown_v()))) ==> self.known_v().len() + 1 <= MAX_CAP
    }

    proof fn lemma_fillable_set_fits(&self, idx: int, new_color: Option<PartialColoredWaterUnit>) {
        self.lemma_units();
    }

    proof fn lemma_inv(&self) {
        self.lemma_units();
        assert(self.units().len() == self.unknown_count + self.content@.len());
        assert(self.bcap() == self.capacity as nat);
    }

    fn try_set_color(&mut self, idx: usize, new_color: Option<PartialColoredWaterUnit>) -> (r: Result<
        (),
        ColorSetError,
    >)
    {
        match PartialBottle::try_set_color(self, idx, new_color) {
            Ok(()) => Ok(()),
            Err(e) => Err(
                match e {
                    PartialColorSetError::EmptyBelow => ColorSetError::EmptyBelow,
                    PartialColorSetError::FullAbove => ColorSetError::FullAbove,
                    PartialColorSetError::KnownBelow => ColorSetError::KnownBelow,
                    PartialColorSetError::UnknownAbove => ColorSetError::UnknownAbove,
                    PartialColorSetError::ExceedsCapacity => ColorSetError::ExceedsCapacity,
                },
            ),
        }
    }

    fn duplicate(&self) -> (r: Self) {
        PartialBottle {
            capacity: self.capacity,
            content: copy_units(self.content.as_slice()),
            unknown_count: self.unknown_count,
        }
    }

    fn sample_at(&self, idx: usize) -> (r: BottleSampleResult) {
        proof {
            self.lemma_units();
        }
        if idx >= self.capacity {
            BottleSampleResult::OutOfBounds
        } else if idx < self.unknown_count {
            BottleSampleResult::UnknownColor
        } else if idx - self.unknown_count < self.content.len() {
            BottleSampleResult::KnownColor(self.content[idx - self.unknown_count])
        } else {
            BottleSampleResult::Empty
        }
    }

    fn capacity(&self) -> (r: usize) {
        self.capacity
    }

    fn get_top_content_idx(&self) -> (r: Option<usize>) {
        proof {
            self.lemma_units();
        }
        let total = self.unknown_count + self.content.len();
        if total > 0 {
            Some(total - 1)
        } else {
            None
        }
    }

    fn try_pour_in(&mut self, content_to_pour: ColoredWaterRun) -> (r: Result<ColoredWaterRun, PourInError>) {
        proof {
            self.lemma_units();
        }
        let ghost old_units = self.units();
        if let Some(top_color) = self.get_top_color() {
            if top_color != PartialColoredWaterUnit::Color(content_to_pour.color) {
                return Err(PourInError::MismatchedColors);
            }
        }
        let empty_space = self.capacity - self.unknown_count - self.content.len();
        let count_to_pour = if content_to_pour.size <= empty_space {
            content_to_pour.size
        } else {
            empty_space
        };
        if count_to_pour == 0 {
            return Err(PourInError::AlreadyFull);
        }
        let mut count_poured: usize = 0;
        let ghost old_content = self.content@;
        while count_poured < count_to_pour
            invariant
                count_poured <= count_to_pour,
                self.capacity == old(self).capacity,
                self.unknown_count == old(self).unknown_count,
                old_content == old(self).content@,
                self.content@ == old_content + Seq::new(
                    count_poured as nat,
                    |i: int| content_to_pour.color,
                ),
            decreases count_to_pour - count_poured,
        {
            self.content.push(content_to_pour.color);
            count_poured += 1;
            assert(self.content@ =~= old_content + Seq::new(
                count_poured as nat,
                |i: int| content_to_pour.color,
            ));
        }
        assert(self.units() =~= old_units + color_units(content_to_pour.color, count_poured as nat));
        Ok(ColoredWaterRun { color: content_to_pour.color, size: content_to_pour.size - count_poured })
    }

    fn test_pour_in(&self, content_to_pour: ColoredWaterRun) -> (r: Result<ColoredWaterRun, PourInError>) {
        proof {
            self.lemma_units();
        }
        if let Some(top_color) = self.get_top_color() {
            if top_color != PartialColoredWaterUnit::Color(content_to_pour.color) {
                return Err(PourInError::MismatchedColors);
            }
        }
        let empty_space = self.capacity - self.unknown_count - self.content.len();
        // nothing can be poured into a full bottle, and nothing is poured of an empty run
        if empty_space == 0 || content_to_pour.size == 0 {
            return Err(PourInError::AlreadyFull);
        }
        Ok(ColoredWaterRun {
            color: content_to_pour.color,
            size: if content_to_pour.size <= empty_space {
                0
            } else {
                content_to_pour.size - empty_space
            },
        })
    }

    fn remove_top_units(&mut self, n: usize) {
        proof {
            self.lemma_units();
        }
        let ghost old_units = self.units();
        proof {
            lemma_top_run(old_units);
        }
        // the top run is known, so it lies within the known content
        assert(n <= self.content@.len()) by {
            if n > self.content@.len() {
                let j = old_units.len() - self.content@.len() - 1;
                assert(old_units[j] == old_units.last());
            }
        }
        let new_len = self.content.len() - n;
        self.content.truncate(new_len);
        assert(self.units() =~= old_units.take(old_units.len() - n));
    }
}

} // verus!
