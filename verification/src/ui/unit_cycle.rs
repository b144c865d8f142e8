//! Cycling the unit at one position of a bottle through the values it can take, as the setup
//! menu does when the user presses Left or Right over it.
use vstd::prelude::*;

use crate::bottle::{Bottle, PartialBottle, partial_set_result, units_after_set};
use crate::colored_water::{
    PartialColoredWaterIter, PartialColoredWaterUnit, RevPartialColoredWaterIter, partial_at, partial_index,
};

verus! {

/// The position of a value in the cycle of values a unit can take: empty first, then the
/// unknown color, then the known colors in order (14 values in all)
pub open spec fn cycle_pos(v: Option<PartialColoredWaterUnit>) -> int {
    match v {
        None => 0,
        Some(u) => partial_index(u) + 1int,
    }
}

/// The value at position `p` of the cycle, counting around it
pub open spec fn cycle_at(p: int) -> Option<PartialColoredWaterUnit> {
    if p % 14 == 0 {
        None
    } else {
        Some(partial_at(p % 14 - 1))
    }
}

/// The value `steps` places after `start` in the cycle, going forward or backward
pub open spec fn cycled(start: Option<PartialColoredWaterUnit>, forward: bool, steps: int) -> Option<
    PartialColoredWaterUnit,
> {
    cycle_at(
        cycle_pos(start) + if forward {
            steps
        } else {
            13 * steps
        },
    )
}

/// The value a unit at `idx` of a bottle with `k` unknown units, `len` known units and capacity
/// `cap` takes when cycled from `start`: the first value after `start`, from place `s` on, that
/// can be set there (leaving out empty when `skip_none`), or `start` itself once around
pub open spec fn cycle_choice(
    k: nat,
    len: nat,
    cap: nat,
    idx: int,
    start: Option<PartialColoredWaterUnit>,
    forward: bool,
    skip_none: bool,
    s: int,
) -> Option<PartialColoredWaterUnit>
    decreases 14 - s,
{
    if s >= 14 {
        start
    } else {
        let v = cycled(start, forward, s);
        if !(skip_none && v is None) && partial_set_result(k, len, cap, idx, v) is Ok {
            v
        } else {
            cycle_choice(k, len, cap, idx, start, forward, skip_none, s + 1)
        }
    }
}

/// Going once around the cycle comes back to the start
proof fn lemma_cycle_around(start: Option<PartialColoredWaterUnit>, forward: bool)
    ensures
        cycled(start, forward, 14) == start,
{
    let p = cycle_pos(start);
    assert(0 <= p < 14);
    if forward {
        assert((p + 14) % 14 == p);
    } else {
        assert((p + 13 * 14) % 14 == p);
    }
    if let Some(u) = start {
        if let PartialColoredWaterUnit::Color(c) = u {
            crate::colored_water::lemma_color_index_inverse(c);
        }
    }
}

/// Counting one more around a cycle of 14
proof fn lemma_mod14_succ(x: int)
    requires
        x >= 0,
    ensures
        (x + 1) % 14 == if x % 14 == 13 {
            0
        } else {
            x % 14 + 1
        },
{
    assert((x + 1) % 14 == if x % 14 == 13 { 0 } else { x % 14 + 1 }) by (nonlinear_arith)
        requires
            x >= 0,
    {}
}

/// Counting one less around a cycle of 14
proof fn lemma_mod14_pred(x: int)
    requires
        x >= 0,
    ensures
        (x + 13) % 14 == if x % 14 == 0 {
            13
        } else {
            x % 14 - 1
        },
{
    assert((x + 13) % 14 == if x % 14 == 0 { 13 } else { x % 14 - 1 }) by (nonlinear_arith)
        requires
            x >= 0,
    {}
}

/// The value at a position of the cycle, and its own position
proof fn lemma_cycle_at(q: int)
    requires
        0 < q < 14,
    ensures
        cycle_at(q) == Some(partial_at(q - 1)),
        partial_index(partial_at(q - 1)) == q - 1,
{
    let u = partial_at(q - 1);
    if let PartialColoredWaterUnit::Color(c) = u {
        crate::colored_water::lemma_color_index_inverse(c);
    }
}

/// One step of [PartialColoredWaterIter] (or [RevPartialColoredWaterIter] going backward)
/// moves one place along the cycle
proof fn lemma_cycle_step(start: Option<PartialColoredWaterUnit>, forward: bool, s: int, next: Option<PartialColoredWaterUnit>)
    requires
        0 <= s < 14,
        forward ==> (cycled(start, forward, s) is None ==> next == Some(PartialColoredWaterUnit::UnknownColor)),
        forward ==> (cycled(start, forward, s) matches Some(u) ==> (if partial_index(u) + 1 < 13 {
            next == Some(partial_at(partial_index(u) + 1int))
        } else {
            next is None
        })),
        !forward ==> (cycled(start, forward, s) is None ==> next == Some(partial_at(12))),
        !forward ==> (cycled(start, forward, s) matches Some(u) ==> (if partial_index(u) > 0 {
            next == Some(partial_at(partial_index(u) - 1))
        } else {
            next is None
        })),
    ensures
        next == cycled(start, forward, s + 1),
{
    let p = cycle_pos(start);
    if let Some(u) = start {
        if let PartialColoredWaterUnit::Color(c) = u {
            crate::colored_water::lemma_color_index_inverse(c);
        }
    }
    assert(0 <= p < 14);
    if forward {
        let x = p + s;
        let q = x % 14;
        lemma_mod14_succ(x);
        assert(cycled(start, forward, s) == cycle_at(x));
        assert(cycled(start, forward, s + 1) == cycle_at(x + 1));
        if q > 0 {
            lemma_cycle_at(q);
        }
        if q < 13 {
            lemma_cycle_at(q + 1);
        }
    } else {
        let x = p + 13 * s;
        let q = x % 14;
        lemma_mod14_pred(x);
        assert(cycled(start, forward, s) == cycle_at(x));
        assert(cycled(start, forward, s + 1) == cycle_at(x + 13));
        if q > 0 {
            lemma_cycle_at(q);
        }
        if q > 1 {
            lemma_cycle_at(q - 1);
        }
        lemma_cycle_at(13);
    }
}

/// Leaving out the empty value, cycling from a unit always gives a unit
pub proof fn lemma_choice_some(
    k: nat,
    len: nat,
    cap: nat,
    idx: int,
    start: Option<PartialColoredWaterUnit>,
    forward: bool,
    s: int,
)
    requires
        start is Some,
    ensures
        cycle_choice(k, len, cap, idx, start, forward, true, s) is Some,
    decreases 14 - s,
{
    if s < 14 {
        lemma_choice_some(k, len, cap, idx, start, forward, s + 1);
    }
}

/// Cycles the unit at `idx` of `bottle` forward or backward until a value can be set there,
/// never the empty value when `skip_none`, and sets it.
///
/// The value the unit had can always be set again, so the cycle ends at the latest once around.
pub fn cycle_unit<const C: usize>(bottle: &mut PartialBottle<C>, idx: usize, forward: bool, skip_none: bool)
    requires
        old(bottle).wf(),
        old(bottle).cap_v() <= C,
        idx <= old(bottle).units().len(),
        skip_none ==> idx < old(bottle).units().len(),
    ensures
        final(bottle).wf(),
        final(bottle).cap_v() == old(bottle).cap_v(),
        final(bottle).units() == units_after_set(
            old(bottle).units(),
            idx as int,
            cycle_choice(
                old(bottle).unknown_v(),
                old(bottle).known_v().len(),
                old(bottle).cap_v(),
                idx as int,
                if idx < old(bottle).units().len() {
                    Some(old(bottle).units()[idx as int])
                } else {
                    None
                },
                forward,
                skip_none,
                1,
            ),
        ),
{
    proof {
        bottle.lemma_units();
        bottle.lemma_wf();
    }
    let ghost b0 = *bottle;
    let start = bottle.sample_content_at(idx);
    let ghost k = b0.unknown_v();
    let ghost len = b0.known_v().len();
    let ghost cap = b0.cap_v();
    proof {
        lemma_cycle_around(start, forward);
        // the value the unit has can be set again
        assert(partial_set_result(k, len, cap, idx as int, start) is Ok);
    }
    let mut fwd = PartialColoredWaterIter(start);
    let mut back = RevPartialColoredWaterIter(start);
    let mut s: usize = 0;
    let mut done = false;
    while !done
        invariant
            b0.wf(),
            b0.cap_v() <= C,
            k == b0.unknown_v(),
            len == b0.known_v().len(),
            cap == b0.cap_v(),
            idx <= b0.units().len(),
            skip_none ==> start is Some,
            cycled(start, forward, 14) == start,
            partial_set_result(k, len, cap, idx as int, start) is Ok,
            s <= 14,
            forward ==> fwd.0 == cycled(start, forward, s as int),
            !forward ==> back.0 == cycled(start, forward, s as int),
            !done ==> *bottle == b0 && s < 14,
            !done ==> cycle_choice(k, len, cap, idx as int, start, forward, skip_none, 1) == cycle_choice(
                k,
                len,
                cap,
                idx as int,
                start,
                forward,
                skip_none,
                s as int + 1,
            ),
            done ==> bottle.wf() && bottle.cap_v() == cap && bottle.units() == units_after_set(
                b0.units(),
                idx as int,
                cycle_choice(k, len, cap, idx as int, start, forward, skip_none, 1),
            ),
        decreases 14 - s,
    {
        let ghost before = if forward {
            fwd.0
        } else {
            back.0
        };
        let color_to_use = if forward {
            fwd.next()
        } else {
            back.next()
        };
        proof {
            lemma_cycle_step(start, forward, s as int, color_to_use);
        }
        s = s + 1;
        if !(skip_none && color_to_use.is_none()) {
            proof {
                b0.lemma_fillable_set_fits(idx as int, color_to_use);
            }
            if bottle.try_set_color(idx, color_to_use).is_ok() {
                done = true;
            }
        }
        proof {
            if !done {
                assert(s < 14);
            }
        }
    }
}

} // verus!
