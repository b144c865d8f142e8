//! The steps of demystifying a game state: applying the pours that bring a unit of unknown
//! color to the top, revealing the colors that come to the top, and recording revealed colors
//! in the game state to reset to.
use vstd::prelude::*;
use std::collections::VecDeque;

use super::demystify::first_unknown_top;
use crate::bottle::{Bottle, PartialBottle, known_units, run_down, top_unit, unknown_units};
use crate::colored_water::{ColoredWaterUnit, PartialColoredWaterUnit};
use crate::gamestate::{
    BottleView, KnownGameState, PartialGameState, Pour, PourError, bottle_view, bottles_view, bottles_wf,
    lemma_run_pours_push, lemma_wf_pour_fits, run_pours, state_view,
};

verus! {

/// The units of a bottle `w` once the unit of unknown color on its top is revealed, together
/// with the units of the same color right below it, as they are in the fully known bottle `k`
pub open spec fn revealed_units(w: Seq<PartialColoredWaterUnit>, k: Seq<PartialColoredWaterUnit>) -> Seq<
    PartialColoredWaterUnit,
> {
    if w.len() > 0 && w.last() is UnknownColor {
        let t = w.len() - 1;
        let n = run_down(k, t, k[t]);
        Seq::new(w.len(), |j: int| if t - n < j <= t { k[j] } else { w[j] })
    } else {
        w
    }
}

/// A game state once the tops of unknown color of its bottles are revealed from the fully
/// known game state `k`, bottle by bottle
pub open spec fn revealed_state(w: Seq<BottleView>, k: Seq<BottleView>) -> Seq<BottleView> {
    Seq::new(
        w.len(),
        |i: int|
            if i < k.len() {
                (w[i].0, revealed_units(w[i].1, k[i].1))
            } else {
                w[i]
            },
    )
}

/// Every bottle with a unit of unknown color on top has a unit at that height in the fully
/// known game state
pub open spec fn revealable(w: Seq<BottleView>, k: Seq<BottleView>) -> bool {
    forall|i: int|
        0 <= i < w.len() && i < k.len() && #[trigger] top_unit(w[i].1) == Some(PartialColoredWaterUnit::UnknownColor)
            ==> w[i].1.len() <= k[i].1.len()
}

/// Reveals the unit of unknown color on top of one bottle, and the units of the same color
/// right below it, from the fully known bottle
fn reveal_top<const C: usize>(b: &mut PartialBottle<C>, known: &crate::bottle::KnownBottle<C>)
    requires
        old(b).wf(),
        old(b).cap_v() <= C,
        known.inv(),
        top_unit(old(b).units()) == Some(PartialColoredWaterUnit::UnknownColor) ==> old(b).units().len()
            <= known.units().len(),
    ensures
        final(b).wf(),
        final(b).cap_v() == old(b).cap_v(),
        final(b).units() == revealed_units(old(b).units(), known.units()),
{
    proof {
        b.lemma_units();
        b.lemma_wf();
    }
    let ghost b0 = *b;
    let ghost w = b0.units();
    let ghost k = known.units();
    if let Some(top_content_idx) = b.get_top_content_idx() {
        if b.sample_content_at(top_content_idx) == Some(PartialColoredWaterUnit::UnknownColor) {
            let ghost t = top_content_idx as int;
            // the top unit is unknown: every unit of the bottle is
            assert(b0.known_v().len() == 0) by {
                if b0.known_v().len() > 0 {
                    assert(w[t] == PartialColoredWaterUnit::Color(b0.known_v()[b0.known_v().len() - 1]));
                }
            }
            assert(k[t] is Color);
            let color = known.sample_known_color_at(top_content_idx).unwrap();
            let ghost n = run_down(k, t, k[t]);
            let mut c_idx = top_content_idx;
            let mut done = false;
            proof {
                assert(run_down(k, t, k[t]) >= 1);
            }
            while !done
                invariant
                    b0.wf(),
                    b0.cap_v() <= C,
                    known.inv(),
                    k == known.units(),
                    w == b0.units(),
                    b0.known_v().len() == 0,
                    t == w.len() - 1,
                    t < k.len(),
                    k[t] == PartialColoredWaterUnit::Color(color),
                    n == run_down(k, t, k[t]),
                    c_idx <= t,
                    b.wf(),
                    b.cap_v() == b0.cap_v(),
                    !done ==> t - n < c_idx,
                    forall|j: int| c_idx <= j <= t ==> k[j] == PartialColoredWaterUnit::Color(color),
                    !done ==> b.units() == Seq::new(
                        w.len(),
                        |j: int| if c_idx < j <= t { k[j] } else { w[j] },
                    ),
                    done ==> b.units() == Seq::new(w.len(), |j: int| if t - n < j <= t { k[j] } else { w[j] }),
                decreases c_idx + if done { 0int } else { 1int },
            {
                proof {
                    b0.lemma_units();
                    let x = Seq::new((t - c_idx) as nat, |j: int| color);
                    assert(b.units() =~= unknown_units((c_idx + 1) as nat) + known_units(x));
                    crate::gamestate::lemma_partial_parts(*b, (c_idx + 1) as nat, x);
                    b.lemma_fillable_set_fits(c_idx as int, Some(PartialColoredWaterUnit::Color(color)));
                }
                let ghost before = b.units();
                let r = b.try_set_color(c_idx, Some(PartialColoredWaterUnit::Color(color)));
                assert(r is Ok);
                proof {
                    b.lemma_units();
                    assert(b.units() =~= Seq::new(
                        w.len(),
                        |j: int| if c_idx - 1 < j <= t { k[j] } else { w[j] },
                    ));
                }
                if c_idx == 0 {
                    done = true;
                    proof {
                        assert(n <= t + 1) by {
                            crate::bottle::lemma_run_down_bound(k, t, k[t]);
                        }
                        assert(b.units() =~= Seq::new(w.len(), |j: int| if t - n < j <= t { k[j] } else { w[j] }));
                    }
                } else if known.sample_known_color_at(c_idx - 1) == Some(color) {
                    proof {
                        lemma_run_down_at_least(k, t, PartialColoredWaterUnit::Color(color), c_idx - 1);
                    }
                    c_idx = c_idx - 1;
                } else {
                    done = true;
                    proof {
                        lemma_run_down_exact(k, t, PartialColoredWaterUnit::Color(color), c_idx as int);
                        assert(b.units() =~= Seq::new(w.len(), |j: int| if t - n < j <= t { k[j] } else { w[j] }));
                    }
                }
            }
        }
    }
}

/// A run going down from `t` is at least as long as a stretch of matching units below `t`
proof fn lemma_run_down_at_least(k: Seq<PartialColoredWaterUnit>, t: int, u: PartialColoredWaterUnit, a: int)
    requires
        0 <= a <= t < k.len(),
        forall|j: int| a <= j <= t ==> k[j] == u,
    ensures
        run_down(k, t, u) >= t - a + 1,
    decreases t - a,
{
    if a < t {
        lemma_run_down_at_least(k, t - 1, u, a);
    }
}

/// A run going down from `t` ends where a unit does not match
proof fn lemma_run_down_exact(k: Seq<PartialColoredWaterUnit>, t: int, u: PartialColoredWaterUnit, a: int)
    requires
        0 < a <= t < k.len(),
        forall|j: int| a <= j <= t ==> k[j] == u,
        k[a - 1] != u,
    ensures
        run_down(k, t, u) == t - a + 1,
    decreases t - a,
{
    if a < t {
        lemma_run_down_exact(k, t - 1, u, a);
    } else {
        reveal_with_fuel(run_down, 2);
    }
}

/// Looks at the units of unknown color on top of the bottles of `working_gs` and replaces them
/// with the known colors of the same bottles of `as_known`, as though a user had entered them:
/// the unit on top, and the units below it that are of the same color in `as_known` (which
/// reveals several units at once when they are of one color).
///
/// `as_known` must be the fully known game state `working_gs` came from.
pub fn reveal_top_unknowns<const MAX_BCOUNT: usize, const B_MAX_CAP: usize>(
    working_gs: &mut PartialGameState<MAX_BCOUNT, B_MAX_CAP>,
    as_known: &KnownGameState<MAX_BCOUNT, B_MAX_CAP>,
)
    requires
        bottles_wf(old(working_gs).bottles@),
        bottles_wf(as_known.bottles@),
        revealable(bottles_view(old(working_gs).bottles@), bottles_view(as_known.bottles@)),
    ensures
        bottles_wf(final(working_gs).bottles@),
        bottles_view(final(working_gs).bottles@) == revealed_state(
            bottles_view(old(working_gs).bottles@),
            bottles_view(as_known.bottles@),
        ),
{
    let ghost w = bottles_view(working_gs.bottles@);
    let ghost k = bottles_view(as_known.bottles@);
    let ghost bs = working_gs.bottles@;
    let mut i: usize = 0;
    while i < working_gs.bottles.len() && i < as_known.bottles.len()
        invariant
            w == bottles_view(bs),
            k == bottles_view(as_known.bottles@),
            bottles_wf(as_known.bottles@),
            revealable(w, k),
            working_gs.bottles@.len() == bs.len(),
            i <= bs.len(),
            bottles_wf(working_gs.bottles@),
            forall|j: int| 0 <= j < i ==> #[trigger] bottles_view(working_gs.bottles@)[j] == revealed_state(w, k)[j],
            forall|j: int| i <= j < bs.len() ==> #[trigger] working_gs.bottles@[j] == bs[j],
        decreases bs.len() - i,
    {
        let ghost before = working_gs.bottles@;
        proof {
            assert(before[i as int] == bs[i as int]);
            assert(before[i as int].inv());
            assert(crate::bottle::fillable(before[i as int]));
            assert(as_known.bottles@[i as int].inv());
            assert(w[i as int] == bottle_view(bs[i as int]));
            assert(k[i as int] == bottle_view(as_known.bottles@[i as int]));
            if top_unit(w[i as int].1) == Some(PartialColoredWaterUnit::UnknownColor) {
                assert(w[i as int].1.len() <= k[i as int].1.len());
            }
        }
        reveal_top(&mut working_gs.bottles[i], &as_known.bottles[i]);
        proof {
            let nb = working_gs.bottles@[i as int];
            assert(working_gs.bottles@ == before.update(i as int, nb));
            assert(bottles_view(working_gs.bottles@)[i as int] == revealed_state(w, k)[i as int]);
            assert forall|j: int| 0 <= j < working_gs.bottles@.len() implies #[trigger] working_gs.bottles@[j].inv()
                && crate::bottle::fillable(working_gs.bottles@[j]) by {
                if j != i {
                    assert(working_gs.bottles@[j] == before[j]);
                    assert(before[j].inv());
                    assert(crate::bottle::fillable(before[j]));
                }
            }
            assert forall|j: int| 0 <= j < i + 1 implies #[trigger] bottles_view(working_gs.bottles@)[j]
                == revealed_state(w, k)[j] by {
                if j < i {
                    assert(working_gs.bottles@[j] == before[j]);
                    assert(bottles_view(before)[j] == revealed_state(w, k)[j]);
                }
            }
        }
        i = i + 1;
    }
    proof {
        assert forall|j: int| 0 <= j < bs.len() implies #[trigger] bottles_view(working_gs.bottles@)[j]
            == revealed_state(w, k)[j] by {
            if j >= i {
                assert(working_gs.bottles@[j] == bs[j]);
                assert(j >= k.len());
            }
        }
        assert(bottles_view(working_gs.bottles@) =~= revealed_state(w, k));
    }
}

/// Whether bottle units `u` hold a known color at `j`
pub open spec fn known_at(u: Seq<PartialColoredWaterUnit>, j: int) -> bool {
    0 <= j < u.len() && u[j] is Color
}

/// The units of the bottle of the game state to reset to, once the colors that are known at the
/// same heights in the bottle of the working game state replace its units of unknown color
pub open spec fn recorded_units(init: Seq<PartialColoredWaterUnit>, work: Seq<PartialColoredWaterUnit>) -> Seq<
    PartialColoredWaterUnit,
> {
    Seq::new(init.len(), |j: int| if init[j] is UnknownColor && known_at(work, j) { work[j] } else { init[j] })
}

/// The heights at which the working bottle knows colors the bottle to reset to does not are the
/// topmost of its units of unknown color: revealing them top down keeps the unknown units at the
/// bottom
pub open spec fn recordable(init: Seq<PartialColoredWaterUnit>, work: Seq<PartialColoredWaterUnit>) -> bool {
    forall|j: int, j2: int|
        0 <= j < j2 < init.len() && init[j2] is UnknownColor && #[trigger] known_at(work, j) ==> #[trigger] known_at(
            work,
            j2,
        )
}

/// Records in the bottle at `idx` of `initial_gs` (the game state to reset to) the colors
/// revealed in the same bottle of `working_gs`: each unit of unknown color takes the known color
/// at the same height in the working bottle, if there is one.
pub fn record_revealed<const MAX_BCOUNT: usize, const B_MAX_CAP: usize>(
    initial_gs: &mut PartialGameState<MAX_BCOUNT, B_MAX_CAP>,
    working_gs: &PartialGameState<MAX_BCOUNT, B_MAX_CAP>,
    idx: usize,
)
    requires
        bottles_wf(old(initial_gs).bottles@),
        bottles_wf(working_gs.bottles@),
        idx < old(initial_gs).bottles@.len(),
        idx < working_gs.bottles@.len(),
        recordable(bottles_view(old(initial_gs).bottles@)[idx as int].1, bottles_view(working_gs.bottles@)[idx as int].1),
    ensures
        bottles_wf(final(initial_gs).bottles@),
        bottles_view(final(initial_gs).bottles@) == bottles_view(old(initial_gs).bottles@).update(
            idx as int,
            (
                bottles_view(old(initial_gs).bottles@)[idx as int].0,
                recorded_units(
                    bottles_view(old(initial_gs).bottles@)[idx as int].1,
                    bottles_view(working_gs.bottles@)[idx as int].1,
                ),
            ),
        ),
{
    let ghost before = initial_gs.bottles@;
    let ghost v = bottles_view(before);
    proof {
        assert(before[idx as int].inv());
        assert(crate::bottle::fillable(before[idx as int]));
        assert(working_gs.bottles@[idx as int].inv());
        assert(v[idx as int] == bottle_view(before[idx as int]));
        assert(bottles_view(working_gs.bottles@)[idx as int] == bottle_view(working_gs.bottles@[idx as int]));
    }
    record_in_bottle(&mut initial_gs.bottles[idx], &working_gs.bottles[idx]);
    proof {
        let nb = initial_gs.bottles@[idx as int];
        assert(initial_gs.bottles@ == before.update(idx as int, nb));
        assert(bottles_view(initial_gs.bottles@) =~= v.update(
            idx as int,
            (v[idx as int].0, recorded_units(v[idx as int].1, bottles_view(working_gs.bottles@)[idx as int].1)),
        ));
        assert forall|j: int| 0 <= j < initial_gs.bottles@.len() implies #[trigger] initial_gs.bottles@[j].inv()
            && crate::bottle::fillable(initial_gs.bottles@[j]) by {
            if j != idx {
                assert(initial_gs.bottles@[j] == before[j]);
                assert(before[j].inv());
                assert(crate::bottle::fillable(before[j]));
            }
        }
    }
}

/// Records the colors revealed in `working` in the bottle `initial`, from the top down
fn record_in_bottle<const C: usize>(initial: &mut PartialBottle<C>, working: &PartialBottle<C>)
    requires
        old(initial).wf(),
        old(initial).cap_v() <= C,
        working.wf(),
        recordable(old(initial).units(), working.units()),
    ensures
        final(initial).wf(),
        final(initial).cap_v() == old(initial).cap_v(),
        final(initial).units() == recorded_units(old(initial).units(), working.units()),
{
    proof {
        initial.lemma_units();
        initial.lemma_wf();
    }
    let ghost b0 = *initial;
    let ghost init = b0.units();
    let ghost work = working.units();
    let mut color_idx: usize = initial.capacity();
    while color_idx > 0
        invariant
            b0.wf(),
            b0.cap_v() <= C,
            init == b0.units(),
            work == working.units(),
            working.wf(),
            recordable(init, work),
            init.len() <= b0.cap_v(),
            color_idx <= b0.cap_v(),
            initial.wf(),
            initial.cap_v() == b0.cap_v(),
            initial.units() == Seq::new(
                init.len(),
                |j: int| if j >= color_idx && init[j] is UnknownColor && known_at(work, j) { work[j] } else { init[j] },
            ),
        decreases color_idx,
    {
        color_idx = color_idx - 1;
        let ghost cur = initial.units();
        let initial_sample = initial.sample_at(color_idx);
        match working.sample_at(color_idx) {
            crate::bottle::BottleSampleResult::KnownColor(color) => {
                if initial_sample == crate::bottle::BottleSampleResult::UnknownColor {
                    let ghost c = color_idx as int;
                    proof {
                        b0.lemma_units();
                        initial.lemma_units();
                        assert(cur[c] == PartialColoredWaterUnit::UnknownColor);
                        assert(init[c] is UnknownColor);
                        assert(known_at(work, c));
                        // every unit above is known in the current bottle
                        assert forall|j: int| c < j < cur.len() implies cur[j] is Color by {
                            if init[j] is UnknownColor {
                                assert(known_at(work, j));
                            }
                        }
                        // so the unit at `c` is the topmost unit of unknown color
                        assert(initial.unknown_v() == c + 1) by {
                            if initial.unknown_v() > c + 1 {
                                assert(cur[c + 1] == PartialColoredWaterUnit::UnknownColor);
                            }
                            if initial.unknown_v() < c + 1 {
                                assert(cur[initial.unknown_v() as int] is Color);
                            }
                        }
                        initial.lemma_fillable_set_fits(c, Some(PartialColoredWaterUnit::Color(color)));
                    }
                    let r = initial.try_set_color(color_idx, Some(PartialColoredWaterUnit::Color(color)));
                    assert(r is Ok);
                    proof {
                        assert(initial.units() =~= Seq::new(
                            init.len(),
                            |j: int| if j >= color_idx && init[j] is UnknownColor && known_at(work, j) { work[j] } else { init[j] },
                        ));
                    }
                } else {
                    proof {
                        assert(initial.units() =~= Seq::new(
                            init.len(),
                            |j: int| if j >= color_idx && init[j] is UnknownColor && known_at(work, j) { work[j] } else { init[j] },
                        )) by {
                            let c = color_idx as int;
                            if c < init.len() && init[c] is UnknownColor && known_at(work, c) {
                                assert(cur[c] == init[c]);
                            }
                        }
                    }
                }
            },
            _ => {
                proof {
                    let c = color_idx as int;
                    if known_at(work, c) {
                        working.lemma_units();
                        working.lemma_wf();
                        assert(crate::bottle::sample_of(work, working.bcap(), c) == crate::bottle::unit_sample(work[c]));
                    }
                    assert(initial.units() =~= Seq::new(
                        init.len(),
                        |j: int| if j >= color_idx && init[j] is UnknownColor && known_at(work, j) { work[j] } else { init[j] },
                    ));
                }
            },
        }
    }
    assert(initial.units() =~= recorded_units(init, work));
}

/// The index of the first bottle with a unit of unknown color on top, if any
pub fn first_unknown_top_idx<const MAX_BCOUNT: usize, const B_MAX_CAP: usize>(
    gs: &PartialGameState<MAX_BCOUNT, B_MAX_CAP>,
) -> (r: Option<usize>)
    requires
        bottles_wf(gs.bottles@),
    ensures
        r == (match first_unknown_top(bottles_view(gs.bottles@), 0) {
            Some(i) => Some(i as usize),
            None => None,
        }),
{
    let ghost v = bottles_view(gs.bottles@);
    let mut i: usize = gs.bottles.len();
    let mut found: Option<usize> = None;
    while i > 0
        invariant
            v == bottles_view(gs.bottles@),
            bottles_wf(gs.bottles@),
            i <= v.len(),
            first_unknown_top(v, i as int) == (match found {
                Some(x) => Some(x as int),
                None => None,
            }),
        decreases i,
    {
        i = i - 1;
        proof {
            assert(gs.bottles@[i as int].inv());
            assert(v[i as int] == bottle_view(gs.bottles@[i as int]));
        }
        if gs.bottles[i].get_top_color() == Some(PartialColoredWaterUnit::UnknownColor) {
            found = Some(i);
        }
    }
    found
}

/// Applies the pours of a demystification step to the working game state, and returns the
/// resulting game state alongside the index of the bottle the user has to reveal a color in:
/// the source of the last pour, or, when there are no pours, the first bottle with a unit of
/// unknown color on top.
pub fn apply_demystify_pours<const MAX_BCOUNT: usize, const B_MAX_CAP: usize>(
    working_gs: &PartialGameState<MAX_BCOUNT, B_MAX_CAP>,
    pours: &VecDeque<Pour>,
) -> (r: (PartialGameState<MAX_BCOUNT, B_MAX_CAP>, Option<usize>))
    requires
        bottles_wf(working_gs.bottles@),
        run_pours(bottles_view(working_gs.bottles@), pours@) is Ok,
    ensures
        bottles_wf(r.0.bottles@),
        run_pours(bottles_view(working_gs.bottles@), pours@) == Ok::<_, PourError>(bottles_view(r.0.bottles@)),
        r.1 == (if pours@.len() > 0 {
            Some(pours@.last().source_bottle_index)
        } else {
            match first_unknown_top(bottles_view(r.0.bottles@), 0) {
                Some(i) => Some(i as usize),
                None => None,
            }
        }),
{
    let ghost v = bottles_view(working_gs.bottles@);
    let mut gs = crate::gamestate::copy_state(working_gs);
    let mut last_source_idx: Option<usize> = None;
    let mut j: usize = 0;
    proof {
        assert(pours@.take(0) =~= Seq::<Pour>::empty());
    }
    while j < pours.len()
        invariant
            v == bottles_view(working_gs.bottles@),
            run_pours(v, pours@) is Ok,
            j <= pours@.len(),
            bottles_wf(gs.bottles@),
            run_pours(v, pours@.take(j as int)) == Ok::<_, PourError>(state_view(gs)),
            last_source_idx == (if j > 0 {
                Some(pours@[j - 1].source_bottle_index)
            } else {
                None
            }),
        decreases pours@.len() - j,
    {
        let pour = pours[j];
        proof {
            lemma_wf_pour_fits(gs.bottles@, pour.source_bottle_index as int, pour.dest_bottle_index as int);
            lemma_run_pours_push(v, pours@.take(j as int), pour);
            assert(pours@.take(j + 1) =~= pours@.take(j as int).push(pour));
            crate::gamestate::lemma_run_pours_append(v, pours@.take(j + 1), pours@.skip(j + 1));
            assert(pours@.take(j + 1) + pours@.skip(j + 1) =~= pours@);
        }
        last_source_idx = Some(pour.source_bottle_index);
        match pour.try_apply(&gs) {
            Ok(next_gs) => {
                proof {
                    assert forall|k: int| 0 <= k < gs.bottles@.len() implies #[trigger] crate::bottle::fillable(
                        gs.bottles@[k],
                    ) by {
                        assert(gs.bottles@[k].inv());
                    }
                }
                gs = next_gs;
            },
            Err(_) => {
                assert(false);
            },
        }
        j = j + 1;
    }
    proof {
        assert(pours@.take(j as int) =~= pours@);
    }
    if last_source_idx.is_none() {
        last_source_idx = first_unknown_top_idx(&gs);
    }
    (gs, last_source_idx)
}

/// Whether [reveal_top_unknowns] can reveal the tops of `working_gs` from `as_known` (see
/// [revealable])
pub fn can_reveal_top_unknowns<const MAX_BCOUNT: usize, const B_MAX_CAP: usize>(
    working_gs: &PartialGameState<MAX_BCOUNT, B_MAX_CAP>,
    as_known: &KnownGameState<MAX_BCOUNT, B_MAX_CAP>,
) -> (r: bool)
    requires
        bottles_wf(working_gs.bottles@),
        bottles_wf(as_known.bottles@),
    ensures
        r == revealable(bottles_view(working_gs.bottles@), bottles_view(as_known.bottles@)),
{
    let ghost w = bottles_view(working_gs.bottles@);
    let ghost k = bottles_view(as_known.bottles@);
    let mut i: usize = 0;
    while i < working_gs.bottles.len() && i < as_known.bottles.len()
        invariant
            w == bottles_view(working_gs.bottles@),
            k == bottles_view(as_known.bottles@),
            bottles_wf(working_gs.bottles@),
            bottles_wf(as_known.bottles@),
            i <= w.len(),
            forall|j: int|
                0 <= j < i && j < k.len() && #[trigger] top_unit(w[j].1) == Some(PartialColoredWaterUnit::UnknownColor)
                    ==> w[j].1.len() <= k[j].1.len(),
        decreases w.len() - i,
    {
        proof {
            assert(working_gs.bottles@[i as int].inv());
            assert(as_known.bottles@[i as int].inv());
            working_gs.bottles@[i as int].lemma_inv();
            as_known.bottles@[i as int].lemma_inv();
            assert(w[i as int] == bottle_view(working_gs.bottles@[i as int]));
            assert(k[i as int] == bottle_view(as_known.bottles@[i as int]));
        }
        if working_gs.bottles[i].get_top_color() == Some(PartialColoredWaterUnit::UnknownColor) {
            let wl = match working_gs.bottles[i].get_top_content_idx() {
                Some(t) => t + 1,
                None => 0,
            };
            let kl = match as_known.bottles[i].get_top_content_idx() {
                Some(t) => t + 1,
                None => 0,
            };
            if wl > kl {
                proof {
                    assert(top_unit(w[i as int].1) == Some(PartialColoredWaterUnit::UnknownColor));
                    assert(w[i as int].1.len() > k[i as int].1.len());
                    assert(!revealable(w, k));
                }
                return false;
            }
        }
        i = i + 1;
    }
    true
}

/// Whether [record_revealed] can record the colors revealed in bottle `idx` of `working_gs`
/// in the same bottle of `initial_gs` (see [recordable])
pub fn can_record_revealed<const MAX_BCOUNT: usize, const B_MAX_CAP: usize>(
    initial_gs: &PartialGameState<MAX_BCOUNT, B_MAX_CAP>,
    working_gs: &PartialGameState<MAX_BCOUNT, B_MAX_CAP>,
    idx: usize,
) -> (r: bool)
    requires
        bottles_wf(initial_gs.bottles@),
        bottles_wf(working_gs.bottles@),
        idx < initial_gs.bottles@.len(),
        idx < working_gs.bottles@.len(),
    ensures
        r == recordable(bottles_view(initial_gs.bottles@)[idx as int].1, bottles_view(working_gs.bottles@)[idx as int].1),
{
    let ghost init = bottles_view(initial_gs.bottles@)[idx as int].1;
    let ghost work = bottles_view(working_gs.bottles@)[idx as int].1;
    let initial = &initial_gs.bottles[idx];
    let working = &working_gs.bottles[idx];
    proof {
        assert(bottles_view(initial_gs.bottles@)[idx as int] == bottle_view(*initial));
        assert(bottles_view(working_gs.bottles@)[idx as int] == bottle_view(*working));
        assert(initial_gs.bottles@[idx as int].inv());
        assert(working_gs.bottles@[idx as int].inv());
        initial.lemma_units();
        initial.lemma_wf();
        working.lemma_units();
        working.lemma_wf();
    }
    // the unknown units of the initial bottle are its `k` lowest; the heights where the working
    // bottle knows a color must be the topmost of them
    let k = initial.get_unknown_count();
    let mut seen_known = false;
    let mut j: usize = 0;
    while j < k
        invariant
            init == initial.units(),
            work == working.units(),
            init == bottles_view(initial_gs.bottles@)[idx as int].1,
            work == bottles_view(working_gs.bottles@)[idx as int].1,
            initial.wf(),
            working.wf(),
            k == initial.unknown_v(),
            j <= k,
            k <= init.len(),
            forall|x: int| 0 <= x < k ==> init[x] is UnknownColor,
            forall|x: int| k <= x < init.len() ==> init[x] is Color,
            seen_known == exists|x: int| 0 <= x < j && #[trigger] known_at(work, x),
            forall|x: int, x2: int| 0 <= x < x2 < j && #[trigger] known_at(work, x) ==> #[trigger] known_at(work, x2),
        decreases k - j,
    {
        let here = working.sample_known_color_at(j).is_some();
        assert(here == known_at(work, j as int));
        if seen_known && !here {
            proof {
                let x = choose|x: int| 0 <= x < j && #[trigger] known_at(work, x);
                assert(init[j as int] is UnknownColor);
                assert(!recordable(init, work)) by {
                    assert(0 <= x < j < init.len() && init[j as int] is UnknownColor && known_at(work, x)
                        && !known_at(work, j as int));
                }
            }
            return false;
        }
        seen_known = seen_known || here;
        j = j + 1;
    }
    proof {
        assert forall|x: int, x2: int|
            0 <= x < x2 < init.len() && init[x2] is UnknownColor && #[trigger] known_at(work, x) implies #[trigger] known_at(
            work,
            x2,
        ) by {
            assert(x2 < k);
        }
    }
    true
}

/// The first bottle with a unit of unknown color on top, from `i` on, lies within the game state
proof fn lemma_first_unknown_top_range(v: Seq<BottleView>, i: int)
    ensures
        first_unknown_top(v, i) matches Some(j) ==> 0 <= i <= j < v.len(),
    decreases v.len() - i,
{
    if 0 <= i < v.len() {
        lemma_first_unknown_top_range(v, i + 1);
    }
}

/// What one round of demystifying a game state did
#[derive(Debug, Clone, Copy, PartialEq, Eq, Structural)]
pub enum DemystifyRound {
    /// No way to bring a new color to light was found: the working game state went back to the
    /// game state to reset to
    Reset,
    /// The pours were applied, the colors that came to the top revealed, and those recorded in
    /// the game state to reset to
    Advanced,
    /// The fully known game state does not fit the working one: a unit of unknown color came to
    /// the top of a bottle that is not that full in it, or the colors revealed in the bottle to
    /// record them in do not lie right above its units of unknown color, or there is no such
    /// bottle. Nothing was changed.
    Mismatch,
}

/// The bottle in which a round records revealed colors: the source of the last pour or, when
/// there are no pours, the first bottle of the state reached with a unit of unknown color on top
pub open spec fn round_source(after: Seq<BottleView>, pours: Seq<Pour>) -> Option<int> {
    if pours.len() > 0 {
        Some(pours.last().source_bottle_index as int)
    } else {
        first_unknown_top(after, 0)
    }
}

/// Whether the fully known game state `k` fits a round that reaches `after` and records in the
/// bottle `src` of the game state to reset to `init`
pub open spec fn round_fits(
    after: Seq<BottleView>,
    init: Seq<BottleView>,
    k: Seq<BottleView>,
    src: Option<int>,
) -> bool {
    &&& revealable(after, k)
    &&& src matches Some(i) ==> i < init.len() && i < after.len() && recordable(
        init[i].1,
        revealed_state(after, k)[i].1,
    )
}

/// One round of demystifying a game state whose colors are all known to the caller (`as_known`)
/// but hidden in `working_gs`, as a user revealing the colors would go through it.
///
/// Given no pours (no way to a new color was found), the working game state goes back to
/// `initial_gs`, the game state to reset to. Given pours, they are applied to the working game
/// state, the colors that come to the top of its bottles are revealed from `as_known`, and those
/// revealed in the bottle of [round_source] are recorded in `initial_gs`.
pub fn demystify_round<const MAX_BCOUNT: usize, const B_MAX_CAP: usize>(
    working_gs: &mut PartialGameState<MAX_BCOUNT, B_MAX_CAP>,
    initial_gs: &mut PartialGameState<MAX_BCOUNT, B_MAX_CAP>,
    as_known: &KnownGameState<MAX_BCOUNT, B_MAX_CAP>,
    next_pours: Option<VecDeque<Pour>>,
) -> (r: DemystifyRound)
    requires
        bottles_wf(old(working_gs).bottles@),
        bottles_wf(old(initial_gs).bottles@),
        bottles_wf(as_known.bottles@),
        next_pours matches Some(p) ==> run_pours(bottles_view(old(working_gs).bottles@), p@) is Ok,
    ensures
        bottles_wf(final(working_gs).bottles@),
        bottles_wf(final(initial_gs).bottles@),
        ({
            let w = bottles_view(old(working_gs).bottles@);
            let init = bottles_view(old(initial_gs).bottles@);
            let k = bottles_view(as_known.bottles@);
            match next_pours {
                None => r == DemystifyRound::Reset && bottles_view(final(working_gs).bottles@) == init
                    && bottles_view(final(initial_gs).bottles@) == init,
                Some(p) => match run_pours(w, p@) {
                    Ok(after) => {
                        let src = round_source(after, p@);
                        let rev = revealed_state(after, k);
                        if round_fits(after, init, k, src) {
                            &&& r == DemystifyRound::Advanced
                            &&& bottles_view(final(working_gs).bottles@) == rev
                            &&& bottles_view(final(initial_gs).bottles@) == match src {
                                Some(i) => init.update(i, (init[i].0, recorded_units(init[i].1, rev[i].1))),
                                None => init,
                            }
                        } else {
                            &&& r == DemystifyRound::Mismatch
                            &&& bottles_view(final(working_gs).bottles@) == w
                            &&& bottles_view(final(initial_gs).bottles@) == init
                        }
                    },
                    Err(_) => false,
                },
            }
        }),
{
    match next_pours {
        None => {
            *working_gs = crate::gamestate::copy_state(&*initial_gs);
            DemystifyRound::Reset
        },
        Some(pours) => {
            let (mut after, src) = apply_demystify_pours(&*working_gs, &pours);
            let ghost a = bottles_view(after.bottles@);
            let bottle_count = after.bottles.len();
            proof {
                assert(a.len() == bottle_count);
                lemma_first_unknown_top_range(a, 0);
                assert(src matches Some(i) ==> round_source(a, pours@) == Some(i as int));
                assert(src is None ==> round_source(a, pours@) is None);
            }
            if !can_reveal_top_unknowns(&after, as_known) {
                return DemystifyRound::Mismatch;
            }
            reveal_top_unknowns(&mut after, as_known);
            match src {
                Some(i) => {
                    if i >= initial_gs.bottles.len() || i >= after.bottles.len() {
                        assert(bottles_view(after.bottles@).len() == a.len());
                        assert(round_source(a, pours@) == Some(i as int));
                        return DemystifyRound::Mismatch;
                    }
                    if !can_record_revealed(&*initial_gs, &after, i) {
                        return DemystifyRound::Mismatch;
                    }
                    record_revealed(initial_gs, &after, i);
                },
                None => {},
            }
            *working_gs = after;
            DemystifyRound::Advanced
        },
    }
}

} // verus!
