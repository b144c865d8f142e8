//! [PseudoPartialGameState]: a [KnownGameState] viewed as a [PartialGameState], for testing
//! demystification on a game whose hidden colors are known.
use vstd::prelude::*;

use super::gamestate_trait::{BottleView, GameState, bottle_view, bottles_view, bottles_wf, copy_state};
use super::known_gamestate::KnownGameState;
use super::partial_gamestate::PartialGameState;
use crate::bottle::{Bottle, BottleSampleResult, PartialBottle, fillable, sample_of};
use crate::colored_water::PartialColoredWaterUnit;

verus! {

/// The units of a bottle whose known colors below the top unit are replaced with unknown
/// colors: the view of a user who only sees the top unit
pub open spec fn hide_below_top(units: Seq<PartialColoredWaterUnit>) -> Seq<PartialColoredWaterUnit> {
    Seq::new(
        units.len(),
        |c: int|
            if c < units.len() - 1 {
                PartialColoredWaterUnit::UnknownColor
            } else {
                units[c]
            },
    )
}

/// The bottles of `known` can be had from those of `partial` by replacing units of unknown
/// color with known colors: each unit of `known` is in `partial` too, with its color or as a
/// unit of unknown color
pub open spec fn views_match(known: Seq<BottleView>, partial: Seq<BottleView>) -> bool {
    &&& known.len() == partial.len()
    &&& forall|i: int| 0 <= i < known.len() ==> #[trigger] bottle_matches(known[i], partial[i])
}

/// A bottle can be had from another by replacing units of unknown color with known colors:
/// every slot holds the same in both, or a unit of unknown color in `partial`
pub open spec fn bottle_matches(known: BottleView, partial: BottleView) -> bool {
    &&& known.0 == partial.0
    &&& known.1.len() == partial.1.len()
    &&& forall|c: int|
        0 <= c < known.1.len() ==> c < partial.1.len() && (#[trigger] partial.1[c] == known.1[c] || partial.1[c]
            == PartialColoredWaterUnit::UnknownColor)
}

/// Reasons why creating a [PseudoPartialGameState] may fail
#[derive(Debug, Clone, Copy, PartialEq, Eq, Structural)]
pub enum PseudoPartialGameStateError {
    /// The provided [PartialGameState] and [KnownGameState] do not match each other
    StatesDoNotMatch,
}

/// Compares a [KnownGameState] `known` with a [PartialGameState] `partial` and returns `true`
/// when the two states match: when `known` could be had from `partial` purely by replacing the
/// units of unknown color in `partial` with known colors.
pub fn states_match<const MAX_BCOUNT: usize, const B_MAX_CAP: usize>(
    known: &KnownGameState<MAX_BCOUNT, B_MAX_CAP>,
    partial: &PartialGameState<MAX_BCOUNT, B_MAX_CAP>,
) -> (r: bool)
    requires
        bottles_wf(known.bottles@),
        bottles_wf(partial.bottles@),
    ensures
        r == views_match(bottles_view(known.bottles@), bottles_view(partial.bottles@)),
{
    let ghost kv = bottles_view(known.bottles@);
    let ghost pv = bottles_view(partial.bottles@);
    if known.bottles.len() != partial.bottles.len() {
        return false;
    }
    let mut i: usize = 0;
    while i < known.bottles.len()
        invariant
            kv == bottles_view(known.bottles@),
            pv == bottles_view(partial.bottles@),
            bottles_wf(known.bottles@),
            bottles_wf(partial.bottles@),
            kv.len() == pv.len(),
            i <= kv.len(),
            forall|j: int| 0 <= j < i ==> #[trigger] bottle_matches(kv[j], pv[j]),
        decreases kv.len() - i,
    {
        let known_bottle = &known.bottles[i];
        let partial_bottle = &partial.bottles[i];
        assert(known.bottles@[i as int].inv());
        assert(partial.bottles@[i as int].inv());
        proof {
            known_bottle.lemma_inv();
            partial_bottle.lemma_inv();
        }
        let cap = known_bottle.capacity();
        assert(kv[i as int] == bottle_view(known.bottles@[i as int]));
        assert(pv[i as int] == bottle_view(partial.bottles@[i as int]));
        if cap != partial_bottle.capacity() {
            assert(kv[i as int].0 != pv[i as int].0);
            assert(!bottle_matches(kv[i as int], pv[i as int]));
            return false;
        }
        let ghost ku = kv[i as int].1;
        let ghost pu = pv[i as int].1;
        let mut c_idx: usize = 0;
        while c_idx < cap
            invariant
                kv == bottles_view(known.bottles@),
                pv == bottles_view(partial.bottles@),
                i < kv.len(),
                kv.len() == pv.len(),
                known_bottle.inv(),
                partial_bottle.inv(),
                ku == known_bottle.units(),
                pu == partial_bottle.units(),
                ku == kv[i as int].1,
                pu == pv[i as int].1,
                cap == known_bottle.bcap(),
                cap == partial_bottle.bcap(),
                ku.len() <= cap,
                pu.len() <= cap,
                forall|x: int| 0 <= x < ku.len() ==> #[trigger] ku[x] is Color,
                c_idx <= cap,
                forall|c: int|
                    0 <= c < c_idx && c < ku.len() ==> c < pu.len() && (pu[c] == ku[c] || pu[c]
                        == PartialColoredWaterUnit::UnknownColor),
                ku.len() < c_idx ==> pu.len() <= ku.len(),
            decreases cap - c_idx,
        {
            let known_color = known_bottle.sample_at(c_idx);
            let partial_color = partial_bottle.sample_at(c_idx);
            match known_color {
                BottleSampleResult::KnownColor(_) => {
                    if partial_color == known_color || partial_color == BottleSampleResult::UnknownColor {
                    } else {
                        proof {
                            assert((c_idx as int) < ku.len());
                            assert(!((c_idx as int) < pu.len() && (pu[c_idx as int] == ku[c_idx as int] || pu[c_idx as int]
                                == PartialColoredWaterUnit::UnknownColor)));
                            assert(!bottle_matches(kv[i as int], pv[i as int]));
                        }
                        return false;
                    }
                },
                _ => {
                    // an empty slot of the known bottle must be empty in the partial one too
                    if partial_color != BottleSampleResult::Empty {
                        proof {
                            assert((c_idx as int) >= ku.len());
                            assert((c_idx as int) < pu.len());
                            assert(!bottle_matches(kv[i as int], pv[i as int]));
                        }
                        return false;
                    }
                },
            }
            c_idx = c_idx + 1;
        }
        assert(kv[i as int].0 == pv[i as int].0);
        assert(ku.len() == pu.len()) by {
            if ku.len() < pu.len() {
                assert((ku.len() as int) < cap);
            }
            if pu.len() < ku.len() {
                let c = pu.len() as int;
                assert(c < cap);
                assert(ku[c] is Color);
                assert(pu[c] == ku[c] || pu[c] == PartialColoredWaterUnit::UnknownColor);
            }
        }
        assert forall|c: int| 0 <= c < kv[i as int].1.len() implies c < pv[i as int].1.len() && (#[trigger] pv[i as int].1[c]
            == kv[i as int].1[c] || pv[i as int].1[c] == PartialColoredWaterUnit::UnknownColor) by {
            assert(c < cap);
        }
        assert(bottle_matches(kv[i as int], pv[i as int]));
        i = i + 1;
    }
    true
}

/// A [KnownGameState] that can be viewed as a [PartialGameState] for testing purposes
pub struct PseudoPartialGameState<const MAX_BCOUNT: usize, const B_MAX_CAP: usize> {
    /// The actual game state
    actual: KnownGameState<MAX_BCOUNT, B_MAX_CAP>,
    /// The game state viewed as partial
    as_partial: PartialGameState<MAX_BCOUNT, B_MAX_CAP>,
}

impl<const MAX_BCOUNT: usize, const B_MAX_CAP: usize> PseudoPartialGameState<MAX_BCOUNT, B_MAX_CAP> {
    /// The known view
    pub closed spec fn known_view(&self) -> KnownGameState<MAX_BCOUNT, B_MAX_CAP> {
        self.actual
    }

    /// The partial view
    pub closed spec fn partial_view(&self) -> PartialGameState<MAX_BCOUNT, B_MAX_CAP> {
        self.as_partial
    }

    /// Both views are well formed and match each other
    pub open spec fn wf(&self) -> bool {
        &&& bottles_wf(self.known_view().bottles@)
        &&& bottles_wf(self.partial_view().bottles@)
        &&& views_match(bottles_view(self.known_view().bottles@), bottles_view(self.partial_view().bottles@))
    }

    /// Create a new PseudoPartialGameState by marking all non-top units in the provided
    /// [KnownGameState] as unknown
    pub fn new(gs: KnownGameState<MAX_BCOUNT, B_MAX_CAP>) -> (r: Self)
        requires
            bottles_wf(gs.bottles@),
        ensures
            r.wf(),
            bottles_view(r.known_view().bottles@) == bottles_view(gs.bottles@),
            bottles_view(r.partial_view().bottles@) == bottles_view(gs.bottles@).map_values(
                |b: BottleView| (b.0, hide_below_top(b.1)),
            ),
    {
        let ghost kv = bottles_view(gs.bottles@);
        assert forall|j: int, x: int| 0 <= j < kv.len() && 0 <= x < kv[j].1.len() implies #[trigger] kv[j].1[x] is Color by {
            assert(kv[j] == bottle_view(gs.bottles@[j]));
        }
        let copy = copy_state(&gs);
        let mut as_partial = PartialGameState::from_known(copy);
        let mut i: usize = 0;
        while i < as_partial.bottles.len()
            invariant
                kv == bottles_view(gs.bottles@),
                bottles_wf(as_partial.bottles@),
                as_partial.bottles@.len() == kv.len(),
                i <= kv.len(),
                forall|j: int| 0 <= j < i ==> #[trigger] bottle_view(as_partial.bottles@[j]) == (kv[j].0, hide_below_top(kv[j].1)),
                forall|j: int| i <= j < kv.len() ==> #[trigger] bottle_view(as_partial.bottles@[j]) == kv[j],
                forall|j: int, x: int| 0 <= j < kv.len() && 0 <= x < kv[j].1.len() ==> #[trigger] kv[j].1[x] is Color,
            decreases kv.len() - i,
        {
            assert(as_partial.bottles@[i as int].inv());
            assert(bottle_view(as_partial.bottles@[i as int]) == kv[i as int]);
            let mut bottle = as_partial.bottles[i].duplicate();
            let ghost units = kv[i as int].1;
            assert(bottle.units() == units);
            assert(fillable(as_partial.bottles@[i as int]));
            proof {
                bottle.lemma_inv();
            }
            if let Some(top_content_idx) = bottle.get_top_content_idx() {
                proof {
                    bottle.lemma_units();
                    if bottle.unknown_v() > 0 {
                        assert(bottle.units()[0] == PartialColoredWaterUnit::UnknownColor);
                        assert(units[0] is Color);
                    }
                }
                let mut c_idx: usize = 0;
                while c_idx < top_content_idx
                    invariant
                        bottle.inv(),
                        fillable(bottle),
                        bottle.bcap() == kv[i as int].0,
                        units == kv[i as int].1,
                        top_content_idx == units.len() - 1,
                        units.len() <= bottle.bcap(),
                        forall|x: int| 0 <= x < units.len() ==> #[trigger] units[x] is Color,
                        c_idx <= top_content_idx,
                        bottle.unknown_v() == c_idx,
                        bottle.units() == Seq::new(
                            units.len(),
                            |c: int|
                                if c < c_idx {
                                    PartialColoredWaterUnit::UnknownColor
                                } else {
                                    units[c]
                                },
                        ),
                    decreases top_content_idx - c_idx,
                {
                    proof {
                        bottle.lemma_units();
                        bottle.lemma_wf();
                        bottle.lemma_fillable_set_fits(c_idx as int, Some(PartialColoredWaterUnit::UnknownColor));
                    }
                    let set_result = bottle.try_set_color(c_idx, Some(PartialColoredWaterUnit::UnknownColor));
                    proof {
                        assert(set_result is Ok);
                        bottle.lemma_units();
                        let nu = bottle.unknown_v();
                        if nu > c_idx + 1 {
                            assert(bottle.units()[c_idx + 1] == PartialColoredWaterUnit::UnknownColor);
                            assert(units[c_idx + 1] is Color);
                        } else if nu < c_idx + 1 {
                            assert(bottle.units()[nu as int] is Color);
                        }
                        assert(bottle.units() =~= Seq::new(
                            units.len(),
                            |c: int|
                                if c < c_idx + 1 {
                                    PartialColoredWaterUnit::UnknownColor
                                } else {
                                    units[c]
                                },
                        ));
                    }
                    c_idx = c_idx + 1;
                }
                proof {
                    assert(bottle.units() =~= hide_below_top(units));
                }
            } else {
                proof {
                    assert(units.len() == 0);
                    assert(bottle.units() =~= hide_below_top(units));
                }
            }
            let ghost before_set = as_partial.bottles@;
            as_partial.bottles.set(i, bottle);
            proof {
                assert forall|j: int| 0 <= j < as_partial.bottles@.len() implies #[trigger] as_partial.bottles@[j].inv()
                    && fillable(as_partial.bottles@[j]) by {
                    if j != i as int {
                        assert(as_partial.bottles@[j] == before_set[j]);
                    }
                }
                assert forall|j: int| 0 <= j < i + 1 implies #[trigger] bottle_view(as_partial.bottles@[j]) == (
                    kv[j].0,
                    hide_below_top(kv[j].1),
                ) by {
                    if j != i as int {
                        assert(as_partial.bottles@[j] == before_set[j]);
                    }
                }
                assert forall|j: int| i + 1 <= j < kv.len() implies #[trigger] bottle_view(as_partial.bottles@[j]) == kv[j] by {
                    assert(as_partial.bottles@[j] == before_set[j]);
                }
            }
            i = i + 1;
        }
        let r = PseudoPartialGameState { actual: gs, as_partial };
        proof {
            let pv = bottles_view(as_partial.bottles@);
            assert(pv =~= kv.map_values(|b: BottleView| (b.0, hide_below_top(b.1))));
        }
        r
    }

    /// Create a new PseudoPartialGameState from a given [KnownGameState] and [PartialGameState]
    ///
    /// This fails if `known` doesn't match `partial`; that is, if you couldn't get `known` from
    /// `partial` by purely replacing units of unknown color in `partial` with known colors.
    pub fn try_from_parts(
        known: KnownGameState<MAX_BCOUNT, B_MAX_CAP>,
        as_partial: PartialGameState<MAX_BCOUNT, B_MAX_CAP>,
    ) -> (r: Result<Self, PseudoPartialGameStateError>)
        requires
            bottles_wf(known.bottles@),
            bottles_wf(as_partial.bottles@),
        ensures
            views_match(bottles_view(known.bottles@), bottles_view(as_partial.bottles@)) ==> (r matches Ok(p)
                && p.wf() && p.known_view() == known && p.partial_view() == as_partial),
            !views_match(bottles_view(known.bottles@), bottles_view(as_partial.bottles@)) ==> r == Err::<
                Self,
                _,
            >(PseudoPartialGameStateError::StatesDoNotMatch),
    {
        if states_match(&known, &as_partial) {
            Ok(PseudoPartialGameState { actual: known, as_partial })
        } else {
            Err(PseudoPartialGameStateError::StatesDoNotMatch)
        }
    }

    /// Borrow the [KnownGameState] view of this PseudoPartialGameState
    pub fn known(&self) -> (r: &KnownGameState<MAX_BCOUNT, B_MAX_CAP>)
        ensures
            *r == self.known_view(),
    {
        &self.actual
    }

    /// Borrow the [PartialGameState] view of this PseudoPartialGameState
    pub fn partial(&self) -> (r: &PartialGameState<MAX_BCOUNT, B_MAX_CAP>)
        ensures
            *r == self.partial_view(),
    {
        &self.as_partial
    }

    /// Take both the [KnownGameState] and [PartialGameState] views of this PseudoPartialGameState
    pub fn take(self) -> (r: (KnownGameState<MAX_BCOUNT, B_MAX_CAP>, PartialGameState<MAX_BCOUNT, B_MAX_CAP>))
        ensures
            r.0 == self.known_view(),
            r.1 == self.partial_view(),
    {
        (self.actual, self.as_partial)
    }
}

} // verus!
