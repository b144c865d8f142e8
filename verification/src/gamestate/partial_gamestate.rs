//! [PartialGameState]: a game state made of [PartialBottle]s, some of whose units may be of
//! unknown color.
use vstd::prelude::*;

use super::equivalence::{bottles_equivalent, lemma_same_elements, views_equivalent};
use super::gamestate_trait::{
    BottleView, GameState, SolvableGameState, bottle_finished, bottle_view, bottles_view, bottles_wf,
};
use super::known_gamestate::{CapacityError, KnownGameState, known_solved};
use crate::bottle::{
    Bottle, KnownBottle, PartialBottle, PartialBottleConversionError, finish_estimate, lemma_top_run,
    top_run, top_run_len, top_unit,
};
use crate::colored_water::PartialColoredWaterUnit;

verus! {

/// The state a particular game is in, including [PartialBottle]s
/// instead of regular [KnownBottle]s
#[derive(Debug, Clone)]
pub struct PartialGameState<const MAX_BCOUNT: usize, const B_MAX_CAP: usize> {
    pub bottles: Vec<PartialBottle<B_MAX_CAP>>,
}

/// Some bottle has a unit of unknown color on top
pub open spec fn has_unknown_top(v: Seq<BottleView>) -> bool {
    exists|i: int| 0 <= i < v.len() && #[trigger] top_unit(v[i].1) == Some(PartialColoredWaterUnit::UnknownColor)
}

/// A game state of partial bottles is solved when a unit of unknown color has come to the top
/// of some bottle (pouring further first needs its color to be revealed), or when the game is
/// finished: every bottle is empty or full of a single known color
pub open spec fn partial_solved(v: Seq<BottleView>) -> bool {
    has_unknown_top(v) || known_solved(v)
}

/// The sum of the estimates of pours each bottle needs to be finished
pub open spec fn state_finish_estimate(v: Seq<BottleView>) -> int
    decreases v.len(),
{
    if v.len() == 0 {
        0
    } else {
        state_finish_estimate(v.drop_last()) + finish_estimate(v.last().1, v.last().0)
    }
}

/// A bottle is finished exactly when it is empty, or its top run is of a known color and fills it
proof fn lemma_finished_top_run(b: BottleView)
    requires
        b.1.len() <= b.0,
    ensures
        bottle_finished(b) == (b.1.len() == 0 || (b.1.last() is Color && top_run_len(b.1) == b.0)),
{
    let u = b.1;
    if u.len() > 0 {
        lemma_top_run(u);
        if u.last() is Color && top_run_len(u) == b.0 {
            assert forall|j: int| 0 <= j < u.len() implies #[trigger] u[j] == u[0] by {
                assert(u[j] == u.last());
                assert(u[0] == u.last());
            }
        }
        if bottle_finished(b) {
            assert(u[u.len() - 1] == u[0]);
            if top_run_len(u) < u.len() {
                assert(u[u.len() - top_run_len(u) - 1] == u[0]);
            }
        }
    }
}

/// The estimate of a game state is never negative
proof fn lemma_state_estimate_nonneg(v: Seq<BottleView>)
    requires
        forall|i: int| 0 <= i < v.len() ==> #[trigger] v[i].1.len() <= v[i].0,
    ensures
        state_finish_estimate(v) >= 0,
    decreases v.len(),
{
    if v.len() > 0 {
        lemma_state_estimate_nonneg(v.drop_last());
        crate::bottle::lemma_runs_from_bound(v.last().1, crate::bottle::done_count(v.last().1) as int, None);
        if v.last().1.len() > 0 {
            crate::bottle::lemma_run_up_bound(v.last().1, 0, v.last().1[0]);
        }
    }
}

impl<const MAX_BCOUNT: usize, const B_MAX_CAP: usize> GameState for PartialGameState<MAX_BCOUNT, B_MAX_CAP> {
    type BottleT = PartialBottle<B_MAX_CAP>;

    open spec fn bottles(&self) -> Seq<PartialBottle<B_MAX_CAP>> {
        self.bottles@
    }

    fn get_bottles(&self) -> (r: &[PartialBottle<B_MAX_CAP>]) {
        self.bottles.as_slice()
    }

    fn get_mut_bottles(&mut self) -> (r: &mut [PartialBottle<B_MAX_CAP>]) {
        self.bottles.as_mut_slice()
    }

    fn from_bottles(bottles: Vec<PartialBottle<B_MAX_CAP>>) -> (r: Self) {
        PartialGameState { bottles }
    }
}

impl<const MAX_BCOUNT: usize, const B_MAX_CAP: usize> SolvableGameState for PartialGameState<
    MAX_BCOUNT,
    B_MAX_CAP,
> {
    open spec fn solved_view(v: Seq<BottleView>) -> bool {
        partial_solved(v)
    }

    proof fn lemma_solved_view_multiset(a: Seq<BottleView>, b: Seq<BottleView>) {
        lemma_same_elements(a, b);
        if has_unknown_top(a) {
            let i = choose|i: int|
                0 <= i < a.len() && #[trigger] top_unit(a[i].1) == Some(PartialColoredWaterUnit::UnknownColor);
            assert(a.contains(a[i]));
            let j = choose|j: int| 0 <= j < b.len() && b[j] == a[i];
            assert(top_unit(b[j].1) == Some(PartialColoredWaterUnit::UnknownColor));
        }
        if has_unknown_top(b) {
            let i = choose|i: int|
                0 <= i < b.len() && #[trigger] top_unit(b[i].1) == Some(PartialColoredWaterUnit::UnknownColor);
            assert(b.contains(b[i]));
            let j = choose|j: int| 0 <= j < a.len() && a[j] == b[i];
            assert(top_unit(a[j].1) == Some(PartialColoredWaterUnit::UnknownColor));
        }
        if known_solved(a) {
            assert forall|j: int| 0 <= j < b.len() implies #[trigger] bottle_finished(b[j]) by {
                assert(b.contains(b[j]));
                let k = choose|k: int| 0 <= k < a.len() && a[k] == b[j];
                assert(bottle_finished(a[k]));
            }
        }
        if known_solved(b) {
            assert forall|j: int| 0 <= j < a.len() implies #[trigger] bottle_finished(a[j]) by {
                assert(a.contains(a[j]));
                let k = choose|k: int| 0 <= k < b.len() && b[k] == a[j];
                assert(bottle_finished(b[k]));
            }
        }
    }

    /// A game of partial bottles is solved when a unit of unknown color is on top of some
    /// bottle, or when every bottle is either completely empty or completely full of a single color
    fn is_solved(&self) -> (r: bool) {
        let ghost v = bottles_view(self.bottles@);
        let mut all_finished = true;
        let mut i: usize = 0;
        while i < self.bottles.len()
            invariant
                v == bottles_view(self.bottles@),
                bottles_wf(self.bottles@),
                i <= self.bottles@.len(),
                all_finished == (forall|j: int| 0 <= j < i ==> #[trigger] bottle_finished(v[j])),
                forall|j: int|
                    0 <= j < i ==> #[trigger] top_unit(v[j].1) != Some(PartialColoredWaterUnit::UnknownColor),
            decreases self.bottles@.len() - i,
        {
            let bottle = &self.bottles[i];
            assert(self.bottles@[i as int].inv());
            proof {
                bottle.lemma_inv();
                lemma_finished_top_run(v[i as int]);
            }
            match bottle.get_top_color_run() {
                None => {},
                Some(run) => {
                    proof {
                        lemma_top_run(v[i as int].1);
                    }
                    if run.color == PartialColoredWaterUnit::UnknownColor {
                        assert(top_unit(v[i as int].1) == Some(PartialColoredWaterUnit::UnknownColor));
                        return true;
                    }
                    if run.size != bottle.get_capacity() {
                        all_finished = false;
                    }
                },
            }
            i = i + 1;
        }
        all_finished
    }
}

impl<const MAX_BCOUNT: usize, const B_MAX_CAP: usize> PartialGameState<MAX_BCOUNT, B_MAX_CAP> {
    /// Whether this game state holds the same bottles as `other`, in any order.
    ///
    /// Equivalent game states are the same game: the order of the bottles does not matter.
    pub fn equivalent(&self, other: &Self) -> (r: bool)
        requires
            bottles_wf(self.bottles@),
            bottles_wf(other.bottles@),
        ensures
            r == views_equivalent(bottles_view(self.bottles@), bottles_view(other.bottles@)),
    {
        if self.is_solved() != other.is_solved() {
            proof {
                if views_equivalent(bottles_view(self.bottles@), bottles_view(other.bottles@)) {
                    Self::lemma_solved_view_multiset(
                        bottles_view(self.bottles@),
                        bottles_view(other.bottles@),
                    );
                }
            }
            return false;
        }
        bottles_equivalent(self.bottles.as_slice(), other.bottles.as_slice())
    }

    /// Create a game state from a slice of bottles.
    ///
    /// This will only fail if the number of bottles exceeds `MAX_BCOUNT`.
    pub fn try_from_bottles(value: &[PartialBottle<B_MAX_CAP>]) -> (r: Result<Self, CapacityError>)
        requires
            bottles_wf(value@),
        ensures
            value@.len() > MAX_BCOUNT ==> r is Err,
            value@.len() <= MAX_BCOUNT ==> (r matches Ok(g) && bottles_view(g.bottles@) == bottles_view(
                value@,
            ) && bottles_wf(g.bottles@)),
    {
        if value.len() > MAX_BCOUNT {
            return Err(CapacityError);
        }
        let mut bottles: Vec<PartialBottle<B_MAX_CAP>> = Vec::new();
        let mut i: usize = 0;
        while i < value.len()
            invariant
                bottles_wf(value@),
                i <= value@.len(),
                bottles@.len() == i,
                bottles_wf(bottles@),
                forall|j: int| 0 <= j < i ==> #[trigger] bottle_view(bottles@[j]) == bottle_view(value@[j]),
            decreases value@.len() - i,
        {
            assert(value@[i as int].inv());
            let b = value[i].duplicate();
            bottles.push(b);
            i = i + 1;
        }
        let r = PartialGameState { bottles };
        assert(bottles_view(r.bottles@) =~= bottles_view(value@));
        Ok(r)
    }

    /// The partial game state with the bottles of a [KnownGameState]: no unit is unknown
    pub fn from_known(value: KnownGameState<MAX_BCOUNT, B_MAX_CAP>) -> (r: Self)
        requires
            bottles_wf(value.bottles@),
        ensures
            bottles_view(r.bottles@) == bottles_view(value.bottles@),
            bottles_wf(r.bottles@),
            forall|i: int| 0 <= i < r.bottles@.len() ==> #[trigger] r.bottles@[i].unknown_v() == 0,
    {
        let ghost src = value.bottles@;
        let mut source = value.bottles;
        let mut rev: Vec<PartialBottle<B_MAX_CAP>> = Vec::new();
        while source.len() > 0
            invariant
                bottles_wf(src),
                src.len() == source@.len() + rev@.len(),
                forall|j: int| 0 <= j < source@.len() ==> #[trigger] source@[j] == src[j],
                forall|j: int|
                    0 <= j < rev@.len() ==> #[trigger] bottle_view(rev@[j]) == bottle_view(
                        src[src.len() - 1 - j],
                    ) && rev@[j].inv() && crate::bottle::fillable(rev@[j]) && rev@[j].unknown_v() == 0,
            decreases source@.len(),
        {
            let b = source.pop().unwrap();
            assert(src[src.len() - 1 - rev@.len()] == b);
            assert(b.inv());
            rev.push(PartialBottle::from_known(b));
        }
        let mut bottles: Vec<PartialBottle<B_MAX_CAP>> = Vec::new();
        while rev.len() > 0
            invariant
                bottles_wf(src),
                src.len() == bottles@.len() + rev@.len(),
                forall|j: int|
                    0 <= j < rev@.len() ==> #[trigger] bottle_view(rev@[j]) == bottle_view(
                        src[src.len() - 1 - j],
                    ) && rev@[j].inv() && crate::bottle::fillable(rev@[j]) && rev@[j].unknown_v() == 0,
                forall|j: int|
                    0 <= j < bottles@.len() ==> #[trigger] bottle_view(bottles@[j]) == bottle_view(src[j])
                        && bottles@[j].inv() && crate::bottle::fillable(bottles@[j]) && bottles@[j].unknown_v() == 0,
            decreases rev@.len(),
        {
            let b = rev.pop().unwrap();
            bottles.push(b);
        }
        let r = PartialGameState { bottles };
        assert(bottles_view(r.bottles@) =~= bottles_view(src));
        assert forall|i: int| 0 <= i < r.bottles@.len() implies #[trigger] r.bottles@[i].inv() && crate::bottle::fillable(
            r.bottles@[i],
        ) && r.bottles@[i].unknown_v() == 0 by {
            assert(bottle_view(r.bottles@[i]) == bottle_view(src[i]));
        }
        assert forall|i: int| 0 <= i < r.bottles@.len() implies #[trigger] r.bottles@[i].unknown_v() == 0 by {
            assert(bottle_view(r.bottles@[i]) == bottle_view(src[i]));
        }
        r
    }

    /// The sum over the bottles of their estimates of the pours they need to be finished
    /// (see [Bottle::pours_to_finish_estimate]), or `usize::MAX` if that sum does not fit
    pub fn pours_to_finish_estimate(&self) -> (r: usize)
        requires
            bottles_wf(self.bottles@),
            2 * B_MAX_CAP <= usize::MAX,
        ensures
            r == (if state_finish_estimate(bottles_view(self.bottles@)) <= usize::MAX {
                state_finish_estimate(bottles_view(self.bottles@))
            } else {
                usize::MAX as int
            }),
    {
        let ghost v = bottles_view(self.bottles@);
        let mut total: usize = 0;
        let mut i: usize = 0;
        while i < self.bottles.len()
            invariant
                v == bottles_view(self.bottles@),
                bottles_wf(self.bottles@),
                2 * B_MAX_CAP <= usize::MAX,
                i <= v.len(),
                total == (if state_finish_estimate(v.take(i as int)) <= usize::MAX {
                    state_finish_estimate(v.take(i as int))
                } else {
                    usize::MAX as int
                }),
            decreases v.len() - i,
        {
            let bottle = &self.bottles[i];
            assert(self.bottles@[i as int].inv());
            proof {
                bottle.lemma_inv();
                assert(v.take(i + 1).drop_last() =~= v.take(i as int));
                assert(v.take(i + 1).last() == v[i as int]);
                assert forall|j: int| 0 <= j < v.take(i + 1).len() implies #[trigger] v.take(i + 1)[j].1.len()
                    <= v.take(i + 1)[j].0 by {
                    assert(self.bottles@[j].inv());
                    self.bottles@[j].lemma_inv();
                }
                lemma_state_estimate_nonneg(v.take(i + 1));
                lemma_state_estimate_nonneg(v.take(i as int));
            }
            let est = bottle.pours_to_finish_estimate();
            total = total.saturating_add(est);
            i = i + 1;
        }
        assert(v.take(i as int) =~= v);
        total
    }
}

impl<const MAX_BCOUNT: usize, const B_MAX_CAP: usize> KnownGameState<MAX_BCOUNT, B_MAX_CAP> {
    /// Direct conversion from [PartialGameState] into [KnownGameState] is allowed as long as all
    /// [PartialBottle]s within the [PartialGameState] can be converted into [KnownBottle]s.
    pub fn try_from_partial(value: PartialGameState<MAX_BCOUNT, B_MAX_CAP>) -> (r: Result<
        Self,
        PartialBottleConversionError,
    >)
        requires
            bottles_wf(value.bottles@),
        ensures
            (exists|i: int| 0 <= i < value.bottles@.len() && #[trigger] value.bottles@[i].unknown_v() > 0)
                ==> r == Err::<Self, _>(PartialBottleConversionError::UnknownUnits),
            (forall|i: int| 0 <= i < value.bottles@.len() ==> #[trigger] value.bottles@[i].unknown_v() == 0)
                ==> (r matches Ok(g) && bottles_view(g.bottles@) == bottles_view(value.bottles@)
                && bottles_wf(g.bottles@)),
    {
        let ghost src = value.bottles@;
        let mut i: usize = 0;
        while i < value.bottles.len()
            invariant
                src == value.bottles@,
                i <= src.len(),
                forall|j: int| 0 <= j < i ==> #[trigger] src[j].unknown_v() == 0,
            decreases src.len() - i,
        {
            if value.bottles[i].get_unknown_count() > 0 {
                return Err(PartialBottleConversionError::UnknownUnits);
            }
            i = i + 1;
        }
        let mut source = value.bottles;
        let mut rev: Vec<KnownBottle<B_MAX_CAP>> = Vec::new();
        while source.len() > 0
            invariant
                bottles_wf(src),
                forall|j: int| 0 <= j < src.len() ==> #[trigger] src[j].unknown_v() == 0,
                src.len() == source@.len() + rev@.len(),
                forall|j: int| 0 <= j < source@.len() ==> #[trigger] source@[j] == src[j],
                forall|j: int|
                    0 <= j < rev@.len() ==> #[trigger] bottle_view(rev@[j]) == bottle_view(
                        src[src.len() - 1 - j],
                    ) && rev@[j].inv() && crate::bottle::fillable(rev@[j]),
            decreases source@.len(),
        {
            let b = source.pop().unwrap();
            assert(src[src.len() - 1 - rev@.len()] == b);
            assert(b.inv());
            match KnownBottle::try_from_partial(b) {
                Ok(k) => rev.push(k),
                Err(_) => {
                    assert(false);
                },
            }
        }
        let mut bottles: Vec<KnownBottle<B_MAX_CAP>> = Vec::new();
        while rev.len() > 0
            invariant
                src.len() == bottles@.len() + rev@.len(),
                forall|j: int|
                    0 <= j < rev@.len() ==> #[trigger] bottle_view(rev@[j]) == bottle_view(
                        src[src.len() - 1 - j],
                    ) && rev@[j].inv() && crate::bottle::fillable(rev@[j]),
                forall|j: int|
                    0 <= j < bottles@.len() ==> #[trigger] bottle_view(bottles@[j]) == bottle_view(src[j])
                        && bottles@[j].inv() && crate::bottle::fillable(bottles@[j]),
            decreases rev@.len(),
        {
            let b = rev.pop().unwrap();
            bottles.push(b);
        }
        let r = KnownGameState { bottles };
        assert(bottles_view(r.bottles@) =~= bottles_view(src));
        assert forall|i: int| 0 <= i < r.bottles@.len() implies #[trigger] r.bottles@[i].inv() && crate::bottle::fillable(
            r.bottles@[i],
        ) by {
            assert(bottle_view(r.bottles@[i]) == bottle_view(src[i]));
        }
        Ok(r)
    }
}

} // verus!
