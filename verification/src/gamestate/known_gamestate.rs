//! [KnownGameState]: a game state made of [KnownBottle]s.
use vstd::prelude::*;

use super::equivalence::{bottles_equivalent, views_equivalent};
use super::gamestate_trait::{
    BottleView, GameState, SolvableGameState, bottle_finished, bottle_view, bottles_view, bottles_wf,
};
use crate::bottle::{Bottle, KnownBottle, known_units};
use crate::colored_water::{ColoredWaterUnit, all_units_are};

verus! {

broadcast use {vstd::seq_lib::to_multiset_contains};

/// The number of bottles given exceeds the maximum number of bottles of the game state
#[derive(Debug, Clone, Copy, PartialEq, Eq, Structural)]
pub struct CapacityError;

/// The state a particular game is in, including only [KnownBottle]s
///
/// That is, represents what bottles exist and what order they're in.
#[derive(Debug, Clone)]
pub struct KnownGameState<const MAX_BCOUNT: usize, const B_MAX_CAP: usize> {
    pub bottles: Vec<KnownBottle<B_MAX_CAP>>,
}

/// A game state of known bottles is solved when every bottle is finished
pub open spec fn known_solved(v: Seq<BottleView>) -> bool {
    forall|i: int| 0 <= i < v.len() ==> #[trigger] bottle_finished(v[i])
}

/// A known bottle is finished exactly when it is empty or in its final state
proof fn lemma_known_finished<const M: usize>(b: KnownBottle<M>)
    requires
        b.wf(),
    ensures
        bottle_finished(bottle_view(b)) == (b.content_v().len() == 0 || crate::bottle::known_final(
            b.content_v(),
            b.cap_v(),
        )),
{
    b.lemma_wf();
    let c = b.content_v();
    let u = known_units(c);
    if c.len() > 0 {
        if all_units_are(c, c[0]) {
            assert forall|j: int| 0 <= j < u.len() implies #[trigger] u[j] == u[0] by {}
        }
        if forall|j: int| 0 <= j < u.len() ==> #[trigger] u[j] == u[0] {
            assert forall|j: int| 0 <= j < c.len() implies #[trigger] c[j] == c[0] by {
                assert(u[j] == u[0]);
            }
        }
    }
}

/// A property of every element of a sequence holds of every element of a sequence with the same multiset
proof fn lemma_forall_multiset(a: Seq<BottleView>, b: Seq<BottleView>)
    requires
        a.to_multiset() == b.to_multiset(),
        known_solved(a),
    ensures
        known_solved(b),
{
    assert forall|j: int| 0 <= j < b.len() implies #[trigger] bottle_finished(b[j]) by {
        assert(b.contains(b[j]));
        assert(a.to_multiset().count(b[j]) > 0);
        assert(a.contains(b[j]));
    }
}

impl<const MAX_BCOUNT: usize, const B_MAX_CAP: usize> GameState for KnownGameState<MAX_BCOUNT, B_MAX_CAP> {
    type BottleT = KnownBottle<B_MAX_CAP>;

    open spec fn bottles(&self) -> Seq<KnownBottle<B_MAX_CAP>> {
        self.bottles@
    }

    fn get_bottles(&self) -> (r: &[KnownBottle<B_MAX_CAP>]) {
        self.bottles.as_slice()
    }

    fn get_mut_bottles(&mut self) -> (r: &mut [KnownBottle<B_MAX_CAP>]) {
        self.bottles.as_mut_slice()
    }

    fn from_bottles(bottles: Vec<KnownBottle<B_MAX_CAP>>) -> (r: Self) {
        KnownGameState { bottles }
    }
}

impl<const MAX_BCOUNT: usize, const B_MAX_CAP: usize> SolvableGameState for KnownGameState<
    MAX_BCOUNT,
    B_MAX_CAP,
> {
    open spec fn solved_view(v: Seq<BottleView>) -> bool {
        known_solved(v)
    }

    proof fn lemma_solved_view_multiset(a: Seq<BottleView>, b: Seq<BottleView>) {
        if known_solved(a) {
            lemma_forall_multiset(a, b);
        }
        if known_solved(b) {
            lemma_forall_multiset(b, a);
        }
    }

    /// A game of known bottles is solved when it is finished: every bottle is either
    /// completely empty or completely full of a single color
    fn is_solved(&self) -> (r: bool) {
        let ghost v = bottles_view(self.bottles@);
        let mut i: usize = 0;
        while i < self.bottles.len()
            invariant
                v == bottles_view(self.bottles@),
                bottles_wf(self.bottles@),
                i <= self.bottles@.len(),
                forall|j: int| 0 <= j < i ==> #[trigger] bottle_finished(v[j]),
            decreases self.bottles@.len() - i,
        {
            let bottle = &self.bottles[i];
            assert(self.bottles@[i as int].inv());
            proof {
                lemma_known_finished(self.bottles@[i as int]);
            }
            if !(bottle.is_in_final_state() || bottle.get_content().len() == 0) {
                assert(v[i as int] == bottle_view(self.bottles@[i as int]));
                assert(!bottle_finished(v[i as int]));
                return false;
            }
            i = i + 1;
        }
        true
    }
}

impl<const MAX_BCOUNT: usize, const B_MAX_CAP: usize> KnownGameState<MAX_BCOUNT, B_MAX_CAP> {
    /// Whether this game state holds the same bottles as `other`, in any order.
    ///
    /// Equivalent game states are the same game: the order of the bottles does not matter.
    pub fn equivalent(&self, other: &Self) -> (r: bool)
        requires
            bottles_wf(self.bottles@),
            bottles_wf(other.bottles@),
        ensures
            r == views_equivalent(bottles_view(self.bottles@), bottles_view(other.bottles@)),
    {
        if self.is_solved() != other.is_solved() {
            proof {
                if views_equivalent(bottles_view(self.bottles@), bottles_view(other.bottles@)) {
                    Self::lemma_solved_view_multiset(
                        bottles_view(self.bottles@),
                        bottles_view(other.bottles@),
                    );
                }
            }
            return false;
        }
        bottles_equivalent(self.bottles.as_slice(), other.bottles.as_slice())
    }

    /// Create a game state from a slice of bottles.
    ///
    /// This will only fail if the number of bottles exceeds `MAX_BCOUNT`.
    pub fn try_from_bottles(value: &[KnownBottle<B_MAX_CAP>]) -> (r: Result<Self, CapacityError>)
        requires
            bottles_wf(value@),
        ensures
            value@.len() > MAX_BCOUNT ==> r is Err,
            value@.len() <= MAX_BCOUNT ==> (r matches Ok(g) && bottles_view(g.bottles@) == bottles_view(
                value@,
            ) && bottles_wf(g.bottles@)),
    {
        if value.len() > MAX_BCOUNT {
            return Err(CapacityError);
        }
        let mut bottles: Vec<KnownBottle<B_MAX_CAP>> = Vec::new();
        let mut i: usize = 0;
        while i < value.len()
            invariant
                bottles_wf(value@),
                i <= value@.len(),
                bottles@.len() == i,
                bottles_wf(bottles@),
                forall|j: int| 0 <= j < i ==> #[trigger] bottle_view(bottles@[j]) == bottle_view(value@[j]),
            decreases value@.len() - i,
        {
            assert(value@[i as int].inv());
            let b = value[i].duplicate();
            bottles.push(b);
            i = i + 1;
        }
        let r = KnownGameState { bottles };
        assert(bottles_view(r.bottles@) =~= bottles_view(value@));
        Ok(r)
    }
}

} // verus!
