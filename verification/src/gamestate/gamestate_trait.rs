//! The [GameState] and [SolvableGameState] traits, and the model of a game state:
//! the sequence of its bottles, each seen as its capacity and its units.
use vstd::prelude::*;

use super::pour_def::{Pour, PourError};
use crate::bottle::{
    Bottle, color_units, fillable, out_run, pour_out_amount, pour_out_result, poured_color,
};
use crate::colored_water::PartialColoredWaterUnit;

verus! {

/// A bottle seen as its capacity and its units, bottom first
pub type BottleView = (nat, Seq<PartialColoredWaterUnit>);

/// The model of a bottle
pub open spec fn bottle_view<B: Bottle>(b: B) -> BottleView {
    (b.bcap(), b.units())
}

/// The models of a sequence of bottles
pub open spec fn bottles_view<B: Bottle>(bs: Seq<B>) -> Seq<BottleView> {
    bs.map_values(|b: B| bottle_view(b))
}

/// Every bottle is well formed and its storage can hold its whole capacity
pub open spec fn bottles_wf<B: Bottle>(bs: Seq<B>) -> bool {
    forall|i: int| 0 <= i < bs.len() ==> #[trigger] bs[i].inv() && fillable(bs[i])
}

/// The model of a game state
pub open spec fn state_view<G: GameState>(g: G) -> Seq<BottleView> {
    bottles_view(g.bottles())
}

/// A game state is well formed when all of its bottles are
pub open spec fn state_wf<G: GameState>(g: G) -> bool {
    bottles_wf(g.bottles())
}

/// Two game states have the same number of bottles with the same capacities
pub open spec fn same_shape(a: Seq<BottleView>, b: Seq<BottleView>) -> bool {
    &&& a.len() == b.len()
    &&& forall|i: int| 0 <= i < a.len() ==> #[trigger] a[i].0 == b[i].0
}

/// A bottle is finished when it is empty, or full of a single known color
pub open spec fn bottle_finished(b: BottleView) -> bool {
    ||| b.1.len() == 0
    ||| {
        &&& b.1.len() == b.0
        &&& b.1[0] is Color
        &&& forall|j: int| 0 <= j < b.1.len() ==> #[trigger] b.1[j] == b.1[0]
    }
}

/// Whether pouring from bottle `src` into bottle `dst` of a game state is possible, and why not
pub open spec fn pour_check(v: Seq<BottleView>, src: int, dst: int) -> Result<(), PourError> {
    if src == dst {
        Err(PourError::SameBottle)
    } else if !(0 <= src < v.len()) || !(0 <= dst < v.len()) {
        Err(PourError::MissingBottle)
    } else {
        match pour_out_result(v[src].1, v[dst].1, v[dst].0) {
            Ok(()) => Ok(()),
            Err(e) => Err(PourError::InvalidPour(e)),
        }
    }
}

/// The game state after pouring from bottle `src` into bottle `dst`
pub open spec fn apply_pour(v: Seq<BottleView>, src: int, dst: int) -> Seq<BottleView> {
    let amount = pour_out_amount(v[src].1, v[dst].1, v[dst].0);
    v.update(src, (v[src].0, v[src].1.take(v[src].1.len() - amount))).update(
        dst,
        (v[dst].0, v[dst].1 + color_units(poured_color(v[src].1), amount)),
    )
}

/// The game state after applying a sequence of pours one after the other, or the error of
/// the first pour that is not possible in the state it is applied to
pub open spec fn run_pours(v: Seq<BottleView>, pours: Seq<Pour>) -> Result<Seq<BottleView>, PourError>
    decreases pours.len(),
{
    if pours.len() == 0 {
        Ok(v)
    } else {
        let p = pours[0];
        match pour_check(v, p.source_bottle_index as int, p.dest_bottle_index as int) {
            Ok(()) => run_pours(
                apply_pour(v, p.source_bottle_index as int, p.dest_bottle_index as int),
                pours.drop_first(),
            ),
            Err(e) => Err(e),
        }
    }
}

/// Running pours one more pour at a time: the pours of `pours` then `p`
pub proof fn lemma_run_pours_push(v: Seq<BottleView>, pours: Seq<Pour>, p: Pour)
    ensures
        run_pours(v, pours.push(p)) == (match run_pours(v, pours) {
            Ok(w) => match pour_check(w, p.source_bottle_index as int, p.dest_bottle_index as int) {
                Ok(()) => Ok(apply_pour(w, p.source_bottle_index as int, p.dest_bottle_index as int)),
                Err(e) => Err(e),
            },
            Err(e) => Err(e),
        }),
    decreases pours.len(),
{
    if pours.len() == 0 {
        reveal_with_fuel(run_pours, 2);
        assert(pours.push(p).drop_first() =~= Seq::<Pour>::empty());
    } else {
        assert(pours.push(p)[0] == pours[0]);
        assert(pours.push(p).drop_first() =~= pours.drop_first().push(p));
        let q = pours[0];
        match pour_check(v, q.source_bottle_index as int, q.dest_bottle_index as int) {
            Ok(()) => {
                lemma_run_pours_push(
                    apply_pour(v, q.source_bottle_index as int, q.dest_bottle_index as int),
                    pours.drop_first(),
                    p,
                );
            },
            Err(e) => {},
        }
    }
}

/// Running two sequences of pours one after the other
pub proof fn lemma_run_pours_append(v: Seq<BottleView>, a: Seq<Pour>, b: Seq<Pour>)
    ensures
        run_pours(v, a + b) == (match run_pours(v, a) {
            Ok(w) => run_pours(w, b),
            Err(e) => Err(e),
        }),
    decreases a.len(),
{
    if a.len() == 0 {
        assert(a + b =~= b);
    } else {
        assert((a + b)[0] == a[0]);
        assert((a + b).drop_first() =~= a.drop_first() + b);
        let q = a[0];
        match pour_check(v, q.source_bottle_index as int, q.dest_bottle_index as int) {
            Ok(()) => {
                lemma_run_pours_append(
                    apply_pour(v, q.source_bottle_index as int, q.dest_bottle_index as int),
                    a.drop_first(),
                    b,
                );
            },
            Err(e) => {},
        }
    }
}

/// The first possible pour `(from, to)` at or after position `(f, t)`, in the order of
/// source index first and destination index second
pub open spec fn next_valid_pour(v: Seq<BottleView>, f: int, t: int) -> Option<(int, int)>
    decreases v.len() - f, v.len() - t,
{
    if f < 0 || t < 0 || f >= v.len() {
        None
    } else if t >= v.len() {
        next_valid_pour(v, f + 1, 0)
    } else if pour_check(v, f, t) is Ok {
        Some((f, t))
    } else {
        next_valid_pour(v, f, t + 1)
    }
}

/// Pouring keeps the number of bottles and their capacities
pub proof fn lemma_apply_pour_shape(v: Seq<BottleView>, src: int, dst: int)
    requires
        pour_check(v, src, dst) is Ok,
    ensures
        same_shape(v, apply_pour(v, src, dst)),
        forall|i: int| 0 <= i < v.len() && i != src && i != dst ==> #[trigger] apply_pour(v, src, dst)[i] == v[i],
{
}

/// Types representing game states: collections of [Bottle]s that can be poured between
pub trait GameState: Sized {
    type BottleT: Bottle;

    /// The bottles of this game state
    spec fn bottles(&self) -> Seq<Self::BottleT>;

    /// Gets the bottles of this game state as a slice
    fn get_bottles(&self) -> (r: &[Self::BottleT])
        ensures
            r@ == self.bottles(),
    ;

    /// Get the bottles of this game state as a mutable slice
    fn get_mut_bottles(&mut self) -> (r: &mut [Self::BottleT])
        ensures
            r@ == old(self).bottles(),
            final(r)@ == final(self).bottles(),
    ;

    /// The game state with the given bottles
    fn from_bottles(bottles: Vec<Self::BottleT>) -> (r: Self)
        ensures
            r.bottles() == bottles@,
    ;
}

/// Types representing [GameState]s that a [Solution](crate::solution::Solution) can be found for
pub trait SolvableGameState: GameState {
    /// Whether a game state with this model is solved
    spec fn solved_view(v: Seq<BottleView>) -> bool;

    /// Being solved does not depend on the order of the bottles
    proof fn lemma_solved_view_multiset(a: Seq<BottleView>, b: Seq<BottleView>)
        requires
            a.to_multiset() == b.to_multiset(),
        ensures
            Self::solved_view(a) == Self::solved_view(b),
    ;

    /// Returns whether this game state is solved
    ///
    /// What precisely "solved" means depends on the particular type of game state.
    /// When this is true for some state, the solving algorithm stops and declares it has found a solution.
    fn is_solved(&self) -> (r: bool)
        requires
            bottles_wf(self.bottles()),
        ensures
            r == Self::solved_view(bottles_view(self.bottles())),
    ;
}

/// A copy of a game state, with copies of its bottles
pub fn copy_state<G: GameState>(g: &G) -> (r: G)
    requires
        bottles_wf(g.bottles()),
    ensures
        state_view(r) == state_view(*g),
        bottles_wf(r.bottles()),
{
    let bottles = g.get_bottles();
    let mut copies: Vec<G::BottleT> = Vec::new();
    let mut i: usize = 0;
    while i < bottles.len()
        invariant
            bottles@ == g.bottles(),
            bottles_wf(g.bottles()),
            i <= bottles@.len(),
            copies@.len() == i,
            forall|j: int|
                0 <= j < i ==> #[trigger] copies@[j].inv() && bottle_view(copies@[j]) == bottle_view(
                    bottles@[j],
                ) && copies@[j].storage_cap() == bottles@[j].storage_cap(),
        decreases bottles@.len() - i,
    {
        assert(bottles@[i as int].inv());
        copies.push(bottles[i].duplicate());
        i = i + 1;
    }
    let ghost cs = copies@;
    let r = G::from_bottles(copies);
    assert forall|j: int| 0 <= j < cs.len() implies #[trigger] cs[j].inv() && fillable(cs[j]) by {
        assert(bottles@[j].inv());
    }
    assert(r.bottles() == cs);
    assert(bottles_wf(cs));
    assert forall|j: int| 0 <= j < cs.len() implies #[trigger] bottles_view(cs)[j] == bottles_view(g.bottles())[j] by {
        assert(cs[j].inv());
    }
    assert(state_view(r) =~= state_view(*g));
    r
}

} // verus!
