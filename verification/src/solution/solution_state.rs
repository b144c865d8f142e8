//! The state of a breadth-first search for solutions, and the search itself.
use vstd::prelude::*;
use std::collections::VecDeque;

use super::search_space::{lemma_distinct_within, lemma_in_state_space, lemma_state_space_finite, state_space, within_caps};
use crate::bottle::Bottle;
use crate::gamestate::{
    BottleView, GameState, Pour, SolvableGameState, apply_pour, bottles_wf, lemma_apply_pour_shape,
    lemma_run_pours_append, lemma_run_pours_push, lemma_wf_pour_fits, pour_check, run_pours, same_shape, state_view,
    states_equivalent, views_equivalent, copy_state, lemma_perm_multiset, lemma_perm_of, lemma_pour_moved,
    moved_pour,
};

verus! {

/// The pours that lead from the state with id 0 to the state with id `id`, following the
/// recorded sources of each state
pub open spec fn path_to(parents: Seq<Option<(usize, Pour)>>, id: int) -> Seq<Pour>
    decreases id,
{
    if id <= 0 || id >= parents.len() {
        Seq::empty()
    } else {
        match parents[id] {
            Some((p, pour)) => if p < id {
                path_to(parents, p as int).push(pour)
            } else {
                Seq::empty()
            },
            None => Seq::empty(),
        }
    }
}

/// Running `pours` from a game state with model `v` succeeds and ends in a solved state
pub open spec fn solves<G: SolvableGameState>(v: Seq<BottleView>, pours: Seq<Pour>) -> bool {
    run_pours(v, pours) matches Ok(w) && G::solved_view(w)
}

/// The pours solve the game state, and no shorter start of them does: they end at the first
/// solved state they reach
pub open spec fn first_solves<G: SolvableGameState>(v: Seq<BottleView>, pours: Seq<Pour>) -> bool {
    &&& solves::<G>(v, pours)
    &&& forall|t: int| 0 <= t < pours.len() ==> !#[trigger] solves::<G>(v, pours.take(t))
}

/// A layer: the number of pours it takes to reach a state, counted up to 255
pub open spec fn layer_of(len: nat) -> u8 {
    if len < 255 {
        len as u8
    } else {
        255
    }
}

/// Recording one more state keeps the paths of the others
proof fn lemma_path_to_push(parents: Seq<Option<(usize, Pour)>>, x: Option<(usize, Pour)>, id: int)
    requires
        0 <= id < parents.len(),
    ensures
        path_to(parents.push(x), id) == path_to(parents, id),
    decreases id,
{
    if id > 0 {
        match parents[id] {
            Some((p, pour)) => {
                if p < id {
                    lemma_path_to_push(parents, x, p as int);
                }
            },
            None => {},
        }
    }
}

/// Whether the search tries the pours out of a state at this layer
pub open spec fn expands(layer: u8, max_depth: u8, cutoff: bool) -> bool {
    layer < max_depth || max_depth == 0 || !cutoff
}

/// A path only depends on the sources recorded up to its end
proof fn lemma_path_to_prefix(parents: Seq<Option<(usize, Pour)>>, n: int, id: int)
    requires
        0 <= id < n <= parents.len(),
    ensures
        path_to(parents.take(n), id) == path_to(parents, id),
    decreases id,
{
    if id > 0 {
        assert(parents.take(n)[id] == parents[id]);
        match parents[id] {
            Some((p, pour)) => {
                if p < id {
                    lemma_path_to_prefix(parents, n, p as int);
                }
            },
            None => {},
        }
    }
}

/// Whether one of the game states of `list` is equivalent to `g`
pub fn contains_equivalent<G: GameState>(list: &Vec<G>, g: &G) -> (r: bool)
    requires
        forall|i: int| 0 <= i < list@.len() ==> #[trigger] bottles_wf(list@[i].bottles()),
        bottles_wf(g.bottles()),
    ensures
        r == exists|i: int| 0 <= i < list@.len() && #[trigger] views_equivalent(state_view(list@[i]), state_view(*g)),
{
    let mut i: usize = 0;
    while i < list.len()
        invariant
            forall|j: int| 0 <= j < list@.len() ==> #[trigger] bottles_wf(list@[j].bottles()),
            bottles_wf(g.bottles()),
            i <= list@.len(),
            forall|j: int| 0 <= j < i ==> !#[trigger] views_equivalent(state_view(list@[j]), state_view(*g)),
        decreases list@.len() - i,
    {
        assert(bottles_wf(list@[i as int].bottles()));
        if states_equivalent(&list[i], g) {
            return true;
        }
        i = i + 1;
    }
    false
}

/// The state of a breadth-first search for the pours that solve a game state
///
/// Every game state found is recorded once, under an id: the state to solve has id 0, and each
/// other state records the id of the state it was found from and the pour that leads from there
/// to it. No two recorded states are equivalent. States are tried in the order of their ids,
/// which is the order in which they were found.
pub struct SolutionState<G: SolvableGameState> {
    /// Every game state found so far, indexed by id
    all_gamestates: Vec<G>,
    /// For every id but 0: the id of the state it was found from, and the pour from there to it
    tried_gamestates: Vec<Option<(usize, Pour)>>,
    /// The layer of every id: how many pours lead to it from the state to solve, up to 255
    layers: Vec<u8>,
    /// The states with this id and above are still to be tried
    next_to_try: usize,
    /// The ids of the solved states found, in the order they were found in
    finished_gamestates: Vec<usize>,
}

impl<G: SolvableGameState> SolutionState<G> {
    /// The models of the states found, indexed by id
    pub closed spec fn views(&self) -> Seq<Seq<BottleView>> {
        self.all_gamestates@.map_values(|g: G| state_view(g))
    }

    /// The model of the state to solve
    pub closed spec fn base_view(&self) -> Seq<BottleView> {
        state_view(self.all_gamestates@[0])
    }

    /// The recorded source of every id
    pub closed spec fn parents(&self) -> Seq<Option<(usize, Pour)>> {
        self.tried_gamestates@
    }

    /// The ids of the solved states found, in the order they were found in
    pub closed spec fn finished(&self) -> Seq<usize> {
        self.finished_gamestates@
    }

    /// The id of the next state to try
    pub closed spec fn next(&self) -> int {
        self.next_to_try as int
    }

    /// The pours that lead from the state to solve to the state with id `id`
    pub open spec fn path(&self, id: int) -> Seq<Pour> {
        path_to(self.parents(), id)
    }

    /// Every recorded state is reached in at most `d` pours
    pub open spec fn depth_within(&self, d: int) -> bool {
        forall|id: int| 0 <= id < self.views().len() ==> #[trigger] self.path(id).len() <= d
    }

    /// The search state is consistent
    pub closed spec fn wf(&self) -> bool {
        let n = self.all_gamestates@.len();
        let views = self.views();
        let parents = self.tried_gamestates@;
        &&& n >= 1
        &&& parents.len() == n
        &&& self.layers@.len() == n
        &&& self.next_to_try <= n
        &&& parents[0] is None
        &&& forall|id: int|
            1 <= id < n ==> (#[trigger] parents[id] matches Some((p, pour)) && p < id && pour_check(
                views[p as int],
                pour.source_bottle_index as int,
                pour.dest_bottle_index as int,
            ) is Ok && views[id] == apply_pour(
                views[p as int],
                pour.source_bottle_index as int,
                pour.dest_bottle_index as int,
            ))
        &&& forall|id: int|
            0 <= id < n ==> #[trigger] bottles_wf(self.all_gamestates@[id].bottles()) && same_shape(
                views[0],
                views[id],
            ) && within_caps(views[id])
        &&& forall|i: int, j: int|
            0 <= i < j < n ==> !views_equivalent(#[trigger] views[i], #[trigger] views[j])
        &&& forall|id: int| 0 <= id < n ==> #[trigger] self.layers@[id] == layer_of(path_to(parents, id).len())
        &&& forall|k: int|
            0 <= k < self.finished_gamestates@.len() ==> #[trigger] self.finished_gamestates@[k]
                < self.next_to_try && G::solved_view(views[self.finished_gamestates@[k] as int])
        &&& forall|k: int, l: int|
            0 <= k < l < self.finished_gamestates@.len() ==> #[trigger] self.finished_gamestates@[k]
                < #[trigger] self.finished_gamestates@[l]
    }

    /// The solved states found are recorded states that were tried
    pub proof fn lemma_finished_id(&self, k: int)
        requires
            self.wf(),
            0 <= k < self.finished().len(),
        ensures
            self.finished()[k] < self.next() <= self.views().len(),
            G::solved_view(self.views()[self.finished()[k] as int]),
    {
    }

    /// Every recorded state is reached by following its path from the state to solve
    pub proof fn lemma_path(&self, id: int)
        requires
            self.wf(),
            0 <= id < self.views().len(),
        ensures
            run_pours(self.base_view(), self.path(id)) == Ok::<Seq<BottleView>, crate::gamestate::PourError>(
                self.views()[id],
            ),
        decreases id,
    {
        let parents = self.tried_gamestates@;
        if id == 0 {
            assert(self.path(0) =~= Seq::<Pour>::empty());
        } else {
            assert(parents[id] is Some);
            let (p, pour) = parents[id].unwrap();
            self.lemma_path(p as int);
            lemma_run_pours_push(self.base_view(), self.path(p as int), pour);
        }
    }

    /// How far the search went, for a search with these parameters:
    /// - recorded states come in the order of their path lengths;
    /// - every recorded state but the first was found from a tried one;
    /// - the tried states that are solved are exactly those recorded as solved;
    /// - every pour out of a tried state that is not solved, and whose layer the search
    ///   expands, leads to a state equivalent to a recorded one, at most one pour further away
    pub open spec fn searched(&self, max_depth: u8, cutoff: bool) -> bool {
        &&& self.sorted()
        &&& self.sourced()
        &&& self.finished_exact()
        &&& self.explored_below(self.next(), max_depth, cutoff)
    }

    /// Recorded states come in the order of their path lengths
    pub open spec fn sorted(&self) -> bool {
        forall|i: int, j: int|
            #![trigger self.path(i), self.path(j)]
            0 <= i <= j < self.views().len() ==> self.path(i).len() <= self.path(j).len()
    }

    /// Every recorded state but the first was found from a tried one
    pub open spec fn sourced(&self) -> bool {
        forall|j: int|
            1 <= j < self.views().len() ==> (#[trigger] self.parents()[j] matches Some((p, q)) && p < self.next())
    }

    /// The tried states that are solved are exactly those recorded as solved
    pub open spec fn finished_exact(&self) -> bool {
        forall|i: int|
            0 <= i < self.next() ==> (G::solved_view(#[trigger] self.views()[i]) <==> self.finished().contains(
                i as usize,
            ))
    }

    /// Every pour out of a state with id below `n` that is not solved, and whose layer the
    /// search expands, leads to a state equivalent to a recorded one, at most one pour further away
    pub open spec fn explored_below(&self, n: int, max_depth: u8, cutoff: bool) -> bool {
        forall|i: int, s: int, d: int|
            0 <= i < n && !G::solved_view(self.views()[i]) && expands(
                layer_of(self.path(i).len()),
                max_depth,
                cutoff,
            ) && #[trigger] pour_check(self.views()[i], s, d) is Ok ==> exists|j: int|
                0 <= j < self.views().len() && views_equivalent(
                    #[trigger] self.views()[j],
                    apply_pour(self.views()[i], s, d),
                ) && self.path(j).len() <= self.path(i).len() + 1
    }

    /// Moving on to the next state to try keeps the search state consistent
    #[verifier::spinoff_prover]
    #[verifier::rlimit(30)]
    proof fn lemma_advanced(&self, before: &Self, max_depth: u8, cutoff: bool)
        requires
            before.wf(),
            before.searched(max_depth, cutoff),
            self.all_gamestates == before.all_gamestates,
            self.tried_gamestates == before.tried_gamestates,
            self.layers == before.layers,
            self.finished_gamestates == before.finished_gamestates,
            before.next_to_try < before.all_gamestates@.len(),
            self.next_to_try == before.next_to_try + 1,
        ensures
            self.wf(),
            self.views() == before.views(),
            self.parents() == before.parents(),
            self.finished() == before.finished(),
            self.base_view() == before.base_view(),
            forall|j: int| #[trigger] self.path(j) == before.path(j),
            self.sorted(),
            self.sourced(),
            self.explored_below(before.next(), max_depth, cutoff),
            forall|i: int|
                0 <= i < before.next() ==> (G::solved_view(#[trigger] self.views()[i]) <==> self.finished().contains(
                    i as usize,
                )),
    {
        assert(self.views() == before.views());
        assert forall|j: int| #[trigger] self.path(j) == before.path(j) by {}
        self.lemma_explored_keep(before, before.next(), max_depth, cutoff);
        assert forall|j: int| 1 <= j < self.views().len() implies (#[trigger] self.parents()[j] matches Some((p, q))
            && p < self.next()) by {
            assert(before.parents()[j] == self.parents()[j]);
        }
        assert forall|i: int, j: int|
            #![trigger self.path(i), self.path(j)]
            0 <= i <= j < self.views().len() implies self.path(i).len() <= self.path(j).len() by {
            assert(before.path(i).len() <= before.path(j).len());
        }
    }

    /// Recording the next state to try as solved keeps the search state consistent
    #[verifier::spinoff_prover]
    #[verifier::rlimit(30)]
    proof fn lemma_marked(&self, before: &Self, max_depth: u8, cutoff: bool)
        requires
            before.wf(),
            before.searched(max_depth, cutoff),
            self.all_gamestates == before.all_gamestates,
            self.tried_gamestates == before.tried_gamestates,
            self.layers == before.layers,
            self.finished_gamestates@ == before.finished_gamestates@.push(before.next_to_try),
            before.next_to_try < before.all_gamestates@.len(),
            self.next_to_try == before.next_to_try + 1,
            G::solved_view(before.views()[before.next()]),
        ensures
            self.wf(),
            self.searched(max_depth, cutoff),
            self.views() == before.views(),
            self.parents() == before.parents(),
            forall|j: int| #[trigger] self.path(j) == before.path(j),
    {
        let id = before.next_to_try;
        let fin = before.finished_gamestates@;
        assert(self.views() == before.views());
        assert forall|j: int| #[trigger] self.path(j) == before.path(j) by {}
        assert forall|k: int, l: int|
            0 <= k < l < self.finished_gamestates@.len() implies #[trigger] self.finished_gamestates@[k]
            < #[trigger] self.finished_gamestates@[l] by {
            if l < fin.len() {
                assert(fin[k] < fin[l]);
            } else {
                assert(fin[k] < id);
            }
        }
        assert(self.wf());
        self.lemma_explored_keep(before, before.next(), max_depth, cutoff);
        assert forall|j: int| 1 <= j < self.views().len() implies (#[trigger] self.parents()[j] matches Some((p, q))
            && p < self.next()) by {
            assert(before.parents()[j] == self.parents()[j]);
        }
        assert forall|i: int, j: int|
            #![trigger self.path(i), self.path(j)]
            0 <= i <= j < self.views().len() implies self.path(i).len() <= self.path(j).len() by {
            assert(before.path(i).len() <= before.path(j).len());
        }
        assert forall|i: int| 0 <= i < self.next() implies (G::solved_view(#[trigger] self.views()[i])
            <==> self.finished().contains(i as usize)) by {
            if i < id {
                if before.finished().contains(i as usize) {
                    let k = choose|k: int| 0 <= k < fin.len() && fin[k] == i as usize;
                    assert(self.finished()[k] == i as usize);
                }
                if self.finished().contains(i as usize) {
                    let k = choose|k: int| 0 <= k < self.finished().len() && self.finished()[k] == i as usize;
                    assert(k < fin.len());
                    assert(fin[k] == i as usize);
                }
            } else {
                assert(self.finished()[fin.len() as int] == id);
            }
        }
        assert forall|i: int, s: int, d: int|
            0 <= i < self.next() && !G::solved_view(self.views()[i]) && expands(
                layer_of(self.path(i).len()),
                max_depth,
                cutoff,
            ) && #[trigger] pour_check(self.views()[i], s, d) is Ok implies exists|j: int|
                0 <= j < self.views().len() && views_equivalent(
                    #[trigger] self.views()[j],
                    apply_pour(self.views()[i], s, d),
                ) && self.path(j).len() <= self.path(i).len() + 1 by {
            if i < id {
                assert(self.explored_below(id as int, max_depth, cutoff));
            }
        }
    }

    /// Recording more states keeps what was explored
    proof fn lemma_explored_keep(&self, before: &Self, n: int, max_depth: u8, cutoff: bool)
        requires
            before.explored_below(n, max_depth, cutoff),
            n <= before.views().len() <= self.views().len(),
            forall|j: int| 0 <= j < before.views().len() ==> #[trigger] self.views()[j] == before.views()[j],
            forall|j: int| 0 <= j < before.views().len() ==> #[trigger] self.path(j) == before.path(j),
        ensures
            self.explored_below(n, max_depth, cutoff),
    {
        assert forall|i: int, s: int, d: int|
            0 <= i < n && !G::solved_view(self.views()[i]) && expands(
                layer_of(self.path(i).len()),
                max_depth,
                cutoff,
            ) && #[trigger] pour_check(self.views()[i], s, d) is Ok implies exists|j: int|
                0 <= j < self.views().len() && views_equivalent(
                    #[trigger] self.views()[j],
                    apply_pour(self.views()[i], s, d),
                ) && self.path(j).len() <= self.path(i).len() + 1 by {
            assert(self.views()[i] == before.views()[i]);
            assert(self.path(i) == before.path(i));
            assert(pour_check(before.views()[i], s, d) is Ok);
            let j = choose|j: int|
                0 <= j < before.views().len() && views_equivalent(
                    #[trigger] before.views()[j],
                    apply_pour(before.views()[i], s, d),
                ) && before.path(j).len() <= before.path(i).len() + 1;
            assert(self.views()[j] == before.views()[j]);
            assert(self.path(j) == before.path(j));
        }
    }

    /// Following a sequence of pours from the state to solve, each state met is equivalent to
    /// a recorded one no further away, as long as the recorded states closer than `bound` were
    /// tried, are not solved and were expanded
    #[verifier::spinoff_prover]
    proof fn lemma_walk(&self, max_depth: u8, cutoff: bool, pours: Seq<Pour>, k: nat, bound: nat) -> (j: int)
        requires
            self.wf(),
            self.searched(max_depth, cutoff),
            self.base_view().len() <= usize::MAX,
            k <= pours.len(),
            k <= bound,
            run_pours(self.base_view(), pours.take(k as int)) is Ok,
            forall|i: int|
                0 <= i < self.views().len() && #[trigger] self.path(i).len() < bound ==> i < self.next()
                    && !G::solved_view(self.views()[i]) && expands(
                    layer_of(self.path(i).len()),
                    max_depth,
                    cutoff,
                ),
        ensures
            0 <= j < self.views().len(),
            views_equivalent(self.views()[j], run_pours(self.base_view(), pours.take(k as int))->Ok_0),
            self.path(j).len() <= k,
        decreases k,
    {
        let base = self.base_view();
        if k == 0 {
            assert(pours.take(0) =~= Seq::<Pour>::empty());
            assert(self.path(0) =~= Seq::<Pour>::empty());
            assert(self.views()[0] == base);
            0
        } else {
            let q = pours[k - 1];
            assert(pours.take(k as int) =~= pours.take(k - 1).push(q));
            lemma_run_pours_push(base, pours.take(k - 1), q);
            let j0 = self.lemma_walk(max_depth, cutoff, pours, (k - 1) as nat, bound);
            let w = run_pours(base, pours.take(k - 1))->Ok_0;
            let v0 = self.views()[j0];
            assert(bottles_wf(self.all_gamestates@[j0].bottles()));
            assert(same_shape(self.views()[0], v0));
            let perm = lemma_perm_of(w, v0);
            lemma_pour_moved(w, v0, perm, q);
            let mq = moved_pour(perm, q);
            let ms = mq.source_bottle_index as int;
            let md = mq.dest_bottle_index as int;
            assert(pour_check(v0, ms, md) is Ok);
            let j1 = choose|j: int|
                0 <= j < self.views().len() && views_equivalent(self.views()[j], apply_pour(v0, ms, md))
                    && self.path(j).len() <= self.path(j0).len() + 1;
            lemma_perm_multiset(
                apply_pour(w, q.source_bottle_index as int, q.dest_bottle_index as int),
                apply_pour(v0, ms, md),
                perm,
            );
            j1
        }
    }

    /// When the search stopped without finding a solved state, no sequence of pours within the
    /// depth limit solves the state to solve
    /// Like [SolutionState::lemma_walk], for pours none of whose earlier states is solved: the
    /// states they pass through are expanded whether or not the search found solved states
    proof fn lemma_walk_unsolved(&self, max_depth: u8, cutoff: bool, pours: Seq<Pour>, k: nat, bound: nat) -> (j: int)
        requires
            self.wf(),
            self.searched(max_depth, cutoff),
            self.base_view().len() <= usize::MAX,
            k <= pours.len(),
            k <= bound,
            run_pours(self.base_view(), pours.take(k as int)) is Ok,
            forall|t: int|
                0 <= t < k ==> (#[trigger] run_pours(self.base_view(), pours.take(t)) matches Ok(w)
                    && !G::solved_view(w)),
            forall|i: int|
                0 <= i < self.views().len() && #[trigger] self.path(i).len() < bound ==> i < self.next()
                    && expands(layer_of(self.path(i).len()), max_depth, cutoff),
        ensures
            0 <= j < self.views().len(),
            views_equivalent(self.views()[j], run_pours(self.base_view(), pours.take(k as int))->Ok_0),
            self.path(j).len() <= k,
        decreases k,
    {
        let base = self.base_view();
        if k == 0 {
            assert(pours.take(0) =~= Seq::<Pour>::empty());
            assert(self.path(0) =~= Seq::<Pour>::empty());
            assert(self.views()[0] == base);
            0
        } else {
            let q = pours[k - 1];
            assert(pours.take(k as int) =~= pours.take(k - 1).push(q));
            lemma_run_pours_push(base, pours.take(k - 1), q);
            assert(run_pours(base, pours.take(k - 1)) is Ok);
            let j0 = self.lemma_walk_unsolved(max_depth, cutoff, pours, (k - 1) as nat, bound);
            let w = run_pours(base, pours.take(k - 1))->Ok_0;
            let v0 = self.views()[j0];
            assert(!G::solved_view(w));
            G::lemma_solved_view_multiset(v0, w);
            assert(bottles_wf(self.all_gamestates@[j0].bottles()));
            assert(same_shape(self.views()[0], v0));
            let perm = lemma_perm_of(w, v0);
            lemma_pour_moved(w, v0, perm, q);
            let mq = moved_pour(perm, q);
            let ms = mq.source_bottle_index as int;
            let md = mq.dest_bottle_index as int;
            assert(pour_check(v0, ms, md) is Ok);
            let j1 = choose|j: int|
                0 <= j < self.views().len() && views_equivalent(self.views()[j], apply_pour(v0, ms, md))
                    && self.path(j).len() <= self.path(j0).len() + 1;
            lemma_perm_multiset(
                apply_pour(w, q.source_bottle_index as int, q.dest_bottle_index as int),
                apply_pour(v0, ms, md),
                perm,
            );
            j1
        }
    }

    /// Once the search is over (every state tried, or the next one beyond the depth), every
    /// sequence of pours within the depth that first reaches a solved state at its end reaches
    /// one equivalent to a state found solved
    pub proof fn lemma_found_every_solution(&self, max_depth: u8, pours: Seq<Pour>)
        requires
            self.wf(),
            self.searched(max_depth, true),
            self.base_view().len() <= usize::MAX,
            self.next() == self.views().len() || (max_depth > 0 && self.next() < self.views().len()
                && layer_of(self.path(self.next()).len()) > max_depth),
            first_solves::<G>(self.base_view(), pours),
            max_depth > 0 ==> pours.len() <= max_depth,
        ensures
            exists|j: int|
                0 <= j < self.views().len() && self.finished().contains(j as usize) && views_equivalent(
                    self.views()[j],
                    run_pours(self.base_view(), pours)->Ok_0,
                ),
    {
        let base = self.base_view();
        let m = pours.len();
        assert forall|i: int|
            0 <= i < self.views().len() && #[trigger] self.path(i).len() < m implies i < self.next()
                && expands(layer_of(self.path(i).len()), max_depth, true) by {
            if i >= self.next() {
                assert(self.path(self.next()).len() <= self.path(i).len());
            }
        }
        assert forall|t: int| 0 <= t < m implies (#[trigger] run_pours(base, pours.take(t)) matches Ok(w)
            && !G::solved_view(w)) by {
            lemma_run_pours_append(base, pours.take(t), pours.skip(t));
            assert(pours.take(t) + pours.skip(t) =~= pours);
            assert(!solves::<G>(base, pours.take(t)));
        }
        assert(pours.take(m as int) =~= pours);
        let j = self.lemma_walk_unsolved(max_depth, true, pours, m, m);
        let end = run_pours(base, pours)->Ok_0;
        G::lemma_solved_view_multiset(self.views()[j], end);
        if j >= self.next() {
            assert(self.path(self.next()).len() <= self.path(j).len());
        }
        assert(self.finished().contains(j as usize));
    }

    pub proof fn lemma_no_solution(&self, max_depth: u8, pours: Seq<Pour>)
        requires
            self.wf(),
            self.searched(max_depth, true),
            self.base_view().len() <= usize::MAX,
            self.next() == self.views().len() || (max_depth > 0 && self.next() < self.views().len()
                && layer_of(self.path(self.next()).len()) > max_depth),
            self.finished().len() == 0,
        ensures
            !(solves::<G>(self.base_view(), pours) && (max_depth > 0 ==> pours.len() <= max_depth)),
    {
        if solves::<G>(self.base_view(), pours) && (max_depth > 0 ==> pours.len() <= max_depth) {
            let m = pours.len();
            assert forall|i: int|
                0 <= i < self.views().len() && #[trigger] self.path(i).len() < m implies i < self.next()
                    && !G::solved_view(self.views()[i]) && expands(layer_of(self.path(i).len()), max_depth, true) by {
                if i >= self.next() {
                    assert(self.path(self.next()).len() <= self.path(i).len());
                }
                if G::solved_view(self.views()[i]) {
                    assert(self.finished().contains(i as usize));
                }
            }
            assert(pours.take(m as int) =~= pours);
            let j = self.lemma_walk(max_depth, true, pours, m, m);
            let end = run_pours(self.base_view(), pours)->Ok_0;
            G::lemma_solved_view_multiset(self.views()[j], end);
            if j >= self.next() {
                assert(self.path(self.next()).len() <= self.path(j).len());
            }
            assert(self.finished().contains(j as usize));
        }
    }

    /// The first solved state recorded is no further away than the end of any sequence of
    /// pours that solves the state to solve
    pub proof fn lemma_shortest(&self, max_depth: u8, pours: Seq<Pour>)
        requires
            self.wf(),
            self.searched(max_depth, true),
            self.base_view().len() <= usize::MAX,
            self.finished().len() > 0,
            max_depth > 0 ==> self.depth_within(max_depth as int),
            solves::<G>(self.base_view(), pours),
        ensures
            self.path(self.finished()[0] as int).len() <= pours.len(),
    {
        let f = self.finished()[0] as int;
        let bound = self.path(f).len();
        assert(f < self.next());
        assert forall|i: int|
            0 <= i < self.views().len() && #[trigger] self.path(i).len() < bound implies i < self.next()
                && !G::solved_view(self.views()[i]) && expands(layer_of(self.path(i).len()), max_depth, true) by {
            if i >= f {
                assert(self.path(f).len() <= self.path(i).len());
            }
            if G::solved_view(self.views()[i]) {
                assert(self.finished().contains(i as usize));
                let k = choose|k: int| 0 <= k < self.finished().len() && self.finished()[k] == i as usize;
                if k > 0 {
                    assert(self.finished()[0] < self.finished()[k]);
                }
            }
            if max_depth > 0 {
                assert(self.path(f).len() <= max_depth);
            }
        }
        let m = pours.len();
        if m < bound {
            assert(pours.take(m as int) =~= pours);
            let j = self.lemma_walk(max_depth, true, pours, m, bound);
            let end = run_pours(self.base_view(), pours)->Ok_0;
            G::lemma_solved_view_multiset(self.views()[j], end);
        }
    }

    /// The recorded states are no more than the states of the search space
    proof fn lemma_bounded(&self)
        requires
            self.wf(),
        ensures
            state_space(self.base_view()).finite(),
            self.all_gamestates@.len() <= state_space(self.base_view()).len(),
    {
        let views = self.views();
        lemma_state_space_finite(self.base_view());
        assert forall|i: int| 0 <= i < views.len() implies #[trigger] state_space(self.base_view()).contains(views[i]) by {
            assert(bottles_wf(self.all_gamestates@[i].bottles()));
            lemma_in_state_space(self.base_view(), views[i]);
        }
        assert forall|i: int, j: int| 0 <= i < views.len() && 0 <= j < views.len() && i != j implies views[i]
            != views[j] by {
            if i < j {
                assert(!views_equivalent(views[i], views[j]));
            } else {
                assert(!views_equivalent(views[j], views[i]));
            }
        }
        lemma_distinct_within(state_space(self.base_view()), views);
    }

    /// Create a new SolutionState from a given game state, ready to search
    pub fn new(gamestate_to_solve: &G) -> (r: Self)
        requires
            bottles_wf(gamestate_to_solve.bottles()),
        ensures
            r.wf(),
            r.base_view() == state_view(*gamestate_to_solve),
            r.views().len() == 1,
            r.next() == 0,
            r.finished().len() == 0,
    {
        let first = copy_state(gamestate_to_solve);
        let mut all_gamestates: Vec<G> = Vec::new();
        all_gamestates.push(first);
        let mut tried_gamestates: Vec<Option<(usize, Pour)>> = Vec::new();
        tried_gamestates.push(None);
        let mut layers: Vec<u8> = Vec::new();
        layers.push(0);
        let r = SolutionState {
            all_gamestates,
            tried_gamestates,
            layers,
            next_to_try: 0,
            finished_gamestates: Vec::new(),
        };
        proof {
            let v = r.views();
            assert(v[0] == state_view(first));
            assert(bottles_wf(r.all_gamestates@[0].bottles()));
            assert forall|i: int| 0 <= i < v[0].len() implies #[trigger] v[0][i].1.len() <= v[0][i].0 by {
                let b = first.bottles()[i];
                assert(b.inv());
                b.lemma_inv();
            }
            assert(r.layers@[0] == layer_of(path_to(r.tried_gamestates@, 0).len()));
        }
        r
    }

    /// The pours that lead from the state to solve to the state with id `id`
    fn sequence_to(&self, id: usize) -> (r: VecDeque<Pour>)
        requires
            self.wf(),
            id < self.views().len(),
        ensures
            r@ == self.path(id as int),
    {
        let mut out: VecDeque<Pour> = VecDeque::new();
        let mut cur = id;
        while cur > 0
            invariant
                self.wf(),
                cur < self.views().len(),
                self.path(id as int) == self.path(cur as int) + out@,
            decreases cur,
        {
            assert(self.tried_gamestates@[cur as int] is Some);
            let (source, pour) = self.tried_gamestates[cur].unwrap();
            proof {
                assert(self.path(cur as int) == self.path(source as int).push(pour));
                assert(self.path(source as int) + (seq![pour] + out@) =~= self.path(source as int).push(pour) + out@);
            }
            out.push_front(pour);
            cur = source;
        }
        proof {
            if cur == 0 {
                assert(self.path(0) =~= Seq::<Pour>::empty());
                assert(self.path(id as int) =~= out@);
            }
        }
        out
    }

    /// Generate a [Vec] of all the solving pour sequences found, in the order they were found in
    pub fn all_solving_pour_sequences(&self) -> (r: Vec<VecDeque<Pour>>)
        requires
            self.wf(),
        ensures
            r@.len() == self.finished().len(),
            forall|k: int|
                0 <= k < r@.len() ==> #[trigger] r@[k]@ == self.path(self.finished()[k] as int)
                    && solves::<G>(self.base_view(), r@[k]@),
    {
        let mut output: Vec<VecDeque<Pour>> = Vec::new();
        let mut k: usize = 0;
        while k < self.finished_gamestates.len()
            invariant
                self.wf(),
                k <= self.finished().len(),
                output@.len() == k,
                forall|j: int|
                    0 <= j < k ==> #[trigger] output@[j]@ == self.path(self.finished()[j] as int)
                        && solves::<G>(self.base_view(), output@[j]@),
            decreases self.finished().len() - k,
        {
            let id = self.finished_gamestates[k];
            assert(self.finished()[k as int] < self.next());
            let seq = self.sequence_to(id);
            proof {
                self.lemma_path(id as int);
            }
            output.push(seq);
            k = k + 1;
        }
        output
    }

    /// The same as [SolutionState::all_solving_pour_sequences]
    pub fn get_solving_pour_sequences(&self) -> (r: Vec<VecDeque<Pour>>)
        requires
            self.wf(),
        ensures
            r@.len() == self.finished().len(),
            forall|k: int|
                0 <= k < r@.len() ==> #[trigger] r@[k]@ == self.path(self.finished()[k] as int)
                    && solves::<G>(self.base_view(), r@[k]@),
    {
        self.all_solving_pour_sequences()
    }

    /// Generate a single solving pour sequence, consuming this SolutionState
    ///
    /// `idx` is an index into the solved states found, in the order they were found in. If it
    /// does not point to one of them, [None] is returned.
    pub fn take_solving_pour_sequence(self, idx: usize) -> (r: Option<VecDeque<Pour>>)
        requires
            self.wf(),
        ensures
            idx >= self.finished().len() ==> r is None,
            idx < self.finished().len() ==> (r matches Some(s) && s@ == self.path(self.finished()[idx as int] as int)
                && solves::<G>(self.base_view(), s@)),
    {
        if idx < self.finished_gamestates.len() {
            let id = self.finished_gamestates[idx];
            assert(self.finished()[idx as int] < self.next());
            proof {
                self.lemma_path(id as int);
            }
            Some(self.sequence_to(id))
        } else {
            None
        }
    }

    /// The number of states recorded
    pub fn state_count(&self) -> (r: usize)
        requires
            self.wf(),
        ensures
            r == self.views().len(),
    {
        self.all_gamestates.len()
    }

    /// The number of solved states found
    pub fn finished_count(&self) -> (r: usize)
        ensures
            r == self.finished().len(),
    {
        self.finished_gamestates.len()
    }
}

/// `g` is the game state that pouring `p` turns a state with model `parent` into
pub open spec fn child_of<G: GameState>(parent: Seq<BottleView>, g: G, p: Pour) -> bool {
    &&& bottles_wf(g.bottles())
    &&& pour_check(parent, p.source_bottle_index as int, p.dest_bottle_index as int) is Ok
    &&& state_view(g) == apply_pour(parent, p.source_bottle_index as int, p.dest_bottle_index as int)
}

/// Each of `states` is what the pour of the same position turns a state with model `parent` into
pub open spec fn children_of<G: GameState>(parent: Seq<BottleView>, states: Seq<G>, pours: Seq<Pour>) -> bool {
    &&& states.len() == pours.len()
    &&& forall|k: int| 0 <= k < states.len() ==> #[trigger] child_of(parent, states[k], pours[k])
}

/// None of `states` is equivalent to one of `known` or to another of `states`
pub open spec fn fresh_among<G: GameState>(known: Seq<Seq<BottleView>>, states: Seq<G>) -> bool {
    &&& forall|k: int, j: int|
        0 <= k < states.len() && 0 <= j < known.len() ==> !views_equivalent(
            #[trigger] known[j],
            state_view(#[trigger] states[k]),
        )
    &&& forall|k: int, l: int|
        0 <= k < l < states.len() ==> !views_equivalent(
            state_view(#[trigger] states[k]),
            state_view(#[trigger] states[l]),
        )
}

/// The pours out of a state with model `parent` between bottles before position `(f, t)`, in
/// the order of source index first and destination index second, that are possible lead to a
/// state equivalent to one of `known` no further away than `reach`, or to one of `states`
pub open spec fn covered_upto<G: SolvableGameState>(
    st: SolutionState<G>,
    parent: Seq<BottleView>,
    states: Seq<G>,
    reach: nat,
    f: int,
    t: int,
) -> bool {
    forall|s: int, d: int|
        (s < f || (s == f && d < t)) && #[trigger] pour_check(parent, s, d) is Ok ==> (exists|j: int|
            0 <= j < st.views().len() && views_equivalent(#[trigger] st.views()[j], apply_pour(parent, s, d))
                && st.path(j).len() <= reach) || (exists|k: int|
            0 <= k < states.len() && views_equivalent(
                state_view(#[trigger] states[k]),
                apply_pour(parent, s, d),
            ))
}

/// The states that the possible pours out of the state with id `id` lead to, each with its
/// pour, leaving out those equivalent to a recorded state or to one found before
#[verifier::spinoff_prover]
fn collect_children<G: SolvableGameState>(state: &SolutionState<G>, id: usize, Ghost(reach): Ghost<nat>) -> (r: (
    Vec<G>,
    Vec<Pour>,
))
    requires
        state.wf(),
        id < state.views().len(),
        forall|j: int| 0 <= j < state.views().len() ==> #[trigger] state.path(j).len() <= reach,
    ensures
        children_of(state.views()[id as int], r.0@, r.1@),
        fresh_among(state.views(), r.0@),
        covered_upto(*state, state.views()[id as int], r.0@, reach, state.views()[id as int].len() as int, 0),
{
    let ghost views = state.views();
    let ghost parent_view = views[id as int];
    let ghost n0 = views.len();
    // the new states found from this one, and the pours that lead to them
    let mut new_states: Vec<G> = Vec::new();
    let mut new_pours: Vec<Pour> = Vec::new();
    {
        let gs = &state.all_gamestates[id];
        assert(state_view(*gs) == parent_view);
        let bottle_count = gs.get_bottles().len();
        let mut f: usize = 0;
        while f < bottle_count
            invariant
                state.wf(),
                views == state.views(),
                n0 == views.len(),
                id < n0,
                *gs == state.all_gamestates@[id as int],
                parent_view == state_view(*gs),
                bottles_wf(gs.bottles()),
                bottle_count == gs.bottles().len(),
                parent_view.len() == bottle_count,
                f <= bottle_count,
                children_of(parent_view, new_states@, new_pours@),
                fresh_among(views, new_states@),
                forall|j: int| 0 <= j < n0 ==> #[trigger] state.path(j).len() <= reach,
                covered_upto(*state, parent_view, new_states@, reach, f as int, 0),
            decreases bottle_count - f,
        {
            let mut t: usize = 0;
            while t < bottle_count
                invariant
                    state.wf(),
                        views == state.views(),
                    n0 == views.len(),
                    id < n0,
                    *gs == state.all_gamestates@[id as int],
                    parent_view == state_view(*gs),
                    bottles_wf(gs.bottles()),
                    bottle_count == gs.bottles().len(),
                    parent_view.len() == bottle_count,
                    f < bottle_count,
                    t <= bottle_count,
                    children_of(parent_view, new_states@, new_pours@),
                    fresh_among(views, new_states@),
                    forall|j: int| 0 <= j < n0 ==> #[trigger] state.path(j).len() <= reach,
                    covered_upto(*state, parent_view, new_states@, reach, f as int, t as int),
                decreases bottle_count - t,
            {
                let pour = Pour { source_bottle_index: f, dest_bottle_index: t };
                proof {
                    lemma_wf_pour_fits(gs.bottles(), f as int, t as int);
                }
                let ghost states_before = new_states@;
                match pour.try_apply(gs) {
                    Ok(new_gs) => {
                        proof {
                            assert forall|j: int| 0 <= j < gs.bottles().len() implies #[trigger] crate::bottle::fillable(
                                gs.bottles()[j],
                            ) by {
                                assert(gs.bottles()[j].inv());
                            }
                            assert(bottles_wf(new_gs.bottles()));
                        }
                        let seen = contains_equivalent(&state.all_gamestates, &new_gs);
                        assert forall|i: int| 0 <= i < new_states@.len() implies #[trigger] bottles_wf(
                            new_states@[i].bottles(),
                        ) by {
                            assert(child_of(parent_view, new_states@[i], new_pours@[i]));
                        }
                        let found_now = contains_equivalent(&new_states, &new_gs);
                        if !seen && !found_now {
                            let ghost old_states = new_states@;
                            let ghost old_pours = new_pours@;
                            new_states.push(new_gs);
                            new_pours.push(pour);
                            proof {
                                assert(child_of(parent_view, new_gs, pour));
                                assert forall|k: int| 0 <= k < new_states@.len() implies #[trigger] child_of(
                                    parent_view,
                                    new_states@[k],
                                    new_pours@[k],
                                ) by {
                                    if k < old_states.len() {
                                        assert(child_of(parent_view, old_states[k], old_pours[k]));
                                    }
                                }
                                assert forall|k: int, j: int|
                                    0 <= k < new_states@.len() && 0 <= j < views.len() implies !views_equivalent(
                                    #[trigger] views[j],
                                    state_view(#[trigger] new_states@[k]),
                                ) by {
                                    if k < old_states.len() {
                                        assert(new_states@[k] == old_states[k]);
                                    } else {
                                        assert(views[j] == state_view(state.all_gamestates@[j]));
                                    }
                                }
                                assert forall|k: int, l: int|
                                    0 <= k < l < new_states@.len() implies !views_equivalent(
                                    state_view(#[trigger] new_states@[k]),
                                    state_view(#[trigger] new_states@[l]),
                                ) by {
                                    assert(new_states@[k] == old_states[k]);
                                    if l < old_states.len() {
                                        assert(new_states@[l] == old_states[l]);
                                    }
                                }
                            }
                        }
                        proof {
                            let child = apply_pour(parent_view, f as int, t as int);
                            assert(state_view(new_gs) == child);
                            if seen {
                                let j = choose|j: int|
                                    0 <= j < state.all_gamestates@.len() && #[trigger] views_equivalent(
                                        state_view(state.all_gamestates@[j]),
                                        state_view(new_gs),
                                    );
                                assert(views[j] == state_view(state.all_gamestates@[j]));
                                assert(state.path(j).len() <= reach);
                            } else if found_now {
                                let k = choose|k: int|
                                    0 <= k < states_before.len() && #[trigger] views_equivalent(
                                        state_view(states_before[k]),
                                        state_view(new_gs),
                                    );
                                assert(new_states@[k] == states_before[k]);
                            } else {
                                assert(new_states@[new_states@.len() - 1] == new_gs);
                            }
                            assert forall|s: int, d: int|
                                (s < f || (s == f && d < t + 1)) && #[trigger] pour_check(parent_view, s, d) is Ok implies (exists|j: int|
                                0 <= j < state.views().len() && views_equivalent(
                                    #[trigger] state.views()[j],
                                    apply_pour(parent_view, s, d),
                                ) && state.path(j).len() <= reach) || (exists|k: int|
                                0 <= k < new_states@.len() && views_equivalent(
                                    state_view(#[trigger] new_states@[k]),
                                    apply_pour(parent_view, s, d),
                                )) by {
                                if s < f || (s == f && d < t) {
                                    if !(exists|j: int|
                                        0 <= j < state.views().len() && views_equivalent(
                                            #[trigger] state.views()[j],
                                            apply_pour(parent_view, s, d),
                                        ) && state.path(j).len() <= reach) {
                                        let k = choose|k: int|
                                            0 <= k < states_before.len() && views_equivalent(
                                                state_view(#[trigger] states_before[k]),
                                                apply_pour(parent_view, s, d),
                                            );
                                        assert(new_states@[k] == states_before[k]);
                                    }
                                }
                            }
                        }
                    },
                    Err(_) => {
                        proof {
                            assert(new_states@ == states_before);
                        }
                    },
                }
                t = t + 1;
            }
            f = f + 1;
        }
        proof {
            assert forall|s: int, d: int| #[trigger] pour_check(parent_view, s, d) is Ok implies (s < f as int
                || (s == f as int && d < 0)) by {}
        }
    }
    (new_states, new_pours)
}

/// Record the given states as found from the state with id `id` through the given pours, in
/// order
#[verifier::spinoff_prover]
fn record_children<G: SolvableGameState>(
    state: &mut SolutionState<G>,
    id: usize,
    layer: u8,
    new_states: Vec<G>,
    new_pours: Vec<Pour>,
    max_depth: u8,
    cutoff: bool,
)
    requires
        old(state).wf(),
        old(state).sorted(),
        old(state).sourced(),
        old(state).finished_exact(),
        old(state).explored_below(id as int, max_depth, cutoff),
        id < old(state).views().len(),
        old(state).next() == id + 1,
        !G::solved_view(old(state).views()[id as int]),
        layer == layer_of(old(state).path(id as int).len()),
        old(state).layers@[id as int] == layer,
        forall|j: int|
            0 <= j < old(state).views().len() ==> #[trigger] old(state).path(j).len() <= old(state).path(id as int).len() + 1,
        children_of(old(state).views()[id as int], new_states@, new_pours@),
        fresh_among(old(state).views(), new_states@),
        covered_upto(
            *old(state),
            old(state).views()[id as int],
            new_states@,
            old(state).path(id as int).len() + 1,
            old(state).views()[id as int].len() as int,
            0,
        ),
    ensures
        final(state).wf(),
        final(state).sorted(),
        final(state).sourced(),
        final(state).finished_exact(),
        final(state).explored_below(id + 1, max_depth, cutoff),
        final(state).base_view() == old(state).base_view(),
        final(state).next() == old(state).next(),
        final(state).finished() == old(state).finished(),
        old(state).views().len() <= final(state).views().len(),
        forall|j: int| 0 <= j < old(state).views().len() ==> #[trigger] final(state).views()[j] == old(state).views()[j],
        forall|j: int| 0 <= j < old(state).views().len() ==> #[trigger] final(state).path(j) == old(state).path(j),
        forall|j: int|
            old(state).views().len() <= j < final(state).views().len() ==> #[trigger] final(state).path(j).len()
                == old(state).path(id as int).len() + 1,
{
    let ghost views = old(state).views();
    let ghost parent_view = views[id as int];
    let ghost n0 = views.len();
    let ghost reach = old(state).path(id as int).len() + 1;
    let ghost pre_collect = *old(state);
    let mut new_states = new_states;
    let mut new_pours = new_pours;
    // record the new states, in the order they were found in
    while new_states.len() > 0
        invariant
            state.wf(),
            state.sorted(),
            state.sourced(),
            state.finished_exact(),
            state.explored_below(id as int, max_depth, cutoff),
            state.base_view() == pre_collect.base_view(),
            id < n0 <= state.views().len(),
            state.next() == id + 1,
            state.finished() == pre_collect.finished(),
            state.views()[id as int] == parent_view,
            forall|j: int| 0 <= j < n0 ==> #[trigger] state.views()[j] == views[j],
            forall|j: int| 0 <= j < n0 ==> #[trigger] state.path(j) == pre_collect.path(j),
            !G::solved_view(parent_view),
            state.layers@[id as int] == layer,
            layer == layer_of(state.path(id as int).len()),
            reach == state.path(id as int).len() + 1,
            forall|j: int| 0 <= j < state.views().len() ==> #[trigger] state.path(j).len() <= reach,
            forall|j: int| n0 <= j < state.views().len() ==> #[trigger] state.path(j).len() == reach,
            children_of(parent_view, new_states@, new_pours@),
            fresh_among(state.views(), new_states@),
            covered_upto(*state, parent_view, new_states@, reach, parent_view.len() as int, 0),
        decreases new_states@.len(),
    {
        let ghost ns = new_states@;
        let ghost np = new_pours@;
        let ghost pre = *state;
        let new_gs = new_states.remove(0);
        let pour = new_pours.remove(0);
        assert(child_of(parent_view, ns[0], np[0]));
        let ghost old_views = state.views();
        let ghost old_parents = state.tried_gamestates@;
        let ghost old_layers = state.layers@;
        let ghost old_all = state.all_gamestates@;
        let new_id = state.all_gamestates.len();
        proof {
            lemma_apply_pour_shape(
                parent_view,
                pour.source_bottle_index as int,
                pour.dest_bottle_index as int,
            );
            assert(bottles_wf(state.all_gamestates@[id as int].bottles()));
            assert(bottles_wf(state.all_gamestates@[0].bottles()));
            assert(same_shape(old_views[0], old_views[id as int]));
        }
        state.all_gamestates.push(new_gs);
        state.tried_gamestates.push(Some((id, pour)));
        state.layers.push(layer.saturating_add(1));
        proof {
            let views2 = state.views();
            let parents2 = state.tried_gamestates@;
            assert(views2 == old_views.push(state_view(new_gs)));
            assert(parents2 == old_parents.push(Some((id, pour))));
            assert forall|i: int| 0 <= i < old_parents.len() implies path_to(parents2, i) == path_to(
                old_parents,
                i,
            ) by {
                lemma_path_to_push(old_parents, Some((id, pour)), i);
            }
            assert forall|i: int| 0 <= i < old_views.len() implies #[trigger] state.path(i) == pre.path(i) by {
                assert(path_to(parents2, i) == path_to(old_parents, i));
            }
            assert(path_to(parents2, new_id as int) == path_to(old_parents, id as int).push(pour));
            assert(state.path(new_id as int).len() == reach);
            assert(new_gs == ns[0]);
            assert(same_shape(views2[0], views2[new_id as int])) by {
                assert forall|k: int| 0 <= k < views2[0].len() implies #[trigger] views2[0][k].0
                    == views2[new_id as int][k].0 by {
                    assert(views2[0][k].0 == old_views[id as int][k].0);
                }
            }
            assert(within_caps(views2[new_id as int])) by {
                assert forall|i: int| 0 <= i < views2[new_id as int].len() implies #[trigger] views2[new_id as int][i].1.len()
                    <= views2[new_id as int][i].0 by {
                    let b = new_gs.bottles()[i];
                    assert(b.inv());
                    b.lemma_inv();
                }
            }
            assert forall|i: int, j: int|
                0 <= i < j < views2.len() implies !views_equivalent(#[trigger] views2[i], #[trigger] views2[j]) by {
                assert(views2[i] == old_views[i]);
                if j == new_id as int {
                    assert(!views_equivalent(old_views[i], state_view(ns[0])));
                } else {
                    assert(views2[j] == old_views[j]);
                }
            }
            assert forall|i: int| 0 <= i < views2.len() implies #[trigger] state.layers@[i] == layer_of(
                path_to(parents2, i).len(),
            ) by {
                if i < new_id as int {
                    assert(state.layers@[i] == old_layers[i]);
                }
            }
            assert forall|i: int| 1 <= i < views2.len() implies (#[trigger] parents2[i] matches Some((p, pr)) && p
                < i && pour_check(
                views2[p as int],
                pr.source_bottle_index as int,
                pr.dest_bottle_index as int,
            ) is Ok && views2[i] == apply_pour(
                views2[p as int],
                pr.source_bottle_index as int,
                pr.dest_bottle_index as int,
            )) by {
                if i < new_id as int {
                    assert(parents2[i] == old_parents[i]);
                    let (p, pr) = old_parents[i].unwrap();
                    assert(views2[p as int] == old_views[p as int]);
                    assert(views2[i] == old_views[i]);
                }
            }
            assert forall|i: int| 0 <= i < views2.len() implies #[trigger] bottles_wf(
                state.all_gamestates@[i].bottles(),
            ) && same_shape(views2[0], views2[i]) && within_caps(views2[i]) by {
                if i < new_id as int {
                    assert(views2[i] == old_views[i]);
                    assert(state.all_gamestates@[i] == old_all[i]);
                    assert(bottles_wf(old_all[i].bottles()));
                }
            }
            assert(state.wf());
            assert forall|i: int, j: int|
                #![trigger state.path(i), state.path(j)]
                0 <= i <= j < views2.len() implies state.path(i).len() <= state.path(j).len() by {
                if j < new_id as int {
                    assert(pre.path(i).len() <= pre.path(j).len());
                } else if i < new_id as int {
                    assert(pre.path(i).len() <= reach);
                }
            }
            assert forall|j: int| 1 <= j < views2.len() implies (#[trigger] state.parents()[j] matches Some((p, q)) && p
                < state.next()) by {
                if j < new_id as int {
                    assert(state.parents()[j] == pre.parents()[j]);
                }
            }
            assert forall|i: int| 0 <= i < state.next() implies (G::solved_view(#[trigger] state.views()[i])
                <==> state.finished().contains(i as usize)) by {
                assert(state.views()[i] == pre.views()[i]);
            }
            state.lemma_explored_keep(&pre, id as int, max_depth, cutoff);
            assert forall|j: int| 0 <= j < views2.len() implies #[trigger] state.path(j).len() <= reach by {
                if j < new_id as int {
                    assert(pre.path(j).len() <= reach);
                }
            }
            assert forall|j: int| n0 <= j < views2.len() implies #[trigger] state.path(j).len() == reach by {
                if j < new_id as int {
                    assert(pre.path(j).len() == reach);
                }
            }
            assert forall|j: int| 0 <= j < n0 implies #[trigger] state.path(j) == pre_collect.path(j) by {
                assert(pre.path(j) == pre_collect.path(j));
            }
            assert forall|j: int| 0 <= j < n0 implies #[trigger] state.views()[j] == views[j] by {
                assert(pre.views()[j] == views[j]);
            }
            assert forall|k: int| 0 <= k < new_states@.len() implies #[trigger] child_of(
                parent_view,
                new_states@[k],
                new_pours@[k],
            ) by {
                assert(new_states@[k] == ns[k + 1]);
                assert(new_pours@[k] == np[k + 1]);
                assert(child_of(parent_view, ns[k + 1], np[k + 1]));
            }
            assert forall|k: int, j: int|
                0 <= k < new_states@.len() && 0 <= j < views2.len() implies !views_equivalent(
                #[trigger] views2[j],
                state_view(#[trigger] new_states@[k]),
            ) by {
                assert(new_states@[k] == ns[k + 1]);
                if j < new_id as int {
                    assert(views2[j] == old_views[j]);
                } else {
                    assert(views2[j] == state_view(ns[0]));
                    assert(!views_equivalent(state_view(ns[0]), state_view(ns[k + 1])));
                }
            }
            assert forall|k: int, l: int|
                0 <= k < l < new_states@.len() implies !views_equivalent(
                state_view(#[trigger] new_states@[k]),
                state_view(#[trigger] new_states@[l]),
            ) by {
                assert(new_states@[k] == ns[k + 1]);
                assert(new_states@[l] == ns[l + 1]);
            }
            assert forall|s: int, d: int|
                (s < parent_view.len() || (s == parent_view.len() && d < 0)) && #[trigger] pour_check(
                    parent_view,
                    s,
                    d,
                ) is Ok implies (exists|j: int|
                0 <= j < state.views().len() && views_equivalent(
                    #[trigger] state.views()[j],
                    apply_pour(parent_view, s, d),
                ) && state.path(j).len() <= reach) || (exists|k: int|
                0 <= k < new_states@.len() && views_equivalent(
                    state_view(#[trigger] new_states@[k]),
                    apply_pour(parent_view, s, d),
                )) by {
                if exists|j: int|
                    0 <= j < pre.views().len() && views_equivalent(
                        #[trigger] pre.views()[j],
                        apply_pour(parent_view, s, d),
                    ) && pre.path(j).len() <= reach {
                    let j = choose|j: int|
                        0 <= j < pre.views().len() && views_equivalent(
                            #[trigger] pre.views()[j],
                            apply_pour(parent_view, s, d),
                        ) && pre.path(j).len() <= reach;
                    assert(state.views()[j] == pre.views()[j]);
                } else {
                    let k = choose|k: int|
                        0 <= k < ns.len() && views_equivalent(
                            state_view(#[trigger] ns[k]),
                            apply_pour(parent_view, s, d),
                        );
                    if k == 0 {
                        assert(state.views()[new_id as int] == state_view(ns[0]));
                    } else {
                        assert(new_states@[k - 1] == ns[k]);
                    }
                }
            }
        }
    }
    proof {
        assert(state.explored_below(id + 1, max_depth, cutoff)) by {
            assert forall|i: int, s: int, d: int|
                0 <= i < id + 1 && !G::solved_view(state.views()[i]) && expands(
                    layer_of(state.path(i).len()),
                    max_depth,
                    cutoff,
                ) && #[trigger] pour_check(state.views()[i], s, d) is Ok implies exists|j: int|
                    0 <= j < state.views().len() && views_equivalent(
                        #[trigger] state.views()[j],
                        apply_pour(state.views()[i], s, d),
                    ) && state.path(j).len() <= state.path(i).len() + 1 by {
                if i == id as int {
                    if pour_check(parent_view, s, d) is Ok {
                        assert(0 <= s < parent_view.len());
                    }
                }
            }
        }
    }
}

/// Record the state with id `id`, the next one to try, as solved
#[verifier::spinoff_prover]
fn mark_solved<G: SolvableGameState>(state: &mut SolutionState<G>, id: usize, layer: u8, max_depth: u8, cutoff: bool)
    requires
        old(state).wf(),
        old(state).searched(max_depth, cutoff),
        id == old(state).next() < old(state).views().len(),
        layer == old(state).layers@[id as int],
        G::solved_view(old(state).views()[id as int]),
    ensures
        final(state).wf(),
        final(state).searched(max_depth, cutoff),
        final(state).base_view() == old(state).base_view(),
        final(state).next() == id + 1,
        old(state).views().len() <= final(state).views().len(),
        forall|j: int| 0 <= j < old(state).views().len() ==> #[trigger] final(state).path(j) == old(state).path(j),
        forall|j: int|
            old(state).views().len() <= j < final(state).views().len() ==> #[trigger] final(state).path(j).len()
                == old(state).path(id as int).len() + 1,
        final(state).finished() == old(state).finished().push(id),
        final(state).views().len() == old(state).views().len(),
{
    let ghost before = *state;
    assert(id < state.all_gamestates.len());
    state.next_to_try = id + 1;
    state.finished_gamestates.push(id);
    proof {
        state.lemma_marked(&before, max_depth, cutoff);
    }
}

/// Record the states the possible pours out of the state with id `id`, the next one to try,
/// lead to
#[verifier::spinoff_prover]
fn expand_state<G: SolvableGameState>(state: &mut SolutionState<G>, id: usize, layer: u8, max_depth: u8, cutoff: bool)
    requires
        old(state).wf(),
        old(state).searched(max_depth, cutoff),
        id == old(state).next() < old(state).views().len(),
        layer == old(state).layers@[id as int],
        !G::solved_view(old(state).views()[id as int]),
        expands(layer, max_depth, cutoff),
    ensures
        final(state).wf(),
        final(state).searched(max_depth, cutoff),
        final(state).base_view() == old(state).base_view(),
        final(state).next() == id + 1,
        old(state).views().len() <= final(state).views().len(),
        forall|j: int| 0 <= j < old(state).views().len() ==> #[trigger] final(state).path(j) == old(state).path(j),
        forall|j: int|
            old(state).views().len() <= j < final(state).views().len() ==> #[trigger] final(state).path(j).len()
                == old(state).path(id as int).len() + 1,
        final(state).finished() == old(state).finished(),
{
    // every recorded state is at most one pour further away than the one tried now
    assert forall|j: int| 0 <= j < state.views().len() implies #[trigger] state.path(j).len() <= state.path(
        id as int,
    ).len() + 1 by {
        if j >= 1 {
            let (p, q) = state.parents()[j].unwrap();
            assert(state.path(j) == state.path(p as int).push(q));
            assert(state.path(p as int).len() <= state.path(id as int).len());
        } else {
            assert(state.path(0) =~= Seq::<Pour>::empty());
        }
    }
    let ghost before = *state;
    assert(id < state.all_gamestates.len());
    state.next_to_try = id + 1;
    proof {
        state.lemma_advanced(&before, max_depth, cutoff);
    }
    let ghost views = state.views();
    let ghost parent_view = views[id as int];
    let ghost n0 = state.all_gamestates@.len();
    let ghost reach = state.path(id as int).len() + 1;
    let ghost pre_collect = *state;
    let ghost pre_collect = *state;
    let ghost reach = state.path(id as int).len() + 1;
    proof {
        assert forall|j: int| 0 <= j < state.views().len() implies #[trigger] state.path(j).len() <= reach by {
            assert(before.path(j).len() <= before.path(id as int).len() + 1);
        }
        assert(state.sorted()) by {
            assert forall|i: int, j: int|
                #![trigger state.path(i), state.path(j)]
                0 <= i <= j < state.views().len() implies state.path(i).len() <= state.path(j).len() by {
                assert(before.path(i).len() <= before.path(j).len());
            }
        }
        assert(state.sourced()) by {
            assert forall|j: int| 1 <= j < state.views().len() implies (#[trigger] state.parents()[j] matches Some((
                p,
                q,
            )) && p < state.next()) by {
                assert(before.parents()[j] == state.parents()[j]);
            }
        }
        assert(state.finished_exact()) by {
            assert forall|i: int| 0 <= i < state.next() implies (G::solved_view(#[trigger] state.views()[i])
                <==> state.finished().contains(i as usize)) by {
                if i < id {
                    assert(before.views()[i] == state.views()[i]);
                } else {
                    if state.finished().contains(i as usize) {
                        let k = choose|k: int| 0 <= k < state.finished().len() && state.finished()[k] == i as usize;
                    }
                }
            }
        }
    }
    let (new_states, new_pours) = collect_children(&*state, id, Ghost(reach));
    record_children(state, id, layer, new_states, new_pours, max_depth, cutoff);
}

/// Pass over the state with id `id`, the next one to try, whose layer is not expanded
#[verifier::spinoff_prover]
#[verifier::rlimit(30)]
fn skip_state<G: SolvableGameState>(state: &mut SolutionState<G>, id: usize, layer: u8, max_depth: u8, cutoff: bool)
    requires
        old(state).wf(),
        old(state).searched(max_depth, cutoff),
        id == old(state).next() < old(state).views().len(),
        layer == old(state).layers@[id as int],
        !G::solved_view(old(state).views()[id as int]),
        !expands(layer, max_depth, cutoff),
    ensures
        final(state).wf(),
        final(state).searched(max_depth, cutoff),
        final(state).base_view() == old(state).base_view(),
        final(state).next() == id + 1,
        old(state).views().len() <= final(state).views().len(),
        forall|j: int| 0 <= j < old(state).views().len() ==> #[trigger] final(state).path(j) == old(state).path(j),
        forall|j: int|
            old(state).views().len() <= j < final(state).views().len() ==> #[trigger] final(state).path(j).len()
                == old(state).path(id as int).len() + 1,
        final(state).finished() == old(state).finished(),
        final(state).views().len() == old(state).views().len(),
{
    // every recorded state is at most one pour further away than the one tried now
    assert forall|j: int| 0 <= j < state.views().len() implies #[trigger] state.path(j).len() <= state.path(
        id as int,
    ).len() + 1 by {
        if j >= 1 {
            let (p, q) = state.parents()[j].unwrap();
            assert(state.path(j) == state.path(p as int).push(q));
            assert(state.path(p as int).len() <= state.path(id as int).len());
        } else {
            assert(state.path(0) =~= Seq::<Pour>::empty());
        }
    }
    let ghost before = *state;
    assert(id < state.all_gamestates.len());
    state.next_to_try = id + 1;
    proof {
        state.lemma_advanced(&before, max_depth, cutoff);
    }
    proof {
        assert forall|i: int, s: int, d: int|
            0 <= i < id + 1 && !G::solved_view(state.views()[i]) && expands(
                layer_of(state.path(i).len()),
                max_depth,
                cutoff,
            ) && #[trigger] pour_check(state.views()[i], s, d) is Ok implies exists|j: int|
                0 <= j < state.views().len() && views_equivalent(
                    #[trigger] state.views()[j],
                    apply_pour(state.views()[i], s, d),
                ) && state.path(j).len() <= state.path(i).len() + 1 by {
            if i == id as int {
                assert(layer == layer_of(state.path(i).len()));
            }
        }
    }
}

/// Try the state with id `id`, the next one to try: record it as solved if it is; otherwise,
/// if the search expands its layer, record the states the possible pours out of it lead to.
/// Returns whether it is solved.
#[verifier::spinoff_prover]
fn try_state<G: SolvableGameState>(state: &mut SolutionState<G>, id: usize, layer: u8, max_depth: u8, cutoff: bool) -> (r:
    bool)
    requires
        old(state).wf(),
        old(state).searched(max_depth, cutoff),
        id == old(state).next() < old(state).views().len(),
        layer == old(state).layers@[id as int],
    ensures
        final(state).wf(),
        final(state).searched(max_depth, cutoff),
        final(state).base_view() == old(state).base_view(),
        final(state).next() == id + 1,
        old(state).views().len() <= final(state).views().len(),
        forall|j: int| 0 <= j < old(state).views().len() ==> #[trigger] final(state).path(j) == old(state).path(j),
        forall|j: int|
            old(state).views().len() <= j < final(state).views().len() ==> #[trigger] final(state).path(j).len()
                == old(state).path(id as int).len() + 1,
        r == G::solved_view(old(state).views()[id as int]),
        r ==> final(state).finished() == old(state).finished().push(id),
        !r ==> final(state).finished() == old(state).finished(),
        final(state).views().len() > old(state).views().len() ==> !r && expands(layer, max_depth, cutoff),
{
    assert(bottles_wf(state.all_gamestates@[id as int].bottles()));
    assert(state.views()[id as int] == state_view(state.all_gamestates@[id as int]));
    let solved = state.all_gamestates[id].is_solved();
    if solved {
        mark_solved(state, id, layer, max_depth, cutoff);
    } else if layer < max_depth || max_depth == 0 || !cutoff {
        expand_state(state, id, layer, max_depth, cutoff);
    } else {
        skip_state(state, id, layer, max_depth, cutoff);
    }
    solved
}

/// Search the states reachable from the state to solve, breadth first, recording the solved
/// states found.
///
/// `max_depth` specifies how many layers deep to search. When zero, there is no limit.
///
/// `cutoff` only matters when `max_depth` is nonzero: when it is set, no states are generated
/// beyond `max_depth`; when it is not, states one layer beyond `max_depth` are generated but
/// not tried.
///
/// `max_solution_count` is the number of solved states after which to stop searching. If this
/// is zero, there is no limit.
///
/// The search stops when every recorded state was tried, when the next state to try is beyond
/// `max_depth`, or when `max_solution_count` solved states were found.
#[verifier::spinoff_prover]
pub fn find_solving_pours<G: SolvableGameState>(
    state: &mut SolutionState<G>,
    max_depth: u8,
    cutoff: bool,
    max_solution_count: usize,
)
    requires
        old(state).wf(),
        old(state).searched(max_depth, cutoff),
    ensures
        final(state).wf(),
        final(state).searched(max_depth, cutoff),
        final(state).base_view() == old(state).base_view(),
        max_solution_count > 0 && old(state).finished().len() < max_solution_count
            ==> final(state).finished().len() <= max_solution_count,
        cutoff && max_depth > 0 && old(state).depth_within(max_depth as int) ==> final(state).depth_within(
            max_depth as int,
        ),
        final(state).next() == final(state).views().len() || (max_depth > 0 && final(state).next()
            < final(state).views().len() && layer_of(final(state).path(final(state).next()).len()) > max_depth)
            || (max_solution_count > 0 && final(state).finished().len() >= max_solution_count),
{
    let ghost base = state.base_view();
    let ghost space = state_space(base);
    proof {
        state.lemma_bounded();
    }
    let ghost depth_bounded = cutoff && max_depth > 0 && old(state).depth_within(max_depth as int);
    while state.next_to_try < state.all_gamestates.len()
        invariant
            state.wf(),
            state.searched(max_depth, cutoff),
            base == old(state).base_view(),
            state.base_view() == base,
            space == state_space(base),
            space.finite(),
            state.views().len() <= space.len(),
            max_solution_count > 0 && old(state).finished().len() < max_solution_count ==> state.finished().len()
                < max_solution_count,
            depth_bounded == (cutoff && max_depth > 0 && old(state).depth_within(max_depth as int)),
            depth_bounded ==> state.depth_within(max_depth as int),
        decreases 2 * (space.len() - state.views().len()) + (state.views().len() - state.next()),
    {
        let id = state.next_to_try;
        let layer = state.layers[id];
        if layer > max_depth && max_depth > 0 {
            return;
        }
        assert(bottles_wf(state.all_gamestates@[id as int].bottles()));
        let ghost before = *state;
        let solved = try_state(state, id, layer, max_depth, cutoff);
        proof {
            if depth_bounded {
                assert forall|i: int| 0 <= i < state.views().len() implies #[trigger] state.path(i).len()
                    <= max_depth by {
                    if i < before.views().len() {
                        assert(before.path(i).len() <= max_depth);
                    } else {
                        assert(layer < max_depth);
                        assert(before.path(id as int).len() < 255);
                    }
                }
            }
        }
        if solved && max_solution_count > 0 && state.finished_gamestates.len() >= max_solution_count {
            return;
        }
        proof {
            state.lemma_bounded();
        }
    }
}

} // verus!
