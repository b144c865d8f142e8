//! Finding [Solution]s: sequences of pours that lead from a game state to a solved one
mod search_space;
pub use search_space::{
    all_units, bottle_space, caps_of, lemma_all_units_finite, lemma_bottle_space_finite,
    lemma_distinct_within, lemma_in_state_space, lemma_seqs_upto_finite, lemma_state_space_finite,
    seqs_upto, state_space, within_caps,
};

mod solution_state;
pub use solution_state::{
    SolutionState, child_of, children_of, contains_equivalent, expands, first_solves, fresh_among, find_solving_pours, layer_of, path_to, solves};

mod auto_demystify;
pub use auto_demystify::{
    DemystifyRound, apply_demystify_pours, can_record_revealed, can_reveal_top_unknowns, demystify_round, first_unknown_top_idx, known_at, record_revealed, recordable, recorded_units, reveal_top_unknowns,
    revealable, revealed_state, revealed_units, round_fits, round_source,
};

mod demystify;
pub use demystify::{
    DemystifyNextStepStats, best_of, candidate_score, candidate_scores, demystify_candidates, capped_estimate, choose_best_solution, color_shares, demystify_score, fill_shares, first_unknown_top, known_count,
    count_sum, largest_cap, lemma_fill_sum, lemma_score_by_chance, lemma_shares_sum, lemma_success_chance_counts_solvable, missing_share, pick_best, shares_are_consistent, try_demystify_next_step, rate_color_probabilities, rate_success_chance, seen_shares, share_sum, share_value,
    shares_consistent, solvable, success_chance, success_weight, unknown_count, with_top_color,
};

use vstd::prelude::*;
use std::collections::VecDeque;

use crate::gamestate::{
    GameState, PartialGameState, Pour, PourError, SolvableGameState, bottles_wf, copy_state,
    lemma_run_pours_append, lemma_run_pours_push, lemma_wf_pour_fits, run_pours, state_view, views_equivalent,
};
use crate::bottle::Bottle;

verus! {

/// A series of [Pour]s that, when applied to some [SolvableGameState] in sequence, results in
/// a game state that is solved.
///
/// Each pour is possible in the state the previous pours lead to (the first one in the base
/// game state).
pub struct Solution<'a, G: SolvableGameState> {
    base_gamestate: &'a G,
    pours: VecDeque<Pour>,
}

/// Reasons running [Solution::try_from_parts] may fail
#[derive(Debug, Clone, Copy, PartialEq, Eq, Structural)]
pub enum SolutionFromPartsError {
    /// Encountered a [PourError] while checking that [Pour]s are valid
    PourError(PourError),
    /// The sequence of [Pour]s is valid for the given game state, but does not result in a
    /// solved game state
    DoesNotFinish,
}

impl From<PourError> for SolutionFromPartsError {
    fn from(value: PourError) -> (r: Self) {
        SolutionFromPartsError::PourError(value)
    }
}

impl vstd::std_specs::convert::FromSpecImpl<PourError> for SolutionFromPartsError {
    open spec fn obeys_from_spec() -> bool {
        true
    }

    open spec fn from_spec(v: PourError) -> Self {
        SolutionFromPartsError::PourError(v)
    }
}

/// What [Solution::try_from_parts] gives for a game state with model `v` and these pours
pub open spec fn from_parts_result<G: SolvableGameState>(v: Seq<crate::gamestate::BottleView>, pours: Seq<Pour>) -> Result<
    (),
    SolutionFromPartsError,
> {
    match run_pours(v, pours) {
        Err(e) => Err(SolutionFromPartsError::PourError(e)),
        Ok(w) => if G::solved_view(w) {
            Ok(())
        } else {
            Err(SolutionFromPartsError::DoesNotFinish)
        },
    }
}

impl<'a, G: SolvableGameState> Solution<'a, G> {
    /// The game state this solution starts from
    pub closed spec fn base(&self) -> G {
        *self.base_gamestate
    }

    /// The pours of this solution, in order
    pub closed spec fn pours_view(&self) -> Seq<Pour> {
        self.pours@
    }

    /// The pours lead from the base game state to a solved one
    pub open spec fn valid(&self) -> bool {
        solves::<G>(state_view(self.base()), self.pours_view())
    }

    /// Try to find and return the shortest possible Solution to the given game state. If no
    /// solution can be found, return `None`.
    ///
    /// Will search for solutions with as many as `max_depth` pours. If no solution is found
    /// within that many pours, returns `None`. Setting `max_depth` to 0 disables the limit.
    pub fn try_new(base_gamestate: &'a G, max_depth: u8) -> (r: Option<Self>)
        requires
            bottles_wf(base_gamestate.bottles()),
        ensures
            r matches Some(s) ==> s.base() == *base_gamestate && s.valid() && (max_depth > 0
                ==> s.pours_view().len() <= max_depth),
            r matches Some(s) ==> forall|pours: Seq<Pour>|
                #[trigger] solves::<G>(state_view(*base_gamestate), pours) ==> s.pours_view().len() <= pours.len(),
            r is None ==> forall|pours: Seq<Pour>|
                !(#[trigger] solves::<G>(state_view(*base_gamestate), pours) && (max_depth > 0 ==> pours.len()
                    <= max_depth)),
    {
        let bottle_count = base_gamestate.get_bottles().len();
        let mut solution_state = SolutionState::new(base_gamestate);
        proof {
            assert(solution_state.path(0) =~= Seq::<Pour>::empty());
            assert(solution_state.depth_within(max_depth as int));
            assert(solution_state.searched(max_depth, true));
        }
        find_solving_pours(&mut solution_state, max_depth, true, 1);
        let ghost st = solution_state;
        proof {
            assert(st.base_view().len() == bottle_count);
        }
        match solution_state.take_solving_pour_sequence(0) {
            Some(pours) => {
                proof {
                    st.lemma_finished_id(0);
                    if max_depth > 0 {
                        assert(st.path(st.finished()[0] as int).len() <= max_depth);
                    }
                    assert forall|p: Seq<Pour>| #[trigger] solves::<G>(state_view(*base_gamestate), p) implies pours@.len()
                        <= p.len() by {
                        st.lemma_shortest(max_depth, p);
                    }
                }
                Some(Solution { base_gamestate, pours })
            },
            None => {
                proof {
                    assert forall|p: Seq<Pour>|
                        !(#[trigger] solves::<G>(state_view(*base_gamestate), p) && (max_depth > 0 ==> p.len()
                            <= max_depth)) by {
                        st.lemma_no_solution(max_depth, p);
                    }
                }
                None
            },
        }
    }

    /// Try to create a [Solution] given a base game state to solve and the [Pour]s to apply
    /// in order
    pub fn try_from_parts(base_gamestate: &'a G, pours: Vec<Pour>) -> (r: Result<Self, SolutionFromPartsError>)
        requires
            bottles_wf(base_gamestate.bottles()),
        ensures
            match from_parts_result::<G>(state_view(*base_gamestate), pours@) {
                Ok(()) => r matches Ok(s) && s.base() == *base_gamestate && s.pours_view() == pours@
                    && s.valid(),
                Err(e) => r == Err::<Self, _>(e),
            },
    {
        let ghost v = state_view(*base_gamestate);
        let mut working_gs = copy_state(base_gamestate);
        let mut owned_pours: VecDeque<Pour> = VecDeque::new();
        let mut i: usize = 0;
        while i < pours.len()
            invariant
                v == state_view(*base_gamestate),
                i <= pours@.len(),
                bottles_wf(working_gs.bottles()),
                run_pours(v, pours@.take(i as int)) == Ok::<_, PourError>(state_view(working_gs)),
                owned_pours@ == pours@.take(i as int),
            decreases pours@.len() - i,
        {
            let pour = pours[i];
            proof {
                lemma_wf_pour_fits(working_gs.bottles(), pour.source_bottle_index as int, pour.dest_bottle_index as int);
                lemma_run_pours_push(v, pours@.take(i as int), pour);
                assert(pours@.take(i + 1) =~= pours@.take(i as int).push(pour));
            }
            match pour.try_apply(&working_gs) {
                Ok(next_gs) => {
                    proof {
                        assert forall|j: int| 0 <= j < working_gs.bottles().len() implies #[trigger] crate::bottle::fillable(
                            working_gs.bottles()[j],
                        ) by {
                            assert(working_gs.bottles()[j].inv());
                        }
                    }
                    working_gs = next_gs;
                    owned_pours.push_back(pour);
                },
                Err(e) => {
                    proof {
                        lemma_run_pours_append(v, pours@.take(i + 1), pours@.skip(i + 1));
                        assert(pours@.take(i + 1) + pours@.skip(i + 1) =~= pours@);
                    }
                    return Err(SolutionFromPartsError::PourError(e));
                },
            }
            i = i + 1;
        }
        assert(pours@.take(i as int) =~= pours@);
        if working_gs.is_solved() {
            Ok(Solution { base_gamestate, pours: owned_pours })
        } else {
            Err(SolutionFromPartsError::DoesNotFinish)
        }
    }

    /// The game state this solution starts from
    pub fn get_base_gamestate(&self) -> (r: &G)
        ensures
            *r == self.base(),
    {
        self.base_gamestate
    }

    /// The pours of this solution, in order
    pub fn get_pours(&self) -> (r: &VecDeque<Pour>)
        ensures
            r@ == self.pours_view(),
    {
        &self.pours
    }

    /// Take the pours of this solution, in order
    pub fn take_pours(self) -> (r: VecDeque<Pour>)
        ensures
            r@ == self.pours_view(),
    {
        self.pours
    }
}

/// `s` is a solution of `base` with at most `max_depth` pours, when `max_depth` is not zero
pub open spec fn found_solution<'a, G: SolvableGameState>(s: Solution<'a, G>, base: G, max_depth: u8) -> bool {
    &&& s.base() == base
    &&& s.valid()
    &&& max_depth > 0 ==> s.pours_view().len() <= max_depth
}

/// Try to find and return as many Solutions as possible for the given [PartialGameState]
///
/// Will search for solutions with as many as `max_depth` pours. Setting `max_depth` to 0
/// disables the limit.
///
/// Will search for as many as `max_count` solutions. Setting `max_count` to 0 disables the
/// limit: the search goes on until all possible game states have been checked.
pub fn find_many_solutions<'a, const MAX_BCOUNT: usize, const B_MAX_CAP: usize>(
    base_gamestate: &'a PartialGameState<MAX_BCOUNT, B_MAX_CAP>,
    max_depth: u8,
    max_count: usize,
) -> (r: Vec<Solution<'a, PartialGameState<MAX_BCOUNT, B_MAX_CAP>>>)
    requires
        bottles_wf(base_gamestate.bottles()),
    ensures
        forall|k: int| 0 <= k < r@.len() ==> #[trigger] found_solution(r@[k], *base_gamestate, max_depth),
        max_count > 0 ==> r@.len() <= max_count,
        r@.len() == 0 ==> forall|pours: Seq<Pour>|
            !(#[trigger] solves::<PartialGameState<MAX_BCOUNT, B_MAX_CAP>>(state_view(*base_gamestate), pours) && (
            max_depth > 0 ==> pours.len() <= max_depth)),
        r@.len() > 0 ==> forall|pours: Seq<Pour>|
            #[trigger] solves::<PartialGameState<MAX_BCOUNT, B_MAX_CAP>>(state_view(*base_gamestate), pours)
                ==> r@[0].pours_view().len() <= pours.len(),
        max_count == 0 || r@.len() < max_count ==> forall|pours: Seq<Pour>|
            #[trigger] first_solves::<PartialGameState<MAX_BCOUNT, B_MAX_CAP>>(state_view(*base_gamestate), pours)
                && (max_depth > 0 ==> pours.len() <= max_depth) ==> exists|k: int|
                0 <= k < r@.len() && views_equivalent(
                    run_pours(state_view(*base_gamestate), r@[k].pours_view())->Ok_0,
                    run_pours(state_view(*base_gamestate), pours)->Ok_0,
                ),
{
    let bottle_count = base_gamestate.bottles.len();
    let mut solution_state = SolutionState::new(base_gamestate);
    proof {
        assert(solution_state.path(0) =~= Seq::<Pour>::empty());
        assert(solution_state.depth_within(max_depth as int));
        assert(solution_state.searched(max_depth, true));
    }
    find_solving_pours(&mut solution_state, max_depth, true, max_count);
    let state_count = solution_state.state_count();
    let mut sequences = solution_state.all_solving_pour_sequences();
    let ghost seqs = sequences@;
    let ghost st = solution_state;
    proof {
        assert(st.base_view().len() == bottle_count);
        if seqs.len() == 0 {
            assert forall|p: Seq<Pour>|
                !(#[trigger] solves::<PartialGameState<MAX_BCOUNT, B_MAX_CAP>>(state_view(*base_gamestate), p) && (
                max_depth > 0 ==> p.len() <= max_depth)) by {
                st.lemma_no_solution(max_depth, p);
            }
        } else {
            assert forall|p: Seq<Pour>| #[trigger] solves::<PartialGameState<MAX_BCOUNT, B_MAX_CAP>>(
                state_view(*base_gamestate),
                p,
            ) implies seqs[0]@.len() <= p.len() by {
                st.lemma_shortest(max_depth, p);
            }
        }
    }
    let mut out: Vec<Solution<'a, PartialGameState<MAX_BCOUNT, B_MAX_CAP>>> = Vec::new();
    while sequences.len() > 0
        invariant
            out@.len() + sequences@.len() == seqs.len(),
            forall|k: int| 0 <= k < sequences@.len() ==> #[trigger] sequences@[k] == seqs[out@.len() + k],
            forall|k: int|
                0 <= k < seqs.len() ==> #[trigger] seqs[k]@ == st.path(st.finished()[k] as int)
                    && solves::<PartialGameState<MAX_BCOUNT, B_MAX_CAP>>(st.base_view(), seqs[k]@),
            st.base_view() == state_view(*base_gamestate),
            max_depth > 0 ==> st.depth_within(max_depth as int),
            st.wf(),
            st.views().len() == state_count,
            seqs.len() == st.finished().len(),
            forall|k: int| 0 <= k < out@.len() ==> #[trigger] found_solution(out@[k], *base_gamestate, max_depth),
            forall|k: int| 0 <= k < out@.len() ==> (#[trigger] out@[k]).pours_view() == seqs[k]@,
        decreases sequences@.len(),
    {
        let ghost k = out@.len();
        let pours = sequences.remove(0);
        assert(pours == seqs[k as int]);
        proof {
            if max_depth > 0 {
                st.lemma_finished_id(k as int);
                assert(st.path(st.finished()[k as int] as int).len() <= max_depth);
            }
        }
        let ghost old_out = out@;
        let sol = Solution { base_gamestate, pours };
        assert(found_solution(sol, *base_gamestate, max_depth));
        out.push(sol);
        assert forall|j: int| 0 <= j < out@.len() implies #[trigger] found_solution(out@[j], *base_gamestate, max_depth) by {
            if j < old_out.len() {
                assert(out@[j] == old_out[j]);
            }
        }
        assert forall|j: int| 0 <= j < out@.len() implies (#[trigger] out@[j]).pours_view() == seqs[j]@ by {
            if j < old_out.len() {
                assert(out@[j] == old_out[j]);
            }
        }
    }
    proof {
        let base = state_view(*base_gamestate);
        if max_count == 0 || out@.len() < max_count {
            assert forall|pours: Seq<Pour>|
                #[trigger] first_solves::<PartialGameState<MAX_BCOUNT, B_MAX_CAP>>(base, pours) && (max_depth > 0
                    ==> pours.len() <= max_depth) implies exists|k: int|
                0 <= k < out@.len() && views_equivalent(
                    run_pours(base, out@[k].pours_view())->Ok_0,
                    run_pours(base, pours)->Ok_0,
                ) by {
                st.lemma_found_every_solution(max_depth, pours);
                let j = choose|j: int|
                    0 <= j < st.views().len() && st.finished().contains(j as usize) && views_equivalent(
                        st.views()[j],
                        run_pours(base, pours)->Ok_0,
                    );
                let k = choose|k: int| 0 <= k < st.finished().len() && st.finished()[k] == j as usize;
                st.lemma_path(j);
                st.lemma_finished_id(k);
                assert(st.finished()[k] as int == j);
                assert(seqs[k]@ == st.path(j));
                assert(out@[k].pours_view() == seqs[k]@);
                assert(run_pours(base, out@[k].pours_view())->Ok_0 == st.views()[j]);
            }
        }
    }
    out
}

} // verus!
