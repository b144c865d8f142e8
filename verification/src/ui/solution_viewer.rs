//! Stepping through the pours of a [Solution], one game state at a time.
use vstd::prelude::*;

use super::keys::{ExitRequest, Key, KeyInput, is_exit_chord, pressed_or_held};
use crate::gamestate::{
    BottleView, Pour, PourError, SolvableGameState, bottles_wf, copy_state, lemma_run_pours_append,
    lemma_run_pours_push, lemma_wf_pour_fits, run_pours, state_view,
};
use crate::bottle::Bottle;
use crate::solution::{Solution, solves};

verus! {

/// Reasons setting the current pour index may fail
#[derive(Debug, Clone, Copy, PartialEq, Eq, Structural)]
pub enum PourIdxChangeError {
    OutOfBounds,
}

/// The game state reached from `v` after the pours up to and including the one at `idx`, or
/// `v` itself when no pour is displayed
pub open spec fn displayed_state(v: Seq<BottleView>, pours: Seq<Pour>, idx: Option<usize>) -> Result<
    Seq<BottleView>,
    PourError,
> {
    match idx {
        Some(i) => run_pours(v, pours.take(i + 1)),
        None => Ok(v),
    }
}

/// The pour displayed after moving on from `current`, as a number
pub open spec fn next_pour(current: Option<usize>) -> int {
    match current {
        Some(i) => i + 1,
        None => 0,
    }
}

/// The pour displayed after moving back from `current`
pub open spec fn previous_pour(current: Option<usize>) -> Option<usize> {
    match current {
        Some(i) => if i == 0 {
            None
        } else {
            Some((i - 1) as usize)
        },
        None => None,
    }
}

/// Moving back undoes moving on: from any displayed pour of a solution of `pour_count` pours
/// (a `usize`), when moving on succeeds, moving back from where it led returns to where it
/// started, down to showing no pour at all
pub proof fn lemma_back_undoes_on(current: Option<usize>, pour_count: nat)
    requires
        pour_count <= usize::MAX,
        next_pour(current) < pour_count,
    ensures
        previous_pour(Some(next_pour(current) as usize)) == current,
{
}

/// The state of the viewer of a [Solution]: which of its pours is displayed, if any.
///
/// With no pour displayed, the viewer shows the base game state; with the pour at index `i`
/// displayed, it shows the game state after that pour.
pub struct SolutionViewerState<'a, 'b, G: SolvableGameState> {
    solution: &'b Solution<'a, G>,
    current_pour_idx: Option<usize>,
}

impl<'a, 'b, G: SolvableGameState> SolutionViewerState<'a, 'b, G> {
    /// The solution that is displayed
    pub closed spec fn solution(&self) -> Solution<'a, G> {
        *self.solution
    }

    /// The index of the pour that is displayed, if any
    pub closed spec fn current(&self) -> Option<usize> {
        self.current_pour_idx
    }

    /// The displayed pour, if any, is one of the pours of the solution, which are counted by a
    /// `usize`
    pub open spec fn wf(&self) -> bool {
        &&& self.current() matches Some(i) ==> i < self.solution().pours_view().len()
        &&& self.solution().pours_view().len() <= usize::MAX
    }

    /// A viewer that displays the base game state of `solution`
    pub fn new(solution: &'b Solution<'a, G>) -> (r: Self)
        ensures
            r.solution() == *solution,
            r.current() is None,
            r.wf(),
    {
        let _count = solution.get_pours().len();
        SolutionViewerState { solution, current_pour_idx: None }
    }

    /// The index of the pour that is displayed, if any
    pub fn current_pour_idx(&self) -> (r: Option<usize>)
        ensures
            r == self.current(),
    {
        self.current_pour_idx
    }

    /// The number of pours of the displayed solution
    pub fn pour_count(&self) -> (r: usize)
        ensures
            r == self.solution().pours_view().len(),
    {
        self.solution.get_pours().len()
    }

    /// Returns the displayed game state and, if a pour is displayed, that pour: the one that
    /// led to the displayed state from the one before it.
    pub fn get_displayed_state_and_pour(&self) -> (r: (G, Option<Pour>))
        requires
            self.wf(),
            self.solution().valid(),
            bottles_wf(self.solution().base().bottles()),
        ensures
            bottles_wf(r.0.bottles()),
            displayed_state(state_view(self.solution().base()), self.solution().pours_view(), self.current())
                == Ok::<_, PourError>(state_view(r.0)),
            r.1 == (match self.current() {
                Some(i) => Some(self.solution().pours_view()[i as int]),
                None => None,
            }),
    {
        let base = self.solution.get_base_gamestate();
        let ghost v = state_view(*base);
        let ghost pours = self.solution().pours_view();
        match self.current_pour_idx {
            Some(display_pour_idx) => {
                let all = self.solution.get_pours();
                let count = all.len();
                proof {
                    lemma_run_pours_append(v, pours.take(display_pour_idx + 1), pours.skip(display_pour_idx + 1));
                    assert(pours.take(display_pour_idx + 1) + pours.skip(display_pour_idx + 1) =~= pours);
                    assert(solves::<G>(v, pours));
                }
                let mut working_gs = copy_state(base);
                let mut j: usize = 0;
                while j <= display_pour_idx
                    invariant
                        v == state_view(*base),
                        pours == all@,
                        display_pour_idx < pours.len(),
                        count == pours.len(),
                        j <= display_pour_idx + 1,
                        bottles_wf(working_gs.bottles()),
                        run_pours(v, pours.take(display_pour_idx + 1)) is Ok,
                        run_pours(v, pours.take(j as int)) == Ok::<_, PourError>(state_view(working_gs)),
                    decreases display_pour_idx + 1 - j,
                {
                    let pour = all[j];
                    proof {
                        lemma_wf_pour_fits(working_gs.bottles(), pour.source_bottle_index as int, pour.dest_bottle_index as int);
                        lemma_run_pours_push(v, pours.take(j as int), pour);
                        assert(pours.take(j + 1) =~= pours.take(j as int).push(pour));
                        lemma_run_pours_append(v, pours.take(j + 1), pours.take(display_pour_idx + 1).skip(j + 1));
                        assert(pours.take(j + 1) + pours.take(display_pour_idx + 1).skip(j + 1) =~= pours.take(
                            display_pour_idx + 1,
                        ));
                    }
                    match pour.try_apply(&working_gs) {
                        Ok(next_gs) => {
                            proof {
                                assert forall|k: int| 0 <= k < working_gs.bottles().len() implies #[trigger] crate::bottle::fillable(
                                    working_gs.bottles()[k],
                                ) by {
                                    assert(working_gs.bottles()[k].inv());
                                }
                            }
                            working_gs = next_gs;
                        },
                        Err(_) => {
                            assert(false);
                        },
                    }
                    j = j + 1;
                }
                (working_gs, Some(all[display_pour_idx]))
            },
            None => (copy_state(base), None),
        }
    }

    /// Attempts to set the index of the displayed pour ([None] displays the base game state).
    /// Fails, changing nothing, if there is no pour at that index.
    pub fn try_set_current_pour_idx(&mut self, new_pour_idx: Option<usize>) -> (r: Result<(), PourIdxChangeError>)
        requires
            old(self).wf(),
        ensures
            final(self).wf(),
            final(self).solution() == old(self).solution(),
            match new_pour_idx {
                Some(i) if i >= old(self).solution().pours_view().len() => r == Err::<(), _>(
                    PourIdxChangeError::OutOfBounds,
                ) && final(self).current() == old(self).current(),
                _ => r is Ok && final(self).current() == new_pour_idx,
            },
    {
        if let Some(new_pour_idx) = new_pour_idx {
            if new_pour_idx < self.solution.get_pours().len() {
                self.current_pour_idx = Some(new_pour_idx);
                Ok(())
            } else {
                Err(PourIdxChangeError::OutOfBounds)
            }
        } else {
            self.current_pour_idx = None;
            Ok(())
        }
    }

    /// Attempts to display the next pour (the first one when the base game state is displayed).
    /// Fails, changing nothing, when the last pour is displayed.
    pub fn try_inc_current_pour_idx(&mut self) -> (r: Result<(), PourIdxChangeError>)
        requires
            old(self).wf(),
        ensures
            final(self).wf(),
            final(self).solution() == old(self).solution(),
            ({
                let next = next_pour(old(self).current());
                if next < old(self).solution().pours_view().len() {
                    r is Ok && final(self).current() == Some(next as usize)
                } else {
                    r == Err::<(), _>(PourIdxChangeError::OutOfBounds) && final(self).current() == old(self).current()
                }
            }),
    {
        let count = self.pour_count();
        if let Some(current_pour_idx) = self.current_pour_idx {
            assert(current_pour_idx < count);
            self.try_set_current_pour_idx(Some(current_pour_idx + 1))
        } else {
            self.try_set_current_pour_idx(Some(0))
        }
    }

    /// Attempts to display the previous pour (the base game state when the first pour is
    /// displayed). Fails, changing nothing, when the base game state is displayed.
    pub fn try_dec_current_pour_idx(&mut self) -> (r: Result<(), PourIdxChangeError>)
        requires
            old(self).wf(),
        ensures
            final(self).wf(),
            final(self).solution() == old(self).solution(),
            match old(self).current() {
                Some(_) => r is Ok && final(self).current() == previous_pour(old(self).current()),
                None => r == Err::<(), _>(PourIdxChangeError::OutOfBounds) && final(self).current() is None,
            },
    {
        if let Some(current_pour_idx) = self.current_pour_idx {
            self.try_set_current_pour_idx(current_pour_idx.checked_sub(1))
        } else {
            Err(PourIdxChangeError::OutOfBounds)
        }
    }

    /// Handles a key: Control+C asks to leave the program, Left displays the previous pour,
    /// Right and Enter the next one. Returns whether the viewer is done: moving past the last
    /// pour ends it.
    pub fn handle_key(&mut self, key: KeyInput) -> (r: Result<bool, ExitRequest>)
        requires
            old(self).wf(),
        ensures
            final(self).wf(),
            final(self).solution() == old(self).solution(),
            is_exit_chord(key) ==> r == Err::<bool, _>(ExitRequest) && final(self).current() == old(self).current(),
            !is_exit_chord(key) && pressed_or_held(key) && key.key == Key::Left ==> r == Ok::<_, ExitRequest>(false)
                && final(self).current() == (match old(self).current() {
                Some(i) => if i == 0 {
                    None
                } else {
                    Some((i - 1) as usize)
                },
                None => None,
            }),
            !is_exit_chord(key) && pressed_or_held(key) && (key.key == Key::Right || key.key == Key::Enter) ==> ({
                let next: int = match old(self).current() {
                    Some(i) => i + 1,
                    None => 0,
                };
                if next < old(self).solution().pours_view().len() {
                    r == Ok::<_, ExitRequest>(false) && final(self).current() == Some(next as usize)
                } else {
                    r == Ok::<_, ExitRequest>(true) && final(self).current() == old(self).current()
                }
            }),
            !is_exit_chord(key) && !(pressed_or_held(key) && (key.key == Key::Left || key.key == Key::Right
                || key.key == Key::Enter)) ==> r == Ok::<_, ExitRequest>(false) && final(self).current() == old(self).current(),
    {
        if key.is_exit_chord() {
            return Err(ExitRequest);
        }
        if key.pressed_or_held() {
            match key.key {
                Key::Left => {
                    let _ = self.try_dec_current_pour_idx();
                },
                Key::Right | Key::Enter => {
                    let inc_result = self.try_inc_current_pour_idx();
                    if inc_result.is_err() {
                        return Ok(true);
                    }
                },
                _ => {},
            }
        }
        Ok(false)
    }
}

} // verus!
