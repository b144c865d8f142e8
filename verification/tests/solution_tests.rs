use colorgetter::bottle::{Comparison, KnownBottle, PartialBottle};
use colorgetter::colored_water::ColoredWaterUnit;
use colorgetter::gamestate::{
    GameState, KnownGameState, PartialGameState, Pour, PourError, PseudoPartialGameState, PseudoPartialGameStateError,
    SolvableGameState,
};
use colorgetter::solution::{
    apply_demystify_pours, demystify_round, DemystifyRound, find_many_solutions, first_unknown_top_idx, rate_color_probabilities,
    rate_success_chance, record_revealed, reveal_top_unknowns, try_demystify_next_step, Solution,
    SolutionFromPartsError,
};

use ColoredWaterUnit::{Blue, Green, Red};

fn known(content: &[ColoredWaterUnit], capacity: usize) -> KnownBottle<4> {
    KnownBottle::<4>::try_with_content(content).unwrap().try_take_as_resized(capacity).unwrap()
}

fn partial(content: &[ColoredWaterUnit], unknown: usize, capacity: usize) -> PartialBottle<4> {
    PartialBottle::<4>::try_with_content(content, unknown).unwrap().try_take_as_resized(capacity).unwrap()
}

fn pour(s: usize, d: usize) -> Pour {
    Pour { source_bottle_index: s, dest_bottle_index: d }
}

/// Red, Blue | Blue | Red: solved by pouring the blue onto the blue, then the red onto the red
fn two_step_state() -> KnownGameState<4, 4> {
    KnownGameState::try_from_bottles(&[known(&[Red, Blue], 2), known(&[Blue], 2), known(&[Red], 2)]).unwrap()
}

#[test]
fn shortest_solution_is_found() {
    let gs = two_step_state();
    let solution = Solution::try_new(&gs, 0).unwrap();
    let pours: Vec<Pour> = solution.get_pours().iter().copied().collect();
    assert_eq!(pours.len(), 2);
    // the pours of the solution lead to a solved state
    let mut state = gs.clone();
    for p in &pours {
        state = p.try_apply(&state).unwrap();
    }
    assert!(state.is_solved());
    assert!(Solution::try_from_parts(&gs, pours).is_ok());
}

#[test]
fn depth_limit_is_respected() {
    let gs = two_step_state();
    assert!(Solution::try_new(&gs, 1).is_none());
    assert!(Solution::try_new(&gs, 2).is_some());
}

#[test]
fn solved_state_needs_no_pours() {
    let gs: KnownGameState<4, 4> = KnownGameState::try_from_bottles(&[known(&[Red, Red], 2), known(&[], 2)]).unwrap();
    let solution = Solution::try_new(&gs, 0).unwrap();
    assert_eq!(solution.get_pours().len(), 0);
}

#[test]
fn unsolvable_state_has_no_solution() {
    // two bottles, each full with two colors: nothing can be poured
    let gs: KnownGameState<4, 4> =
        KnownGameState::try_from_bottles(&[known(&[Red, Blue], 2), known(&[Blue, Red], 2)]).unwrap();
    assert!(Solution::try_new(&gs, 0).is_none());
}

#[test]
fn solution_from_parts_errors() {
    let gs = two_step_state();
    assert_eq!(
        Solution::try_from_parts(&gs, vec![pour(0, 0)]).err(),
        Some(SolutionFromPartsError::PourError(PourError::SameBottle))
    );
    assert_eq!(
        Solution::try_from_parts(&gs, vec![pour(0, 1)]).err(),
        Some(SolutionFromPartsError::DoesNotFinish)
    );
    assert_eq!(
        Solution::try_from_parts(&gs, vec![pour(0, 5)]).err(),
        Some(SolutionFromPartsError::PourError(PourError::MissingBottle))
    );
}

#[test]
fn solution_getters() {
    let gs = two_step_state();
    let solution = Solution::try_from_parts(&gs, vec![pour(0, 1), pour(0, 2)]).unwrap();
    assert!(solution.get_base_gamestate().equivalent(&gs));
    assert_eq!(solution.get_pours().len(), 2);
    let taken: Vec<Pour> = solution.take_pours().into_iter().collect();
    assert_eq!(taken, vec![pour(0, 1), pour(0, 2)]);
}

/// An unknown unit below a red one, a red bottle with room, and a green and a blue bottle
fn mystery_state() -> PartialGameState<4, 4> {
    PartialGameState {
        bottles: vec![
            partial(&[Red], 1, 2),
            partial(&[Red], 0, 2),
            partial(&[Blue, Blue], 0, 2),
            partial(&[Green], 0, 2),
        ],
    }
}

#[test]
fn many_solutions_respect_the_count() {
    let gs = mystery_state();
    let all = find_many_solutions(&gs, 0, 0);
    assert!(!all.is_empty());
    let one = find_many_solutions(&gs, 0, 1);
    assert_eq!(one.len(), 1);
}

#[test]
fn color_probabilities_follow_the_missing_units() {
    let gs = mystery_state();
    // Red has two units known, Blue two, Green one: the unknown unit is Green
    let shares = rate_color_probabilities(&gs);
    assert_eq!(shares.len(), 12);
    assert_eq!(shares[ColoredWaterUnit::Green.ordinal() as usize], 1);
    assert_eq!(shares.iter().sum::<usize>(), 1);
}

#[test]
fn success_chance_of_a_state_without_unknown_top() {
    let gs = mystery_state();
    assert_eq!(rate_success_chance(&gs), (1, 1));
}

#[test]
fn demystify_step_reveals_the_unknown_unit() {
    let gs = mystery_state();
    let (solution, stats) = try_demystify_next_step(&gs).unwrap();
    assert!(stats.solutions_checked >= 1);
    assert!(stats.equal_solution_count >= 1);
    let pours = solution.take_pours();
    assert_eq!(pours.len(), 1);
    let (after, last) = apply_demystify_pours(&gs, &pours);
    assert_eq!(last, Some(0));
    assert_eq!(first_unknown_top_idx(&after), Some(0));
}

#[test]
fn reveal_and_record() {
    let gs = mystery_state();
    let as_known: KnownGameState<4, 4> = KnownGameState::try_from_bottles(&[
        known(&[Green, Red], 2),
        known(&[Red], 2),
        known(&[Blue, Blue], 2),
        known(&[Green], 2),
    ])
    .unwrap();
    let (mut working, last) = apply_demystify_pours(&gs, &std::collections::VecDeque::from(vec![pour(0, 1)]));
    assert_eq!(last, Some(0));
    reveal_top_unknowns(&mut working, &as_known);
    assert_eq!(working.bottles[0].get_unknown_count(), 0);
    assert_eq!(working.bottles[0].get_known_content().as_slice(), &[Green]);
    let mut initial = mystery_state();
    record_revealed(&mut initial, &working, 0);
    assert_eq!(initial.bottles[0].get_unknown_count(), 0);
    assert_eq!(initial.bottles[0].get_known_content().as_slice(), &[Green, Red]);
    let recorded = KnownGameState::<4, 4>::try_from_partial(initial).unwrap();
    assert!(recorded.equivalent(&as_known));
}

#[test]
fn no_pours_fall_back_to_the_first_unknown_top() {
    let gs: PartialGameState<4, 4> = PartialGameState { bottles: vec![partial(&[Red], 0, 2), partial(&[], 1, 2)] };
    let (after, last) = apply_demystify_pours(&gs, &std::collections::VecDeque::new());
    assert_eq!(last, Some(1));
    assert_eq!(after.bottles.len(), 2);
}

#[test]
fn game_state_trait_is_usable() {
    let gs = two_step_state();
    assert_eq!(gs.get_bottles().len(), 3);
}

/// Blue below Red | empty, with the Blue hidden
fn round_states() -> (PartialGameState<4, 4>, KnownGameState<4, 4>) {
    let working = PartialGameState { bottles: vec![partial(&[Red], 1, 2), partial(&[], 0, 2)] };
    let as_known = KnownGameState::try_from_bottles(&[known(&[Blue, Red], 2), known(&[], 2)]).unwrap();
    (working, as_known)
}

#[test]
fn demystify_round_reveals_and_records() {
    let (mut working, as_known) = round_states();
    let mut initial = working.clone();
    let pours: std::collections::VecDeque<Pour> = vec![pour(0, 1)].into();
    assert_eq!(demystify_round(&mut working, &mut initial, &as_known, Some(pours)), DemystifyRound::Advanced);
    // the red went over, the blue below it came to light
    assert_eq!(working.bottles[0].get_unknown_count(), 0);
    assert_eq!(working.bottles[0].get_known_content().clone(), vec![Blue]);
    assert_eq!(working.bottles[1].get_known_content().clone(), vec![Red]);
    // the state to reset to now knows the blue too
    assert_eq!(initial.bottles[0].get_unknown_count(), 0);
    assert_eq!(initial.bottles[0].get_known_content().clone(), vec![Blue, Red]);
}

#[test]
fn demystify_round_without_pours_resets() {
    let (mut working, as_known) = round_states();
    let mut initial = working.clone();
    let pours: std::collections::VecDeque<Pour> = vec![pour(0, 1)].into();
    demystify_round(&mut working, &mut initial, &as_known, Some(pours));
    assert_eq!(demystify_round(&mut working, &mut initial, &as_known, None), DemystifyRound::Reset);
    assert_eq!(working.bottles[0].get_known_content().clone(), vec![Blue, Red]);
    assert_eq!(working.bottles[1].get_known_content().clone(), Vec::<ColoredWaterUnit>::new());
}

#[test]
fn demystify_round_notices_a_mismatch() {
    let (mut working, _) = round_states();
    // a known state whose first bottle holds one unit only cannot reveal the hidden unit
    let wrong = KnownGameState::try_from_bottles(&[known(&[], 2), known(&[], 2)]).unwrap();
    let mut initial = working.clone();
    let pours: std::collections::VecDeque<Pour> = vec![pour(0, 1)].into();
    assert_eq!(demystify_round(&mut working, &mut initial, &wrong, Some(pours)), DemystifyRound::Mismatch);
    assert_eq!(working.bottles[0].get_unknown_count(), 1);
}

#[test]
fn states_compare_in_the_standard_order() {
    let a = KnownGameState::<4, 4>::try_from_bottles(&[known(&[Blue], 2), known(&[Red, Red], 2)]).unwrap();
    // the same bottles in another order
    let b = KnownGameState::<4, 4>::try_from_bottles(&[known(&[Red, Red], 2), known(&[Blue], 2)]).unwrap();
    assert_eq!(a.compare(&b), Comparison::Equal);
    // Red comes before Blue: [Red] < [Blue] as the first bottle in the standard order
    let c = KnownGameState::<4, 4>::try_from_bottles(&[known(&[Red], 2), known(&[Red, Red], 2)]).unwrap();
    assert_eq!(c.compare(&a), Comparison::Less);
    assert_eq!(a.compare(&c), Comparison::Greater);
    // a state whose bottles start those of another comes first
    let d = KnownGameState::<4, 4>::try_from_bottles(&[known(&[Blue], 2)]).unwrap();
    assert_eq!(d.compare(&a), Comparison::Less);
    assert_eq!(a.compare(&d), Comparison::Greater);
}

#[test]
fn pseudo_partial_state_refuses_an_extra_known_unit() {
    let known_state = KnownGameState::<1, 4>::try_from_bottles(&[known(&[Red], 2)]).unwrap();
    let partial_state = PartialGameState::<1, 4>::try_from_bottles(&[partial(&[Red, Blue], 0, 2)]).unwrap();
    assert_eq!(
        PseudoPartialGameState::try_from_parts(known_state.clone(), partial_state).err(),
        Some(PseudoPartialGameStateError::StatesDoNotMatch)
    );
    // a unit of unknown color where the known state has a unit matches
    let hidden = PartialGameState::<1, 4>::try_from_bottles(&[partial(&[], 1, 2)]).unwrap();
    assert!(PseudoPartialGameState::try_from_parts(known_state, hidden).is_ok());
}
