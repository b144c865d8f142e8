use colorgetter::bottle::PartialBottle;
use colorgetter::colored_water::ColoredWaterUnit;
use colorgetter::gamestate::{factorial, permutation_as_known, to_permutable, KnownGameState, PartialGameState};

use ColoredWaterUnit::{Blue, Maroon, Red};

#[test]
fn factorial_test() {
    //check expected values of 0!, 1!, 10!, 34!, and that 35! produces None
    assert_eq!(factorial(0), Some(1));
    assert_eq!(factorial(1), Some(1));
    assert_eq!(factorial(10), Some(3628800));
    assert_eq!(factorial(34), Some(295_232_799_039_604_140_847_618_609_643_520_000_000));
    assert_eq!(factorial(35), None);
}

/// Two bottles of capacity 2, each with one unit of unknown color below a known one
fn two_mysteries() -> PartialGameState<4, 4> {
    PartialGameState {
        bottles: vec![
            PartialBottle::try_with_content(&[Red], 1).unwrap(),
            PartialBottle::try_with_content(&[Blue], 1).unwrap(),
        ],
    }
}

fn contents(gs: &KnownGameState<4, 4>) -> Vec<Vec<ColoredWaterUnit>> {
    gs.bottles.iter().map(|b| b.get_content().clone()).collect()
}

#[test]
fn to_permutable_counts_missing_units() {
    let gs = two_mysteries();
    let (units, count) = to_permutable(&gs).unwrap();
    assert_eq!(units, vec![Red, Blue]);
    assert_eq!(count, Some(2));
}

#[test]
fn to_permutable_unseen_colors_fill_up() {
    // every Red unit is known, so the three units of unknown color are of a color not seen:
    // the first one in order (Maroon) gets a full bottle's worth of units
    let gs: PartialGameState<4, 4> = PartialGameState {
        bottles: vec![
            PartialBottle::try_new(3, 3).unwrap(),
            PartialBottle::try_with_content(&[Red, Red, Red], 0).unwrap(),
        ],
    };
    let (units, count) = to_permutable(&gs).unwrap();
    assert_eq!(units, vec![Maroon, Maroon, Maroon]);
    // 3! / 3!
    assert_eq!(count, Some(1));
    let known = permutation_as_known(gs, units);
    assert_eq!(contents(&known), vec![vec![Maroon, Maroon, Maroon], vec![Red, Red, Red]]);
}

#[test]
fn to_permutable_seen_colors_share_the_unknowns() {
    let gs: PartialGameState<4, 4> = PartialGameState {
        bottles: vec![
            PartialBottle::try_with_content(&[Red], 2).unwrap(),
            PartialBottle::try_with_content(&[Blue, Blue], 1).unwrap(),
        ],
    };
    let (units, count) = to_permutable(&gs).unwrap();
    assert_eq!(units, vec![Red, Red, Blue]);
    // 3! / (2! * 1!)
    assert_eq!(count, Some(3));
    assert_eq!(gs.collapse_all().unwrap().len(), 3);
}

#[test]
fn to_permutable_rejects_mixed_capacities() {
    let gs: PartialGameState<4, 4> = PartialGameState {
        bottles: vec![
            PartialBottle::try_with_content(&[Red], 1).unwrap(),
            PartialBottle::try_with_content(&[Blue, Blue], 1).unwrap(),
        ],
    };
    assert!(to_permutable(&gs).is_none());
}

#[test]
fn to_permutable_of_no_bottles() {
    let gs: PartialGameState<4, 4> = PartialGameState { bottles: vec![] };
    assert_eq!(to_permutable(&gs), Some((vec![], Some(1))));
}

#[test]
fn permutation_fills_unknowns_in_order() {
    let known = permutation_as_known(two_mysteries(), vec![Red, Blue]);
    assert_eq!(contents(&known), vec![vec![Red, Red], vec![Blue, Blue]]);
    let known = permutation_as_known(two_mysteries(), vec![Blue, Red]);
    assert_eq!(contents(&known), vec![vec![Blue, Red], vec![Red, Blue]]);
}

#[test]
fn permutation_fills_topmost_unknown_first() {
    let gs: PartialGameState<4, 4> = PartialGameState {
        bottles: vec![PartialBottle::try_with_content(&[], 2).unwrap()],
    };
    let known = permutation_as_known(gs, vec![Red, Blue]);
    // the top unit takes the first color
    assert_eq!(contents(&known), vec![vec![Blue, Red]]);
}

#[test]
fn collapse_all_gives_every_arrangement_once() {
    let all = two_mysteries().collapse_all().unwrap();
    assert_eq!(all.len(), 2);
    let found: Vec<Vec<Vec<ColoredWaterUnit>>> = all.iter().map(contents).collect();
    assert!(found.contains(&vec![vec![Blue, Red], vec![Red, Blue]]));
    assert!(found.contains(&vec![vec![Red, Red], vec![Blue, Blue]]));
}

#[test]
fn random_sample_gives_possible_states() {
    let mut sampler = two_mysteries().collapse_random_sample().unwrap();
    for _ in 0..10 {
        let s = contents(&sampler.next().unwrap());
        assert!(s == vec![vec![Red, Red], vec![Blue, Blue]] || s == vec![vec![Blue, Red], vec![Red, Blue]]);
    }
}

#[test]
fn collapse_search_stops_at_the_number_of_arrangements() {
    let mut search = two_mysteries().collapse_search(10).unwrap();
    while !search.step() {}
    let found = search.into_found();
    assert_eq!(found.len(), 2);
    assert!(!found[0].equivalent(&found[1]));
}

#[test]
fn collapse_search_stops_at_max_count() {
    let mut search = two_mysteries().collapse_search(1).unwrap();
    assert!(search.step());
    assert_eq!(search.into_found().len(), 1);
}

#[test]
fn collapse_keeps_known_units_and_uses_each_color_once() {
    // bottle 0: two unknown units below Red; bottle 1: one unknown unit below Blue, Blue
    let gs: PartialGameState<4, 4> = PartialGameState {
        bottles: vec![
            PartialBottle::try_with_content(&[Red], 2).unwrap(),
            PartialBottle::try_with_content(&[Blue, Blue], 1).unwrap(),
        ],
    };
    let known = permutation_as_known(gs, vec![Maroon, Red, Blue]);
    let c = contents(&known);
    // the known units stay on top, each bottle keeps its size
    assert_eq!(c, vec![vec![Red, Maroon, Red], vec![Blue, Blue, Blue]]);
    let mut all: Vec<ColoredWaterUnit> = c.concat();
    all.sort_by_key(|u| format!("{:?}", u));
    let mut expected = vec![Red, Blue, Blue, Maroon, Red, Blue];
    expected.sort_by_key(|u| format!("{:?}", u));
    assert_eq!(all, expected);
}

#[test]
fn collapse_gives_all_states_when_there_are_few() {
    let found = two_mysteries().collapse(10).unwrap();
    assert_eq!(found.len(), 2);
    assert!(!found[0].equivalent(&found[1]));
}

#[test]
fn collapse_gives_at_most_max_count() {
    assert_eq!(two_mysteries().collapse(1).unwrap().len(), 1);
    assert_eq!(two_mysteries().collapse(0).unwrap().len(), 0);
}

#[test]
fn collapse_refuses_mixed_capacities() {
    let gs: PartialGameState<4, 4> = PartialGameState {
        bottles: vec![
            PartialBottle::try_with_content(&[Red], 1).unwrap(),
            PartialBottle::try_with_content(&[Blue, Blue], 1).unwrap(),
        ],
    };
    assert!(gs.collapse(5).is_none());
}

#[test]
fn random_sample_draws_both_states() {
    // with two possible states, 64 draws all giving the same one would take odds of 2^-63
    let mut sampler = two_mysteries().collapse_random_sample().unwrap();
    let first = contents(&sampler.next().unwrap());
    let mut saw_other = false;
    for _ in 0..64 {
        if contents(&sampler.next().unwrap()) != first {
            saw_other = true;
        }
    }
    assert!(saw_other);
}

#[test]
fn collapse_ends_when_arrangements_give_equivalent_states() {
    // two bottles topped with Red and two topped with Blue, each with one unit of unknown
    // color: six arrangements of the four hidden units, but swapping the hidden units of two
    // bottles with the same top gives an equivalent state, so only three states exist
    let gs: PartialGameState<4, 4> = PartialGameState {
        bottles: vec![
            PartialBottle::try_with_content(&[Red], 1).unwrap(),
            PartialBottle::try_with_content(&[Red], 1).unwrap(),
            PartialBottle::try_with_content(&[Blue], 1).unwrap(),
            PartialBottle::try_with_content(&[Blue], 1).unwrap(),
        ],
    };
    assert_eq!(to_permutable(&gs).unwrap().1, Some(6));
    let found = gs.collapse(10).unwrap();
    assert_eq!(found.len(), 3);
    for i in 0..found.len() {
        for j in 0..i {
            assert!(!found[i].equivalent(&found[j]));
        }
    }
}
