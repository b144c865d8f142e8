use std::collections::HashSet;

use colorgetter::bottle::KnownBottle;
use colorgetter::colored_water::ColoredWaterUnit;
use colorgetter::gamestate::{KnownGameState, Pour, PourError, ValidPour, ValidPourIter};

use ColoredWaterUnit::{Aqua, Brown, Green, Lime, Maroon, Orange, Red, Yellow};

fn bottle(content: &[ColoredWaterUnit], capacity: usize) -> KnownBottle<4> {
    KnownBottle::<4>::try_with_content(content).unwrap().try_take_as_resized(capacity).unwrap()
}

/// The (source, destination) pairs of every valid pour of a game state
fn all_pours(gs: &KnownGameState<5, 4>) -> HashSet<(usize, usize)> {
    let mut iter = ValidPourIter::new(gs);
    let mut out = HashSet::new();
    while let Some(p) = iter.next() {
        out.insert((p.get_source_index(), p.get_dest_index()));
    }
    out
}

fn first_gamestate() -> KnownGameState<5, 4> {
    KnownGameState::try_from_bottles(&[
        bottle(&[Red, Red, Red], 4),
        bottle(&[Orange, Green, Red], 4),
        bottle(&[Yellow, Maroon], 3),
        bottle(&[Brown, Lime, Aqua, Aqua], 4),
        bottle(&[Maroon, Maroon], 4),
    ])
    .unwrap()
}

#[test]
fn test_valid_pour_iter() {
    let first_gamestate = first_gamestate();

    // We compare sets because we only care that the specific pours generated
    // match, not their order.
    assert_eq!(all_pours(&first_gamestate), HashSet::from([(0, 1), (1, 0), (2, 4), (4, 2)]));
    for (s, d) in [(0, 1), (1, 0), (2, 4), (4, 2)] {
        assert!(ValidPour::try_new(&first_gamestate, s, d).is_ok());
    }

    let second_gamestate = ValidPour::try_new(&first_gamestate, 0, 1).unwrap().apply();
    assert_eq!(all_pours(&second_gamestate), HashSet::from([(1, 0), (2, 4), (4, 2)]));
}

#[test]
fn pour_errors() {
    let gs = first_gamestate();
    assert_eq!(Pour { source_bottle_index: 1, dest_bottle_index: 1 }.try_apply(&gs).err(), Some(PourError::SameBottle));
    assert_eq!(Pour { source_bottle_index: 1, dest_bottle_index: 9 }.try_apply(&gs).err(), Some(PourError::MissingBottle));
    assert!(matches!(
        Pour { source_bottle_index: 3, dest_bottle_index: 0 }.try_apply(&gs),
        Err(PourError::InvalidPour(_))
    ));
}

#[test]
fn pour_moves_the_top_run() {
    let gs = first_gamestate();
    let after = Pour { source_bottle_index: 0, dest_bottle_index: 1 }.try_apply(&gs).unwrap();
    assert_eq!(after.bottles[0].get_content().as_slice(), &[Red, Red]);
    assert_eq!(after.bottles[1].get_content().as_slice(), &[Orange, Green, Red, Red]);
    // pours keep the units of the game state
    assert_eq!(colorgetter::gamestate::count_units(&gs), colorgetter::gamestate::count_units(&after));
}
