use colorgetter::bottle::{Bottle, BottleSampleResult, ColorSetError, Comparison, KnownBottle, PartialBottle, PourInError, PourOutError};
use colorgetter::colored_water::{ColoredWaterRun, ColoredWaterUnit, PartialColoredWaterUnit};

use ColoredWaterUnit::{Aqua, Blue, Brown, Green, Red};

/// A known bottle of capacity `capacity` holding `content`, bottom first
fn bottle<const MAX_CAP: usize>(content: &[ColoredWaterUnit], capacity: usize) -> KnownBottle<MAX_CAP> {
    KnownBottle::<MAX_CAP>::try_with_content(content)
        .unwrap()
        .try_take_as_resized(capacity)
        .unwrap()
}

fn run(content: &[ColoredWaterUnit]) -> ColoredWaterRun {
    ColoredWaterRun::try_from_units(content).unwrap()
}

#[test]
fn test_bottle_creation() {
    let bottle1: KnownBottle<4> = KnownBottle::try_new(4).unwrap();

    assert_eq!(bottle1.capacity(), 4);
    assert_eq!(*bottle1.get_content(), Vec::<ColoredWaterUnit>::new());

    let bottle2_base_content = [Aqua, Blue];
    let bottle2: KnownBottle<4> = KnownBottle::try_with_content(&bottle2_base_content).unwrap();

    assert_eq!(bottle2.capacity(), 2);
    assert_eq!(bottle2.get_content().as_slice(), &bottle2_base_content);
}

#[test]
fn test_bottle_resize() {
    let bottle_base_content = [Aqua, Blue, Brown, Blue];
    let base_bottle: KnownBottle<8> = KnownBottle::try_with_content(&bottle_base_content).unwrap();

    assert_eq!(base_bottle.capacity(), 4);
    assert_eq!(base_bottle.get_content().as_slice(), &bottle_base_content);

    let smaller_bottle: KnownBottle<4> = base_bottle.try_get_resized(3).unwrap();

    assert_eq!(smaller_bottle.capacity(), 3);
    assert_eq!(smaller_bottle.get_content().as_slice(), &bottle_base_content[..3]);

    let larger_bottle: KnownBottle<4> = smaller_bottle.try_get_resized(5).unwrap();
    assert_eq!(larger_bottle.capacity(), 5);
    assert_eq!(larger_bottle.get_content().as_slice(), &bottle_base_content[..3]);

    let mut in_place_resized_bottle = base_bottle.clone();

    let resize_result = in_place_resized_bottle.resize_in_place(3);
    assert!(resize_result.is_ok());
    assert_eq!(in_place_resized_bottle.capacity(), 3);
    assert_eq!(in_place_resized_bottle.get_content().as_slice(), &bottle_base_content[..3]);

    // ensure we still succeed up to MAX_CAP of 8
    let resize_result = in_place_resized_bottle.resize_in_place(8);
    assert!(resize_result.is_ok());
    assert_eq!(in_place_resized_bottle.capacity(), 8);
    assert_eq!(in_place_resized_bottle.get_content().as_slice(), &bottle_base_content[..3]);

    // ensure we fail beyond MAX_CAP of 8
    let resize_result = in_place_resized_bottle.resize_in_place(9);
    assert!(resize_result.is_err());
    assert_eq!(in_place_resized_bottle.capacity(), 8);
    assert_eq!(in_place_resized_bottle.get_content().as_slice(), &bottle_base_content[..3]);

    let resize_result = in_place_resized_bottle.resize_in_place(5);
    assert!(resize_result.is_ok());
    assert_eq!(in_place_resized_bottle.capacity(), 5);
    assert_eq!(in_place_resized_bottle.get_content().as_slice(), &bottle_base_content[..3]);

    let taken_resized_bottle1 = base_bottle.clone();

    let taken_resized_bottle2 = taken_resized_bottle1.try_take_as_resized(3).unwrap();
    assert_eq!(taken_resized_bottle2.capacity(), 3);
    assert_eq!(taken_resized_bottle2.get_content().as_slice(), &bottle_base_content[..3]);

    let taken_resized_bottle3 = taken_resized_bottle2.try_take_as_resized(5).unwrap();
    assert_eq!(taken_resized_bottle3.capacity(), 5);
    assert_eq!(taken_resized_bottle3.get_content().as_slice(), &bottle_base_content[..3]);
}

#[test]
fn test_bottle_pour_in() {
    let mut bottle: KnownBottle<4> = bottle(&[Red], 4);

    assert_eq!(bottle.get_content().as_slice(), &[Red]);

    // Pour one unit of Red, should be fully successful
    let content = run(&[Red]);
    let test_pour_result = bottle.test_pour_in(content);
    let try_pour_result = bottle.try_pour_in(content);
    assert_eq!(try_pour_result, Ok(ColoredWaterRun { color: Red, size: 0 }));
    assert_eq!(test_pour_result, try_pour_result);
    assert_eq!(bottle.get_content().as_slice(), &[Red, Red]);

    // Pour in 1 unit of Aqua, should be unsuccessful due to mismatched colors
    let content = run(&[Aqua]);
    let test_pour_result = bottle.test_pour_in(content);
    let try_pour_result = bottle.try_pour_in(content);
    assert_eq!(try_pour_result, Err(PourInError::MismatchedColors));
    assert_eq!(test_pour_result, try_pour_result);
    assert_eq!(bottle.get_content().as_slice(), &[Red, Red]);

    // Pour in 4 units of Red, should be partially successful (2 poured in, 2 left over)
    let content = run(&[Red, Red, Red, Red]);
    let test_pour_result = bottle.test_pour_in(content);
    let try_pour_result = bottle.try_pour_in(content);
    assert_eq!(try_pour_result, Ok(ColoredWaterRun { color: Red, size: 2 }));
    assert_eq!(test_pour_result, try_pour_result);
    assert_eq!(bottle.get_content().as_slice(), &[Red, Red, Red, Red]);

    // Pour in 1 unit of Red, should be unsuccessful due to bottle already being full
    let content = run(&[Red]);
    let test_pour_result = bottle.test_pour_in(content);
    let try_pour_result = bottle.try_pour_in(content);
    assert_eq!(try_pour_result, Err(PourInError::AlreadyFull));
    assert_eq!(test_pour_result, try_pour_result);
    assert_eq!(bottle.get_content().as_slice(), &[Red, Red, Red, Red]);
}

#[test]
fn test_bottle_pour_out() {
    let mut source_bottle: KnownBottle<8> = bottle(&[Green, Blue, Red, Red, Red], 5);

    let mut dest_bottle: KnownBottle<8> = KnownBottle::try_new(2).unwrap();

    // Pour the top color run (2 reds) into destination, should be successful
    let test_pour_result = source_bottle.test_pour_out(&dest_bottle);
    let try_pour_result = source_bottle.try_pour_out(&mut dest_bottle);
    assert_eq!(try_pour_result, Ok(()));
    assert_eq!(test_pour_result, try_pour_result);
    assert_eq!(source_bottle.get_content().as_slice(), &[Green, Blue, Red]);
    assert_eq!(dest_bottle.get_content().as_slice(), &[Red, Red]);

    let mut source_bottle: KnownBottle<4> = bottle(&[Green, Blue], 2);
    let mut dest_bottle: KnownBottle<4> = bottle(&[Red], 4);

    // Attempt to pour the top color run (1 blue) into destination, should fail due to mismatched colors
    let test_pour_result = source_bottle.test_pour_out(&dest_bottle);
    let try_pour_result = source_bottle.try_pour_out(&mut dest_bottle);
    assert_eq!(try_pour_result, Err(PourOutError::DestinationError(PourInError::MismatchedColors)));
    assert_eq!(test_pour_result, try_pour_result);
    assert_eq!(source_bottle.get_content().as_slice(), &[Green, Blue]);
    assert_eq!(dest_bottle.get_content().as_slice(), &[Red]);

    let mut source_bottle: KnownBottle<4> = bottle(&[Red, Blue, Green], 3);
    let mut dest_bottle: KnownBottle<4> = bottle(&[Green], 1);

    // Attempt to pour the top color run (1 green) into destination, should fail due to no space
    let test_pour_result = source_bottle.test_pour_out(&dest_bottle);
    let try_pour_result = source_bottle.try_pour_out(&mut dest_bottle);
    assert_eq!(try_pour_result, Err(PourOutError::DestinationError(PourInError::AlreadyFull)));
    assert_eq!(test_pour_result, try_pour_result);
    assert_eq!(source_bottle.get_content().as_slice(), &[Red, Blue, Green]);
    assert_eq!(dest_bottle.get_content().as_slice(), &[Green]);

    let mut source_bottle: KnownBottle<4> = KnownBottle::try_new(4).unwrap();
    let mut dest_bottle: KnownBottle<4> = KnownBottle::try_new(4).unwrap();

    //Attempt to pour the top color run (nothing) into destination, should fail due to source bottle being empty
    let test_pour_result = source_bottle.test_pour_out(&dest_bottle);
    let try_pour_result = source_bottle.try_pour_out(&mut dest_bottle);
    assert_eq!(try_pour_result, Err(PourOutError::Empty));
    assert_eq!(test_pour_result, try_pour_result);
}

#[test]
fn partial_bottle_set_color_from_the_top() {
    let mut b: PartialBottle<4> = PartialBottle::try_new(4, 3).unwrap();
    // only the topmost unit of unknown color can become known
    assert!(b.try_set_color(0, Some(colorgetter::colored_water::PartialColoredWaterUnit::Color(Red))).is_err());
    assert!(b.try_set_color(2, Some(colorgetter::colored_water::PartialColoredWaterUnit::Color(Red))).is_ok());
    assert_eq!(b.get_unknown_count(), 2);
    assert_eq!(b.get_known_content().as_slice(), &[Red]);
}

#[test]
fn bottles_compare_by_capacity_then_size_then_colors() {
    let small: KnownBottle<4> = bottle(&[Red, Red], 3);
    let big: KnownBottle<4> = bottle(&[Blue], 4);
    // less capacity first, whatever the content
    assert_eq!(small.compare(&big), Comparison::Less);
    assert_eq!(big.compare(&small), Comparison::Greater);
    let one: KnownBottle<4> = bottle(&[Brown], 4);
    let two: KnownBottle<4> = bottle(&[Red, Blue], 4);
    // same capacity: fewer units first
    assert_eq!(one.compare(&two), Comparison::Less);
    let red_bottom: KnownBottle<4> = bottle(&[Red, Brown], 4);
    let blue_bottom: KnownBottle<4> = bottle(&[Blue, Red], 4);
    // Red comes before Blue, and the bottom unit decides
    assert_eq!(red_bottom.compare(&blue_bottom), Comparison::Less);
    assert_eq!(blue_bottom.compare(&red_bottom), Comparison::Greater);
    assert_eq!(two.compare(&two.clone()), Comparison::Equal);
}

#[test]
fn finish_estimate_counts_runs_and_missing_units() {
    // full of one color: nothing to do
    let done: KnownBottle<4> = bottle(&[Red, Red, Red, Red], 4);
    assert_eq!(done.pours_to_finish_estimate(), 0);
    // empty: one pour in per unit of space
    let empty: KnownBottle<4> = bottle(&[], 4);
    assert_eq!(empty.pours_to_finish_estimate(), 4);
    // bottom Red counts as done; three runs to pour out, three units to pour in
    let mixed: KnownBottle<4> = bottle(&[Red, Blue, Red, Blue], 4);
    assert_eq!(mixed.pours_to_finish_estimate(), 6);
    assert!(mixed.pours_to_finish_estimate() <= 2 * 4);
    // an unknown bottom unit is never done, and each unknown unit is a run of its own
    let partial: PartialBottle<4> = PartialBottle::try_with_content(&[Blue], 2).unwrap();
    assert_eq!(partial.pours_to_finish_estimate(), 3 + 3);
}

#[test]
fn next_and_prev_undo_each_other() {
    let mut c = ColoredWaterUnit::first();
    let mut seen = 1;
    while let Some(n) = c.next() {
        assert_eq!(n.prev(), Some(c));
        c = n;
        seen += 1;
    }
    assert_eq!(c, ColoredWaterUnit::last());
    assert_eq!(seen, 12);
    assert_eq!(ColoredWaterUnit::first().prev(), None);
}

/// Sets a color through the [Bottle] trait
fn set<B: Bottle>(b: &mut B, idx: usize, c: Option<PartialColoredWaterUnit>) -> Result<(), ColorSetError> {
    b.try_set_color(idx, c)
}

#[test]
fn partial_bottle_set_color_through_the_bottle_trait() {
    // two unknown units below Blue, capacity 4
    let mut b: PartialBottle<4> = PartialBottle::try_with_content(&[Blue], 2).unwrap().try_take_as_resized(4).unwrap();
    // the topmost unknown unit may become known
    assert_eq!(set(&mut b, 1, Some(PartialColoredWaterUnit::Color(Red))), Ok(()));
    assert_eq!(b.get_unknown_count(), 1);
    // the one below it now has a known unit above it
    assert!(set(&mut b, 0, None).is_err());
    // nothing may be put above empty space
    assert_eq!(set(&mut b, 4, Some(PartialColoredWaterUnit::Color(Red))), Err(ColorSetError::EmptyBelow));
}

#[test]
fn sampling_at_the_capacity_is_out_of_bounds() {
    let b: KnownBottle<4> = bottle(&[Red], 2);
    assert_eq!(b.sample_at(0), BottleSampleResult::KnownColor(Red));
    assert_eq!(b.sample_at(1), BottleSampleResult::Empty);
    assert_eq!(b.sample_at(2), BottleSampleResult::OutOfBounds);
}

#[test]
fn testing_an_empty_pour_gives_what_the_pour_gives() {
    let mut b: KnownBottle<4> = bottle(&[Red], 4);
    let empty = ColoredWaterRun { color: Red, size: 0 };
    let tested = b.test_pour_in(empty);
    assert_eq!(tested, Err(PourInError::AlreadyFull));
    assert_eq!(b.try_pour_in(empty), tested);
}

#[test]
fn partial_resize_beyond_its_own_max_cap_fails() {
    let b: PartialBottle<4> = PartialBottle::try_new(4, 0).unwrap();
    assert!(b.try_get_resized::<8>(6).is_err());
    assert!(b.try_get_resized::<8>(3).is_ok());
    assert!(b.try_get_resized::<2>(3).is_err());
}
