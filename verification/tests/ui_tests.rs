use colorgetter::bottle::{KnownBottle, PartialBottle};
use colorgetter::colored_water::{ColoredWaterUnit, PartialColoredWaterUnit};
use colorgetter::gamestate::{KnownGameState, PartialGameState, Pour};
use colorgetter::solution::Solution;
use colorgetter::ui::{
    display_rows, row_ranges, DisplayCell, ExitRequest, Key, KeyInput, KeyKind, PourIdxChangeError, SaveCursorState,
    SaveMenuEventResult, SaveMenuState, SetupAction, SetupCursorState, SetupMenuState, SolutionViewerState,
};

use ColoredWaterUnit::{Blue, Red};

fn press(key: Key) -> KeyInput {
    KeyInput { key, kind: KeyKind::Press, control: false, shift: false }
}

fn shift(key: Key) -> KeyInput {
    KeyInput { key, kind: KeyKind::Press, control: false, shift: true }
}

fn ctrl_c() -> KeyInput {
    KeyInput { key: Key::Char('c'), kind: KeyKind::Press, control: true, shift: false }
}

fn known(content: &[ColoredWaterUnit], capacity: usize) -> KnownBottle<4> {
    KnownBottle::<4>::try_with_content(content).unwrap().try_take_as_resized(capacity).unwrap()
}

fn two_step_state() -> KnownGameState<4, 4> {
    KnownGameState::try_from_bottles(&[known(&[Red, Blue], 2), known(&[Blue], 2), known(&[Red], 2)]).unwrap()
}

#[test]
fn viewer_steps_through_the_pours() {
    let gs = two_step_state();
    let solution = Solution::try_from_parts(
        &gs,
        vec![
            Pour { source_bottle_index: 0, dest_bottle_index: 1 },
            Pour { source_bottle_index: 0, dest_bottle_index: 2 },
        ],
    )
    .unwrap();
    let mut viewer = SolutionViewerState::new(&solution);
    assert_eq!(viewer.current_pour_idx(), None);
    let (state, pour) = viewer.get_displayed_state_and_pour();
    assert!(state.equivalent(&gs));
    assert_eq!(pour, None);

    assert_eq!(viewer.try_dec_current_pour_idx(), Err(PourIdxChangeError::OutOfBounds));
    assert_eq!(viewer.handle_key(press(Key::Right)), Ok(false));
    assert_eq!(viewer.current_pour_idx(), Some(0));
    let (state, pour) = viewer.get_displayed_state_and_pour();
    assert_eq!(pour, Some(Pour { source_bottle_index: 0, dest_bottle_index: 1 }));
    assert_eq!(state.bottles[1].get_content().as_slice(), &[Blue, Blue]);

    assert_eq!(viewer.handle_key(press(Key::Enter)), Ok(false));
    assert_eq!(viewer.current_pour_idx(), Some(1));
    // moving past the last pour ends the viewer
    assert_eq!(viewer.handle_key(press(Key::Right)), Ok(true));
    assert_eq!(viewer.current_pour_idx(), Some(1));
    assert_eq!(viewer.handle_key(press(Key::Left)), Ok(false));
    assert_eq!(viewer.current_pour_idx(), Some(0));
    assert_eq!(viewer.handle_key(press(Key::Left)), Ok(false));
    assert_eq!(viewer.current_pour_idx(), None);
    assert_eq!(viewer.handle_key(ctrl_c()), Err(ExitRequest));
    assert_eq!(viewer.try_set_current_pour_idx(Some(2)), Err(PourIdxChangeError::OutOfBounds));
    assert_eq!(viewer.try_set_current_pour_idx(Some(1)), Ok(()));
    assert_eq!(viewer.try_inc_current_pour_idx(), Err(PourIdxChangeError::OutOfBounds));
}

#[test]
fn setup_menu_builds_a_game_state() {
    let mut menu: SetupMenuState<4, 4> = SetupMenuState::new(None, None);
    assert_eq!(menu.cursor_state(), SetupCursorState::Count);
    assert!(menu.take_needs_screen_clear());
    assert!(!menu.take_needs_screen_clear());
    // add two bottles of capacity 4
    assert_eq!(menu.handle_key(press(Key::Right)), Ok(SetupAction::Stay));
    assert_eq!(menu.handle_key(press(Key::Right)), Ok(SetupAction::Stay));
    assert_eq!(menu.gs.bottles.len(), 2);
    assert!(menu.take_needs_screen_clear());
    // to the capacity of the first bottle, down to 3
    assert_eq!(menu.handle_key(press(Key::Enter)), Ok(SetupAction::Stay));
    assert_eq!(menu.cursor_state(), SetupCursorState::Capacity { b_idx: 0 });
    menu.handle_key(press(Key::Down)).unwrap();
    assert_eq!(menu.gs.bottles[0].get_capacity(), 3);
    // to the content; cycle the bottom unit forward: empty -> unknown -> red
    menu.handle_key(press(Key::Enter)).unwrap();
    assert_eq!(menu.cursor_state(), SetupCursorState::Content { b_idx: 0, c_idx: 0 });
    menu.handle_key(press(Key::Right)).unwrap();
    assert_eq!(menu.gs.bottles[0].get_unknown_count(), 1);
    menu.handle_key(press(Key::Right)).unwrap();
    assert_eq!(menu.gs.bottles[0].get_unknown_count(), 0);
    assert_eq!(menu.gs.bottles[0].get_known_content().as_slice(), &[Red]);
    // backward goes back to unknown
    menu.handle_key(press(Key::Left)).unwrap();
    assert_eq!(menu.gs.bottles[0].get_unknown_count(), 1);
    // up moves to the unit above; shift+right to the next bottle, clamped to its units
    menu.handle_key(press(Key::Up)).unwrap();
    assert_eq!(menu.cursor_state(), SetupCursorState::Content { b_idx: 0, c_idx: 1 });
    menu.handle_key(shift(Key::Right)).unwrap();
    assert_eq!(menu.cursor_state(), SetupCursorState::Content { b_idx: 1, c_idx: 0 });
    // to solve and save, and back
    menu.handle_key(press(Key::Enter)).unwrap();
    assert_eq!(menu.cursor_state(), SetupCursorState::Solve);
    menu.handle_key(press(Key::Right)).unwrap();
    assert_eq!(menu.cursor_state(), SetupCursorState::Save);
    assert_eq!(menu.handle_key(press(Key::Enter)), Ok(SetupAction::Save));
    menu.set_saved_path(Some("x.json".to_string()));
    assert_eq!(menu.file_saved_path().as_deref(), Some("x.json"));
    menu.handle_key(press(Key::Left)).unwrap();
    assert_eq!(menu.file_saved_path().as_deref(), None);
    assert_eq!(menu.cursor_state(), SetupCursorState::Solve);
    assert_eq!(menu.handle_key(press(Key::Enter)), Ok(SetupAction::Confirm));
    assert_eq!(menu.handle_key(ctrl_c()), Err(ExitRequest));
}

#[test]
fn setup_menu_esc_on_count_asks_to_leave() {
    let mut menu: SetupMenuState<4, 4> = SetupMenuState::new(None, None);
    assert_eq!(menu.handle_key(press(Key::Esc)), Err(ExitRequest));
}

#[test]
fn setup_menu_for_a_specific_bottle() {
    let gs: PartialGameState<4, 4> = PartialGameState {
        bottles: vec![
            PartialBottle::try_with_content(&[Red], 0).unwrap(),
            PartialBottle::try_with_content(&[Blue], 2).unwrap(),
        ],
    };
    let mut menu = SetupMenuState::new(Some(gs), Some(1));
    assert!(menu.has_specific_bottle());
    // the cursor starts on the topmost unit of unknown color
    assert_eq!(menu.cursor_state(), SetupCursorState::Content { b_idx: 1, c_idx: 1 });
    // the unit can be given a color, never emptied
    menu.handle_key(press(Key::Right)).unwrap();
    assert_eq!(menu.gs.bottles[1].get_unknown_count(), 1);
    assert_eq!(menu.gs.bottles[1].get_known_content().as_slice(), &[Red, Blue]);
    // moving off the editable units brings the cursor back
    menu.handle_key(press(Key::Up)).unwrap();
    assert_eq!(menu.cursor_state(), SetupCursorState::Content { b_idx: 1, c_idx: 1 });
    menu.handle_key(press(Key::Esc)).unwrap();
    assert_eq!(menu.cursor_state(), SetupCursorState::Content { b_idx: 1, c_idx: 1 });
    assert_eq!(menu.gs.bottles.len(), 2);
}

#[test]
fn setup_menu_without_specific_bottle_starts_on_solve() {
    let gs: PartialGameState<4, 4> = PartialGameState { bottles: vec![PartialBottle::try_with_content(&[Red], 0).unwrap()] };
    let menu = SetupMenuState::new(Some(gs), Some(0));
    assert!(!menu.has_specific_bottle());
    assert_eq!(menu.cursor_state(), SetupCursorState::Solve);
}

#[test]
fn save_menu_edits_the_path() {
    let mut menu = SaveMenuState::new();
    let default: Vec<char> = "./saved_gamestate.json".chars().collect();
    assert_eq!(*menu.filepath(), default);
    assert_eq!(menu.cursor_state(), SaveCursorState::FileName(default.len()));
    menu.handle_key(press(Key::Home)).unwrap();
    assert_eq!(menu.cursor_state(), SaveCursorState::FileName(0));
    menu.handle_key(press(Key::Char('a'))).unwrap();
    assert_eq!(menu.filepath()[0], 'a');
    assert_eq!(menu.cursor_state(), SaveCursorState::FileName(1));
    menu.handle_key(press(Key::Backspace)).unwrap();
    assert_eq!(*menu.filepath(), default);
    menu.handle_key(press(Key::Delete)).unwrap();
    assert_eq!(menu.filepath().len(), default.len() - 1);
    menu.handle_key(press(Key::End)).unwrap();
    assert_eq!(menu.cursor_state(), SaveCursorState::FileName(default.len() - 1));
    menu.handle_key(press(Key::Right)).unwrap();
    assert_eq!(menu.cursor_state(), SaveCursorState::FileName(default.len() - 1));
    menu.handle_key(press(Key::Left)).unwrap();
    assert_eq!(menu.cursor_state(), SaveCursorState::FileName(default.len() - 2));
    assert_eq!(menu.handle_key(press(Key::Enter)), Ok(SaveMenuEventResult::Nothing));
    assert_eq!(menu.cursor_state(), SaveCursorState::Confirm);
    menu.update_err_msg("failed".to_string());
    assert_eq!(menu.handle_key(press(Key::Enter)), Ok(SaveMenuEventResult::SaveAndExit));
    assert!(menu.last_err_msg().is_empty());
    assert_eq!(menu.handle_key(press(Key::Up)), Ok(SaveMenuEventResult::Nothing));
    assert_eq!(menu.cursor_state(), SaveCursorState::FileName(default.len() - 1));
    assert_eq!(menu.handle_key(press(Key::Esc)), Ok(SaveMenuEventResult::Exit));
    assert_eq!(menu.handle_key(ctrl_c()), Err(ExitRequest));
    // a released key does nothing
    let released = KeyInput { key: Key::Char('z'), kind: KeyKind::Release, control: false, shift: false };
    assert_eq!(menu.handle_key(released), Ok(SaveMenuEventResult::Nothing));
    assert_eq!(menu.filepath().len(), default.len() - 1);
}

#[test]
fn display_cells_of_a_game_state() {
    let gs: PartialGameState<4, 4> = PartialGameState {
        bottles: vec![
            PartialBottle::try_with_content(&[Red], 1).unwrap(),
            PartialBottle::try_new(1, 0).unwrap(),
        ],
    };
    let pour = Pour { source_bottle_index: 0, dest_bottle_index: 1 };
    let rows = display_rows(&gs, 0, 2, Some((0, Some(0))), Some(pour));
    // the tallest bottle holds 2 units: 3 rows, the top one for the pour markers
    assert_eq!(rows.len(), 3);
    assert_eq!(rows[0], vec![DisplayCell::From, DisplayCell::Nothing]);
    assert_eq!(rows[1], vec![DisplayCell::Known { color: Red, selected: false }, DisplayCell::To]);
    assert_eq!(
        rows[2],
        vec![DisplayCell::Unknown { selected: true }, DisplayCell::Empty { selected: false }]
    );
    assert_eq!(display_rows(&gs, 1, 1, None, None).len(), 0);
}

#[test]
fn row_ranges_split_the_bottles() {
    assert_eq!(row_ranges(5, 2), vec![(0, 3), (3, 5)]);
    assert_eq!(row_ranges(4, 2), vec![(0, 2), (2, 4)]);
    assert_eq!(row_ranges(3, 1), vec![(0, 3)]);
    assert_eq!(row_ranges(0, 2), vec![(0, 0)]);
}

#[test]
fn colors_have_their_rgb() {
    assert_eq!(Red.rgb(), (0xFF, 0, 0));
    assert_eq!(ColoredWaterUnit::Purple.rgb(), (70, 20, 101));
    assert_eq!(PartialColoredWaterUnit::Color(Blue), PartialColoredWaterUnit::from(Blue));
}
