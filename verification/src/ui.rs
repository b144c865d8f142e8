//! The decisions behind the interactive menus: what each key does to the state of a menu.
//! Reading keys from the terminal and drawing the menus is up to the program around the library.
mod keys;
pub use keys::{ExitRequest, Key, KeyInput, KeyKind, is_exit_chord, pressed_or_held};

mod solution_viewer;
pub use solution_viewer::{
    PourIdxChangeError, SolutionViewerState, displayed_state, lemma_back_undoes_on, next_pour, previous_pour,
};

mod unit_cycle;
pub use unit_cycle::{cycle_at, cycle_choice, cycle_pos, cycle_unit, cycled, lemma_choice_some};

mod setup_menu;
pub use setup_menu::{
    lemma_count_right_left,
    SetupAction, SetupCursorState, SetupMenuState, SetupModel, SpecificBottleData, adds_bottle, blocked, clamp_unit, cycled_content,
    down_step, enter_step, esc_step, fix_cursor, left_step, right_step, setup_key_step, shift_left_step,
    shift_right_step, specific_cursor, up_step,
};

mod save_menu;
pub use save_menu::{SaveCursorState, SaveMenuEventResult, SaveMenuState, clamp_index, default_save_path, lemma_backspace_then_retype, save_key_step};

mod display;
pub use display::{DisplayCell, cell_selected, display_cell, display_row_count, display_rows, row_length, row_ranges};
