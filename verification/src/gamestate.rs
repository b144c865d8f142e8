//! The state of an entire game (a collection of bottles) and the pours that can be applied to it
mod gamestate_trait;
pub use gamestate_trait::{
    BottleView, GameState, SolvableGameState, apply_pour, copy_state, bottle_finished, bottle_view,
    bottles_view, bottles_wf, lemma_apply_pour_shape, lemma_run_pours_append, lemma_run_pours_push, next_valid_pour, pour_check, run_pours,
    same_shape, state_view, state_wf,
};

mod equivalence;
pub use equivalence::{
    bottles_equivalent, lemma_perm_multiset, lemma_perm_of, lemma_pour_moved, lemma_same_elements, moved_index,
    moved_pour, perm_rel, same_bottle, states_equivalent, views_equivalent,
};

mod pour_def;
pub use pour_def::{
    Pour, PourError, ValidPour, ValidPourIter, bottles_inv, fillable_kept, lemma_wf_pour_fits, pour_fits_storage,
};

mod known_gamestate;
pub use known_gamestate::{CapacityError, KnownGameState, known_solved};

mod standard_order;
pub use standard_order::{
    all_known, in_order, insert_in_order, known_view, lemma_known_state_order, lemma_state_order, not_after, standard_order, state_order,
    unit_color, view_colors, views_at,
    view_order, views_order,
};

mod partial_gamestate;
pub use partial_gamestate::{PartialGameState, has_unknown_top, partial_solved, state_finish_estimate};

mod unit_counts;
pub use unit_counts::{count_units, lemma_pour_keeps_units, lemma_run_pours_keeps, state_units};

mod pseudo_partial_gamestate;
pub use pseudo_partial_gamestate::{
    PseudoPartialGameState, PseudoPartialGameStateError, bottle_matches, hide_below_top, states_match, views_match,
};

mod collapse;
pub use collapse::{
    arrangement_count, checked_fact_product, fact, factorial, lemma_permutable_units_len, permutable_fits, permutable_seen, permutable_units, permutable_values, units_in_order,
    permutable_shares, to_permutable, uniform_caps,
};

mod fill_unknown;
pub use fill_unknown::{
    filled_state, filled_units, known_part, lemma_collapse_keeps_known, lemma_collapse_units, lemma_partial_parts,
    lemma_unknown_in_partial, permutation_as_known, split_below, taken_colors, unknown_in,
};

mod sampling;
pub use sampling::{
    BasicShuffleIter, CollapseSearch, ExThreadRng, RandomCollapse, all_distinct, collapse_arrangements, collapse_of,
    collapse_draw_limit, collapse_target, collapse_unit_seq, collapse_units, states_views, collapsible, first_occurrences, has_equivalent,
    lemma_first_occurrences, unit_permutations,
};
