//! Bottles of colored water: bottles whose colors are all known, and bottles with
//! some units of unknown color at the bottom.
mod misc;
pub use misc::{BottleCapacityError, BottleMaxCapError, PourInError, PourOutError};

mod bottle_trait;
pub use bottle_trait::{
    ColorSetError, BottleSampleResult, BottleSampleConversionError, unit_sample, known_units, unknown_units, color_units, sample_of, top_unit, run_down, run_up, top_run_len, top_run, top_mismatch, space_left, pour_in_amount, pour_in_result, out_run, pour_out_result, pour_out_amount, poured_color, units_after_set, runs_from, done_count, finish_estimate, lemma_run_down_bound, lemma_run_up_bound, lemma_runs_from_bound, lemma_finish_estimate_bounds, lemma_top_run, fillable_v, fillable, pour_in_fits_v, pour_in_fits, lemma_fillable_fits, pour_out_fits, Bottle, try_pour_out, test_pour_out,
};

mod known_bottle;
pub use known_bottle::{
    Comparison, KnownBottle, PartialBottleConversionError, bottle_order, content_order, known_final, known_set_result,
    lemma_bottle_order,
};

mod partial_bottle;
pub use partial_bottle::{PartialBottle, PartialColorSetError, as_color_set_error, as_set_result, lemma_take_units, partial_set_result};
