//! A solver for "water sort" puzzles: bottles of colored water units that are poured
//! between each other until every bottle is either empty or full of a single color.
//!
//! Some units may be of unknown color; the library can search for the pours that reveal
//! hidden colors, enumerate the fully known states a partially known state could be,
//! and find solutions for fully known states.
pub mod colored_water;
pub mod bottle;
pub mod gamestate;
pub mod solution;
pub mod ui;
