//! Minimum press counts for codes typed on a numeric keypad that is driven
//! through a chain of directional keypads.
//!
//! A human presses a directional keypad that steers a robot arm over another
//! directional keypad, and so on for a configurable chain depth; the innermost
//! robot types on a numeric keypad. The library models the two fixed keypad
//! layouts, enumerates the minimum-length move sequences between keys,
//! computes the minimum number of primitive presses for a key transition at a
//! given depth with a bottom-up cost table, and aggregates per-code costs into
//! weighted complexities.

pub mod code;
pub mod cost;
pub mod day_output;
pub mod direction;
pub mod part_result;
pub mod grid;
pub mod keypad;
pub mod paths;
pub mod solve;
