//! A treasure hunt on a rectangular grid: mountains block the way, treasures
//! are collected one at a time, and adventurers follow their command strings
//! round after round until every string is used up.

pub mod element;
pub mod grid;
pub mod movement;
pub mod simulation;
pub mod record;
