//! Events as the book pages store them, where a spread event is one game.

use vstd::prelude::*;

verus! {

/// One game against the spread (no recorded answer).
/// The spread is kept in half points.
#[derive(Debug)]
pub struct SingleGameSpread {
    pub home_id: i32,
    pub away_id: i32,
    pub home_spread_halves: i64,
    pub notes: Option<String>,
}

/// A question (no acceptable answers).
#[derive(Debug)]
pub struct SingleGameInput {
    pub title: String,
    pub description: Option<String>,
    pub points: i32,
}

/// Event contents where a spread event is one game.
#[derive(Debug)]
pub enum SingleGameContent {
    SpreadGroup(SingleGameSpread),
    UserInput(SingleGameInput),
}

} // verus!
