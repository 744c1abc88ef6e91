//! One game picked against the spread.

use vstd::prelude::*;

verus! {

/// A game between two teams with the home team's spread. The spread is kept
/// in half points (a spread of `-3.5` is `-7`), as every spread is a multiple
/// of one half.
#[derive(Debug)]
pub struct Spread {
    pub home_id: i32,
    pub away_id: i32,
    pub home_spread_halves: i64,
    pub notes: Option<String>,
    pub answer: Option<String>,
}

} // verus!

verus! {

/// A submitted home spread once read as a number: a whole number of half
/// points, or a text that is not a multiple of one half.
#[derive(Clone, Copy, Debug, PartialEq, Eq, Structural)]
pub enum SpreadAmount {
    Halves(i64),
    Invalid,
}

} // verus!
