//! Picks submitted from the book pages. They follow the chapter page's rule:
//! every spread group's points must rank its games `1..=n`, and every event id
//! must be a number.

use vstd::prelude::*;

use crate::db::event::{PickChoice, PickWager};
use crate::error::{is_rejection, Rejection, Status};
use crate::routes::chapter::page::{
    picks_agree, spec_pick_error_message, spec_validate_picks, validate_picks as check_picks,
};

pub use crate::routes::chapter::page::{PickSubmission, SpreadGroupSpread, SubmissionEvent};

verus! {

/// Checks a submission from the book pages as the chapter page does: a
/// refused submission is a bad request carrying the reason's message; an
/// accepted one gives the event ids, choices and wagers in event order, each
/// group's wagers a ranking of its games.
pub fn validate_picks(events: Vec<SubmissionEvent>) -> (r: Result<
    (Vec<i32>, Vec<PickChoice>, Vec<PickWager>),
    Rejection,
>)
    ensures
        r is Ok <==> spec_validate_picks(events@) is Ok,
        r matches Err(e) ==> (spec_validate_picks(events@) matches Err(k) && is_rejection(
            e,
            Status::BadRequest,
            spec_pick_error_message(k),
        )),
        r matches Ok(t) ==> picks_agree(t, spec_validate_picks(events@)->Ok_0),
{
    match check_picks(events) {
        Ok(t) => Ok(t),
        Err(k) => Err(k.rejection()),
    }
}

} // verus!
