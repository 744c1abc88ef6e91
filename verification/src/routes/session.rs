//! Signing in: the robot check every sign-in form passes first.

use vstd::prelude::*;

use crate::error::{is_rejection, rejection, Rejection, Status};

verus! {

/// The answer when a form fails the robot check.
pub open spec fn spec_robot_message() -> Seq<char> {
    "You did not pass our check for robots"@
}

/// A form goes on only when the robot check passed; a failed or unanswered
/// check is refused as unauthorized.
pub fn check_robot(passed: bool) -> (r: Result<(), Rejection>)
    ensures
        r is Ok <==> passed,
        r matches Err(e) ==> is_rejection(e, Status::Unauthorized, spec_robot_message()),
{
    if !passed {
        return Err(rejection(Status::Unauthorized, "You did not pass our check for robots"));
    }
    Ok(())
}

/// Where a sign-in goes next: the page named by the `next` parameter of the
/// page the form was sent from, or the home page when there is none.
pub fn sign_in_destination(next: Option<String>) -> (r: String)
    ensures
        r@ == match next {
            Some(n) => n@,
            None => "/"@,
        },
{
    match next {
        Some(n) => n,
        None => "/".to_owned(),
    }
}

} // verus!
