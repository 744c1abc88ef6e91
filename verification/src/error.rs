//! How a refused request is answered: a status and, where the site shows one,
//! a message for the user.

use vstd::prelude::*;

verus! {

/// The HTTP statuses the site answers refused requests with.
#[derive(Clone, Copy, Debug, PartialEq, Eq, Structural)]
pub enum Status {
    BadRequest,
    Unauthorized,
    NotFound,
    Conflict,
    RequestTimeout,
    InternalServerError,
}

/// A refused request: its status and the message shown to the user, if any.
#[derive(Debug)]
pub struct Rejection {
    pub status: Status,
    pub message: Option<String>,
}

/// `r` has status `status` and shows exactly `msg`.
pub open spec fn is_rejection(r: Rejection, status: Status, msg: Seq<char>) -> bool {
    &&& r.status == status
    &&& r.message matches Some(m) && m@ == msg
}

/// `r` has status `status` and shows no message.
pub open spec fn is_bare_rejection(r: Rejection, status: Status) -> bool {
    &&& r.status == status
    &&& r.message is None
}

/// A rejection with a message.
pub fn rejection(status: Status, msg: &str) -> (r: Rejection)
    ensures
        is_rejection(r, status, msg@),
{
    Rejection { status, message: Some(msg.to_owned()) }
}

/// A rejection without a message.
pub fn bare_rejection(status: Status) -> (r: Rejection)
    ensures
        is_bare_rejection(r, status),
{
    Rejection { status, message: None }
}

} // verus!
