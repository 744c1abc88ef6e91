//! The checks of the book server functions: who may do what to a book, and
//! what a refusal says.

pub mod admin_app;
pub mod admin_book;
pub mod book;
pub mod chapter;
pub mod user;

use vstd::prelude::*;

verus! {

/// How a server function fails: a refused request, bad arguments, or a server error.
#[derive(Debug)]
pub enum ServerFnError {
    Request(String),
    Args(String),
    ServerError(String),
}

/// `e` refuses the request with message `msg`.
pub open spec fn is_request_error(e: ServerFnError, msg: Seq<char>) -> bool {
    e matches ServerFnError::Request(m) && m@ == msg
}

/// `e` refuses the arguments with message `msg`.
pub open spec fn is_args_error(e: ServerFnError, msg: Seq<char>) -> bool {
    e matches ServerFnError::Args(m) && m@ == msg
}

/// `e` is a server error with message `msg`.
pub open spec fn is_server_error(e: ServerFnError, msg: Seq<char>) -> bool {
    e matches ServerFnError::ServerError(m) && m@ == msg
}

/// A refused request with the given message.
pub fn request_error(msg: &str) -> (e: ServerFnError)
    ensures
        is_request_error(e, msg@),
{
    ServerFnError::Request(msg.to_owned())
}

/// Refused arguments with the given message.
pub fn args_error(msg: &str) -> (e: ServerFnError)
    ensures
        is_args_error(e, msg@),
{
    ServerFnError::Args(msg.to_owned())
}

/// A server error with the given message.
pub fn server_error(msg: &str) -> (e: ServerFnError)
    ensures
        is_server_error(e, msg@),
{
    ServerFnError::ServerError(msg.to_owned())
}

} // verus!
