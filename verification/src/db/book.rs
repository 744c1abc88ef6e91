//! Books and a user's standing in one.

use vstd::prelude::*;

verus! {

/// What a user may do in a book.
#[derive(Clone, Copy, Debug, PartialEq, Eq, Structural)]
pub enum BookRole {
    Owner,
    Admin,
    Participant,
    Unauthorized,
}

/// A user's subscription to a book.
#[derive(Clone, Debug)]
pub struct BookSubscription {
    pub book_id: i32,
    pub user_id: i32,
    pub name: String,
    pub role: BookRole,
}

} // verus!
