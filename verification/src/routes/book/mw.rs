//! Who may enter a book's pages: members, and for some pages only its admins.

use vstd::prelude::*;

use crate::db::book::{BookRole, BookSubscription};
use crate::db::chapter::Chapter;
use crate::error::{is_rejection, rejection, Rejection, Status};
use crate::text::{parse_i32, spec_parse_i32};

verus! {

/// The book id of the path: the `book_id` segment read as a number.
pub fn book_id_param(param: Option<&str>) -> (r: Result<i32, Rejection>)
    ensures
        match param {
            Some(p) => match spec_parse_i32(p@) {
                Some(id) => r == Ok::<i32, Rejection>(id),
                None => r matches Err(e) && is_rejection(e, Status::BadRequest, "Could not find Book ID"@),
            },
            None => r matches Err(e) && is_rejection(e, Status::BadRequest, "Could not find Book ID"@),
        },
{
    match param {
        Some(p) => match parse_i32(p) {
            Some(id) => Ok(id),
            None => Err(rejection(Status::BadRequest, "Could not find Book ID")),
        },
        None => Err(rejection(Status::BadRequest, "Could not find Book ID")),
    }
}

/// Lets a user into a book: a book that was not found is answered as not
/// found, and a user without a role in it as unauthorized.
pub fn admit_member(lookup: Option<BookSubscription>) -> (r: Result<BookSubscription, Rejection>)
    ensures
        match lookup {
            None => r matches Err(e) && is_rejection(e, Status::NotFound, "Could not find book"@),
            Some(s) => if s.role == BookRole::Unauthorized {
                r matches Err(e) && is_rejection(e, Status::Unauthorized, "Not a member of this book"@)
            } else {
                r == Ok::<BookSubscription, Rejection>(s)
            },
        },
{
    match lookup {
        None => Err(rejection(Status::NotFound, "Could not find book")),
        Some(s) => {
            if s.role == BookRole::Unauthorized {
                Err(rejection(Status::Unauthorized, "Not a member of this book"))
            } else {
                Ok(s)
            }
        },
    }
}

/// Admin pages are open to a book's admins only.
pub fn require_admin(role: BookRole) -> (r: Result<(), Rejection>)
    ensures
        r is Ok <==> role == BookRole::Admin,
        r matches Err(e) ==> is_rejection(
            e,
            Status::Unauthorized,
            "You do not have admin privilages for this book"@,
        ),
{
    if role != BookRole::Admin {
        return Err(
            rejection(Status::Unauthorized, "You do not have admin privilages for this book"),
        );
    }
    Ok(())
}

/// A chapter page goes on only when the chapter was found.
pub fn chapter_found(lookup: Option<Chapter>) -> (r: Result<Chapter, Rejection>)
    ensures
        match lookup {
            None => r matches Err(e) && is_rejection(e, Status::NotFound, "Could not find chapter"@),
            Some(c) => r == Ok::<Chapter, Rejection>(c),
        },
{
    match lookup {
        None => Err(rejection(Status::NotFound, "Could not find chapter")),
        Some(c) => Ok(c),
    }
}

} // verus!
