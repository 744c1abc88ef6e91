//! Books as the server functions see them.

use vstd::prelude::*;

use crate::db::book::BookRole;
use crate::server::{is_request_error, request_error, ServerFnError};

verus! {

/// Reading a book's pages needs a role in it.
pub fn require_member(role: BookRole, refusal: &str) -> (r: Result<(), ServerFnError>)
    ensures
        r is Ok <==> role != BookRole::Unauthorized,
        r matches Err(e) ==> is_request_error(e, refusal@),
{
    if role == BookRole::Unauthorized {
        return Err(request_error(refusal));
    }
    Ok(())
}

/// Creating a book needs the site's admin permission.
pub fn require_book_creator(permitted: bool) -> (r: Result<(), ServerFnError>)
    ensures
        r is Ok <==> permitted,
        r matches Err(e) ==> is_request_error(e, "Not permitted to create books"@),
{
    if !permitted {
        return Err(request_error("Not permitted to create books"));
    }
    Ok(())
}

} // verus!
