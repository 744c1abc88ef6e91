//! Site-wide admin rights.

use vstd::prelude::*;

use crate::server::{is_request_error, request_error, ServerFnError};
use crate::text::text_eq;

verus! {

/// Whether `permissions` holds `p`.
pub open spec fn holds_permission(permissions: Seq<String>, p: Seq<char>) -> bool {
    exists|i: int| 0 <= i < permissions.len() && (#[trigger] permissions[i])@ == p
}

/// Whether a user's permissions hold the given one.
pub fn has_permission(permissions: &Vec<String>, permission: &str) -> (r: bool)
    ensures
        r == holds_permission(permissions@, permission@),
{
    let mut i: usize = 0;
    while i < permissions.len()
        invariant
            i <= permissions@.len(),
            forall|j: int| 0 <= j < i ==> (#[trigger] permissions@[j])@ != permission@,
        decreases permissions@.len() - i,
    {
        if text_eq(permissions[i].as_str(), permission) {
            assert((permissions@[i as int])@ == permission@);
            return true;
        }
        i = i + 1;
    }
    false
}

/// Only the site's owner may make other users admins.
pub fn require_site_owner(permissions: Option<&Vec<String>>) -> (r: Result<(), ServerFnError>)
    ensures
        r is Ok <==> (permissions matches Some(p) && holds_permission(p@, "owner"@)),
        r matches Err(e) ==> is_request_error(e, "You can't go in there!"@),
{
    match permissions {
        Some(p) => if has_permission(p, "owner") {
            Ok(())
        } else {
            Err(request_error("You can't go in there!"))
        },
        None => Err(request_error("You can't go in there!")),
    }
}

} // verus!
