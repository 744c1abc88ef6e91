//! What a book's owner may do to its members.

use vstd::prelude::*;

use crate::db::book::{BookRole, BookSubscription};
use crate::server::{is_request_error, request_error, ServerFnError};

verus! {

/// The owner-only actions on a book.
#[derive(Clone, Copy, Debug, PartialEq, Eq, Structural)]
pub enum OwnerAction {
    DeleteBook,
    AddUser,
    RemoveUser,
    PromoteAdmin,
    DemoteAdmin,
    GetSubscription,
}

/// What a non-owner is told for each owner-only action.
pub open spec fn spec_not_owner_message(action: OwnerAction) -> Seq<char> {
    match action {
        OwnerAction::DeleteBook => "You can't just delete someone else's book! Rude!!!"@,
        OwnerAction::AddUser => "I love your enthusiasm, but you can't add people to a book you don't own"@,
        OwnerAction::RemoveUser => "You can't remove people from a book that isn't yours... that's antisocial"@,
        OwnerAction::PromoteAdmin => "That's flattering, but you can't promte people in a book that isn't yours."@,
        OwnerAction::DemoteAdmin => "You can't demote people in a book that isn't yours... that's antisocial"@,
        OwnerAction::GetSubscription => "I can't just give out info willy nilly"@,
    }
}

/// Only a book's owner may take these actions.
pub fn require_owner(role: BookRole, action: OwnerAction) -> (r: Result<(), ServerFnError>)
    ensures
        r is Ok <==> role == BookRole::Owner,
        r matches Err(e) ==> is_request_error(e, spec_not_owner_message(action)),
{
    if role == BookRole::Owner {
        return Ok(());
    }
    Err(
        match action {
            OwnerAction::DeleteBook => request_error(
                "You can't just delete someone else's book! Rude!!!",
            ),
            OwnerAction::AddUser => request_error(
                "I love your enthusiasm, but you can't add people to a book you don't own",
            ),
            OwnerAction::RemoveUser => request_error(
                "You can't remove people from a book that isn't yours... that's antisocial",
            ),
            OwnerAction::PromoteAdmin => request_error(
                "That's flattering, but you can't promte people in a book that isn't yours.",
            ),
            OwnerAction::DemoteAdmin => request_error(
                "You can't demote people in a book that isn't yours... that's antisocial",
            ),
            OwnerAction::GetSubscription => request_error("I can't just give out info willy nilly"),
        },
    )
}

/// What promoting a member takes, by the member's current role.
#[derive(Clone, Copy, Debug, PartialEq, Eq, Structural)]
pub enum PromotePlan {
    AlreadyAdmin,
    AddThenPromote,
    Promote,
}

/// How to promote a member to admin: an admin already is one, an owner is
/// not promoted, someone outside the book is added first.
pub fn promote_plan(target: BookRole) -> (r: Result<PromotePlan, ServerFnError>)
    ensures
        target == BookRole::Admin ==> r == Ok::<PromotePlan, ServerFnError>(PromotePlan::AlreadyAdmin),
        target == BookRole::Owner ==> (r matches Err(e) && is_request_error(
            e,
            "You are already kind of an admin (you're the owner)"@,
        )),
        target == BookRole::Unauthorized ==> r == Ok::<PromotePlan, ServerFnError>(
            PromotePlan::AddThenPromote,
        ),
        target == BookRole::Participant ==> r == Ok::<PromotePlan, ServerFnError>(PromotePlan::Promote),
{
    match target {
        BookRole::Admin => Ok(PromotePlan::AlreadyAdmin),
        BookRole::Owner => Err(request_error("You are already kind of an admin (you're the owner)")),
        BookRole::Unauthorized => Ok(PromotePlan::AddThenPromote),
        BookRole::Participant => Ok(PromotePlan::Promote),
    }
}

/// A user's subscription to a book: the stored one, or one without a role
/// under the book's name when the user is not in it.
pub fn subscription_or_unauthorized(
    found: Option<BookSubscription>,
    book_id: i32,
    user_id: i32,
    book_name: String,
) -> (r: BookSubscription)
    ensures
        match found {
            Some(s) => r == s,
            None => r == (BookSubscription {
                book_id,
                user_id,
                name: book_name,
                role: BookRole::Unauthorized,
            }),
        },
{
    match found {
        Some(s) => s,
        None => BookSubscription { book_id, user_id, name: book_name, role: BookRole::Unauthorized },
    }
}

} // verus!
