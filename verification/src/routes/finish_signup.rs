//! Finishing a sign-up that began with an outside account: choosing a display name.

use vstd::prelude::*;

use crate::error::{is_rejection, rejection, Rejection, Status};
use crate::routes::session::{check_robot, spec_robot_message};
use crate::routes::signup::{
    ascii_alnum_code, is_allowed_username, lemma_allowed_usernames_are_ascii_alnum, username_allowed,
};

verus! {

/// The form that finishes a sign-up.
pub struct FinishSignupForm {
    pub username: String,
    pub turnstile_response: String,
}

/// The checks of the form, in order: the robot check, then the username,
/// which must not be empty and must hold only ASCII letters and digits.
pub fn check_finish_signup(form: &FinishSignupForm, passed_robot_check: bool) -> (r: Result<
    (),
    Rejection,
>)
    ensures
        !passed_robot_check ==> (r matches Err(e) && is_rejection(
            e,
            Status::Unauthorized,
            spec_robot_message(),
        )),
        passed_robot_check && !(form.username@.len() > 0 && username_allowed(form.username@))
            ==> (r matches Err(e) && is_rejection(e, Status::BadRequest, "Username is not allowed"@)),
        r is Ok <==> (passed_robot_check && form.username@.len() > 0 && username_allowed(
            form.username@,
        )),
        r is Ok ==> forall|i: int|
            0 <= i < form.username@.len() ==> ascii_alnum_code(#[trigger] form.username@[i] as int),
{
    proof {
        lemma_allowed_usernames_are_ascii_alnum(form.username@);
    }
    check_robot(passed_robot_check)?;
    if form.username.as_str().is_empty() || !is_allowed_username(form.username.as_str()) {
        return Err(rejection(Status::BadRequest, "Username is not allowed"));
    }
    Ok(())
}

} // verus!
