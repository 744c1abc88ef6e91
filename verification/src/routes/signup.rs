//! Creating an account with a username and password.

use vstd::prelude::*;

use crate::error::{is_rejection, rejection, Rejection, Status};
use crate::routes::session::{check_robot, spec_robot_message};
use crate::text::{ascii_lower, ascii_lowercase, chars_of, is_ascii_alnum, is_ascii_alphanumeric};

verus! {

/// The sign-up form.
pub struct SignUpForm {
    pub username: String,
    pub password: String,
    pub password_confirmation: String,
    pub turnstile_response: String,
}

/// A username is allowed when every character is an ASCII letter or digit.
/// (No whitespace character is an ASCII letter or digit, so whitespace is refused too.)
pub open spec fn username_allowed(s: Seq<char>) -> bool {
    forall|i: int| 0 <= i < s.len() ==> is_ascii_alnum(#[trigger] s[i])
}

/// Whether every character of `username` is an ASCII letter or digit.
pub fn is_allowed_username(username: &str) -> (r: bool)
    ensures
        r == username_allowed(username@),
{
    let chars = chars_of(username);
    let mut i: usize = 0;
    while i < chars.len()
        invariant
            i <= chars@.len(),
            chars@ == username@,
            forall|j: int| 0 <= j < i ==> is_ascii_alnum(#[trigger] username@[j]),
        decreases chars@.len() - i,
    {
        if !is_ascii_alphanumeric(chars[i]) {
            return false;
        }
        i = i + 1;
    }
    true
}

/// The checks of the sign-up form, in order: the robot check, then the
/// username, then the password against its confirmation. An accepted form
/// gives the username in small letters, as the account is created with it.
pub fn check_signup_form(form: &SignUpForm, passed_robot_check: bool) -> (r: Result<
    String,
    Rejection,
>)
    ensures
        !passed_robot_check ==> (r matches Err(e) && is_rejection(
            e,
            Status::Unauthorized,
            spec_robot_message(),
        )),
        passed_robot_check && !username_allowed(form.username@) ==> (r matches Err(e)
            && is_rejection(e, Status::BadRequest, "Username is not allowed"@)),
        passed_robot_check && username_allowed(form.username@) && form.password@
            != form.password_confirmation@ ==> (r matches Err(e) && is_rejection(
            e,
            Status::Conflict,
            "Password does not match confirmation"@,
        )),
        r is Ok <==> (passed_robot_check && username_allowed(form.username@) && form.password@
            == form.password_confirmation@),
        r matches Ok(name) ==> name@ == form.username@.map_values(|c: char| ascii_lower(c)),
        r is Ok ==> forall|i: int|
            0 <= i < form.username@.len() ==> ascii_alnum_code(#[trigger] form.username@[i] as int),
{
    proof {
        lemma_allowed_usernames_are_ascii_alnum(form.username@);
    }
    check_robot(passed_robot_check)?;
    if !is_allowed_username(form.username.as_str()) {
        return Err(rejection(Status::BadRequest, "Username is not allowed"));
    }
    if form.password != form.password_confirmation {
        return Err(rejection(Status::Conflict, "Password does not match confirmation"));
    }
    Ok(ascii_lowercase(form.username.as_str()))
}

/// The name an account is created with is still an allowed username: putting
/// an allowed name in small letters keeps it to ASCII letters and digits.
pub proof fn lemma_stored_username_allowed(s: Seq<char>)
    requires
        username_allowed(s),
    ensures
        username_allowed(s.map_values(|c: char| ascii_lower(c))),
{
    let lowered = s.map_values(|c: char| ascii_lower(c));
    assert forall|i: int| 0 <= i < lowered.len() implies is_ascii_alnum(#[trigger] lowered[i]) by {
        assert(is_ascii_alnum(s[i]));
    }
}

/// The character codes of an ASCII digit (`0`..=`9`) or letter (`A`..=`Z`,
/// `a`..=`z`).
pub open spec fn ascii_alnum_code(k: int) -> bool {
    (48 <= k <= 57) || (65 <= k <= 90) || (97 <= k <= 122)
}

/// A username is allowed exactly when the code of every character is that of
/// an ASCII digit or letter; any other character, such as `.`, `_`, a space
/// or an accented letter, makes it refused.
pub proof fn lemma_allowed_usernames_are_ascii_alnum(s: Seq<char>)
    ensures
        username_allowed(s) <==> forall|i: int| 0 <= i < s.len() ==> ascii_alnum_code(
            #[trigger] s[i] as int,
        ),
{
    assert forall|c: char| is_ascii_alnum(c) <==> ascii_alnum_code(c as int) by {}
    if username_allowed(s) {
        assert forall|i: int| 0 <= i < s.len() implies ascii_alnum_code(#[trigger] s[i] as int) by {
            assert(is_ascii_alnum(s[i]));
        }
    }
    if forall|i: int| 0 <= i < s.len() ==> ascii_alnum_code(#[trigger] s[i] as int) {
        assert forall|i: int| 0 <= i < s.len() implies is_ascii_alnum(#[trigger] s[i]) by {
            assert(ascii_alnum_code(s[i] as int));
        }
    }
}

} // verus!
