//! Accounts: signing up and logging in with a password.

use vstd::prelude::*;

use crate::server::{is_server_error, server_error, ServerFnError};

verus! {

/// A new password must match its confirmation.
pub fn check_password_confirmation(password: &String, password_confirmation: &String) -> (r: Result<
    (),
    ServerFnError,
>)
    ensures
        r is Ok <==> password@ == password_confirmation@,
        r matches Err(e) ==> is_server_error(e, "Passwords did not match."@),
{
    if *password != *password_confirmation {
        return Err(server_error("Passwords did not match."));
    }
    Ok(())
}

/// The password hashing crate's error.
#[verifier::external_type_specification]
#[verifier::external_body]
pub struct ExBcryptError(bcrypt::BcryptError);

/// What `bcrypt::verify` gives for a password and a stored hash: whether the
/// password hashes to it, or `None` when the hash cannot be read. The result
/// depends on the two texts alone; it is named here, not spelled out.
pub uninterp spec fn bcrypt_verify_outcome(password: Seq<char>, hash: Seq<char>) -> Option<bool>;

/// Calls `bcrypt::verify` on the password's bytes and the stored hash. Its
/// result is `bcrypt_verify_outcome` of the two; what the error holds is not stated.
#[verifier::external_body]
fn verify_password(password: &str, hash: &str) -> (r: Result<bool, bcrypt::BcryptError>)
    ensures
        r is Ok <==> bcrypt_verify_outcome(password@, hash@) is Some,
        r matches Ok(b) ==> bcrypt_verify_outcome(password@, hash@) == Some(b),
{
    bcrypt::verify(password, hash)
}

/// A password is accepted against a stored hash when `bcrypt::verify` says it matches.
pub open spec fn password_accepted(password: Seq<char>, hash: Seq<char>) -> bool {
    bcrypt_verify_outcome(password, hash) == Some(true)
}

/// Calls `bcrypt::hash` at the crate's default cost. The salt is drawn from the
/// operating system at random, so neither the hash nor a failure (which comes
/// only from the random source) is stated; what is stated is that a hash it
/// makes is one that `bcrypt::verify` accepts the same password against.
#[verifier::external_body]
fn hash_password(password: &str) -> (r: Result<String, bcrypt::BcryptError>)
    ensures
        r matches Ok(h) ==> password_accepted(password@, h@),
{
    bcrypt::hash(password, bcrypt::DEFAULT_COST)
}

/// Why a new password is not stored.
#[derive(Debug)]
pub enum SignupError {
    Mismatch(ServerFnError),
    Hash(bcrypt::BcryptError),
}

/// The hash to store for a new account: the password must match its
/// confirmation, and is then hashed. The hash it gives accepts the password at
/// login.
pub fn signup_password_hash(password: &String, password_confirmation: &String) -> (r: Result<
    String,
    SignupError,
>)
    ensures
        password@ != password_confirmation@ ==> (r matches Err(SignupError::Mismatch(e))
            && is_server_error(e, "Passwords did not match."@)),
        password@ == password_confirmation@ ==> !(r matches Err(SignupError::Mismatch(_))),
        r matches Ok(h) ==> password_accepted(password@, h@),
{
    match check_password_confirmation(password, password_confirmation) {
        Err(e) => Err(SignupError::Mismatch(e)),
        Ok(()) => match hash_password(password.as_str()) {
            Ok(h) => Ok(h),
            Err(e) => Err(SignupError::Hash(e)),
        },
    }
}

/// Why a login is refused.
#[derive(Debug)]
pub enum LoginError {
    Hash(bcrypt::BcryptError),
    WrongPassword(ServerFnError),
}

/// What a login comes to, given what `bcrypt::verify` answered: a hash that
/// cannot be read is an error of its own, a wrong password is refused with a
/// message, a matching one is let in.
pub fn login_decision(verified: Result<bool, bcrypt::BcryptError>) -> (r: Result<(), LoginError>)
    ensures
        verified is Err ==> r matches Err(LoginError::Hash(_)),
        verified == Ok::<bool, bcrypt::BcryptError>(true) ==> r is Ok,
        verified == Ok::<bool, bcrypt::BcryptError>(false) ==> (r matches Err(
            LoginError::WrongPassword(e),
        ) && is_server_error(e, "Password does not match."@)),
{
    match verified {
        Err(e) => Err(LoginError::Hash(e)),
        Ok(true) => Ok(()),
        Ok(false) => Err(LoginError::WrongPassword(server_error("Password does not match."))),
    }
}

/// Checks a login's password against the stored hash.
pub fn check_login_password(password: &str, stored_hash: &str) -> (r: Result<(), LoginError>)
    ensures
        match bcrypt_verify_outcome(password@, stored_hash@) {
            None => r matches Err(LoginError::Hash(_)),
            Some(true) => r is Ok,
            Some(false) => r matches Err(LoginError::WrongPassword(e)) && is_server_error(
                e,
                "Password does not match."@,
            ),
        },
        r is Ok <==> password_accepted(password@, stored_hash@),
{
    login_decision(verify_password(password, stored_hash))
}

} // verus!
