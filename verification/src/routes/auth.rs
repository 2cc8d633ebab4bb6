//! Session endpoints.

use argon2::password_hash::{PasswordHash, PasswordVerifier};
use argon2::Argon2;
use vstd::prelude::*;
use crate::error::ApiError;
use crate::rules::{is_valid_password_length, is_valid_username_chars, password_length_ok, username_ok};
use crate::shared::auth::LoginRequest;
use crate::text::{chars_of, trim, trim_chars};

verus! {

/// `e` is a validation error for `field` with message `message`.
pub open spec fn is_validation_error(e: ApiError, field: Seq<char>, message: Seq<char>) -> bool {
    &&& e.status == 400
    &&& e.code@ == "validation"@
    &&& e.message@ == field + ": "@ + message
    &&& e.retry_after_secs is None
}

/// Checks a login request: the trimmed username must be valid and the
/// password must have an acceptable length.
pub fn validate_login(payload: &LoginRequest) -> (r: Result<(), ApiError>)
    ensures
        !username_ok(trim(payload.username@)) ==> (r matches Err(e) && is_validation_error(
            e,
            "username"@,
            "invalid username"@,
        )),
        username_ok(trim(payload.username@)) && !password_length_ok(payload.password@) ==> (r matches Err(e)
            && is_validation_error(e, "password"@, "password must be 1-128 characters"@)),
        username_ok(trim(payload.username@)) && password_length_ok(payload.password@) ==> r is Ok,
{
    let raw = chars_of(payload.username.as_str());
    let username = trim_chars(&raw);
    if !is_valid_username_chars(&username) {
        return Err(ApiError::validation("username", "invalid username"));
    }
    if !is_valid_password_length(payload.password.as_str()) {
        return Err(ApiError::validation("password", "password must be 1-128 characters"));
    }
    Ok(())
}

/// Whether `PasswordHash::new` parses a text as a PHC password hash string.
pub uninterp spec fn phc_parses(hash: Seq<char>) -> bool;

/// Whether `Argon2::default().verify_password` accepts a password (its UTF-8
/// bytes) against a parsed PHC hash string.
pub uninterp spec fn argon2_accepts(hash: Seq<char>, password: Seq<char>) -> bool;

/// Checks a password against a stored hash with `argon2`: `None` when
/// `PasswordHash::new` refuses the hash text, else whether
/// `Argon2::default().verify_password` accepts the password's bytes.  The
/// contract names both results; of the parse it states what the source
/// shows for every input, that an empty text or one that does not start
/// with `$` is refused.
#[verifier::external_body]
fn argon2_verify(hash: &str, password: &str) -> (r: Option<bool>)
    ensures
        r is Some <==> phc_parses(hash@),
        r matches Some(ok) ==> ok == argon2_accepts(hash@, password@),
        hash@.len() == 0 || hash@[0] != '$' ==> r is None,
{
    match PasswordHash::new(hash) {
        Err(_) => None,
        Ok(parsed) => Some(Argon2::default().verify_password(password.as_bytes(), &parsed).is_ok()),
    }
}

/// `e` is the 401 answer to a request that needs a logged-in session or
/// whose credentials were refused.
pub open spec fn is_unauthorized(e: ApiError) -> bool {
    &&& e.status == 401
    &&& e.code@ == "unauthorized"@
    &&& e.message@ == "Please login"@
    &&& e.retry_after_secs is None
}

/// `e` is the 500 answer for a stored hash that does not parse.
pub open spec fn is_bad_stored_hash(e: ApiError) -> bool {
    &&& e.status == 500
    &&& e.code@ == "internal"@
    &&& e.message@ == "invalid password hash in database"@
    &&& e.retry_after_secs is None
}

/// The answer to a login whose password was checked (`None`: the stored
/// hash did not parse; `Some(ok)`: whether the password matched).
pub fn password_outcome(verified: Option<bool>) -> (r: Result<(), ApiError>)
    ensures
        match verified {
            None => r matches Err(e) && is_bad_stored_hash(e),
            Some(false) => r matches Err(e) && is_unauthorized(e),
            Some(true) => r is Ok,
        },
{
    match verified {
        None => Err(ApiError::internal("invalid password hash in database")),
        Some(false) => Err(ApiError::unauthorized()),
        Some(true) => Ok(()),
    }
}

/// Checks a login's password against the administrator's stored hash
/// (`None`: no administrator has that name, which is answered like a wrong
/// password).
pub fn check_admin_password(stored_hash: Option<String>, password: &str) -> (r: Result<(), ApiError>)
    ensures
        match stored_hash {
            None => r matches Err(e) && is_unauthorized(e),
            Some(h) => if !phc_parses(h@) {
                r matches Err(e) && is_bad_stored_hash(e)
            } else if !argon2_accepts(h@, password@) {
                r matches Err(e) && is_unauthorized(e)
            } else {
                r is Ok
            },
        },
{
    match stored_hash {
        None => Err(ApiError::unauthorized()),
        Some(h) => password_outcome(argon2_verify(h.as_str(), password)),
    }
}

} // verus!
