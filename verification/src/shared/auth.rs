//! Bodies of the session endpoints.

use vstd::prelude::*;

verus! {

/// Administrator credentials.
#[derive(Clone, Debug, PartialEq, Eq)]
pub struct LoginRequest {
    pub username: String,
    pub password: String,
}

/// The logged-in administrator.
#[derive(Clone, Debug, PartialEq, Eq)]
pub struct CurrentUserResponse {
    pub username: String,
}

/// A CSRF token for the session.
#[derive(Clone, Debug, PartialEq, Eq)]
pub struct CsrfTokenResponse {
    pub token: String,
}

} // verus!
