//! Bodies of the subscription-user endpoints.

use vstd::prelude::*;

verus! {

/// A subscription user as listed.
#[derive(Clone, Debug, PartialEq, Eq)]
pub struct UserSummary {
    pub username: String,
}

/// A request to create a subscription user.
#[derive(Clone, Debug, PartialEq, Eq)]
pub struct CreateUserRequest {
    pub username: String,
}

/// A new list of source links.
#[derive(Clone, Debug, PartialEq, Eq)]
pub struct LinksPayload {
    pub links: Vec<String>,
}

/// A user's stored source links.
#[derive(Clone, Debug, PartialEq, Eq)]
pub struct UserLinksResponse {
    pub username: String,
    pub links: Vec<String>,
}

/// A new order of all subscription users.
#[derive(Clone, Debug, PartialEq, Eq)]
pub struct UserOrderPayload {
    pub order: Vec<String>,
}

} // verus!
