//! General response bodies.

use vstd::prelude::*;

verus! {

/// A plain success message.
#[derive(Clone, Debug, PartialEq, Eq)]
pub struct ApiMessage {
    pub message: String,
}

/// The body of an error response: its code and message.
#[derive(Clone, Debug, PartialEq, Eq)]
pub struct ApiErrorBody {
    pub error: String,
    pub message: String,
}

/// Facts about the running service.
#[derive(Clone, Debug, PartialEq, Eq)]
pub struct AppInfoResponse {
    pub name: String,
    pub phase: u8,
    pub frontend: String,
    pub backend: String,
    pub version: String,
    pub web_dist_dir: String,
}

} // verus!
