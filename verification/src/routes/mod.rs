//! The decisions that the API's request handlers make on their inputs.

pub mod auth;
pub mod public;
pub mod users;
