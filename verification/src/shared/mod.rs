//! Request and response bodies exchanged between the console and the API.

pub mod api;
pub mod auth;
pub mod users;
