//! Errors that the API answers with: an HTTP status, a short code, a
//! message and, for refused requests, how long to wait before retrying.

use vstd::prelude::*;
use crate::shared::api::{ApiErrorBody, ApiMessage};

verus! {

/// An error answered to an API request.
#[derive(Debug)]
pub struct ApiError {
    pub status: u16,
    pub code: &'static str,
    pub message: String,
    pub retry_after_secs: Option<u64>,
}

impl ApiError {
    /// 400: `field` failed validation.
    pub fn validation(field: &str, message: &str) -> (r: ApiError)
        ensures
            r.status == 400,
            r.code@ == "validation"@,
            r.message@ == field@ + ": "@ + message@,
            r.retry_after_secs is None,
    {
        let mut m = field.to_owned();
        m.append(": ");
        m.append(message);
        ApiError { status: 400, code: "validation", message: m, retry_after_secs: None }
    }

    /// 401: the request needs a logged-in session.
    pub fn unauthorized() -> (r: ApiError)
        ensures
            r.status == 401,
            r.code@ == "unauthorized"@,
            r.message@ == "Please login"@,
            r.retry_after_secs is None,
    {
        ApiError {
            status: 401,
            code: "unauthorized",
            message: "Please login".to_owned(),
            retry_after_secs: None,
        }
    }

    /// 404.
    pub fn not_found(message: &str) -> (r: ApiError)
        ensures
            r.status == 404,
            r.code@ == "not_found"@,
            r.message@ == message@,
            r.retry_after_secs is None,
    {
        ApiError { status: 404, code: "not_found", message: message.to_owned(), retry_after_secs: None }
    }

    /// 403.
    pub fn forbidden(message: &str) -> (r: ApiError)
        ensures
            r.status == 403,
            r.code@ == "forbidden"@,
            r.message@ == message@,
            r.retry_after_secs is None,
    {
        ApiError { status: 403, code: "forbidden", message: message.to_owned(), retry_after_secs: None }
    }

    /// 429: the caller is rate limited.
    pub fn too_many_requests(message: &str) -> (r: ApiError)
        ensures
            r.status == 429,
            r.code@ == "too_many_requests"@,
            r.message@ == message@,
            r.retry_after_secs is None,
    {
        ApiError {
            status: 429,
            code: "too_many_requests",
            message: message.to_owned(),
            retry_after_secs: None,
        }
    }

    /// 500.
    pub fn internal(message: &str) -> (r: ApiError)
        ensures
            r.status == 500,
            r.code@ == "internal"@,
            r.message@ == message@,
            r.retry_after_secs is None,
    {
        ApiError { status: 500, code: "internal", message: message.to_owned(), retry_after_secs: None }
    }

    /// The same error, telling the caller to retry after `retry_after_secs`
    /// seconds (at least one).
    pub fn with_retry_after(self, retry_after_secs: u64) -> (r: ApiError)
        ensures
            r.status == self.status,
            r.code == self.code,
            r.message == self.message,
            r.retry_after_secs == Some(if retry_after_secs >= 1 { retry_after_secs } else { 1u64 }),
    {
        let secs = if retry_after_secs >= 1 { retry_after_secs } else { 1 };
        ApiError { status: self.status, code: self.code, message: self.message, retry_after_secs: Some(secs) }
    }

    /// The JSON body answered for this error.
    pub fn body(&self) -> (r: ApiErrorBody)
        ensures
            r.error@ == self.code@,
            r.message@ == self.message@,
    {
        ApiErrorBody { error: self.code.to_owned(), message: self.message.clone() }
    }
}

/// The JSON body of a plain success message.
pub fn message_response(message: &str) -> (r: ApiMessage)
    ensures
        r.message@ == message@,
{
    ApiMessage { message: message.to_owned() }
}

} // verus!
