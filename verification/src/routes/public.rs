//! The public merged-feed endpoint.

use vstd::prelude::*;
use crate::error::ApiError;
use crate::text::{ascii_lower, chars_of, string_of, to_ascii_lower, trim, trim_chars};

verus! {

/// The key a public request is rate limited under: the client address (or
/// `unknown`), a colon, and the requested username trimmed and in ASCII
/// lower case.
pub open spec fn rate_limit_key(client_ip: Option<Seq<char>>, username: Seq<char>) -> Seq<char> {
    let ip = match client_ip {
        Some(ip) => ip,
        None => "unknown"@,
    };
    ip + ":"@ + ascii_lower(trim(username))
}

/// Builds the rate-limit key of a public request.
pub fn public_rate_limit_key(client_ip: Option<String>, username: &str) -> (r: String)
    ensures
        r@ == rate_limit_key(
            match client_ip {
                Some(ip) => Some(ip@),
                None => None,
            },
            username@,
        ),
{
    let mut key = match client_ip {
        Some(ip) => ip,
        None => "unknown".to_owned(),
    };
    key.append(":");
    let raw = chars_of(username);
    let trimmed = trim_chars(&raw);
    let lowered = to_ascii_lower(&trimmed);
    let lowered_text = string_of(&lowered);
    key.append(lowered_text.as_str());
    key
}

/// What a public request for a user's merged feed does with the user's
/// stored links (`None`: no such user): an unknown user is answered 404
/// "user not found"; a user without links gets an empty feed (`Ok(None)`);
/// otherwise the links are fetched (`Ok(Some(links))`).
pub fn public_feed_links(links: Option<Vec<String>>) -> (r: Result<Option<Vec<String>>, ApiError>)
    ensures
        match links {
            None => r matches Err(e) && e.status == 404 && e.code@ == "not_found"@
                && e.message@ == "user not found"@ && e.retry_after_secs is None,
            Some(v) => if v.len() == 0 {
                r matches Ok(None)
            } else {
                r matches Ok(Some(w)) && w@ == v@
            },
        },
{
    match links {
        None => Err(ApiError::not_found("user not found")),
        Some(v) => if v.len() == 0 {
            Ok(None)
        } else {
            Ok(Some(v))
        },
    }
}

} // verus!
