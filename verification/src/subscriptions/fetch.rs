//! What a fetch does with an upstream response: follow a redirect, give up,
//! or read the body.  The caller sends the requests and reads the bodies;
//! each response's head is handed here and the decision handed back.

use vstd::prelude::*;
use crate::text::{chars_of, contains_chars, contains_seq};
use crate::subscriptions::MAX_FETCH_BYTES;
use crate::subscriptions::MAX_REDIRECTS;

verus! {

/// A response header as the fetch reads it.
pub enum HeaderText {
    /// The header is absent.
    Missing,
    /// The header is present but not visible ASCII.
    Unreadable,
    /// The header's text.
    Text(String),
}

/// The parts of a response that decide what a fetch does next.
pub struct ResponseHead {
    pub status: u16,
    pub location: HeaderText,
    pub content_length: Option<u64>,
    pub content_type: HeaderText,
}

/// Why a fetch gave up on a response.
#[derive(Clone, Copy, Debug, PartialEq, Eq)]
pub enum FetchFailure {
    TooManyRedirects,
    MissingLocation,
    UnreadableLocation,
    BadStatus,
    TooLarge,
}

/// What a fetch does with a response.
pub enum ResponseDecision {
    /// Follow the redirect to this `Location` value.
    FollowRedirect(String),
    /// Give up.
    Fail(FetchFailure),
    /// Read the body, and convert it from HTML when `is_html`.
    ReadBody { is_html: bool },
}

/// 3xx.
pub open spec fn is_redirection(status: u16) -> bool {
    300 <= status <= 399
}

/// 2xx.
pub open spec fn is_success(status: u16) -> bool {
    200 <= status <= 299
}

/// A decision as plain values.
pub enum DecisionView {
    FollowRedirect(Seq<char>),
    Fail(FetchFailure),
    ReadBody(bool),
}

pub open spec fn decision_view(d: ResponseDecision) -> DecisionView {
    match d {
        ResponseDecision::FollowRedirect(l) => DecisionView::FollowRedirect(l@),
        ResponseDecision::Fail(f) => DecisionView::Fail(f),
        ResponseDecision::ReadBody { is_html } => DecisionView::ReadBody(is_html),
    }
}

/// What a fetch that has followed `redirect_count` redirects does with a
/// response: a redirect is followed unless the limit is reached or its
/// `Location` is absent or unreadable; any other non-2xx status fails; a
/// declared length over the limit fails; otherwise the body is read, as HTML
/// when the content type is readable and mentions `text/html`.
pub open spec fn decision_spec(redirect_count: nat, head: ResponseHead) -> DecisionView {
    if is_redirection(head.status) {
        if redirect_count == MAX_REDIRECTS {
            DecisionView::Fail(FetchFailure::TooManyRedirects)
        } else {
            match head.location {
                HeaderText::Missing => DecisionView::Fail(FetchFailure::MissingLocation),
                HeaderText::Unreadable => DecisionView::Fail(FetchFailure::UnreadableLocation),
                HeaderText::Text(l) => DecisionView::FollowRedirect(l@),
            }
        }
    } else if !is_success(head.status) {
        DecisionView::Fail(FetchFailure::BadStatus)
    } else if head.content_length matches Some(n) && n > MAX_FETCH_BYTES {
        DecisionView::Fail(FetchFailure::TooLarge)
    } else {
        DecisionView::ReadBody(
            match head.content_type {
                HeaderText::Text(t) => contains_seq(t@, "text/html"@),
                _ => false,
            },
        )
    }
}

/// Decides what to do with a response after `redirect_count` redirects.
pub fn decide_response(redirect_count: usize, head: ResponseHead) -> (r: ResponseDecision)
    ensures
        decision_view(r) == decision_spec(redirect_count as nat, head),
{
    if 300 <= head.status && head.status <= 399 {
        if redirect_count == MAX_REDIRECTS {
            return ResponseDecision::Fail(FetchFailure::TooManyRedirects);
        }
        return match head.location {
            HeaderText::Missing => ResponseDecision::Fail(FetchFailure::MissingLocation),
            HeaderText::Unreadable => ResponseDecision::Fail(FetchFailure::UnreadableLocation),
            HeaderText::Text(l) => ResponseDecision::FollowRedirect(l),
        };
    }
    if !(200 <= head.status && head.status <= 299) {
        return ResponseDecision::Fail(FetchFailure::BadStatus);
    }
    if let Some(n) = head.content_length {
        if n > MAX_FETCH_BYTES as u64 {
            return ResponseDecision::Fail(FetchFailure::TooLarge);
        }
    }
    let is_html = match &head.content_type {
        HeaderText::Text(t) => {
            let hay = chars_of(t.as_str());
            let needle = chars_of("text/html");
            contains_chars(&hay, &needle)
        },
        _ => false,
    };
    ResponseDecision::ReadBody { is_html }
}

/// How a response is classed by its status: every 3xx status is a redirect,
/// followed to its `Location` while the redirect limit is not reached; every
/// status outside 2xx and 3xx is a failure; a 2xx body is read unless its
/// declared length is over the limit, and read as HTML exactly when the
/// content type is readable and mentions `text/html`.
pub proof fn lemma_response_classes(redirect_count: nat, head: ResponseHead)
    ensures
        300 <= head.status <= 399 && redirect_count < MAX_REDIRECTS ==> decision_spec(redirect_count, head)
            == match head.location {
            HeaderText::Text(l) => DecisionView::FollowRedirect(l@),
            HeaderText::Missing => DecisionView::Fail(FetchFailure::MissingLocation),
            HeaderText::Unreadable => DecisionView::Fail(FetchFailure::UnreadableLocation),
        },
        300 <= head.status <= 399 && redirect_count == MAX_REDIRECTS ==> decision_spec(redirect_count, head)
            == DecisionView::Fail(FetchFailure::TooManyRedirects),
        head.status < 200 || head.status > 399 ==> decision_spec(redirect_count, head) == DecisionView::Fail(
            FetchFailure::BadStatus,
        ),
        200 <= head.status <= 299 && (head.content_length matches Some(n) && n > MAX_FETCH_BYTES)
            ==> decision_spec(redirect_count, head) == DecisionView::Fail(FetchFailure::TooLarge),
        200 <= head.status <= 299 && !(head.content_length matches Some(n) && n > MAX_FETCH_BYTES)
            ==> decision_spec(redirect_count, head) == DecisionView::ReadBody(
            head.content_type matches HeaderText::Text(t) && contains_seq(t@, "text/html"@),
        ),
{
}

} // verus!
