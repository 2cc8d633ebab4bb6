//! Counters and timers reported to the `metrics` recorder.

use std::time::Instant;
use vstd::prelude::*;

verus! {

/// A point in time, as `std::time::Instant` measures it.
#[verifier::external_type_specification]
#[verifier::external_body]
pub struct ExInstant(Instant);

/// The current instant (`Instant::now`).  Nothing is claimed of it.
#[verifier::external_body]
fn now() -> Instant {
    Instant::now()
}

/// Records, in the histogram `name` of the installed `metrics` recorder,
/// the time elapsed since `start` (`Instant::elapsed`).  Nothing is claimed
/// of the effect.
#[verifier::external_body]
fn record_elapsed(name: &'static str, start: &Instant) {
    let elapsed = start.elapsed();
    let metadata = metrics::Metadata::new("submora::metrics", metrics::Level::INFO, Some("submora::metrics"));
    let key = metrics::Key::from_name(name);
    metrics::with_recorder(|recorder| metrics::Recorder::register_histogram(recorder, &key, &metadata))
        .record(elapsed);
}

/// Adds one to the counter `name` with the label `label = value` in the
/// installed `metrics` recorder (what `counter!` expands to).  Nothing is
/// claimed of the effect.
#[verifier::external_body]
fn increment_counter(name: &'static str, label: &'static str, value: &'static str) {
    let metadata = metrics::Metadata::new("submora::metrics", metrics::Level::INFO, Some("submora::metrics"));
    let key = metrics::Key::from_parts(name, vec![metrics::Label::new(label, value)]);
    metrics::with_recorder(|recorder| metrics::Recorder::register_counter(recorder, &key, &metadata))
        .increment(1);
}

/// Counts a finished upstream fetch under its outcome (`success`, `error`
/// or `blocked`).
pub fn record_fetch_request(status: &'static str) {
    increment_counter("fetch_requests_total", "status", status);
}

/// Counts a request refused by a rate limiter of the given scope (`login`
/// or `public`).
pub fn record_rate_limit_exceeded(scope: &'static str) {
    increment_counter("rate_limit_exceeded_total", "scope", scope);
}

/// Measures how long an HTTP request takes.
pub struct RequestTimer {
    start: Instant,
}

impl RequestTimer {
    /// Starts measuring now.
    pub fn new() -> (r: RequestTimer) {
        RequestTimer { start: now() }
    }

    /// Reports the time since the timer started.
    pub fn finish(self) {
        record_elapsed("http_request_duration_seconds", &self.start);
    }
}

/// Measures how long an upstream fetch takes.
pub struct FetchTimer {
    start: Instant,
}

impl FetchTimer {
    /// Starts measuring now.
    pub fn new() -> (r: FetchTimer) {
        FetchTimer { start: now() }
    }

    /// Reports the time since the timer started.
    pub fn finish(self) {
        record_elapsed("fetch_duration_seconds", &self.start);
    }
}

} // verus!
