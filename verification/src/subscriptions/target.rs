//! Screening of fetch targets: which URLs a fetch may request, and which
//! addresses it may connect to.
//!
//! A URL is checked in two steps around the one piece of outside work,
//! a DNS lookup.  `begin_fetch_target` parses and checks the URL and
//! settles the addresses when the host is an IPv4 literal or has an
//! override; otherwise it asks for a lookup, whose outcome
//! `complete_fetch_target` then screens.

use vstd::prelude::*;
use crate::netaddr::{ip_forbidden, is_forbidden_ip, IpAddress, SocketAddress};
use crate::overrides::HostOverrides;
use crate::rules::is_http_url_with_host;
use crate::text::{decimal, decimal_chars, string_of};
use crate::weburl::{join_url, parse_url, url_join, url_parse};

verus! {

/// A URL that passed the checks, with the addresses a request may use.
#[derive(Clone, Debug)]
pub struct ValidatedFetchTarget {
    /// The URL's serialization.
    pub url: String,
    pub host: String,
    pub resolved_addrs: Vec<SocketAddress>,
    pub host_is_ip_literal: bool,
    pub from_override: bool,
}

pub type TargetView = (Seq<char>, Seq<char>, Seq<SocketAddress>, bool, bool);

impl View for ValidatedFetchTarget {
    type V = TargetView;

    open spec fn view(&self) -> TargetView {
        (self.url@, self.host@, self.resolved_addrs@, self.host_is_ip_literal, self.from_override)
    }
}

/// A checked URL whose host must still be looked up in DNS.
#[derive(Clone, Debug)]
pub struct PendingLookup {
    /// The URL text as given.
    pub input: String,
    /// The URL's serialization.
    pub url: String,
    pub host: String,
    pub port: u16,
}

/// The first step's outcome.
pub enum TargetStep {
    Failed(String),
    Ready(ValidatedFetchTarget),
    NeedsLookup(PendingLookup),
}

/// The first step's outcome as plain values.
pub enum TargetStepView {
    Failed(Seq<char>),
    Ready(TargetView),
    NeedsLookup(Seq<char>, Seq<char>, Seq<char>, u16),
}

pub open spec fn step_view(s: TargetStep) -> TargetStepView {
    match s {
        TargetStep::Failed(m) => TargetStepView::Failed(m@),
        TargetStep::Ready(t) => TargetStepView::Ready(t@),
        TargetStep::NeedsLookup(p) => TargetStepView::NeedsLookup(p.input@, p.url@, p.host@, p.port),
    }
}

/// The URL checks: it parses, its scheme is `http` or `https`, it has a
/// host.  On success: serialization, host, port (80 when the scheme has no
/// known default) and the host's IPv4 octets when it is an IPv4 address.
pub open spec fn url_checked(s: Seq<char>) -> Result<(Seq<char>, Seq<char>, u16, Option<[u8; 4]>), Seq<char>> {
    match url_parse(s) {
        None => Err("invalid url: "@ + s),
        Some(u) => if !(u.1 == "http"@ || u.1 == "https"@) {
            Err("unsupported scheme: "@ + s)
        } else {
            match u.2 {
                None => Err("missing host: "@ + s),
                Some(h) => Ok((
                    u.0,
                    h,
                    match u.4 {
                        Some(p) => p,
                        None => 80u16,
                    },
                    u.3,
                )),
            }
        },
    }
}

/// The key under which a host has an override: `host:port`.
pub open spec fn override_key(host: Seq<char>, port: u16) -> Seq<char> {
    host + ":"@ + decimal(port as nat)
}

/// Some address in the list is one that a fetch must not reach.
pub open spec fn any_forbidden(addrs: Seq<SocketAddress>) -> bool {
    exists|i: int| 0 <= i < addrs.len() && ip_forbidden(#[trigger] addrs[i].ip)
}

/// The message for a URL whose addresses are refused.
pub open spec fn unsafe_target_message(s: Seq<char>) -> Seq<char> {
    "unsafe target: "@ + s
}

/// Addresses found outside the overrides are screened; override addresses
/// are trusted as configured.
pub open spec fn screened(s: Seq<char>, t: TargetView) -> TargetStepView {
    if !t.4 && any_forbidden(t.2) {
        TargetStepView::Failed(unsafe_target_message(s))
    } else {
        TargetStepView::Ready(t)
    }
}

/// What the first step yields for URL text `s`: a failed check; the
/// screened target when the host is an IPv4 literal (its only address is
/// the literal with the port) or has an override; or a lookup request.
pub open spec fn target_step(overrides: Map<Seq<char>, Seq<SocketAddress>>, s: Seq<char>) -> TargetStepView {
    match url_checked(s) {
        Err(m) => TargetStepView::Failed(m),
        Ok((text, host, port, ipv4)) => match ipv4 {
            Some(o) => screened(
                s,
                (
                    text,
                    host,
                    seq![SocketAddress { ip: IpAddress::V4(o), port, flowinfo: 0, scope_id: 0 }],
                    true,
                    false,
                ),
            ),
            None => if overrides.contains_key(override_key(host, port)) {
                screened(s, (text, host, overrides[override_key(host, port)], false, true))
            } else {
                TargetStepView::NeedsLookup(s, text, host, port)
            },
        },
    }
}

pub open spec fn lookup_failed_message(s: Seq<char>) -> Seq<char> {
    "failed to resolve host: "@ + s
}

/// What the second step yields for a pending lookup and the lookup's
/// outcome (`None` when the lookup failed).
pub open spec fn lookup_step(p: (Seq<char>, Seq<char>, Seq<char>, u16), found: Option<Seq<SocketAddress>>) -> TargetStepView {
    match found {
        None => TargetStepView::Failed(lookup_failed_message(p.0)),
        Some(addrs) => if addrs.len() == 0 {
            TargetStepView::Failed(lookup_failed_message(p.0))
        } else {
            screened(p.0, (p.1, p.2, addrs, false, false))
        },
    }
}

fn concat_message(prefix: &str, s: &str) -> (r: String)
    ensures
        r@ == prefix@ + s@,
{
    let mut m = prefix.to_owned();
    m.append(s);
    m
}

/// Whether some address is one a fetch must not reach.
pub fn has_forbidden_address(addrs: &Vec<SocketAddress>) -> (r: bool)
    ensures
        r == any_forbidden(addrs@),
{
    let mut i: usize = 0;
    while i < addrs.len()
        invariant
            i <= addrs.len(),
            forall|j: int| 0 <= j < i ==> !ip_forbidden(#[trigger] addrs@[j].ip),
        decreases addrs.len() - i,
    {
        if is_forbidden_ip(addrs[i].ip) {
            return true;
        }
        i += 1;
    }
    false
}

fn screen(s: &str, t: ValidatedFetchTarget) -> (r: TargetStep)
    ensures
        step_view(r) == screened(s@, t@),
{
    if !t.from_override && has_forbidden_address(&t.resolved_addrs) {
        TargetStep::Failed(concat_message("unsafe target: ", s))
    } else {
        TargetStep::Ready(t)
    }
}

/// The override key for a host and port.
pub fn override_key_text(host: &String, port: u16) -> (r: String)
    ensures
        r@ == override_key(host@, port),
{
    let mut key = host.clone();
    key.append(":");
    let digits = decimal_chars(port as u64);
    let digits_text = string_of(&digits);
    key.append(digits_text.as_str());
    key
}

/// First step of checking a fetch URL.
pub fn begin_fetch_target(overrides: &HostOverrides, url_str: &str) -> (r: TargetStep)
    requires
        overrides.wf(),
    ensures
        step_view(r) == target_step(overrides@, url_str@),
{
    let parsed = match parse_url(url_str) {
        Some(p) => p,
        None => return TargetStep::Failed(concat_message("invalid url: ", url_str)),
    };
    if !is_http_url_with_host(&parsed) {
        if parsed.host.is_some() {
            return TargetStep::Failed(concat_message("unsupported scheme: ", url_str));
        }
        let http = "http".to_owned();
        let https = "https".to_owned();
        if parsed.scheme == http || parsed.scheme == https {
            return TargetStep::Failed(concat_message("missing host: ", url_str));
        }
        return TargetStep::Failed(concat_message("unsupported scheme: ", url_str));
    }
    let host = match &parsed.host {
        Some(h) => h.clone(),
        None => return TargetStep::Failed(concat_message("missing host: ", url_str)),
    };
    let port = match parsed.port {
        Some(p) => p,
        None => 80,
    };
    match parsed.ipv4 {
        Some(o) => {
            let mut addrs: Vec<SocketAddress> = Vec::new();
            addrs.push(SocketAddress::new(IpAddress::V4(o), port));
            let t = ValidatedFetchTarget {
                url: parsed.text,
                host,
                resolved_addrs: addrs,
                host_is_ip_literal: true,
                from_override: false,
            };
            proof {
                assert(t.resolved_addrs@ =~= seq![SocketAddress { ip: IpAddress::V4(o), port, flowinfo: 0, scope_id: 0 }]);
            }
            screen(url_str, t)
        },
        None => {
            let key = override_key_text(&host, port);
            match overrides.get(&key) {
                Some(addrs) => {
                    let t = ValidatedFetchTarget {
                        url: parsed.text,
                        host,
                        resolved_addrs: addrs,
                        host_is_ip_literal: false,
                        from_override: true,
                    };
                    screen(url_str, t)
                },
                None => TargetStep::NeedsLookup(
                    PendingLookup { input: url_str.to_owned(), url: parsed.text, host, port },
                ),
            }
        },
    }
}

/// Second step: screens the addresses a DNS lookup found for a pending
/// target (`None` when the lookup failed).
pub fn complete_fetch_target(pending: PendingLookup, found: Option<Vec<SocketAddress>>) -> (r: TargetStep)
    ensures
        step_view(r) == lookup_step(
            (pending.input@, pending.url@, pending.host@, pending.port),
            match found {
                Some(v) => Some(v@),
                None => None,
            },
        ),
        !(r is NeedsLookup),
{
    match found {
        None => TargetStep::Failed(concat_message("failed to resolve host: ", pending.input.as_str())),
        Some(addrs) => {
            if addrs.len() == 0 {
                return TargetStep::Failed(
                    concat_message("failed to resolve host: ", pending.input.as_str()),
                );
            }
            let input = pending.input;
            let t = ValidatedFetchTarget {
                url: pending.url,
                host: pending.host,
                resolved_addrs: addrs,
                host_is_ip_literal: false,
                from_override: false,
            };
            screen(input.as_str(), t)
        },
    }
}

pub open spec fn bad_redirect_message(current: Seq<char>, location: Seq<char>) -> Seq<char> {
    "invalid redirect target from "@ + current + ": "@ + location
}

/// What following a redirect yields: the `Location` value resolved against
/// the current URL, then checked as a fetch URL.
pub open spec fn redirect_step(
    overrides: Map<Seq<char>, Seq<SocketAddress>>,
    current: Seq<char>,
    location: Seq<char>,
) -> TargetStepView {
    match url_join(current, location) {
        None => TargetStepView::Failed(bad_redirect_message(current, location)),
        Some(next) => target_step(overrides, next),
    }
}

/// First step of checking a redirect target.
pub fn begin_redirect_target(overrides: &HostOverrides, current_url: &str, location: &str) -> (r: TargetStep)
    requires
        overrides.wf(),
    ensures
        step_view(r) == redirect_step(overrides@, current_url@, location@),
{
    match join_url(current_url, location) {
        None => {
            let mut m = "invalid redirect target from ".to_owned();
            m.append(current_url);
            m.append(": ");
            m.append(location);
            TargetStep::Failed(m)
        },
        Some(next) => begin_fetch_target(overrides, next.as_str()),
    }
}

/// The first address in the list that a fetch must not reach.
pub open spec fn first_forbidden(addrs: Seq<SocketAddress>) -> Option<IpAddress>
    decreases addrs.len(),
{
    if addrs.len() == 0 {
        None
    } else {
        match first_forbidden(addrs.drop_last()) {
            Some(ip) => Some(ip),
            None => if ip_forbidden(addrs.last().ip) {
                Some(addrs.last().ip)
            } else {
                None
            },
        }
    }
}

/// The check repeated just before a request is sent: for addresses not
/// taken from the overrides, the first one that must not be reached.
pub fn unsafe_address_before_request(target: &ValidatedFetchTarget) -> (r: Option<IpAddress>)
    ensures
        r == (if target.from_override {
            None
        } else {
            first_forbidden(target.resolved_addrs@)
        }),
{
    if target.from_override {
        return None;
    }
    let ghost addrs = target.resolved_addrs@;
    let mut i: usize = 0;
    while i < target.resolved_addrs.len()
        invariant
            i <= addrs.len(),
            addrs == target.resolved_addrs@,
            !target.from_override,
            first_forbidden(addrs.take(i as int)) is None,
        decreases addrs.len() - i,
    {
        let ip = target.resolved_addrs[i].ip;
        proof {
            assert(addrs.take(i + 1).drop_last() =~= addrs.take(i as int));
        }
        if is_forbidden_ip(ip) {
            proof {
                assert(addrs.take(i + 1).last() == addrs[i as int]);
                assert(first_forbidden(addrs.take(i + 1)) == Some(ip));
                lemma_first_forbidden_prefix(addrs, i as int + 1);
            }
            return Some(ip);
        }
        i += 1;
    }
    proof {
        assert(addrs.take(addrs.len() as int) =~= addrs);
    }
    None
}

proof fn lemma_first_forbidden_prefix(addrs: Seq<SocketAddress>, k: int)
    requires
        0 <= k <= addrs.len(),
        first_forbidden(addrs.take(k)) is Some,
    ensures
        first_forbidden(addrs) == first_forbidden(addrs.take(k)),
    decreases addrs.len() - k,
{
    if k < addrs.len() {
        assert(addrs.take(k + 1).drop_last() =~= addrs.take(k));
        lemma_first_forbidden_prefix(addrs, k + 1);
    } else {
        assert(addrs.take(k) =~= addrs);
    }
}

/// A checked target whose addresses did not come from the overrides never
/// holds an address that a fetch must not reach; this holds for a first
/// request, after a DNS lookup, and after a redirect.
pub proof fn lemma_targets_avoid_forbidden_addresses(
    overrides: Map<Seq<char>, Seq<SocketAddress>>,
    s: Seq<char>,
    pending: (Seq<char>, Seq<char>, Seq<char>, u16),
    found: Option<Seq<SocketAddress>>,
    current: Seq<char>,
    location: Seq<char>,
)
    ensures
        target_step(overrides, s) matches TargetStepView::Ready(t) ==> t.4 || !any_forbidden(t.2),
        lookup_step(pending, found) matches TargetStepView::Ready(t) ==> !t.4 && !any_forbidden(t.2),
        redirect_step(overrides, current, location) matches TargetStepView::Ready(t) ==> t.4
            || !any_forbidden(t.2),
{
}

/// Addresses come from the overrides only for a host whose `host:port` key
/// is configured, and then they are exactly the configured ones.
pub proof fn lemma_override_targets_use_configured_addresses(
    overrides: Map<Seq<char>, Seq<SocketAddress>>,
    s: Seq<char>,
)
    ensures
        target_step(overrides, s) matches TargetStepView::Ready(t) ==> (t.4 ==> {
            &&& url_checked(s) matches Ok(u)
            &&& overrides.contains_key(override_key(u.1, u.2))
            &&& t.2 == overrides[override_key(u.1, u.2)]
        }),
{
}

} // verus!
