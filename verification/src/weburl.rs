//! URLs as plain values, parsed and joined by the `url` crate.

use vstd::prelude::*;

verus! {

/// The parts of a parsed URL that the service reads.
#[derive(Clone, Debug)]
pub struct ParsedUrl {
    /// The serialization (`Url::as_str`).
    pub text: String,
    /// The scheme (`Url::scheme`).
    pub scheme: String,
    /// The host as written in the serialization (`Url::host_str`).
    pub host: Option<String>,
    /// The octets when the host is an IPv4 address.
    pub ipv4: Option<[u8; 4]>,
    /// The port, or the scheme's default one (`Url::port_or_known_default`).
    pub port: Option<u16>,
}

/// A parsed URL as plain values: serialization, scheme, host text, IPv4
/// octets of the host and port.
pub type UrlView = (Seq<char>, Seq<char>, Option<Seq<char>>, Option<[u8; 4]>, Option<u16>);

pub open spec fn opt_view(o: Option<String>) -> Option<Seq<char>> {
    match o {
        Some(s) => Some(s@),
        None => None,
    }
}

impl View for ParsedUrl {
    type V = UrlView;

    open spec fn view(&self) -> UrlView {
        (self.text@, self.scheme@, opt_view(self.host), self.ipv4, self.port)
    }
}

/// What `url::Url::parse` gives for a text.
pub uninterp spec fn url_parse(s: Seq<char>) -> Option<UrlView>;

/// Parses an absolute URL with `url::Url::parse` and reads its
/// serialization, scheme, host, IPv4 host octets and port (with the
/// scheme's default).  The contract names the outcome and claims only that
/// it is a function of the text.
#[verifier::external_body]
pub(crate) fn parse_url(s: &str) -> (r: Option<ParsedUrl>)
    ensures
        match r {
            Some(u) => url_parse(s@) == Some(u@),
            None => url_parse(s@) is None,
        },
{
    match url::Url::parse(s) {
        Ok(u) => Some(
            ParsedUrl {
                text: u.as_str().to_string(),
                scheme: u.scheme().to_string(),
                host: u.host_str().map(|h| h.to_string()),
                ipv4: match u.host() {
                    Some(url::Host::Ipv4(a)) => Some(a.octets()),
                    _ => None,
                },
                port: u.port_or_known_default(),
            },
        ),
        Err(_) => None,
    }
}

/// What `url::Url::join` gives, as a serialization, for a base URL (given
/// by its serialization) and a reference.
pub uninterp spec fn url_join(base: Seq<char>, reference: Seq<char>) -> Option<Seq<char>>;

/// Resolves `reference` against the URL whose serialization is `base`,
/// with `url::Url::join`, and returns the serialization of the result.
/// The contract names the outcome and claims only that it is a function of
/// the two texts.
#[verifier::external_body]
pub(crate) fn join_url(base: &str, reference: &str) -> (r: Option<String>)
    ensures
        match r {
            Some(t) => url_join(base@, reference@) == Some(t@),
            None => url_join(base@, reference@) is None,
        },
{
    match url::Url::parse(base) {
        Ok(b) => b.join(reference).ok().map(|u| u.as_str().to_string()),
        Err(_) => None,
    }
}

} // verus!
