//! IP and socket addresses as plain values, and the rule that decides which
//! addresses an upstream fetch may never reach.

use vstd::prelude::*;

verus! {

/// An IP address: four octets or eight 16-bit segments.
#[derive(Clone, Copy, Debug, PartialEq, Eq)]
pub enum IpAddress {
    V4([u8; 4]),
    V6([u16; 8]),
}

/// A socket address; `flowinfo` and `scope_id` are zero for IPv4.
#[derive(Clone, Copy, Debug, PartialEq, Eq)]
pub struct SocketAddress {
    pub ip: IpAddress,
    pub port: u16,
    pub flowinfo: u32,
    pub scope_id: u32,
}

impl SocketAddress {
    /// The address `ip:port`, as `SocketAddr::new` builds it.
    pub fn new(ip: IpAddress, port: u16) -> (r: SocketAddress)
        ensures
            r == (SocketAddress { ip, port, flowinfo: 0, scope_id: 0 }),
    {
        SocketAddress { ip, port, flowinfo: 0, scope_id: 0 }
    }
}

/// 127.0.0.0/8.
pub open spec fn v4_is_loopback(o: [u8; 4]) -> bool {
    o[0] == 127
}

/// 0.0.0.0.
pub open spec fn v4_is_unspecified(o: [u8; 4]) -> bool {
    o[0] == 0 && o[1] == 0 && o[2] == 0 && o[3] == 0
}

/// 10.0.0.0/8, 172.16.0.0/12 and 192.168.0.0/16.
pub open spec fn v4_is_private(o: [u8; 4]) -> bool {
    ||| o[0] == 10
    ||| (o[0] == 172 && 16 <= o[1] <= 31)
    ||| (o[0] == 192 && o[1] == 168)
}

/// 169.254.0.0/16.
pub open spec fn v4_is_link_local(o: [u8; 4]) -> bool {
    o[0] == 169 && o[1] == 254
}

/// 224.0.0.0/4.
pub open spec fn v4_is_multicast(o: [u8; 4]) -> bool {
    224 <= o[0] <= 239
}

/// IPv4 targets that a fetch must not reach: loopback, unspecified,
/// private, link-local, multicast, broadcast, 0.0.0.0/8, shared address
/// space 100.64.0.0/10, 192.0.0.0/16, 192.168.0.0/16, benchmarking
/// 198.18.0.0/15 and everything from 240.0.0.0 up.
pub open spec fn v4_forbidden(o: [u8; 4]) -> bool {
    ||| v4_is_loopback(o)
    ||| v4_is_unspecified(o)
    ||| v4_is_private(o)
    ||| v4_is_link_local(o)
    ||| v4_is_multicast(o)
    ||| (o[0] == 255 && o[1] == 255 && o[2] == 255 && o[3] == 255)
    ||| o[0] == 0
    ||| (o[0] == 100 && 64 <= o[1] <= 127)
    ||| (o[0] == 192 && o[1] == 0)
    ||| (o[0] == 192 && o[1] == 168)
    ||| (o[0] == 198 && (o[1] == 18 || o[1] == 19))
    ||| o[0] >= 240
}

/// `::1`.
pub open spec fn v6_is_loopback(s: [u16; 8]) -> bool {
    s[0] == 0 && s[1] == 0 && s[2] == 0 && s[3] == 0 && s[4] == 0 && s[5] == 0 && s[6] == 0
        && s[7] == 1
}

/// `::`.
pub open spec fn v6_is_unspecified(s: [u16; 8]) -> bool {
    s[0] == 0 && s[1] == 0 && s[2] == 0 && s[3] == 0 && s[4] == 0 && s[5] == 0 && s[6] == 0
        && s[7] == 0
}

/// IPv6 targets that a fetch must not reach: loopback, unspecified,
/// multicast `ff00::/8`, unique local `fc00::/7` and link-local `fe80::/10`.
pub open spec fn v6_forbidden(s: [u16; 8]) -> bool {
    ||| v6_is_loopback(s)
    ||| v6_is_unspecified(s)
    ||| s[0] >= 0xff00
    ||| (0xfc00 <= s[0] <= 0xfdff)
    ||| (0xfe80 <= s[0] <= 0xfebf)
}

pub open spec fn ip_forbidden(ip: IpAddress) -> bool {
    match ip {
        IpAddress::V4(o) => v4_forbidden(o),
        IpAddress::V6(s) => v6_forbidden(s),
    }
}

pub fn is_forbidden_ipv4(o: [u8; 4]) -> (r: bool)
    ensures
        r == v4_forbidden(o),
{
    let a = o[0];
    let b = o[1];
    let c = o[2];
    let d = o[3];
    let is_loopback = a == 127;
    let is_unspecified = a == 0 && b == 0 && c == 0 && d == 0;
    let is_private = a == 10 || (a == 172 && 16 <= b && b <= 31) || (a == 192 && b == 168);
    let is_link_local = a == 169 && b == 254;
    let is_multicast = 224 <= a && a <= 239;
    is_loopback || is_unspecified || is_private || is_link_local || is_multicast || (a == 255
        && b == 255 && c == 255 && d == 255) || a == 0 || (a == 100 && 64 <= b && b <= 127) || (a
        == 192 && b == 0) || (a == 192 && b == 168) || (a == 198 && (b == 18 || b == 19)) || a
        >= 240
}

pub fn is_forbidden_ipv6(s: [u16; 8]) -> (r: bool)
    ensures
        r == v6_forbidden(s),
{
    let first = s[0];
    let is_loopback = s[0] == 0 && s[1] == 0 && s[2] == 0 && s[3] == 0 && s[4] == 0 && s[5] == 0
        && s[6] == 0 && s[7] == 1;
    let is_unspecified = s[0] == 0 && s[1] == 0 && s[2] == 0 && s[3] == 0 && s[4] == 0 && s[5]
        == 0 && s[6] == 0 && s[7] == 0;
    let is_multicast = (first & 0xff00) == 0xff00;
    proof {
        assert(((first & 0xff00) == 0xff00) == (first >= 0xff00)) by (bit_vector);
        assert(((first & 0xfe00) == 0xfc00) == (0xfc00 <= first && first <= 0xfdff)) by (bit_vector);
        assert(((first & 0xffc0) == 0xfe80) == (0xfe80 <= first && first <= 0xfebf)) by (bit_vector);
    }
    is_loopback || is_unspecified || is_multicast || (first & 0xfe00) == 0xfc00 || (first
        & 0xffc0) == 0xfe80
}

pub fn is_forbidden_ip(ip: IpAddress) -> (r: bool)
    ensures
        r == ip_forbidden(ip),
{
    match ip {
        IpAddress::V4(o) => is_forbidden_ipv4(o),
        IpAddress::V6(s) => is_forbidden_ipv6(s),
    }
}

} // verus!
