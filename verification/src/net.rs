//! Addresses, as the library models them: four octets or eight 16-bit
//! groups, and the judgement of which of them are "ours".
use vstd::prelude::*;

verus! {

/// An IPv4 or IPv6 address.
#[derive(Debug, Clone, Copy, PartialEq, Eq)]
pub enum Ip {
    V4([u8; 4]),
    V6([u16; 8]),
}

/// Addresses this machine reaches without leaving the premises: loopback,
/// the private ranges, link-local, broadcast, multicast, unspecified and
/// carrier-grade NAT (100.64/10) for IPv4; loopback, multicast,
/// unspecified, unique-local (fc00::/7) and link-local (fe80::/10) for IPv6.
pub open spec fn is_local_spec(ip: Ip) -> bool {
    match ip {
        Ip::V4(o) => {
            let (a, b, c, d) = (o[0], o[1], o[2], o[3]);
            ||| a == 127
            ||| a == 10
            ||| (a == 172 && 16 <= b < 32)
            ||| (a == 192 && b == 168)
            ||| (a == 169 && b == 254)
            ||| (a == 255 && b == 255 && c == 255 && d == 255)
            ||| (224 <= a < 240)
            ||| (a == 0 && b == 0 && c == 0 && d == 0)
            ||| (a == 100 && 64 <= b < 128)
        },
        Ip::V6(s) => {
            ||| (s[0] == 0 && s[1] == 0 && s[2] == 0 && s[3] == 0 && s[4] == 0 && s[5] == 0 && s[6]
                == 0 && s[7] == 1)
            ||| s[0] >= 0xff00
            ||| (s[0] == 0 && s[1] == 0 && s[2] == 0 && s[3] == 0 && s[4] == 0 && s[5] == 0 && s[6]
                == 0 && s[7] == 0)
            ||| (0xfc00 <= s[0] && s[0] <= 0xfdff)
            ||| (0xfe80 <= s[0] && s[0] <= 0xfebf)
        },
    }
}

/// is the other end out there, or is it ours?
pub fn is_local_address(ip: &Ip) -> (r: bool)
    ensures
        r == is_local_spec(*ip),
{
    match ip {
        Ip::V4(o) => {
            let (a, b, c, d) = (o[0], o[1], o[2], o[3]);
            a == 127 || a == 10 || (a == 172 && 16 <= b && b < 32) || (a == 192 && b == 168) || (a
                == 169 && b == 254) || (a == 255 && b == 255 && c == 255 && d == 255) || (224 <= a
                && a < 240) || (a == 0 && b == 0 && c == 0 && d == 0) || (a == 100 && 64 <= b && b
                < 128)
        },
        Ip::V6(s) => {
            (s[0] == 0 && s[1] == 0 && s[2] == 0 && s[3] == 0 && s[4] == 0 && s[5] == 0 && s[6] == 0
                && s[7] == 1) || s[0] >= 0xff00 || (s[0] == 0 && s[1] == 0 && s[2] == 0 && s[3] == 0
                && s[4] == 0 && s[5] == 0 && s[6] == 0 && s[7] == 0) || (0xfc00 <= s[0] && s[0]
                <= 0xfdff) || (0xfe80 <= s[0] && s[0] <= 0xfebf)
        },
    }
}

} // verus!
