//! Reading the headers the daemon decides on: the IPv4/IPv6 header of a
//! queued packet and the ports of the TCP or UDP header behind it.
use vstd::prelude::*;
use crate::net::Ip;

verus! {

/// the big-endian 16-bit value of two bytes
pub open spec fn be16(hi: u8, lo: u8) -> int {
    hi * 256 + lo
}

/// `ip` is the IPv4 address spelled by the four bytes `b`
pub open spec fn v4_of(ip: Ip, b: Seq<u8>) -> bool {
    &&& b.len() == 4
    &&& ip matches Ip::V4(o) && o@ == b
}

/// `ip` is the IPv6 address spelled by the sixteen bytes `b`, taken as eight
/// big-endian groups
pub open spec fn v6_of(ip: Ip, b: Seq<u8>) -> bool {
    &&& b.len() == 16
    &&& ip matches Ip::V6(g) && forall|k: int|
        0 <= k < 8 ==> #[trigger] g@[k] == be16(b[2 * k], b[2 * k + 1])
}

/// `ip` is the address spelled by `b`: four bytes IPv4, sixteen IPv6
pub open spec fn ip_of_bytes(ip: Ip, b: Seq<u8>) -> bool {
    if b.len() == 4 {
        v4_of(ip, b)
    } else {
        v6_of(ip, b)
    }
}

/// What the daemon reads off a queued packet.
#[derive(Debug, Clone, Copy)]
pub struct PktInfo {
    /// 6 = tcp, 17 = udp
    pub proto: u8,
    pub src_port: u16,
    pub dst_port: u16,
    pub src_ip: Ip,
    pub dst_ip: Ip,
    /// byte offset of the L4 header in the packet
    pub l4: usize,
}

/// the IP version nibble of the first byte
pub open spec fn version(p: Seq<u8>) -> int {
    (p[0] / 16) as int
}

/// the IPv4 header length in bytes, from the IHL nibble
pub open spec fn ihl(p: Seq<u8>) -> int {
    (p[0] % 16) as int * 4
}

/// a packet the IPv4 reader accepts: a full fixed header, TCP or UDP, and
/// the four port bytes present where the header length says they start
pub open spec fn v4_readable(p: Seq<u8>) -> bool {
    &&& p.len() >= 20
    &&& (p[9] == 6 || p[9] == 17)
    &&& ihl(p) + 4 <= p.len()
}

/// a packet the IPv6 reader accepts: the 40-byte header, TCP or UDP as the
/// next header, and the four port bytes right after it
pub open spec fn v6_readable(p: Seq<u8>) -> bool {
    &&& p.len() >= 44
    &&& (p[6] == 6 || p[6] == 17)
}

/// `i` is what the header at the front of `p` says, with addresses `sa..sa+n`
/// and `da..da+n` and the L4 header at `l4`
pub open spec fn fields_at(p: Seq<u8>, i: PktInfo, proto_at: int, sa: int, da: int, n: int, l4: int) -> bool {
    &&& i.proto == p[proto_at]
    &&& i.l4 == l4
    &&& i.src_port == be16(p[l4], p[l4 + 1])
    &&& i.dst_port == be16(p[l4 + 2], p[l4 + 3])
    &&& ip_of_bytes(i.src_ip, p.subrange(sa, sa + n))
    &&& ip_of_bytes(i.dst_ip, p.subrange(da, da + n))
}

/// the IPv4 reading of `p`
pub open spec fn v4_fields(p: Seq<u8>, i: PktInfo) -> bool {
    fields_at(p, i, 9, 12, 16, 4, ihl(p))
}

/// the IPv6 reading of `p`
pub open spec fn v6_fields(p: Seq<u8>, i: PktInfo) -> bool {
    fields_at(p, i, 6, 8, 24, 16, 40)
}

/// a packet `parse_packet` reads
pub open spec fn readable(p: Seq<u8>) -> bool {
    &&& p.len() > 0
    &&& (version(p) == 4 && v4_readable(p) || version(p) == 6 && v6_readable(p))
}

pub(crate) fn be16_exec(hi: u8, lo: u8) -> (r: u16)
    ensures
        r == be16(hi, lo),
{
    (hi as u16) * 256 + (lo as u16)
}

pub(crate) fn v4_at(p: &[u8], at: usize) -> (ip: Ip)
    requires
        at + 4 <= p@.len(),
    ensures
        v4_of(ip, p@.subrange(at as int, at + 4)),
{
    let o: [u8; 4] = [p[at], p[at + 1], p[at + 2], p[at + 3]];
    assert(o@ =~= p@.subrange(at as int, at + 4));
    Ip::V4(o)
}

pub(crate) fn v6_at(p: &[u8], at: usize) -> (ip: Ip)
    requires
        at + 16 <= p@.len(),
    ensures
        v6_of(ip, p@.subrange(at as int, at + 16)),
{
    let g: [u16; 8] = [
        be16_exec(p[at], p[at + 1]),
        be16_exec(p[at + 2], p[at + 3]),
        be16_exec(p[at + 4], p[at + 5]),
        be16_exec(p[at + 6], p[at + 7]),
        be16_exec(p[at + 8], p[at + 9]),
        be16_exec(p[at + 10], p[at + 11]),
        be16_exec(p[at + 12], p[at + 13]),
        be16_exec(p[at + 14], p[at + 15]),
    ];
    let ip = Ip::V6(g);
    assert forall|k: int| 0 <= k < 8 implies #[trigger] g@[k] == be16(
        p@.subrange(at as int, at + 16)[2 * k],
        p@.subrange(at as int, at + 16)[2 * k + 1],
    ) by {
        assert(k == 0 || k == 1 || k == 2 || k == 3 || k == 4 || k == 5 || k == 6 || k == 7);
    }
    ip
}

/// Fixed IPv4 header: version/IHL at byte 0, protocol at byte 9, addresses
/// at 12 and 16, and the L4 header IHL*4 bytes in — whose first four bytes
/// are the source and destination port for both TCP and UDP.
fn parse_ipv4(payload: &[u8]) -> (r: Option<PktInfo>)
    requires
        payload@.len() > 0,
    ensures
        r is Some <==> v4_readable(payload@),
        r matches Some(i) ==> v4_fields(payload@, i),
{
    if payload.len() < 20 {
        return None;
    }
    let ihl: usize = ((payload[0] % 16) as usize) * 4;
    let proto = payload[9];
    if proto != 6 && proto != 17 {
        return None;
    }
    if ihl + 4 > payload.len() {
        return None;
    }
    Some(
        PktInfo {
            proto,
            src_port: be16_exec(payload[ihl], payload[ihl + 1]),
            dst_port: be16_exec(payload[ihl + 2], payload[ihl + 3]),
            l4: ihl,
            src_ip: v4_at(payload, 12),
            dst_ip: v4_at(payload, 16),
        },
    )
}

/// Fixed 40-byte IPv6 header: next header at byte 6, source address at
/// 8..24, destination at 24..40, the L4 header right after. Extension headers
/// are not walked: a packet that has them reads as neither TCP nor UDP.
fn parse_ipv6(payload: &[u8]) -> (r: Option<PktInfo>)
    ensures
        r is Some <==> v6_readable(payload@),
        r matches Some(i) ==> v6_fields(payload@, i),
{
    if payload.len() < 44 {
        return None;
    }
    let proto = payload[6];
    if proto != 6 && proto != 17 {
        return None;
    }
    Some(
        PktInfo {
            proto,
            src_port: be16_exec(payload[40], payload[41]),
            dst_port: be16_exec(payload[42], payload[43]),
            l4: 40,
            src_ip: v6_at(payload, 8),
            dst_ip: v6_at(payload, 24),
        },
    )
}

/// Reads the protocol, ports and addresses off a queued packet, dispatching
/// on the version nibble; `None` for anything but TCP or UDP over a header
/// it can read whole.
pub fn parse_packet(payload: &[u8]) -> (r: Option<PktInfo>)
    ensures
        r is Some <==> readable(payload@),
        r matches Some(i) ==> (version(payload@) == 4 && v4_fields(payload@, i)) || (version(
            payload@,
        ) == 6 && v6_fields(payload@, i)),
{
    if payload.len() == 0 {
        return None;
    }
    let v = payload[0] / 16;
    if v == 4 {
        parse_ipv4(payload)
    } else if v == 6 {
        parse_ipv6(payload)
    } else {
        None
    }
}

} // verus!
