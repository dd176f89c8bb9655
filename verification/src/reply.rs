//! Turning a DNS reply the tap holds into an NXDOMAIN for the same
//! question: the DNS body is rebuilt, then the lengths and the RFC 1071
//! checksums of the IP and UDP headers are made to agree with it. A reply
//! over TCP is rewritten in place at its own length instead.
use vstd::prelude::*;
use crate::packet::{be16, version};

verus! {

/// The byte stream the checksum pairs into words: the runs in order, except
/// that an empty run met while a byte is pending pairs that byte with a zero.
pub open spec fn stream(runs: Seq<Seq<u8>>, odd: bool) -> Seq<u8>
    decreases runs.len(),
{
    if runs.len() == 0 {
        seq![]
    } else if odd && runs[0].len() == 0 {
        seq![0u8] + stream(runs.drop_first(), false)
    } else {
        runs[0] + stream(runs.drop_first(), odd != (runs[0].len() % 2 == 1))
    }
}

/// the sum of the big-endian 16-bit words of `s`, a last odd byte taken as
/// the high half of a word
pub open spec fn word_sum(s: Seq<u8>) -> nat
    decreases s.len(),
{
    if s.len() == 0 {
        0
    } else if s.len() == 1 {
        (s[0] * 256) as nat
    } else {
        (be16(s[0], s[1]) + word_sum(s.skip(2))) as nat
    }
}

pub proof fn lemma_fold_step(x: nat)
    requires
        x >= 65536,
    ensures
        x % 65536 + x / 65536 < x,
{
    assert(x % 65536 + x / 65536 < x) by (nonlinear_arith)
        requires
            x >= 65536,
    ;
}

/// end-around carry: add the high half back in until the sum fits 16 bits
pub open spec fn fold16(x: nat) -> nat
    decreases x,
{
    if x < 65536 {
        x
    } else {
        proof {
            lemma_fold_step(x);
        }
        fold16(x % 65536 + x / 65536)
    }
}

/// the RFC 1071 checksum of some runs of bytes: the ones' complement of
/// their folded word sum
pub open spec fn checksum(runs: Seq<Seq<u8>>) -> int {
    65535 - fold16(word_sum(stream(runs, false)))
}

pub open spec fn run_views(runs: Seq<&[u8]>) -> Seq<Seq<u8>> {
    runs.map_values(|r: &[u8]| r@)
}

/// the total length of some runs
pub open spec fn total_len(runs: Seq<Seq<u8>>) -> nat
    decreases runs.len(),
{
    if runs.len() == 0 {
        0
    } else {
        runs[0].len() + total_len(runs.drop_first())
    }
}

pub proof fn lemma_stream_len(runs: Seq<Seq<u8>>, odd: bool)
    ensures
        stream(runs, odd).len() <= total_len(runs) + runs.len(),
    decreases runs.len(),
{
    if runs.len() > 0 {
        lemma_stream_len(runs.drop_first(), false);
        lemma_stream_len(runs.drop_first(), odd != (runs[0].len() % 2 == 1));
    }
}

proof fn lemma_word_sum_bound(s: Seq<u8>)
    ensures
        word_sum(s) <= 32768 * s.len() + 32768,
    decreases s.len(),
{
    if s.len() >= 2 {
        lemma_word_sum_bound(s.skip(2));
    }
}

proof fn lemma_fold_bound(x: nat)
    ensures
        fold16(x) < 65536,
    decreases x,
{
    if x >= 65536 {
        lemma_fold_step(x);
        lemma_fold_bound(x % 65536 + x / 65536);
    }
}

fn push_all(v: &mut Vec<u8>, s: &[u8])
    ensures
        final(v)@ == old(v)@ + s@,
{
    let ghost start = v@;
    let mut i: usize = 0;
    while i < s.len()
        invariant
            i <= s@.len(),
            v@ == start + s@.subrange(0, i as int),
        decreases s@.len() - i,
    {
        v.push(s[i]);
        i = i + 1;
        assert(v@ =~= start + s@.subrange(0, i as int));
    }
    assert(s@.subrange(0, s@.len() as int) =~= s@);
}

/// RFC 1071 ones' complement sum over a sequence of byte runs, folded to 16
/// bits and complemented. Runs rather than one slice, so that the UDP
/// pseudo-header can be summed in place.
fn ones_complement(runs: &[&[u8]]) -> (ck: u16)
    requires
        stream(run_views(runs@), false).len() <= 131070,
    ensures
        ck == checksum(run_views(runs@)),
{
    let ghost rs = run_views(runs@);
    // the words the sum pairs up, in order
    let mut flat: Vec<u8> = Vec::new();
    let mut odd = false;
    let mut r: usize = 0;
    assert(rs.skip(0) =~= rs);
    assert(flat@ + stream(rs.skip(0), false) =~= stream(rs, false));
    while r < runs.len()
        invariant
            rs == run_views(runs@),
            r <= runs@.len(),
            flat@ + stream(rs.skip(r as int), odd) == stream(rs, false),
        decreases runs@.len() - r,
    {
        let run = runs[r];
        assert(rs.skip(r as int)[0] == run@);
        assert(rs.skip(r as int).drop_first() =~= rs.skip(r + 1));
        if odd && run.len() == 0 {
            flat.push(0);
            odd = false;
        } else {
            push_all(&mut flat, run);
            odd = odd != (run.len() % 2 == 1);
        }
        r = r + 1;
        assert(flat@ + stream(rs.skip(r as int), odd) =~= stream(rs, false));
    }
    assert(rs.skip(r as int).len() == 0);
    assert(flat@ =~= stream(rs, false));
    proof {
        lemma_word_sum_bound(flat@);
    }
    let mut sum: u32 = 0;
    let mut i: usize = 0;
    assert(flat@.skip(0) =~= flat@);
    while i < flat.len()
        invariant
            flat@ == stream(rs, false),
            flat@.len() <= 131070,
            i <= flat@.len(),
            sum + word_sum(flat@.skip(i as int)) == word_sum(flat@),
            word_sum(flat@) <= 32768 * flat@.len() + 32768,
        decreases flat@.len() - i,
    {
        let ghost rest = flat@.skip(i as int);
        proof {
            lemma_word_sum_bound(rest);
        }
        if i + 1 < flat.len() {
            assert(rest.skip(2) =~= flat@.skip(i + 2));
            sum = sum + (flat[i] as u32) * 256 + (flat[i + 1] as u32);
            i = i + 2;
        } else {
            sum = sum + (flat[i] as u32) * 256;
            i = i + 1;
            assert(flat@.skip(i as int).len() == 0);
        }
    }
    assert(flat@.skip(i as int).len() == 0);
    let ghost total = word_sum(flat@);
    while sum >= 65536
        invariant
            fold16(sum as nat) == fold16(total),
        decreases sum,
    {
        proof {
            lemma_fold_step(sum as nat);
        }
        sum = sum % 65536 + sum / 65536;
    }
    proof {
        lemma_fold_bound(total);
    }
    (65535 - sum) as u16
}

/// the two big-endian bytes of `x` written at `at`
pub open spec fn set2(s: Seq<u8>, at: int, x: int) -> Seq<u8> {
    s.update(at, (x / 256) as u8).update(at + 1, (x % 256) as u8)
}

fn set_be16(v: &mut Vec<u8>, at: usize, x: u16)
    requires
        at + 1 < old(v)@.len(),
    ensures
        final(v)@ == set2(old(v)@, at as int, x as int),
{
    let _n = v.len();
    let next = at + 1;
    v.set(at, (x / 256) as u8);
    v.set(next, (x % 256) as u8);
}

/// big-endian bytes of a 16-bit value
pub open spec fn be16s(x: int) -> Seq<u8> {
    seq![(x / 256) as u8, (x % 256) as u8]
}

/// big-endian bytes of a 32-bit value
pub open spec fn be32s(x: int) -> Seq<u8> {
    seq![(x / 16777216) as u8, ((x / 65536) % 256) as u8, ((x / 256) % 256) as u8, (x % 256) as u8]
}

/// How long a resolver may cache one of our NXDOMAINs, in seconds: short
/// enough that allowlisting a name takes effect at once, long enough to end
/// the retry storm a name with no negative caching gets.
pub const NXDOMAIN_TTL: u32 = 60;

/// The SOA that makes an NXDOMAIN cacheable (RFC 2308): owner name a
/// pointer to the question at offset 12, type SOA, class IN, the TTL, then
/// MNAME "localhost.", RNAME "hostmaster.localhost.", serial 1, refresh
/// 3600, retry 600, expire 86400 and the negative TTL as MINIMUM.
#[verifier::opaque]
pub open spec fn soa_rdata() -> Seq<u8> {
    seq![9u8, 108, 111, 99, 97, 108, 104, 111, 115, 116, 0] + seq![
        10u8,
        104,
        111,
        115,
        116,
        109,
        97,
        115,
        116,
        101,
        114,
        9,
        108,
        111,
        99,
        97,
        108,
        104,
        111,
        115,
        116,
        0,
    ] + be32s(1) + be32s(3600) + be32s(600) + be32s(86400) + be32s(60)
}

pub open spec fn soa_record() -> Seq<u8> {
    seq![0xC0u8, 0x0C, 0, 6, 0, 1] + be32s(60) + be16s(soa_rdata().len() as int) + soa_rdata()
}

pub proof fn lemma_soa_len()
    ensures
        soa_rdata().len() == 53,
        soa_record().len() == 65,
{
    reveal(soa_rdata);
}

fn push_be32(v: &mut Vec<u8>, x: u32)
    ensures
        final(v)@ == old(v)@ + be32s(x as int),
{
    v.push((x / 16777216) as u8);
    v.push(((x / 65536) % 256) as u8);
    v.push(((x / 256) % 256) as u8);
    v.push((x % 256) as u8);
    assert(final(v)@ =~= old(v)@ + be32s(x as int)) by {
        assert(v@.len() == old(v)@.len() + 4);
    }
}

fn push_soa(body: &mut Vec<u8>)
    ensures
        final(body)@ == old(body)@ + soa_record(),
{
    let ghost start = body@;
    push_all(body, &[0xC0, 0x0C]);  // NAME: the question, by pointer
    push_all(body, &[0, 6]);  // TYPE: SOA
    push_all(body, &[0, 1]);  // CLASS: IN
    push_be32(body, NXDOMAIN_TTL);
    let mut rdata: Vec<u8> = Vec::new();
    push_all(&mut rdata, &[9, 108, 111, 99, 97, 108, 104, 111, 115, 116, 0]);
    push_all(
        &mut rdata,
        &[10, 104, 111, 115, 116, 109, 97, 115, 116, 101, 114, 9, 108, 111, 99, 97, 108, 104, 111, 115, 116, 0],
    );
    push_be32(&mut rdata, 1);  // SERIAL
    push_be32(&mut rdata, 3600);  // REFRESH
    push_be32(&mut rdata, 600);  // RETRY
    push_be32(&mut rdata, 86400);  // EXPIRE
    push_be32(&mut rdata, NXDOMAIN_TTL);  // MINIMUM: the negative ttl
    assert(rdata@ =~= soa_rdata()) by {
        reveal(soa_rdata);
    }
    let n = rdata.len() as u16;
    body.push((n / 256) as u8);
    body.push((n % 256) as u8);
    push_all(body, rdata.as_slice());
    assert(body@ =~= start + soa_record());
}

/// the DNS body of the NXDOMAIN for the question `dns[12..q_end]`: same
/// transaction id; QR=1, opcode 0, AA=0, TC=0, RD copied, RA=1, rcode 3;
/// one question kept, no answers, one authority record (the SOA), no
/// additionals; the question; the SOA
pub open spec fn nx_body(dns: Seq<u8>, q_end: int) -> Seq<u8> {
    dns.subrange(0, 2) + seq![(128 + dns[2] % 2) as u8, 0x83u8, 0, 1, 0, 0, 0, 1, 0, 0]
        + dns.subrange(12, q_end) + soa_record()
}

/// a computed checksum of 0 goes out as its all-ones form (RFC 768): zero
/// means "no checksum" on IPv4 UDP and is illegal on IPv6
pub open spec fn nonzero(ck: int) -> int {
    if ck == 0 {
        65535
    } else {
        ck
    }
}

/// The NXDOMAIN packet for the reply `p`, whose UDP header is at `l4` and
/// whose DNS question ends at `q_end` (counted from the start of the DNS
/// body): the IP and UDP headers kept, the body replaced, the UDP length and
/// (for IPv4) the total length rewritten, and the checksums recomputed.
/// `None` when the question is not within the packet, or the version is
/// neither 4 nor 6.
pub open spec fn nxdomain_spec(p: Seq<u8>, l4: int, q_end: int) -> Option<Seq<u8>> {
    if l4 + 8 > p.len() || q_end < 12 || q_end > p.len() - (l4 + 8) {
        None
    } else {
        let body = nx_body(p.skip(l4 + 8), q_end);
        let udp_len: int = (8 + body.len()) as int % 65536;
        let out0 = set2(set2(p.take(l4 + 8) + body, l4 + 4, udp_len), l4 + 6, 0);
        if version(p) == 4 {
            Some(finish_v4(out0, l4, udp_len))
        } else if version(p) == 6 {
            Some(finish_v6(out0, l4, udp_len))
        } else {
            None
        }
    }
}

/// IPv4: the total length, the header checksum, then the UDP checksum over
/// the pseudo-header (addresses, zero and protocol, UDP length) and the
/// datagram
pub open spec fn finish_v4(out0: Seq<u8>, l4: int, udp_len: int) -> Seq<u8> {
    let out1 = set2(set2(out0, 2, (l4 + udp_len) % 65536), 10, 0);
    let out2 = set2(out1, 10, checksum(seq![out1.take(l4)]));
    let ck = checksum(
        seq![out2.subrange(12, 20), seq![0u8, 17], be16s(udp_len), out2.subrange(l4, l4 + udp_len)],
    );
    set2(out2, l4 + 6, nonzero(ck))
}

/// IPv6: the payload length, then the UDP checksum over the pseudo-header
/// (addresses, upper-layer length, zeroes and next header) and the datagram
pub open spec fn finish_v6(out0: Seq<u8>, l4: int, udp_len: int) -> Seq<u8> {
    let out1 = set2(out0, 4, udp_len);
    let ck = checksum(
        seq![out1.subrange(8, 40), be32s(udp_len), seq![0u8, 0, 0, 17], out1.subrange(l4, l4 + udp_len)],
    );
    set2(out1, l4 + 6, nonzero(ck))
}

proof fn lemma_four_runs_len(a: Seq<u8>, b: Seq<u8>, c: Seq<u8>, d: Seq<u8>)
    requires
        a.len() + b.len() + c.len() + d.len() <= 131066,
    ensures
        stream(seq![a, b, c, d], false).len() <= 131070,
{
    let rs = seq![a, b, c, d];
    lemma_stream_len(rs, false);
    reveal_with_fuel(total_len, 5);
    assert(rs.drop_first() =~= seq![b, c, d]);
    assert(rs.drop_first().drop_first() =~= seq![c, d]);
    assert(rs.drop_first().drop_first().drop_first() =~= seq![d]);
    assert(rs.drop_first().drop_first().drop_first().drop_first() =~= Seq::<Seq<u8>>::empty());
}

proof fn lemma_one_run_len(a: Seq<u8>)
    requires
        a.len() <= 131069,
    ensures
        stream(seq![a], false).len() <= 131070,
{
    let rs = seq![a];
    lemma_stream_len(rs, false);
    reveal_with_fuel(total_len, 2);
    assert(rs.drop_first() =~= Seq::<Seq<u8>>::empty());
}

fn checksum4(a: &[u8], b: &[u8], c: &[u8], d: &[u8]) -> (ck: u16)
    requires
        a@.len() + b@.len() + c@.len() + d@.len() <= 131066,
    ensures
        ck == checksum(seq![a@, b@, c@, d@]),
{
    let runs: [&[u8]; 4] = [a, b, c, d];
    let rs: &[&[u8]] = &runs;
    assert(run_views(rs@) =~= seq![a@, b@, c@, d@]);
    proof {
        lemma_four_runs_len(a@, b@, c@, d@);
    }
    ones_complement(rs)
}

fn checksum1(a: &[u8]) -> (ck: u16)
    requires
        a@.len() <= 131069,
    ensures
        ck == checksum(seq![a@]),
{
    let runs: [&[u8]; 1] = [a];
    let rs: &[&[u8]] = &runs;
    assert(run_views(rs@) =~= seq![a@]);
    proof {
        lemma_one_run_len(a@);
    }
    ones_complement(rs)
}

fn build_body(dns: &[u8], q_end: usize) -> (body: Vec<u8>)
    requires
        12 <= q_end <= dns@.len(),
    ensures
        body@ == nx_body(dns@, q_end as int),
{
    let question = vstd::slice::slice_subrange(dns, 12, q_end);
    let mut body: Vec<u8> = Vec::new();
    body.push(dns[0]);
    body.push(dns[1]);
    body.push(128 + dns[2] % 2);
    body.push(0x83);
    push_all(&mut body, &[0, 1, 0, 0, 0, 1, 0, 0]);
    push_all(&mut body, question);
    push_soa(&mut body);
    assert(body@ =~= nx_body(dns@, q_end as int));
    body
}

fn finish_v4_exec(out: &mut Vec<u8>, l4: usize, udp_len: u16)
    requires
        l4 + udp_len <= old(out)@.len(),
        40 <= old(out)@.len(),
        old(out)@.len() <= 131000,
        l4 + 8 <= old(out)@.len(),
    ensures
        final(out)@ == finish_v4(old(out)@, l4 as int, udp_len as int),
{
    let total: u16 = ((l4 + udp_len as usize) % 65536) as u16;
    set_be16(out, 2, total);
    set_be16(out, 10, 0);
    let ghost out1 = out@;
    let ip_ck = checksum1(vstd::slice::slice_subrange(out.as_slice(), 0, l4));
    assert(out1.subrange(0, l4 as int) =~= out1.take(l4 as int));
    set_be16(out, 10, ip_ck);
    let proto: [u8; 2] = [0, 17];
    let ul: [u8; 2] = [(udp_len / 256) as u8, (udp_len % 256) as u8];
    assert(proto@ =~= seq![0u8, 17]);
    assert(ul@ =~= be16s(udp_len as int));
    let ck = checksum4(
        vstd::slice::slice_subrange(out.as_slice(), 12, 20),
        &proto,
        &ul,
        vstd::slice::slice_subrange(out.as_slice(), l4, l4 + udp_len as usize),
    );
    let ck = if ck == 0 {
        0xFFFF
    } else {
        ck
    };
    set_be16(out, l4 + 6, ck);
}

fn finish_v6_exec(out: &mut Vec<u8>, l4: usize, udp_len: u16)
    requires
        l4 + udp_len <= old(out)@.len(),
        40 <= old(out)@.len(),
        old(out)@.len() <= 131000,
        l4 + 8 <= old(out)@.len(),
    ensures
        final(out)@ == finish_v6(old(out)@, l4 as int, udp_len as int),
{
    set_be16(out, 4, udp_len);
    let ul: [u8; 4] = [0, 0, (udp_len / 256) as u8, (udp_len % 256) as u8];
    let nh: [u8; 4] = [0, 0, 0, 17];
    assert(ul@ =~= be32s(udp_len as int));
    assert(nh@ =~= seq![0u8, 0, 0, 17]);
    let ck = checksum4(
        vstd::slice::slice_subrange(out.as_slice(), 8, 40),
        &ul,
        &nh,
        vstd::slice::slice_subrange(out.as_slice(), l4, l4 + udp_len as usize),
    );
    let ck = if ck == 0 {
        0xFFFF
    } else {
        ck
    };
    set_be16(out, l4 + 6, ck);
}

/// Rewrites a DNS reply packet into an NXDOMAIN for the same question.
///
/// The reply is already addressed to the app that asked and held in the
/// queue, so this keeps the IP and UDP headers, replaces the DNS body with
/// header + question + SOA and the NXDOMAIN rcode, then fixes up the lengths
/// and both checksums. `None` (leave the packet alone) rather than anything
/// malformed. An IP packet is at most 65535 bytes long.
pub fn nxdomain_reply(payload: &[u8], l4: usize, q_end: usize) -> (r: Option<Vec<u8>>)
    requires
        payload@.len() <= 65535,
    ensures
        match r {
            Some(v) => nxdomain_spec(payload@, l4 as int, q_end as int) == Some(v@),
            None => nxdomain_spec(payload@, l4 as int, q_end as int) is None,
        },
{
    let ghost p = payload@;
    if l4 > payload.len() || payload.len() - l4 < 8 {
        return None;
    }
    let dns = vstd::slice::slice_subrange(payload, l4 + 8, payload.len());
    assert(dns@ =~= p.skip(l4 + 8));
    if q_end < 12 || q_end > dns.len() {
        return None;
    }
    let body = build_body(dns, q_end);
    proof {
        lemma_soa_len();
    }
    let udp_len: u16 = ((8 + body.len()) % 65536) as u16;
    let mut out: Vec<u8> = Vec::new();
    push_all(&mut out, vstd::slice::slice_subrange(payload, 0, l4 + 8));
    push_all(&mut out, body.as_slice());
    assert(out@ =~= p.take(l4 + 8) + body@);
    set_be16(&mut out, l4 + 4, udp_len);
    set_be16(&mut out, l4 + 6, 0);
    let v = payload[0] / 16;
    if v == 4 {
        finish_v4_exec(&mut out, l4, udp_len);
        Some(out)
    } else if v == 6 {
        finish_v6_exec(&mut out, l4, udp_len);
        Some(out)
    } else {
        None
    }
}

// ------------------------------------------------------------ the checksums hold

proof fn lemma_fold_mod(x: nat)
    ensures
        fold16(x) % 65535 == x % 65535,
        x > 0 ==> fold16(x) > 0,
        fold16(x) < 65536,
    decreases x,
{
    if x >= 65536 {
        lemma_fold_step(x);
        let y = x % 65536 + x / 65536;
        lemma_fold_mod(y);
        assert(y % 65535 == x % 65535) by (nonlinear_arith)
            requires
                y == x % 65536 + x / 65536,
                x >= 0,
        {
            assert(x == 65536 * (x / 65536) + x % 65536);
            assert(x == 65535 * (x / 65536) + y);
        }
        assert(y > 0) by (nonlinear_arith)
            requires
                y == x % 65536 + x / 65536,
                x >= 65536,
        ;
    }
}

/// a positive multiple of 65535 folds to 65535 (ones' complement zero)
proof fn lemma_fold_zero(x: nat)
    requires
        x > 0,
        x % 65535 == 0,
    ensures
        fold16(x) == 65535,
{
    lemma_fold_mod(x);
    let f = fold16(x);
    assert(f % 65535 == 0 && 0 < f < 65536);
    assert(f == 65535) by (nonlinear_arith)
        requires
            f % 65535 == 0,
            0 < f < 65536,
    ;
}

/// writing two bytes at an even offset changes the word sum by exactly the
/// word written less the word there before
proof fn lemma_word_sum_set2(s: Seq<u8>, k: int, a: u8, b: u8)
    requires
        0 <= k,
        k + 1 < s.len(),
        k % 2 == 0,
    ensures
        word_sum(s.update(k, a).update(k + 1, b)) + be16(s[k], s[k + 1]) == word_sum(s) + be16(a, b),
    decreases s.len(),
{
    let t = s.update(k, a).update(k + 1, b);
    if k == 0 {
        assert(t.skip(2) =~= s.skip(2));
    } else {
        lemma_word_sum_set2(s.skip(2), k - 2, a, b);
        assert(t.skip(2) =~= s.skip(2).update(k - 2, a).update(k - 1, b));
    }
}

/// the word sum of two pieces, the first of even length, is the sum of
/// theirs
proof fn lemma_word_sum_concat(a: Seq<u8>, b: Seq<u8>)
    requires
        a.len() % 2 == 0,
    ensures
        word_sum(a + b) == word_sum(a) + word_sum(b),
    decreases a.len(),
{
    if a.len() >= 2 {
        lemma_word_sum_concat(a.skip(2), b);
        assert((a + b).skip(2) =~= a.skip(2) + b);
    } else {
        assert(a + b =~= b);
    }
}

proof fn lemma_stream_four(a: Seq<u8>, b: Seq<u8>, c: Seq<u8>, d: Seq<u8>)
    requires
        a.len() % 2 == 0,
        b.len() % 2 == 0,
        c.len() % 2 == 0,
        a.len() > 0,
        b.len() > 0,
        c.len() > 0,
    ensures
        stream(seq![a, b, c, d], false) == a + b + c + d,
{
    let rs = seq![a, b, c, d];
    assert(rs.drop_first() =~= seq![b, c, d]);
    assert(rs.drop_first().drop_first() =~= seq![c, d]);
    assert(rs.drop_first().drop_first().drop_first() =~= seq![d]);
    assert(rs.drop_first().drop_first().drop_first().drop_first() =~= Seq::<Seq<u8>>::empty());
    reveal_with_fuel(stream, 5);
    assert(stream(seq![d], false) =~= d);
    assert(stream(rs, false) =~= a + b + c + d);
}

proof fn lemma_stream_one(a: Seq<u8>)
    ensures
        stream(seq![a], false) == a,
{
    assert(seq![a].drop_first() =~= Seq::<Seq<u8>>::empty());
    reveal_with_fuel(stream, 2);
    assert(stream(seq![a], false) =~= a);
}

/// A stream whose checksum field (at the even offset `k`) held zero when
/// the checksum was taken, and holds it (or its all-ones form) now, sums
/// to ones' complement zero: its checksum is 0.
proof fn lemma_field_closes(s: Seq<u8>, k: int, ck: int)
    requires
        0 <= k,
        k + 1 < s.len(),
        k % 2 == 0,
        s[k] == 0,
        s[k + 1] == 0,
        ck == 65535 - fold16(word_sum(s)),
    ensures
        65535 - fold16(word_sum(s.update(k, (nonzero(ck) / 256) as u8).update(k + 1, (nonzero(ck) % 256) as u8))) == 0,
{
    let c = nonzero(ck);
    lemma_fold_mod(word_sum(s));
    let f = fold16(word_sum(s));
    assert(0 <= c < 65536);
    let hi = (c / 256) as u8;
    let lo = (c % 256) as u8;
    assert(be16(hi, lo) == c);
    lemma_word_sum_set2(s, k, hi, lo);
    let total = word_sum(s) + c;
    assert(word_sum(s.update(k, hi).update(k + 1, lo)) == total);
    assert(total % 65535 == 0) by (nonlinear_arith)
        requires
            total == word_sum(s) + c,
            f % 65535 == word_sum(s) % 65535,
            c == 65535 - f || (65535 - f == 0 && c == 65535),
            0 <= f,
    ;
    assert(total > 0);
    lemma_fold_zero(total as nat);
}

/// The NXDOMAIN an IPv4 reply is rewritten into carries checksums that
/// verify: its IP header, and its UDP datagram under the pseudo-header,
/// each sum to ones' complement zero — provided the header is a real one
/// (at least 20 bytes) and the rewritten packet fits an IP packet.
#[verifier::spinoff_prover]
#[verifier::rlimit(30)]
pub proof fn lemma_nxdomain_v4_checksums_hold(p: Seq<u8>, l4: int, q_end: int)
    requires
        nxdomain_spec(p, l4, q_end) is Some,
        version(p) == 4,
        l4 >= 20,
        l4 + q_end + 73 <= 65535,
    ensures
        ({
            let out = nxdomain_spec(p, l4, q_end).unwrap();
            let udp_len = out.len() - l4;
            &&& checksum(seq![out.take(l4)]) == 0
            &&& checksum(
                seq![out.subrange(12, 20), seq![0u8, 17], be16s(udp_len), out.subrange(l4, out.len() as int)],
            ) == 0
        }),
{
    lemma_soa_len();
    let body = nx_body(p.skip(l4 + 8), q_end);
    let udp_len: int = (8 + body.len()) as int % 65536;
    assert(body.len() == q_end + 65);
    assert(udp_len == 8 + body.len());
    let out0 = set2(set2(p.take(l4 + 8) + body, l4 + 4, udp_len), l4 + 6, 0);
    let out1 = set2(set2(out0, 2, (l4 + udp_len) % 65536), 10, 0);
    let ipck = checksum(seq![out1.take(l4)]);
    let out2 = set2(out1, 10, ipck);
    let runs2 = seq![out2.subrange(12, 20), seq![0u8, 17], be16s(udp_len), out2.subrange(l4, l4 + udp_len)];
    let ck = checksum(runs2);
    let out = set2(out2, l4 + 6, nonzero(ck));
    assert(nxdomain_spec(p, l4, q_end) == Some(out));
    assert(out.len() == l4 + udp_len);
    // the IP header
    lemma_stream_one(out1.take(l4));
    lemma_fold_mod(word_sum(out1.take(l4)));
    assert(0 <= ipck < 65536);
    assert(out.take(l4) =~= out2.take(l4));
    assert(out2.take(l4) =~= out1.take(l4).update(10, (ipck / 256) as u8).update(11, (ipck % 256) as u8));
    assert(nonzero(ipck) == ipck || ipck == 0);
    if ipck == 0 {
        // the sum folded to all ones; writing zero keeps it so
        lemma_word_sum_set2(out1.take(l4), 10, 0, 0);
        assert(out1.take(l4).update(10, 0u8).update(11, 0u8) =~= out1.take(l4));
        assert(fold16(word_sum(out1.take(l4))) == 65535);
    } else {
        lemma_field_closes(out1.take(l4), 10, ipck);
    }
    lemma_stream_one(out.take(l4));
    // the UDP datagram
    let d2 = out2.subrange(l4, l4 + udp_len);
    let pre = out2.subrange(12, 20) + seq![0u8, 17] + be16s(udp_len);
    lemma_stream_four(out2.subrange(12, 20), seq![0u8, 17], be16s(udp_len), d2);
    assert(stream(runs2, false) == pre + d2);
    assert((pre + d2)[18] == 0 && (pre + d2)[19] == 0);
    lemma_field_closes(pre + d2, 18, ck);
    let d3 = out.subrange(l4, out.len() as int);
    assert(out.subrange(12, 20) =~= out2.subrange(12, 20));
    assert(pre + d3 =~= (pre + d2).update(18, (nonzero(ck) / 256) as u8).update(19, (nonzero(ck) % 256) as u8));
    lemma_stream_four(out.subrange(12, 20), seq![0u8, 17], be16s(udp_len), d3);
}

/// The same for an IPv6 reply: its UDP datagram under the IPv6
/// pseudo-header (addresses, upper-layer length, next header) sums to ones'
/// complement zero, provided the fixed 40-byte header and a packet that
/// fits an IP packet.
#[verifier::spinoff_prover]
#[verifier::rlimit(30)]
pub proof fn lemma_nxdomain_v6_checksum_holds(p: Seq<u8>, l4: int, q_end: int)
    requires
        nxdomain_spec(p, l4, q_end) is Some,
        version(p) == 6,
        l4 >= 40,
        l4 + q_end + 73 <= 65535,
    ensures
        ({
            let out = nxdomain_spec(p, l4, q_end).unwrap();
            let udp_len = out.len() - l4;
            checksum(
                seq![out.subrange(8, 40), be32s(udp_len), seq![0u8, 0, 0, 17], out.subrange(l4, out.len() as int)],
            ) == 0
        }),
{
    lemma_soa_len();
    let body = nx_body(p.skip(l4 + 8), q_end);
    let udp_len: int = (8 + body.len()) as int % 65536;
    assert(body.len() == q_end + 65);
    assert(udp_len == 8 + body.len());
    let out0 = set2(set2(p.take(l4 + 8) + body, l4 + 4, udp_len), l4 + 6, 0);
    let out1 = set2(out0, 4, udp_len);
    let runs1 = seq![out1.subrange(8, 40), be32s(udp_len), seq![0u8, 0, 0, 17], out1.subrange(l4, l4 + udp_len)];
    let ck = checksum(runs1);
    let out = set2(out1, l4 + 6, nonzero(ck));
    assert(nxdomain_spec(p, l4, q_end) == Some(out));
    assert(out.len() == l4 + udp_len);
    let d1 = out1.subrange(l4, l4 + udp_len);
    let pre = out1.subrange(8, 40) + be32s(udp_len) + seq![0u8, 0, 0, 17];
    lemma_stream_four(out1.subrange(8, 40), be32s(udp_len), seq![0u8, 0, 0, 17], d1);
    assert(stream(runs1, false) == pre + d1);
    assert((pre + d1)[46] == 0 && (pre + d1)[47] == 0);
    lemma_field_closes(pre + d1, 46, ck);
    let d2 = out.subrange(l4, out.len() as int);
    assert(out.subrange(8, 40) =~= out1.subrange(8, 40));
    assert(pre + d2 =~= (pre + d1).update(46, (nonzero(ck) / 256) as u8).update(47, (nonzero(ck) % 256) as u8));
    lemma_stream_four(out.subrange(8, 40), be32s(udp_len), seq![0u8, 0, 0, 17], d2);
}

// ------------------------------------------------------------ answering here

/// `p` addressed back to where it came from: its IPv4 source and
/// destination addresses exchanged, and its two ports
pub open spec fn turned_around(p: Seq<u8>, l4: int) -> Seq<u8> {
    p.take(12) + p.subrange(16, 20) + p.subrange(12, 16) + p.subrange(20, l4) + p.subrange(l4 + 2, l4 + 4)
        + p.subrange(l4, l4 + 2) + p.skip(l4 + 4)
}

/// The answer to a blocked IPv4 query `p` over UDP, whose UDP header is at
/// `l4` and whose question ends at `q_end` (counted from the start of the
/// DNS message): the query turned around and given the NXDOMAIN body
/// (`nxdomain_spec`), so the name is never asked beyond this machine.
/// `None` for anything but IPv4 with a full header, or a question not
/// within the packet.
pub open spec fn local_answer_spec(p: Seq<u8>, l4: int, q_end: int) -> Option<Seq<u8>> {
    if p.len() > 0 && version(p) == 4 && l4 >= 20 && l4 + 8 <= p.len() {
        nxdomain_spec(turned_around(p, l4), l4, q_end)
    } else {
        None
    }
}

/// Builds the answer to a blocked query (`local_answer_spec`), to be sent
/// from here in place of the query.
pub fn local_answer(payload: &[u8], l4: usize, q_end: usize) -> (r: Option<Vec<u8>>)
    requires
        payload@.len() <= 65535,
    ensures
        match r {
            Some(v) => local_answer_spec(payload@, l4 as int, q_end as int) == Some(v@),
            None => local_answer_spec(payload@, l4 as int, q_end as int) is None,
        },
{
    if payload.len() == 0 || payload[0] / 16 != 4 || l4 < 20 || l4 > payload.len() || payload.len() - l4 < 8 {
        return None;
    }
    let mut t: Vec<u8> = Vec::new();
    push_all(&mut t, vstd::slice::slice_subrange(payload, 0, 12));
    push_all(&mut t, vstd::slice::slice_subrange(payload, 16, 20));
    push_all(&mut t, vstd::slice::slice_subrange(payload, 12, 16));
    push_all(&mut t, vstd::slice::slice_subrange(payload, 20, l4));
    push_all(&mut t, vstd::slice::slice_subrange(payload, l4 + 2, l4 + 4));
    push_all(&mut t, vstd::slice::slice_subrange(payload, l4, l4 + 2));
    push_all(&mut t, vstd::slice::slice_subrange(payload, l4 + 4, payload.len()));
    assert(t@ =~= turned_around(payload@, l4 as int));
    nxdomain_reply(t.as_slice(), l4, q_end)
}

/// The answer sent for a blocked query goes back where the query came
/// from — the addresses and the ports exchanged — and its checksums verify.
pub proof fn lemma_local_answer_goes_back_and_checks(p: Seq<u8>, l4: int, q_end: int)
    requires
        local_answer_spec(p, l4, q_end) is Some,
        l4 + q_end + 73 <= 65535,
    ensures
        ({
            let out = local_answer_spec(p, l4, q_end).unwrap();
            let udp_len = out.len() - l4;
            &&& out.subrange(12, 16) == p.subrange(16, 20)
            &&& out.subrange(16, 20) == p.subrange(12, 16)
            &&& out.subrange(l4, l4 + 2) == p.subrange(l4 + 2, l4 + 4)
            &&& out.subrange(l4 + 2, l4 + 4) == p.subrange(l4, l4 + 2)
            &&& checksum(seq![out.take(l4)]) == 0
            &&& checksum(
                seq![out.subrange(12, 20), seq![0u8, 17], be16s(udp_len), out.subrange(l4, out.len() as int)],
            ) == 0
        }),
{
    let t = turned_around(p, l4);
    assert(t.len() == p.len());
    assert(t[0] == p[0]);
    assert(version(t) == 4);
    lemma_nxdomain_v4_checksums_hold(t, l4, q_end);
    lemma_soa_len();
    let body = nx_body(t.skip(l4 + 8), q_end);
    let udp_len: int = (8 + body.len()) as int % 65536;
    let out0 = set2(set2(t.take(l4 + 8) + body, l4 + 4, udp_len), l4 + 6, 0);
    let out1 = set2(set2(out0, 2, (l4 + udp_len) % 65536), 10, 0);
    let out2 = set2(out1, 10, checksum(seq![out1.take(l4)]));
    let out = local_answer_spec(p, l4, q_end).unwrap();
    assert(out.subrange(12, 16) =~= out2.subrange(12, 16));
    assert(out2.subrange(12, 16) =~= t.subrange(12, 16));
    assert(t.subrange(12, 16) =~= p.subrange(16, 20));
    assert(out.subrange(16, 20) =~= t.subrange(16, 20));
    assert(t.subrange(16, 20) =~= p.subrange(12, 16));
    assert(out.subrange(l4, l4 + 2) =~= t.subrange(l4, l4 + 2));
    assert(t.subrange(l4, l4 + 2) =~= p.subrange(l4 + 2, l4 + 4));
    assert(out.subrange(l4 + 2, l4 + 4) =~= t.subrange(l4 + 2, l4 + 4));
    assert(t.subrange(l4 + 2, l4 + 4) =~= p.subrange(l4, l4 + 2));
}

// ------------------------------------------------------------ over TCP

/// Where the DNS message a TCP segment carries starts, when the segment
/// holds exactly one whole message after its two-byte length: the header's
/// data offset names where the data begins. A reply split across segments,
/// or a segment holding anything after it, has none.
pub open spec fn tcp_message(p: Seq<u8>, l4: int) -> Option<int> {
    if l4 < 0 || l4 + 20 > p.len() {
        None
    } else {
        let d = l4 + 4 * (p[l4 + 12] / 16) as int;
        if p[l4 + 12] / 16 < 5 || d + 2 > p.len() {
            None
        } else if d + 2 + be16(p[d], p[d + 1]) == p.len() {
            Some(d + 2)
        } else {
            None
        }
    }
}

/// the NXDOMAIN for the question `dns[12..q_end]` in exactly `dns.len()`
/// bytes: the header of `nx_body`, the question, the SOA where it fits
/// (counted in the authority section only then), and zero bytes up to the
/// original length
pub open spec fn nx_in_place(dns: Seq<u8>, q_end: int) -> Seq<u8> {
    let fits = q_end + 65 <= dns.len();
    let head = dns.subrange(0, 2) + seq![
        (128 + dns[2] % 2) as u8,
        0x83u8,
        0,
        1,
        0,
        0,
        0,
        if fits {
            1u8
        } else {
            0u8
        },
        0,
        0,
    ] + dns.subrange(12, q_end);
    let full = if fits {
        head + soa_record()
    } else {
        head
    };
    full + Seq::new((dns.len() - full.len()) as nat, |k: int| 0u8)
}

/// The NXDOMAIN packet for the TCP reply `p`, whose TCP header is at `l4`
/// and whose question ends at `q_end` (counted from the start of the DNS
/// message): everything up to the message kept, the message replaced by
/// `nx_in_place` — so the packet keeps its length, and every sequence
/// number after it stays right — and the TCP checksum recomputed over the
/// pseudo-header. `None` when the segment does not hold one whole message,
/// the question is not within it, or the header is not a full IPv4 or IPv6
/// one.
pub open spec fn tcp_nxdomain_spec(p: Seq<u8>, l4: int, q_end: int) -> Option<Seq<u8>> {
    match tcp_message(p, l4) {
        None => None,
        Some(m) => {
            let dns = p.skip(m);
            if q_end < 12 || q_end > dns.len() {
                None
            } else {
                let out0 = set2(p.take(m) + nx_in_place(dns, q_end), l4 + 16, 0);
                let seg = p.len() - l4;
                if version(p) == 4 && l4 >= 20 {
                    Some(set2(out0, l4 + 16, nonzero(checksum(
                        seq![out0.subrange(12, 20), seq![0u8, 6], be16s(seg), out0.subrange(l4, p.len() as int)],
                    ))))
                } else if version(p) == 6 && l4 >= 40 {
                    Some(set2(out0, l4 + 16, nonzero(checksum(
                        seq![out0.subrange(8, 40), be32s(seg), seq![0u8, 0, 0, 6], out0.subrange(l4, p.len() as int)],
                    ))))
                } else {
                    None
                }
            }
        },
    }
}

/// Where the one whole DNS message of a TCP segment starts
/// (`tcp_message`).
pub fn tcp_message_at(p: &[u8], l4: usize) -> (r: Option<usize>)
    ensures
        match r {
            Some(m) => tcp_message(p@, l4 as int) == Some(m as int),
            None => tcp_message(p@, l4 as int) is None,
        },
{
    if l4 > p.len() || p.len() - l4 < 20 {
        return None;
    }
    let doff = (p[l4 + 12] / 16) as usize;
    if doff < 5 || p.len() - l4 < 4 * doff || p.len() - l4 - 4 * doff < 2 {
        return None;
    }
    let d = l4 + 4 * doff;
    let len = (p[d] as usize) * 256 + (p[d + 1] as usize);
    if p.len() - d - 2 == len {
        Some(d + 2)
    } else {
        None
    }
}

fn build_in_place(dns: &[u8], q_end: usize) -> (body: Vec<u8>)
    requires
        12 <= q_end <= dns@.len(),
    ensures
        body@ == nx_in_place(dns@, q_end as int),
        body@.len() == dns@.len(),
{
    proof {
        lemma_soa_len();
    }
    let fits = dns.len() >= 65 && q_end <= dns.len() - 65;
    let question = vstd::slice::slice_subrange(dns, 12, q_end);
    let mut body: Vec<u8> = Vec::new();
    body.push(dns[0]);
    body.push(dns[1]);
    body.push(128 + dns[2] % 2);
    body.push(0x83);
    push_all(&mut body, &[0, 1, 0, 0, 0]);
    body.push(if fits { 1 } else { 0 });
    push_all(&mut body, &[0, 0]);
    push_all(&mut body, question);
    if fits {
        push_soa(&mut body);
    }
    let ghost full = body@;
    while body.len() < dns.len()
        invariant
            full.len() <= body@.len() <= dns@.len(),
            body@ == full + Seq::new((body@.len() - full.len()) as nat, |k: int| 0u8),
        decreases dns.len() - body.len(),
    {
        body.push(0);
        assert(body@ =~= full + Seq::new((body@.len() - full.len()) as nat, |k: int| 0u8));
    }
    assert(body@ =~= nx_in_place(dns@, q_end as int));
    body
}

/// Rewrites a DNS reply that came over TCP into an NXDOMAIN for the same
/// question, in place (`tcp_nxdomain_spec`): the packet keeps its length,
/// since a segment shortened mid-stream would put every sequence number
/// after it out by the difference, and only the TCP checksum changes
/// besides the message. A reply split across segments is left alone rather
/// than half rewritten (`None`), and one too short to hold the SOA is
/// answered without it.
pub fn tcp_nxdomain_reply(payload: &[u8], l4: usize, q_end: usize) -> (r: Option<Vec<u8>>)
    requires
        payload@.len() <= 65535,
    ensures
        match r {
            Some(v) => tcp_nxdomain_spec(payload@, l4 as int, q_end as int) == Some(v@),
            None => tcp_nxdomain_spec(payload@, l4 as int, q_end as int) is None,
        },
{
    let ghost p = payload@;
    let m = match tcp_message_at(payload, l4) {
        Some(m) => m,
        None => return None,
    };
    let dns = vstd::slice::slice_subrange(payload, m, payload.len());
    assert(dns@ =~= p.skip(m as int));
    if q_end < 12 || q_end > dns.len() {
        return None;
    }
    let body = build_in_place(dns, q_end);
    let mut out: Vec<u8> = Vec::new();
    push_all(&mut out, vstd::slice::slice_subrange(payload, 0, m));
    push_all(&mut out, body.as_slice());
    assert(out@ =~= p.take(m as int) + body@);
    assert(out@.len() == p.len());
    set_be16(&mut out, l4 + 16, 0);
    let seg: u16 = (payload.len() - l4) as u16;
    let v = payload[0] / 16;
    if v == 4 && l4 >= 20 {
        let proto: [u8; 2] = [0, 6];
        let sl: [u8; 2] = [(seg / 256) as u8, (seg % 256) as u8];
        assert(proto@ =~= seq![0u8, 6]);
        assert(sl@ =~= be16s(seg as int));
        let ck = checksum4(
            vstd::slice::slice_subrange(out.as_slice(), 12, 20),
            &proto,
            &sl,
            vstd::slice::slice_subrange(out.as_slice(), l4, out.len()),
        );
        let ck = if ck == 0 {
            0xFFFF
        } else {
            ck
        };
        set_be16(&mut out, l4 + 16, ck);
        Some(out)
    } else if v == 6 && l4 >= 40 {
        let sl: [u8; 4] = [0, 0, (seg / 256) as u8, (seg % 256) as u8];
        let nh: [u8; 4] = [0, 0, 0, 6];
        assert(sl@ =~= be32s(seg as int));
        assert(nh@ =~= seq![0u8, 0, 0, 6]);
        let ck = checksum4(
            vstd::slice::slice_subrange(out.as_slice(), 8, 40),
            &sl,
            &nh,
            vstd::slice::slice_subrange(out.as_slice(), l4, out.len()),
        );
        let ck = if ck == 0 {
            0xFFFF
        } else {
            ck
        };
        set_be16(&mut out, l4 + 16, ck);
        Some(out)
    } else {
        None
    }
}

/// the TCP rewrite before its checksum: the packet with the message
/// replaced and the checksum field zeroed
pub open spec fn tcp_unsummed(p: Seq<u8>, l4: int, q_end: int) -> Seq<u8> {
    let m = tcp_message(p, l4).unwrap();
    set2(p.take(m) + nx_in_place(p.skip(m), q_end), l4 + 16, 0)
}

proof fn lemma_tcp_unsummed(p: Seq<u8>, l4: int, q_end: int)
    requires
        tcp_nxdomain_spec(p, l4, q_end) is Some,
    ensures
        tcp_unsummed(p, l4, q_end).len() == p.len(),
        tcp_unsummed(p, l4, q_end).take(l4) == p.take(l4),
        tcp_unsummed(p, l4, q_end)[l4 + 16] == 0,
        tcp_unsummed(p, l4, q_end)[l4 + 17] == 0,
        l4 + 20 <= p.len(),
        version(p) == 4 ==> l4 >= 20 && tcp_nxdomain_spec(p, l4, q_end) == Some(set2(
            tcp_unsummed(p, l4, q_end),
            l4 + 16,
            nonzero(checksum(
                seq![tcp_unsummed(p, l4, q_end).subrange(12, 20), seq![0u8, 6], be16s(p.len() - l4), tcp_unsummed(p, l4, q_end).subrange(l4, p.len() as int)],
            )),
        )),
        version(p) == 6 ==> l4 >= 40 && tcp_nxdomain_spec(p, l4, q_end) == Some(set2(
            tcp_unsummed(p, l4, q_end),
            l4 + 16,
            nonzero(checksum(
                seq![tcp_unsummed(p, l4, q_end).subrange(8, 40), be32s(p.len() - l4), seq![0u8, 0, 0, 6], tcp_unsummed(p, l4, q_end).subrange(l4, p.len() as int)],
            )),
        )),
        version(p) == 4 || version(p) == 6,
{
    lemma_soa_len();
    let m = tcp_message(p, l4).unwrap();
    let dns = p.skip(m);
    assert(nx_in_place(dns, q_end).len() == dns.len());
    let out0 = tcp_unsummed(p, l4, q_end);
    assert(out0.len() == p.len());
    assert(out0.take(l4) =~= p.take(l4));
}

/// the segment `out0[l4..]` under the pseudo-header runs `pre0`, `pre1`,
/// `pre2`, its checksum field at `l4 + 16` zero, sums to ones' complement
/// zero once the checksum taken over it is written there
#[verifier::spinoff_prover]
proof fn lemma_tcp_sum_closes(out0: Seq<u8>, l4: int, pre0: Seq<u8>, pre1: Seq<u8>, pre2: Seq<u8>)
    requires
        0 <= l4,
        l4 + 20 <= out0.len(),
        out0[l4 + 16] == 0,
        out0[l4 + 17] == 0,
        pre0.len() % 2 == 0 && pre0.len() > 0,
        pre1.len() % 2 == 0 && pre1.len() > 0,
        pre2.len() % 2 == 0 && pre2.len() > 0,
    ensures
        ({
            let ck = checksum(seq![pre0, pre1, pre2, out0.subrange(l4, out0.len() as int)]);
            let out = set2(out0, l4 + 16, nonzero(ck));
            checksum(seq![pre0, pre1, pre2, out.subrange(l4, out.len() as int)]) == 0
        }),
{
    let d0 = out0.subrange(l4, out0.len() as int);
    let runs = seq![pre0, pre1, pre2, d0];
    let ck = checksum(runs);
    let out = set2(out0, l4 + 16, nonzero(ck));
    let pre = pre0 + pre1 + pre2;
    let k: int = pre.len() as int + 16;
    lemma_stream_four(pre0, pre1, pre2, d0);
    assert(stream(runs, false) == pre + d0);
    assert(d0[16] == out0[l4 + 16] && d0[17] == out0[l4 + 17]);
    assert((pre + d0)[k] == d0[16] && (pre + d0)[k + 1] == d0[17]);
    assert(k % 2 == 0);
    lemma_field_closes(pre + d0, k, ck);
    let d = out.subrange(l4, out.len() as int);
    assert(pre + d =~= (pre + d0).update(k, (nonzero(ck) / 256) as u8).update(k + 1, (nonzero(ck) % 256) as u8));
    lemma_stream_four(pre0, pre1, pre2, d);
}

/// An NXDOMAIN written over a TCP reply keeps the packet's length and its
/// IP header, and carries a TCP checksum that verifies: the segment under
/// the pseudo-header of its IP version sums to ones' complement zero.
pub proof fn lemma_tcp_nxdomain_keeps_length_and_checksums(p: Seq<u8>, l4: int, q_end: int)
    requires
        tcp_nxdomain_spec(p, l4, q_end) is Some,
    ensures
        ({
            let out = tcp_nxdomain_spec(p, l4, q_end).unwrap();
            let seg = out.len() - l4;
            &&& out.len() == p.len()
            &&& out.take(l4) == p.take(l4)
            &&& version(p) == 4 ==> checksum(
                seq![out.subrange(12, 20), seq![0u8, 6], be16s(seg), out.subrange(l4, out.len() as int)],
            ) == 0
            &&& version(p) == 6 ==> checksum(
                seq![out.subrange(8, 40), be32s(seg), seq![0u8, 0, 0, 6], out.subrange(l4, out.len() as int)],
            ) == 0
        }),
{
    lemma_tcp_unsummed(p, l4, q_end);
    let out0 = tcp_unsummed(p, l4, q_end);
    let out = tcp_nxdomain_spec(p, l4, q_end).unwrap();
    let seg = p.len() - l4;
    if version(p) == 4 {
        lemma_tcp_sum_closes(out0, l4, out0.subrange(12, 20), seq![0u8, 6], be16s(seg));
        assert(out.subrange(12, 20) =~= out0.subrange(12, 20));
        assert(out.take(l4) =~= out0.take(l4));
    } else {
        lemma_tcp_sum_closes(out0, l4, out0.subrange(8, 40), be32s(seg), seq![0u8, 0, 0, 6]);
        assert(out.subrange(8, 40) =~= out0.subrange(8, 40));
        assert(out.take(l4) =~= out0.take(l4));
    }
}

} // verus!
