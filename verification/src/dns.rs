//! The DNS tap's reading of a reply: the name that was asked (RFC 1035
//! names with compression pointers), and the A/AAAA addresses it answered.
use vstd::prelude::*;
use crate::net::Ip;
use crate::packet::{be16, be16_exec, ip_of_bytes, v4_at, v6_at};
use crate::text::{concat, string_of};

verus! {

/// What `String::from_utf8_lossy` makes of some bytes: their UTF-8 reading,
/// with U+FFFD for each malformed sequence.
pub uninterp spec fn lossy_utf8(b: Seq<u8>) -> Seq<char>;

/// the chars of bytes that are all ASCII
pub open spec fn ascii_chars(b: Seq<u8>) -> Seq<char> {
    Seq::new(b.len(), |i: int| b[i] as char)
}

pub open spec fn all_ascii(b: Seq<u8>) -> bool {
    forall|i: int| 0 <= i < b.len() ==> #[trigger] b[i] < 128
}

/// `String::from_utf8_lossy(b).into_owned()`. Claimed: the result is
/// `lossy_utf8(b)`, a function of the bytes alone, and for bytes that are
/// all ASCII (valid UTF-8 on their own) it is those same characters.
#[verifier::external_body]
fn utf8_lossy(b: &[u8]) -> (s: String)
    ensures
        s@ == lossy_utf8(b@),
        all_ascii(b@) ==> s@ == ascii_chars(b@),
{
    String::from_utf8_lossy(b).into_owned()
}

/// one more label onto a dotted name
pub open spec fn push_label(name: Seq<char>, label: Seq<char>) -> Seq<char> {
    if name.len() == 0 {
        label
    } else {
        name + seq!['.'] + label
    }
}

pub open spec fn end_or(end: Option<int>, e: int) -> int {
    match end {
        Some(x) => x,
        None => e,
    }
}

/// Reading a name from `pos` on, `hops` compression pointers followed so
/// far, `name` read so far, and `end` the offset just past the name in the
/// original stream once a pointer has been taken. A label byte of 192 or more
/// is a pointer; more than 16 pointers is a loop and fails.
pub open spec fn read_name_from(
    m: Seq<u8>,
    pos: int,
    hops: int,
    name: Seq<char>,
    end: Option<int>,
) -> Option<(Seq<char>, int)>
    decreases 17 - hops, m.len() - pos,
{
    if pos < 0 || pos >= m.len() || hops < 0 || hops > 16 {
        None
    } else if m[pos] == 0 {
        Some((name, end_or(end, pos + 1)))
    } else if m[pos] >= 192 {
        if pos + 1 >= m.len() || hops + 1 > 16 {
            None
        } else {
            read_name_from(
                m,
                (m[pos] - 192) * 256 + m[pos + 1],
                hops + 1,
                name,
                Some(end_or(end, pos + 2)),
            )
        }
    } else if pos + 1 + m[pos] > m.len() {
        None
    } else {
        read_name_from(
            m,
            pos + 1 + m[pos],
            hops,
            push_label(name, lossy_utf8(m.subrange(pos + 1, pos + 1 + m[pos]))),
            end,
        )
    }
}

/// the dotted name at `pos` and the offset just past it in the stream
pub open spec fn read_name(m: Seq<u8>, pos: int) -> Option<(Seq<char>, int)> {
    read_name_from(m, pos, 0, seq![], None)
}

pub open spec fn opt_int(o: Option<usize>) -> Option<int> {
    match o {
        Some(x) => Some(x as int),
        None => None,
    }
}

/// RFC 1035 name at `pos`, following compression pointers; the dotted name
/// and the offset just past the name in the original stream.
pub fn dns_read_name(msg: &[u8], pos: usize) -> (r: Option<(String, usize)>)
    ensures
        match r {
            Some((s, e)) => read_name(msg@, pos as int) == Some((s@, e as int)) && e <= msg@.len(),
            None => read_name(msg@, pos as int) is None,
        },
{
    let ghost m = msg@;
    let mut name: Vec<char> = Vec::new();
    let mut end: Option<usize> = None;
    let mut hops: usize = 0;
    let ghost want = read_name(msg@, pos as int);
    assert(name@ =~= Seq::<char>::empty());
    let mut at = pos;
    loop
        invariant
            m == msg@,
            hops <= 16,
            end matches Some(e) ==> e <= m.len(),
            read_name_from(m, at as int, hops as int, name@, opt_int(end)) == want,
            want == read_name(m, pos as int),
        decreases 17 - hops, m.len() - at,
    {
        if at >= msg.len() {
            return None;
        }
        let len = msg[at];
        if len == 0 {
            let e = match end {
                Some(x) => x,
                None => at + 1,
            };
            return Some((string_of(&name), e));
        }
        if len >= 192 {
            if at + 1 >= msg.len() || hops + 1 > 16 {
                return None;
            }
            let ptr: usize = ((len - 192) as usize) * 256 + (msg[at + 1] as usize);
            if end.is_none() {
                end = Some(at + 2);
            }
            hops = hops + 1;
            at = ptr;
        } else {
            let n = len as usize;
            if n + 1 > msg.len() - at {
                return None;
            }
            let label = utf8_lossy(vstd::slice::slice_subrange(msg, at + 1, at + 1 + n));
            let lc = crate::text::chars_of(label.as_str());
            if name.len() == 0 {
                name = lc;
            } else {
                let dot: Vec<char> = vec!['.'];
                assert(dot@ == seq!['.']);
                name = concat(&concat(&name, &dot), &lc);
            }
            at = at + 1 + n;
        }
    }
}


/// The question a DNS message asks: the name, and the offset just past the
/// question section (name, QTYPE, QCLASS). Only single-question messages.
pub open spec fn question_spec(m: Seq<u8>) -> Option<(Seq<char>, int)> {
    if m.len() < 12 || be16(m[4], m[5]) != 1 {
        None
    } else {
        match read_name(m, 12) {
            None => None,
            Some((n, e)) => if e + 4 <= m.len() {
                Some((n, e + 4))
            } else {
                None
            },
        }
    }
}

/// the name a single-question DNS message asks, and where its question ends
pub fn dns_question(msg: &[u8]) -> (r: Option<(String, usize)>)
    ensures
        match r {
            Some((s, e)) => question_spec(msg@) == Some((s@, e as int)),
            None => question_spec(msg@) is None,
        },
{
    if msg.len() < 12 || be16_exec(msg[4], msg[5]) != 1 {
        return None;
    }
    match dns_read_name(msg, 12) {
        None => None,
        Some((name, end)) => {
            if msg.len() - end >= 4 {
                Some((name, end + 4))
            } else {
                None
            }
        },
    }
}

/// Walking `k` questions from `pos`: where the answers start, and the first
/// question's name.
pub open spec fn skip_questions(m: Seq<u8>, pos: int, k: nat, q: Option<Seq<char>>) -> Option<
    (int, Option<Seq<char>>),
>
    decreases k,
{
    if k == 0 {
        Some((pos, q))
    } else {
        match read_name(m, pos) {
            None => None,
            Some((n, e)) => skip_questions(
                m,
                e + 4,
                (k - 1) as nat,
                if q is Some {
                    q
                } else {
                    Some(n)
                },
            ),
        }
    }
}

/// the rdata of a record, when it is an A (4 bytes) or AAAA (16 bytes) one
pub open spec fn rdata_ip(rtype: int, rdata: Seq<u8>) -> Seq<Seq<u8>> {
    if (rtype == 1 && rdata.len() == 4) || (rtype == 28 && rdata.len() == 16) {
        seq![rdata]
    } else {
        seq![]
    }
}

/// The A/AAAA rdata of `k` resource records from `pos` on, in order.
pub open spec fn answer_records(m: Seq<u8>, pos: int, k: nat) -> Option<Seq<Seq<u8>>>
    decreases k,
{
    if k == 0 {
        Some(seq![])
    } else {
        match read_name(m, pos) {
            None => None,
            Some((_n, e)) => if e + 10 > m.len() {
                None
            } else {
                let rdlen = be16(m[e + 8], m[e + 9]);
                if e + 10 + rdlen > m.len() {
                    None
                } else {
                    match answer_records(m, e + 10 + rdlen, (k - 1) as nat) {
                        None => None,
                        Some(rest) => Some(
                            rdata_ip(be16(m[e], m[e + 1]), m.subrange(e + 10, e + 10 + rdlen))
                                + rest,
                        ),
                    }
                }
            },
        }
    }
}

/// A DNS response's first question name and the address bytes of every
/// A/AAAA record in its answer section.
pub open spec fn answers_spec(m: Seq<u8>) -> Option<(Seq<char>, Seq<Seq<u8>>)> {
    if m.len() < 12 || m[2] < 128 {
        None
    } else {
        match skip_questions(m, 12, be16(m[4], m[5]) as nat, None) {
            None => None,
            Some((pos, q)) => match q {
                None => None,
                Some(qn) => match answer_records(m, pos, be16(m[6], m[7]) as nat) {
                    None => None,
                    Some(recs) => Some((qn, recs)),
                },
            },
        }
    }
}

/// each address is the one the bytes at the same place spell
pub open spec fn spells(ips: Seq<Ip>, recs: Seq<Seq<u8>>) -> bool {
    &&& ips.len() == recs.len()
    &&& forall|k: int| 0 <= k < ips.len() ==> #[trigger] ip_of_bytes(ips[k], recs[k])
}

proof fn lemma_read_past_end(m: Seq<u8>, pos: int)
    requires
        pos >= m.len(),
    ensures
        read_name(m, pos) is None,
{
}

proof fn lemma_records_past_end(m: Seq<u8>, pos: int, k: nat)
    requires
        pos >= m.len(),
    ensures
        answer_records(m, pos, k) == (if k == 0 {
            Some(Seq::<Seq<u8>>::empty())
        } else {
            None::<Seq<Seq<u8>>>
        }),
{
    lemma_read_past_end(m, pos);
}

proof fn lemma_skip_past_end(m: Seq<u8>, pos: int, k: nat, q: Option<Seq<char>>)
    requires
        pos >= m.len(),
        k > 0,
    ensures
        skip_questions(m, pos, k, q) is None,
{
    lemma_read_past_end(m, pos);
}

/// A DNS *response*: the first question's name and every A/AAAA address in
/// the answer section, keyed to that name (so a CNAME chain still maps the
/// final addresses to what the app asked for).
pub fn parse_dns_answers(msg: &[u8]) -> (r: Option<(String, Vec<Ip>)>)
    ensures
        match r {
            Some((name, ips)) => answers_spec(msg@) matches Some((n, recs)) && n == name@ && spells(
                ips@,
                recs,
            ),
            None => answers_spec(msg@) is None,
        },
{
    let ghost m = msg@;
    if msg.len() < 12 || msg[2] < 128 {
        return None;
    }
    let qd = be16_exec(msg[4], msg[5]);
    let an = be16_exec(msg[6], msg[7]);
    // the questions: `gpos` is the position the walk is at, `pos` the same
    // clamped to the message's end (anything past it reads as nothing)
    let mut pos: usize = 12;
    let ghost mut gpos: int = 12;
    let mut qname: Option<String> = None;
    let mut i: u16 = 0;
    while i < qd
        invariant
            m == msg@,
            m.len() >= 12,
            i <= qd,
            qd == be16(m[4], m[5]),
            pos == (if gpos <= m.len() {
                gpos
            } else {
                m.len() as int
            }),
            skip_questions(m, 12, qd as nat, None) == skip_questions(
                m,
                gpos,
                (qd - i) as nat,
                opt_view_s(qname),
            ),
        decreases qd - i,
    {
        proof {
            if gpos > m.len() as int {
                lemma_skip_past_end(m, gpos, (qd - i) as nat, opt_view_s(qname));
                lemma_skip_past_end(m, pos as int, (qd - i) as nat, opt_view_s(qname));
            }
        }
        match dns_read_name(msg, pos) {
            None => {
                proof {
                    if gpos > m.len() as int {
                        lemma_skip_past_end(m, gpos, (qd - i) as nat, opt_view_s(qname));
                    }
                }
                return None;
            },
            Some((name, end)) => {
                proof {
                    if gpos > m.len() as int {
                        lemma_read_past_end(m, pos as int);
                    }
                }
                if qname.is_none() {
                    qname = Some(name);
                }
                proof {
                    gpos = end + 4;
                }
                pos = if msg.len() - end >= 4 {
                    end + 4
                } else {
                    msg.len()
                };
            },
        }
        i = i + 1;
    }
    let qname = match qname {
        Some(q) => q,
        None => return None,
    };
    let mut ips: Vec<Ip> = Vec::new();
    let ghost mut acc: Seq<Seq<u8>> = seq![];
    let mut j: u16 = 0;
    proof {
        if gpos > m.len() as int {
            lemma_records_past_end(m, gpos, an as nat);
            lemma_records_past_end(m, pos as int, an as nat);
        }
    }
    let ghost start = pos as int;
    assert(answer_records(m, gpos, an as nat) == answer_records(m, start, an as nat));
    let ghost whole = answers_spec(m);
    assert(whole == match answer_records(m, start, an as nat) {
        Some(recs) => Some((qname@, recs)),
        None => None,
    });
    while j < an
        invariant
            m == msg@,
            whole == answers_spec(m),
            whole == match answer_records(m, start, an as nat) {
                Some(recs) => Some((qname@, recs)),
                None => None,
            },
            m.len() >= 12,
            j <= an,
            pos <= m.len(),
            spells(ips@, acc),
            answer_records(m, start, an as nat) == match answer_records(
                m,
                pos as int,
                (an - j) as nat,
            ) {
                Some(rest) => Some(acc + rest),
                None => None,
            },
        decreases an - j,
    {
        let end = match dns_read_name(msg, pos) {
            Some((_, e)) => e,
            None => return None,
        };
        if msg.len() - end < 10 {
            return None;
        }
        let rtype = be16_exec(msg[end], msg[end + 1]);
        let rdlen = be16_exec(msg[end + 8], msg[end + 9]) as usize;
        if msg.len() - (end + 10) < rdlen {
            return None;
        }
        let ghost rd = m.subrange(end + 10, end + 10 + rdlen);
        if rtype == 1 && rdlen == 4 {
            let ip = v4_at(msg, end + 10);
            ips.push(ip);
        } else if rtype == 28 && rdlen == 16 {
            let ip = v6_at(msg, end + 10);
            ips.push(ip);
        }
        proof {
            let x = rdata_ip(rtype as int, rd);
            assert(acc + (x + answer_records(m, end + 10 + rdlen, (an - j - 1) as nat).unwrap_or(
                seq![],
            )) =~= (acc + x) + answer_records(m, end + 10 + rdlen, (an - j - 1) as nat).unwrap_or(
                seq![],
            ));
            acc = acc + x;
        }
        pos = end + 10 + rdlen;
        j = j + 1;
    }
    Some((qname, ips))
}

pub open spec fn opt_view_s(o: Option<String>) -> Option<Seq<char>> {
    match o {
        Some(s) => Some(s@),
        None => None,
    }
}

} // verus!
