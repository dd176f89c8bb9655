//! The kernel log lines the ruleset's `log prefix` rules leave: which of
//! them are guardit's, and what connection attempt each records.
use vstd::prelude::*;
use crate::num::{parse_uint, parse_uint_exec};
use crate::sandbox::second_piece;
use crate::text::{
    char_views, chars_of, lines_exec, lines_of, seq_eq, slice_of, starts_with, starts_with_exec,
    string_of, words, words_exec,
};

verus! {

broadcast use vstd::string::group_string_axioms;

/// the prefix of inbound attempts in the kernel log
pub open spec fn prefix_in() -> Seq<char> {
    "guardit-in: "@
}

/// the prefix of outbound attempts in the kernel log
pub open spec fn prefix_out() -> Seq<char> {
    "guardit-out: "@
}

#[derive(Debug, Clone, Copy, PartialEq, Eq, Structural)]
pub enum Dir {
    In,
    Out,
}

/// One logged connection attempt.
#[derive(Debug, PartialEq, Eq)]
pub struct LogEntry {
    pub dir: Dir,
    /// the peer: the source of an inbound attempt, the destination of an
    /// outbound one
    pub src: String,
    pub proto: String,
    pub dport: Option<u16>,
}

impl Clone for LogEntry {
    fn clone(&self) -> (r: Self)
        ensures
            r == *self,
    {
        LogEntry { dir: self.dir, src: self.src.clone(), proto: self.proto.clone(), dport: self.dport }
    }
}

/// an entry as the contracts see it
pub open spec fn entry_view(e: LogEntry) -> (Dir, Seq<char>, Seq<char>, Option<u16>) {
    (e.dir, e.src@, e.proto@, e.dport)
}

/// what follows `key` in the first word of `ws` that starts with it
pub open spec fn field_in(ws: Seq<Seq<char>>, key: Seq<char>) -> Option<Seq<char>>
    decreases ws.len(),
{
    if ws.len() == 0 {
        None
    } else if starts_with(ws[0], key) {
        Some(ws[0].skip(key.len() as int))
    } else {
        field_in(ws.drop_first(), key)
    }
}

/// `KEY=value` of a log line
pub open spec fn field(line: Seq<char>, key: Seq<char>) -> Option<Seq<char>> {
    field_in(words(line), key)
}

fn field_exec(line: &[char], key: &str) -> (r: Option<Vec<char>>)
    ensures
        match r {
            Some(v) => field(line@, key@) == Some(v@),
            None => field(line@, key@) is None,
        },
{
    let ws = words_exec(line);
    let k = chars_of(key);
    let ghost all = char_views(ws@);
    let mut i: usize = 0;
    assert(all.skip(0) =~= all);
    while i < ws.len()
        invariant
            all == char_views(ws@),
            k@ == key@,
            i <= ws@.len(),
            field(line@, key@) == field_in(all.skip(i as int), key@),
        decreases ws@.len() - i,
    {
        assert(all.skip(i as int)[0] == ws@[i as int]@);
        assert(all.skip(i as int).drop_first() =~= all.skip(i + 1));
        if starts_with_exec(&ws[i], &k) {
            let v = slice_of(&ws[i], k.len(), ws[i].len());
            assert(v@ =~= ws@[i as int]@.skip(k@.len() as int));
            return Some(v);
        }
        i = i + 1;
    }
    assert(all.skip(i as int) =~= Seq::<Seq<char>>::empty());
    None
}

/// What a kernel log line records: an attempt when it carries one of the
/// two prefixes — the peer under `SRC=` for inbound and `DST=` for
/// outbound, the protocol under `PROTO=` ("?" without one), the destination
/// port under `DPT=` when it reads as a port. Only what follows the prefix
/// is read.
pub open spec fn parse_line_spec(line: Seq<char>) -> Option<(Dir, Seq<char>, Seq<char>, Option<u16>)> {
    let (dir, rest) = match second_piece(line, prefix_in()) {
        Some(r) => (Some(Dir::In), r),
        None => match second_piece(line, prefix_out()) {
            Some(r) => (Some(Dir::Out), r),
            None => (None, seq![]),
        },
    };
    match dir {
        None => None,
        Some(d) => {
            let key = if d == Dir::In {
                "SRC="@
            } else {
                "DST="@
            };
            match field(rest, key) {
                None => None,
                Some(src) => Some(
                    (
                        d,
                        src,
                        match field(rest, "PROTO="@) {
                            Some(p) => p,
                            None => "?"@,
                        },
                        match field(rest, "DPT="@) {
                            Some(s) => match parse_uint(s, 10, 65535) {
                                Some(n) => Some(n as u16),
                                None => None,
                            },
                            None => None,
                        },
                    ),
                ),
            }
        },
    }
}

pub fn parse_line(line: &str) -> (r: Option<LogEntry>)
    ensures
        match r {
            Some(e) => parse_line_spec(line@) == Some(entry_view(e)),
            None => parse_line_spec(line@) is None,
        },
{
    let v = chars_of(line);
    let (dir, rest) = match crate::sandbox::second_piece_exec(&v, &chars_of("guardit-in: ")) {
        Some(r) => (Dir::In, r),
        None => match crate::sandbox::second_piece_exec(&v, &chars_of("guardit-out: ")) {
            Some(r) => (Dir::Out, r),
            None => return None,
        },
    };
    let key = match dir {
        Dir::In => "SRC=",
        Dir::Out => "DST=",
    };
    let src = match field_exec(&rest, key) {
        Some(s) => s,
        None => return None,
    };
    let proto = match field_exec(&rest, "PROTO=") {
        Some(p) => string_of(&p),
        None => string_of(&chars_of("?")),
    };
    let dport = match field_exec(&rest, "DPT=") {
        Some(s) => match parse_uint_exec(&s, 10, 65535) {
            Some(n) => Some(n as u16),
            None => None,
        },
        None => None,
    };
    Some(LogEntry { dir, src: string_of(&src), proto, dport })
}

/// consecutive repeats collapsed to one, as `Vec::dedup` leaves them
pub open spec fn dedup_runs(s: Seq<(Dir, Seq<char>, Seq<char>, Option<u16>)>) -> Seq<
    (Dir, Seq<char>, Seq<char>, Option<u16>),
>
    decreases s.len(),
{
    if s.len() <= 1 {
        s
    } else {
        let r = dedup_runs(s.drop_last());
        if s.last() == s[s.len() - 2] {
            r
        } else {
            r.push(s.last())
        }
    }
}

/// the attempts the lines record, in order
pub open spec fn entries_of(ls: Seq<Seq<char>>) -> Seq<(Dir, Seq<char>, Seq<char>, Option<u16>)>
    decreases ls.len(),
{
    if ls.len() == 0 {
        seq![]
    } else {
        let r = entries_of(ls.drop_last());
        match parse_line_spec(ls.last()) {
            Some(e) => r.push(e),
            None => r,
        }
    }
}

/// the last `n` of `s`
pub open spec fn last_n<A>(s: Seq<A>, n: nat) -> Seq<A> {
    if s.len() > n {
        s.skip(s.len() - n)
    } else {
        s
    }
}

fn same_entry(a: &LogEntry, b: &LogEntry) -> (r: bool)
    ensures
        r == (entry_view(*a) == entry_view(*b)),
{
    a.dir == b.dir && seq_eq(&chars_of(a.src.as_str()), &chars_of(b.src.as_str())) && seq_eq(
        &chars_of(a.proto.as_str()),
        &chars_of(b.proto.as_str()),
    ) && a.dport == b.dport
}

proof fn lemma_dedup_last(s: Seq<(Dir, Seq<char>, Seq<char>, Option<u16>)>)
    requires
        s.len() > 0,
    ensures
        dedup_runs(s).len() > 0,
        dedup_runs(s).last() == s.last(),
    decreases s.len(),
{
    if s.len() > 1 {
        lemma_dedup_last(s.drop_last());
    }
}

/// The most recent attempts guardit logged, newest last, consecutive
/// repeats collapsed: the last `limit` of what the lines of the kernel log
/// `text` record.
pub fn recent_from_text(text: &str, limit: usize) -> (out: Vec<LogEntry>)
    ensures
        out@.map_values(|e: LogEntry| entry_view(e)) == last_n(
            dedup_runs(entries_of(lines_of(text@))),
            limit as nat,
        ),
{
    let lines = lines_exec(text);
    let ghost ls = char_views(lines@);
    let mut all: Vec<LogEntry> = Vec::new();
    let mut i: usize = 0;
    assert(ls.take(0) =~= Seq::<Seq<char>>::empty());
    while i < lines.len()
        invariant
            ls == char_views(lines@),
            ls == lines_of(text@),
            i <= ls.len(),
            all@.map_values(|e: LogEntry| entry_view(e)) == dedup_runs(entries_of(ls.take(i as int))),
        decreases ls.len() - i,
    {
        assert(ls.take(i + 1).drop_last() =~= ls.take(i as int));
        assert(ls.take(i + 1).last() == lines@[i as int]@);
        let ghost before = entries_of(ls.take(i as int));
        let ghost dv = all@.map_values(|e: LogEntry| entry_view(e));
        match parse_line(&string_of(&lines[i])) {
            Some(e) => {
                let ghost ev = entry_view(e);
                assert(entries_of(ls.take(i + 1)) == before.push(ev));
                assert(before.push(ev).drop_last() =~= before);
                if all.len() > 0 && same_entry(&all[all.len() - 1], &e) {
                    proof {
                        lemma_dedup_last(before);
                        assert(dv.last() == before.last());
                        assert(before.push(ev)[before.len() - 1] == before.last());
                    }
                } else {
                    proof {
                        if before.len() > 0 {
                            lemma_dedup_last(before);
                            assert(before.push(ev)[before.len() - 1] == before.last());
                        }
                    }
                    all.push(e);
                    assert(all@.map_values(|e: LogEntry| entry_view(e)) =~= dv.push(ev));
                }
            },
            None => {},
        }
        i = i + 1;
    }
    assert(ls.take(i as int) =~= ls);
    let n = all.len();
    let start = if n > limit {
        n - limit
    } else {
        0
    };
    let mut out: Vec<LogEntry> = Vec::new();
    let mut j = start;
    let ghost dv = all@.map_values(|e: LogEntry| entry_view(e));
    while j < n
        invariant
            n == all@.len(),
            start <= j <= n,
            dv == all@.map_values(|e: LogEntry| entry_view(e)),
            out@.map_values(|e: LogEntry| entry_view(e)) == dv.subrange(start as int, j as int),
        decreases n - j,
    {
        let ghost before = out@.map_values(|e: LogEntry| entry_view(e));
        let c = all[j].clone();
        assert(dv[j as int] == entry_view(all@[j as int]));
        out.push(c);
        assert(out@.map_values(|e: LogEntry| entry_view(e)) =~= before.push(dv[j as int]));
        assert(out@.map_values(|e: LogEntry| entry_view(e)) =~= dv.subrange(start as int, j + 1));
        j = j + 1;
    }
    assert(dv.subrange(start as int, n as int) =~= last_n(dv, limit as nat));
    out
}

} // verus!
