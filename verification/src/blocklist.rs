//! Ads / tracking blocking: the domain lists, how a line of one reduces to
//! a domain, and how a looked-up name is matched against the merged set.
use vstd::prelude::*;
use vstd::hash_set::StringHashSet;
use crate::config::{BlocklistConfig, clone_strings, dns_norm, opt_view, pick_view, picks_view};
use crate::catalogue::{Category, Source, categories, category_table, source_table, sources};
use crate::text::{
    before_char, chars_of, contains, contains_exec, first_char_in, first_ws, first_ws_in,
    has_char_in, is_ascii_alnum, is_ascii_digit, lemma_find_char, lemma_find_char_at, lemma_split_step,
    lower, lower_exec, seq_eq, skip_ws_in, slice_of, split_on, starts_with, string_of,
    trim_end_char, trim_end_char_in, trim_end_ws, trim_range, trim_start_ws, trim_ws, find_char,
};

verus! {

broadcast use vstd::string::group_string_axioms;

// ------------------------------------------------------------ IPv4 text

pub open spec fn digit_val(c: char) -> int {
    (c as int) - ('0' as int)
}

/// the decimal value of a run of digits
pub open spec fn dec_value(s: Seq<char>) -> int
    decreases s.len(),
{
    if s.len() == 0 {
        0
    } else {
        dec_value(s.drop_last()) * 10 + digit_val(s.last())
    }
}

pub open spec fn all_digits(s: Seq<char>) -> bool {
    forall|i: int| 0 <= i < s.len() ==> is_ascii_digit(#[trigger] s[i])
}

/// one octet of a dotted quad: one to three digits, no leading zero, at
/// most 255
pub open spec fn octet_text(s: Seq<char>) -> bool {
    &&& 1 <= s.len() <= 3
    &&& all_digits(s)
    &&& (s.len() == 1 || s[0] != '0')
    &&& dec_value(s) <= 255
}

/// the text of an IPv4 address as the standard library reads one: four
/// octets joined by dots
pub open spec fn ipv4_text(s: Seq<char>) -> bool {
    let parts = split_on(s, '.');
    parts.len() == 4 && forall|i: int| 0 <= i < 4 ==> octet_text(#[trigger] parts[i])
}

fn digit_exec(c: char) -> (r: bool)
    ensures
        r == is_ascii_digit(c),
{
    '0' <= c && c <= '9'
}

fn octet_exec(v: &[char], from: usize, to: usize) -> (r: bool)
    requires
        from <= to <= v.len(),
    ensures
        r == octet_text(v@.subrange(from as int, to as int)),
{
    let ghost s = v@.subrange(from as int, to as int);
    let n = to - from;
    if n < 1 || n > 3 {
        return false;
    }
    let mut i = from;
    let mut val: u32 = 0;
    while i < to
        invariant
            from <= i <= to <= v.len(),
            to - from <= 3,
            s == v@.subrange(from as int, to as int),
            forall|j: int| from <= j < i ==> is_ascii_digit(v@[j]),
            val == dec_value(v@.subrange(from as int, i as int)),
            i - from == 0 ==> val == 0,
            i - from == 1 ==> val < 10,
            i - from == 2 ==> val < 100,
            i - from == 3 ==> val < 1000,
        decreases to - i,
    {
        if !digit_exec(v[i]) {
            assert(!is_ascii_digit(s[i - from]));
            return false;
        }
        let ghost w = v@.subrange(from as int, i + 1);
        assert(w.drop_last() == v@.subrange(from as int, i as int));
        assert(w.last() == v@[i as int]);
        let d = (v[i] as u32) - ('0' as u32);
        assert(d == digit_val(v@[i as int]));
        val = val * 10 + d;
        i += 1;
    }
    assert(all_digits(s)) by {
        assert forall|j: int| 0 <= j < s.len() implies is_ascii_digit(#[trigger] s[j]) by {
            assert(s[j] == v@[from + j]);
        }
    }
    assert(s[0] == v@[from as int]);
    val <= 255 && (n == 1 || v[from] != '0')
}

proof fn lemma_split_nonempty(s: Seq<char>, c: char)
    ensures
        split_on(s, c).len() >= 1,
    decreases s.len(),
{
    lemma_find_char(s, c);
    match find_char(s, c) {
        Some(i) => {
            if 0 <= i < s.len() {
                lemma_split_nonempty(s.skip(i + 1), c);
            }
        },
        None => {},
    }
}

/// does `v[from..to]` read as an IPv4 address of `count` octets?
fn octets_exec(v: &[char], from: usize, to: usize, count: usize) -> (r: bool)
    requires
        from <= to <= v.len(),
        1 <= count <= 4,
    ensures
        r == (split_on(v@.subrange(from as int, to as int), '.').len() == count && forall|i: int|
            0 <= i < count ==> octet_text(
                #[trigger] split_on(v@.subrange(from as int, to as int), '.')[i],
            )),
    decreases count,
{
    let k = first_char_in(v, from, to, '.');
    proof {
        lemma_split_step(v@, from as int, k as int, to as int, '.');
    }
    if k == to {
        let o = octet_exec(v, from, to);
        proof {
            let parts = split_on(v@.subrange(from as int, to as int), '.');
            assert(parts[0] == v@.subrange(from as int, to as int));
        }
        count == 1 && o
    } else {
        if count == 1 {
            proof {
                lemma_split_nonempty(v@.subrange(k + 1, to as int), '.');
            }
            return false;
        }
        let first = octet_exec(v, from, k);
        let rest = octets_exec(v, k + 1, to, count - 1);
        proof {
            lemma_split_nonempty(v@.subrange(k + 1, to as int), '.');
            let parts = split_on(v@.subrange(from as int, to as int), '.');
            let tail = split_on(v@.subrange(k + 1, to as int), '.');
            assert(parts == seq![v@.subrange(from as int, k as int)] + tail);
            if first && rest {
                assert forall|i: int| 0 <= i < count implies octet_text(#[trigger] parts[i]) by {
                    if i > 0 {
                        assert(parts[i] == tail[i - 1]);
                    }
                }
            }
            if !rest && parts.len() == count {
                assert(exists|i: int| 0 <= i < count - 1 && !octet_text(#[trigger] tail[i]));
                let i = choose|i: int| 0 <= i < count - 1 && !octet_text(#[trigger] tail[i]);
                assert(parts[i + 1] == tail[i]);
            }
            if !first {
                assert(parts[0] == v@.subrange(from as int, k as int));
            }
        }
        first && rest
    }
}

// ------------------------------------------------------------ list lines

/// AdBlock cosmetic and scriptlet markers, which start with a domain
pub open spec fn cosmetic(line: Seq<char>) -> bool {
    ||| contains(line, seq!['#', '#'])
    ||| contains(line, seq!['#', '@', '#'])
    ||| contains(line, seq!['#', '?', '#'])
    ||| contains(line, seq!['#', '$', '#'])
    ||| contains(line, seq!['#', '%', '#'])
}

/// the field a line of a list names, before trailing dots are dropped:
/// the part of a `||name^` anchor before `^` (none when it carries a path
/// or a wildcard), else the second whitespace-separated field of a hosts
/// line, or the only field of a bare domain
pub open spec fn raw_candidate(t: Seq<char>) -> Option<Seq<char>> {
    if starts_with(t, seq!['|', '|']) {
        let rest = before_char(t.skip(2), '^');
        if rest.contains('/') || rest.contains('*') {
            None
        } else {
            Some(rest)
        }
    } else {
        let f1 = t.take(first_ws(t));
        let after = trim_start_ws(t.skip(first_ws(t)));
        if after.len() == 0 {
            Some(f1)
        } else {
            Some(after.take(first_ws(after)))
        }
    }
}

/// hosts-file housekeeping names
pub open spec fn reserved_name(s: Seq<char>) -> bool {
    s == "localhost"@ || s == "localhost.localdomain"@ || s == "local"@ || s == "broadcasthost"@
        || s == "ip6-localhost"@
}

pub open spec fn domain_char(c: char) -> bool {
    is_ascii_alnum(c) || c == '.' || c == '-' || c == '_'
}

/// One line of any list format, reduced to the domain it blocks — hosts
/// lines, bare domains, AdBlock `||domain^` anchors — or `None` for
/// comments, cosmetic rules, regexes, paths, wildcards, addresses and
/// housekeeping names. (A name made only of domain characters holds no
/// `:`, so no IPv6 address is one; the address test is the IPv4 one.)
pub open spec fn parse_line_spec(line: Seq<char>) -> Option<Seq<char>> {
    if cosmetic(line) {
        None
    } else {
        let t = trim_ws(before_char(line, '#'));
        if t.len() == 0 || t[0] == '!' || t[0] == '/' {
            None
        } else {
            match raw_candidate(t) {
                None => None,
                Some(raw) => {
                    let cand = trim_end_char(raw, '.');
                    if cand.len() == 0 || !cand.contains('.') || ipv4_text(cand) || reserved_name(
                        cand,
                    ) || !(forall|i: int| 0 <= i < cand.len() ==> domain_char(#[trigger] cand[i])) {
                        None
                    } else {
                        Some(cand)
                    }
                },
            }
        }
    }
}

fn domain_chars_in(v: &[char], from: usize, to: usize) -> (r: bool)
    requires
        from <= to <= v.len(),
    ensures
        r == forall|i: int|
            0 <= i < to - from ==> domain_char(#[trigger] v@.subrange(from as int, to as int)[i]),
{
    let mut i = from;
    while i < to
        invariant
            from <= i <= to <= v.len(),
            forall|j: int| from <= j < i ==> domain_char(v@[j]),
        decreases to - i,
    {
        let c = v[i];
        if !(('0' <= c && c <= '9') || ('a' <= c && c <= 'z') || ('A' <= c && c <= 'Z') || c == '.'
            || c == '-' || c == '_') {
            assert(!domain_char(v@.subrange(from as int, to as int)[i - from]));
            return false;
        }
        i += 1;
    }
    assert forall|j: int| 0 <= j < to - from implies domain_char(
        #[trigger] v@.subrange(from as int, to as int)[j],
    ) by {
        assert(v@.subrange(from as int, to as int)[j] == v@[from + j]);
    }
    true
}

fn lit_eq(v: &[char], from: usize, to: usize, lit: &str) -> (r: bool)
    requires
        from <= to <= v.len(),
    ensures
        r == (v@.subrange(from as int, to as int) == lit@),
{
    let s = slice_of(v, from, to);
    let l = chars_of(lit);
    seq_eq(&s, &l)
}

fn contains_lit(v: &[char], lit: &[char]) -> (r: bool)
    ensures
        r == contains(v@, lit@),
{
    contains_exec(v, lit)
}

/// the bounds of `raw_candidate` of the trimmed line `v[a..b]`
fn raw_bounds(v: &[char], a: usize, b: usize) -> (r: Option<(usize, usize)>)
    requires
        a <= b <= v.len(),
    ensures
        match raw_candidate(v@.subrange(a as int, b as int)) {
            Some(c) => r matches Some((cs, ce)) && a <= cs <= ce <= b && v@.subrange(
                cs as int,
                ce as int,
            ) == c,
            None => r is None,
        },
{
    let ghost t = v@.subrange(a as int, b as int);
    if b - a >= 2 && v[a] == '|' && v[a + 1] == '|' {
        let start = a + 2;
        let end = first_char_in(v, start, b, '^');
        proof {
            assert(t.take(2) =~= seq!['|', '|']);
            assert(t.skip(2) == v@.subrange(start as int, b as int));
        }
        let slash = has_char_in(v, start, end, '/');
        let star = has_char_in(v, start, end, '*');
        proof {
            let rest = v@.subrange(start as int, end as int);
            if slash {
                let j = choose|j: int| 0 <= j < end - start && rest[j] == '/';
                assert(rest.contains('/'));
            }
            if star {
                let j = choose|j: int| 0 <= j < end - start && rest[j] == '*';
                assert(rest.contains('*'));
            }
        }
        if slash || star {
            return None;
        }
        Some((start, end))
    } else {
        proof {
            if starts_with(t, seq!['|', '|']) {
                assert(t.take(2)[0] == t[0] && t.take(2)[1] == t[1]);
            }
        }
        let f_end = first_ws_in(v, a, b);
        let r_start = skip_ws_in(v, f_end, b);
        proof {
            assert(t.take(first_ws(t)) == v@.subrange(a as int, f_end as int));
            assert(t.skip(first_ws(t)) == v@.subrange(f_end as int, b as int));
        }
        if r_start == b {
            Some((a, f_end))
        } else {
            let r_end = first_ws_in(v, r_start, b);
            proof {
                let after = v@.subrange(r_start as int, b as int);
                assert(after.take(first_ws(after)) == v@.subrange(r_start as int, r_end as int));
            }
            Some((r_start, r_end))
        }
    }
}

/// is `v[cs..ce]` a name worth blocking (the tests of `parse_line_spec`)?
fn candidate_ok(v: &[char], cs: usize, ce: usize) -> (r: bool)
    requires
        cs <= ce <= v.len(),
    ensures
        ({
            let cand = v@.subrange(cs as int, ce as int);
            r == !(cand.len() == 0 || !cand.contains('.') || ipv4_text(cand) || reserved_name(cand)
                || !(forall|i: int| 0 <= i < cand.len() ==> domain_char(#[trigger] cand[i])))
        }),
{
    let ghost cand = v@.subrange(cs as int, ce as int);
    if cs == ce {
        return false;
    }
    let dot = has_char_in(v, cs, ce, '.');
    proof {
        if dot {
            let j = choose|j: int| 0 <= j < ce - cs && cand[j] == '.';
            assert(cand.contains('.'));
        } else {
            assert(!cand.contains('.'));
        }
    }
    if !dot {
        return false;
    }
    if octets_exec(v, cs, ce, 4) {
        return false;
    }
    if lit_eq(v, cs, ce, "localhost") || lit_eq(v, cs, ce, "localhost.localdomain") || lit_eq(
        v,
        cs,
        ce,
        "local",
    ) || lit_eq(v, cs, ce, "broadcasthost") || lit_eq(v, cs, ce, "ip6-localhost") {
        return false;
    }
    domain_chars_in(v, cs, ce)
}

fn cosmetic_exec(v: &[char]) -> (r: bool)
    ensures
        r == cosmetic(v@),
{
    let m1: Vec<char> = vec!['#', '#'];
    let m2: Vec<char> = vec!['#', '@', '#'];
    let m3: Vec<char> = vec!['#', '?', '#'];
    let m4: Vec<char> = vec!['#', '$', '#'];
    let m5: Vec<char> = vec!['#', '%', '#'];
    assert(m1@ == seq!['#', '#']);
    assert(m2@ == seq!['#', '@', '#']);
    assert(m3@ == seq!['#', '?', '#']);
    assert(m4@ == seq!['#', '$', '#']);
    assert(m5@ == seq!['#', '%', '#']);
    contains_lit(v, &m1) || contains_lit(v, &m2) || contains_lit(v, &m3) || contains_lit(v, &m4)
        || contains_lit(v, &m5)
}

/// the bounds, in the line's characters, of the domain the line blocks
fn parse_line_bounds(v: &[char]) -> (r: Option<(usize, usize)>)
    ensures
        match parse_line_spec(v@) {
            Some(d) => r matches Some((cs, ce)) && cs <= ce <= v.len() && v@.subrange(
                cs as int,
                ce as int,
            ) == d,
            None => r is None,
        },
{
    if cosmetic_exec(v) {
        return None;
    }
    let h = first_char_in(v, 0, v.len(), '#');
    assert(v@.subrange(0, v.len() as int) == v@);
    let (a, b) = trim_range(v, 0, h);
    let ghost t = v@.subrange(a as int, b as int);
    assert(t == trim_ws(before_char(v@, '#')));
    if a == b || v[a] == '!' || v[a] == '/' {
        return None;
    }
    let (cs, ce) = match raw_bounds(v, a, b) {
        Some(x) => x,
        None => return None,
    };
    let ce2 = trim_end_char_in(v, cs, ce, '.');
    if !candidate_ok(v, cs, ce2) {
        return None;
    }
    Some((cs, ce2))
}

/// One line of a list reduced to the domain it blocks (see
/// `parse_line_spec`).
pub fn parse_line<'a>(line: &'a str) -> (r: Option<&'a str>)
    ensures
        match parse_line_spec(line@) {
            Some(d) => r matches Some(s) && s@ == d,
            None => r is None,
        },
{
    let v = chars_of(line);
    match parse_line_bounds(&v) {
        Some((cs, ce)) => Some(line.substring_char(cs, ce)),
        None => None,
    }
}


// ------------------------------------------------------------ whole lists

/// the names the lines of a list block, in order, ASCII case folded
pub open spec fn line_names(ls: Seq<Seq<char>>) -> Seq<Seq<char>>
    decreases ls.len(),
{
    if ls.len() == 0 {
        seq![]
    } else {
        let prev = line_names(ls.drop_last());
        match parse_line_spec(ls.last()) {
            Some(d) => prev.push(lower(d)),
            None => prev,
        }
    }
}

/// how many of `names` are new to `seen`, counting each once
pub open spec fn count_new(seen: Set<Seq<char>>, names: Seq<Seq<char>>) -> nat
    decreases names.len(),
{
    if names.len() == 0 {
        0
    } else {
        let prev = names.drop_last();
        count_new(seen, prev) + if seen.union(prev.to_set()).contains(names.last()) {
            0nat
        } else {
            1nat
        }
    }
}

pub proof fn lemma_push_to_set<A>(s: Seq<A>, x: A)
    ensures
        s.push(x).to_set() == s.to_set().insert(x),
{
    assert forall|a: A| #[trigger] s.push(x).to_set().contains(a) <==> (s.to_set().contains(a) || a == x) by {
        if s.push(x).contains(a) {
            let i = choose|i: int| 0 <= i < s.push(x).len() && s.push(x)[i] == a;
            if i < s.len() {
                assert(s[i] == a);
            }
        }
        if s.contains(a) {
            let i = choose|i: int| 0 <= i < s.len() && s[i] == a;
            assert(s.push(x)[i] == a);
        }
        if a == x {
            assert(s.push(x)[s.len() as int] == x);
        }
    }
    assert(s.push(x).to_set() =~= s.to_set().insert(x));
}

proof fn lemma_lines_step(s: Seq<char>, k: int)
    requires
        0 <= k < s.len(),
        s[k] == '\n',
        forall|j: int| 0 <= j < k ==> s[j] != '\n',
    ensures
        crate::text::lines_of(s) == seq![crate::text::strip_cr(s.take(k))] + crate::text::lines_of(
            s.skip(k + 1),
        ),
{
    lemma_find_char_at(s, '\n', k);
}

proof fn lemma_lines_last(s: Seq<char>)
    requires
        s.len() > 0,
        forall|j: int| 0 <= j < s.len() ==> s[j] != '\n',
    ensures
        crate::text::lines_of(s) == seq![s],
{
    lemma_find_char(s, '\n');
}

/// Adds every domain the lines of `text` name to `into`, ASCII case folded;
/// returns how many were new, which is how much the set grew.
pub fn parse_into(text: &str, into: &mut StringHashSet) -> (n: usize)
    ensures
        final(into)@ == old(into)@.union(line_names(crate::text::lines_of(text@)).to_set()),
        n == count_new(old(into)@, line_names(crate::text::lines_of(text@))),
        old(into)@.finite() ==> final(into)@.finite() && final(into)@.len() == old(into)@.len() + n,
{
    let v = chars_of(text);
    let ghost base = into@;
    let ghost mut done: Seq<Seq<char>> = seq![];
    let mut pos: usize = 0;
    let mut n: usize = 0;
    assert(v@.skip(0) == v@);
    while pos < v.len()
        invariant
            pos <= v.len(),
            crate::text::lines_of(v@) == done + crate::text::lines_of(v@.skip(pos as int)),
            into@ == base.union(line_names(done).to_set()),
            n == count_new(base, line_names(done)),
            n <= pos,
        decreases v.len() - pos,
    {
        let ghost rest = v@.skip(pos as int);
        let k = crate::text::first_char_in(&v, pos, v.len(), '\n');
        let mut end = k;
        if k < v.len() && end > pos && v[end - 1] == '\r' {
            end = end - 1;
        }
        let ghost line = v@.subrange(pos as int, end as int);
        proof {
            if k < v.len() {
                lemma_lines_step(rest, k - pos);
                assert(rest.take(k - pos) == v@.subrange(pos as int, k as int));
                assert(rest.skip(k - pos + 1) == v@.skip(k + 1));
                assert(crate::text::strip_cr(rest.take(k - pos)) == line);
            } else {
                lemma_lines_last(rest);
                assert(rest == line);
                assert(v@.skip(v.len() as int) == Seq::<char>::empty());
            }
        }
        let lv = slice_of(&v, pos, end);
        let ghost old_names = line_names(done);
        proof {
            assert((done.push(line)).drop_last() == done);
        }
        match parse_line_bounds(&lv) {
            Some((cs, ce)) => {
                let d = lower_exec(&slice_of(&lv, cs, ce));
                let ds = string_of(&d);
                let fresh = into.insert(ds);
                proof {
                    assert(line_names(done.push(line)) == old_names.push(d@));
                    assert(old_names.push(d@).drop_last() == old_names);
                    lemma_push_to_set(old_names, d@);
                }
                if fresh {
                    n = n + 1;
                }
            },
            None => {},
        }
        proof {
            done = done.push(line);
            assert(crate::text::lines_of(v@) == done + crate::text::lines_of(v@.skip(
                if k < v.len() { k + 1 } else { v.len() as int },
            )));
        }
        pos = if k < v.len() { k + 1 } else { v.len() };
    }
    proof {
        assert(v@.skip(v.len() as int) == Seq::<char>::empty());
        assert(crate::text::lines_of(Seq::<char>::empty()) == Seq::<Seq<char>>::empty());
        assert(done + Seq::<Seq<char>>::empty() == done);
        if base.finite() {
            lemma_count_new_is_growth(base, line_names(done));
        }
    }
    n
}


// ------------------------------------------------------------ matching

/// the next, less specific name a lookup is checked under: what follows
/// the first dot, as long as that still holds a dot — so a bare top-level
/// domain is never reached from a name under it
pub open spec fn parent_level(s: Seq<char>) -> Option<Seq<char>> {
    match find_char(s, '.') {
        Some(i) => {
            let t = s.skip(i + 1);
            if t.contains('.') {
                Some(t)
            } else {
                None
            }
        },
        None => None,
    }
}

/// the names a lookup of `s` is checked under, most specific first
pub open spec fn levels(s: Seq<char>) -> Seq<Seq<char>>
    decreases s.len(),
{
    match parent_level(s) {
        Some(t) => {
            if t.len() < s.len() {
                seq![s] + levels(t)
            } else {
                seq![s]
            }
        },
        None => seq![s],
    }
}

/// the most specific level of `s` that `set` holds, walking from `s` down
/// its levels
pub open spec fn first_level_in(set: Set<Seq<char>>, s: Seq<char>) -> Option<Seq<char>>
    decreases s.len(),
{
    if set.contains(s) {
        Some(s)
    } else {
        match parent_level(s) {
            Some(t) => {
                if t.len() < s.len() {
                    first_level_in(set, t)
                } else {
                    None
                }
            },
            None => None,
        }
    }
}

/// the verdict on `s`: blocked when some level of it is on the lists and no
/// level of it is on the allowlist — an allowlist entry covers itself and
/// everything under it
pub open spec fn walk(blocked: Set<Seq<char>>, allow: Set<Seq<char>>, s: Seq<char>) -> bool {
    first_level_in(blocked, s) is Some && first_level_in(allow, s) is None
}

/// the entry that decides the verdict on `s`: the most specific allowlist
/// level of it where there is one (`false`: let through), else the most
/// specific listed level (`true`: blocked); none when no level of it is on
/// either
pub open spec fn walk_stop(blocked: Set<Seq<char>>, allow: Set<Seq<char>>, s: Seq<char>) -> Option<(Seq<char>, bool)> {
    match first_level_in(allow, s) {
        Some(a) => Some((a, false)),
        None => match first_level_in(blocked, s) {
            Some(b) => Some((b, true)),
            None => None,
        },
    }
}

/// The verdict is blocked exactly when the deciding entry is a listed one.
pub proof fn lemma_walk_is_where_it_stops(bl: Set<Seq<char>>, al: Set<Seq<char>>, s: Seq<char>)
    ensures
        walk(bl, al, s) <==> walk_stop(bl, al, s) matches Some((_, true)),
{
}

/// a level found is a level the set holds
pub proof fn lemma_level_found(a: Set<Seq<char>>, s: Seq<char>)
    ensures
        first_level_in(a, s) matches Some(l) ==> a.contains(l),
    decreases s.len(),
{
    if !a.contains(s) {
        if let Some(t) = parent_level(s) {
            if t.len() < s.len() {
                lemma_level_found(a, t);
            }
        }
    }
}

/// Every enabled list, merged, plus the allowlist.
pub struct Blocklist {
    blocked: StringHashSet,
    allow: StringHashSet,
}

impl Blocklist {
    /// the names on the enabled lists
    pub closed spec fn blocked_set(&self) -> Set<Seq<char>> {
        self.blocked@
    }

    /// the names never blocked, nor anything under them
    pub closed spec fn allow_set(&self) -> Set<Seq<char>> {
        self.allow@
    }

    /// is a lookup of `name` blocked? Nothing is, when the lists are empty
    pub open spec fn blocks(&self, name: Seq<char>) -> bool {
        walk(self.blocked_set(), self.allow_set(), dns_norm(name))
    }

    /// An empty list, which blocks nothing.
    pub fn new() -> (b: Blocklist)
        ensures
            b.blocked_set() == Set::<Seq<char>>::empty(),
            b.allow_set() == Set::<Seq<char>>::empty(),
    {
        Blocklist { blocked: StringHashSet::new(), allow: StringHashSet::new() }
    }

    /// A list holding exactly these names, as given.
    pub fn from_names(blocked: &[&str], allow: &[&str]) -> (b: Blocklist)
        ensures
            b.blocked_set() == Set::new(|n: Seq<char>| exists|i: int| 0 <= i < blocked@.len() && blocked@[i]@ == n),
            b.allow_set() == Set::new(|n: Seq<char>| exists|i: int| 0 <= i < allow@.len() && allow@[i]@ == n),
    {
        Blocklist { blocked: set_of(blocked), allow: set_of(allow) }
    }

    /// how many names are on the lists
    pub fn len(&self) -> (n: usize)
        ensures
            n == self.blocked_set().len(),
    {
        self.blocked.len()
    }

    /// Walks the name from most to least specific — `ads.a.example.com`,
    /// `a.example.com`, `example.com`, never `com` — and blocks it when some
    /// level is on the lists and none is on the allowlist. Case and
    /// trailing dots do not matter.
    pub fn blocked(&self, name: &str) -> (r: bool)
        ensures
            r == self.blocks(name@),
    {
        if self.blocked.is_empty() {
            proof {
                lemma_level_found(self.blocked@, dns_norm(name@));
            }
            return false;
        }
        match self.decided_by(name) {
            Some((_, b)) => b,
            None => false,
        }
    }
}

impl Blocklist {
    /// The entry that decides a lookup of `name` (`walk_stop`): the most
    /// specific level of it on the allowlist, where there is one, else the
    /// most specific level on the lists; with whether that entry blocks
    /// (`true`) or is the allowlist's. None when no level of the name is on
    /// either.
    pub fn decided_by(&self, name: &str) -> (r: Option<(String, bool)>)
        ensures
            match r {
                Some((e, b)) => walk_stop(self.blocked_set(), self.allow_set(), dns_norm(name@)) == Some((e@, b)),
                None => walk_stop(self.blocked_set(), self.allow_set(), dns_norm(name@)) is None,
            },
    {
        let raw = chars_of(name);
        let n = lower_exec(&crate::text::trim_end_char_exec(&raw, '.'));
        let mut start: usize = 0;
        let mut found: Option<String> = None;
        assert(n@.skip(0) == n@);
        loop
            invariant
                start <= n.len(),
                n@ == dns_norm(name@),
                first_level_in(self.allow@, n@) == first_level_in(self.allow@, n@.skip(start as int)),
                first_level_in(self.blocked@, n@) == (match found {
                    Some(f) => Some(f@),
                    None => first_level_in(self.blocked@, n@.skip(start as int)),
                }),
            decreases n.len() - start,
        {
            let ghost rest = n@.skip(start as int);
            let level = string_of(&slice_of(&n, start, n.len()));
            assert(level@ == rest);
            if self.allow.contains(level.as_str()) {
                return Some((level, false));
            }
            let is_listed = self.blocked.contains(level.as_str());
            let k = first_char_in(&n, start, n.len(), '.');
            proof {
                crate::text::lemma_find_char(rest, '.');
                if k < n.len() {
                    lemma_find_char_at(rest, '.', k - start);
                } else {
                    assert forall|j: int| 0 <= j < rest.len() implies rest[j] != '.' by {
                        assert(rest[j] == n@[start + j]);
                    }
                }
            }
            let more = k < n.len() && has_char_in(&n, k + 1, n.len(), '.');
            proof {
                if k < n.len() {
                    let t = rest.skip(k - start + 1);
                    assert(t == n@.subrange(k + 1, n.len() as int));
                    assert(n@.skip(k + 1) == t);
                    if more {
                        let j = choose|j: int| 0 <= j < n.len() - (k + 1) && #[trigger] n@.subrange(k + 1, n.len() as int)[j] == '.';
                        assert(t.contains('.'));
                    } else {
                        assert(!t.contains('.'));
                    }
                }
            }
            if found.is_none() && is_listed {
                found = Some(level);
            }
            if !more {
                return match found {
                    Some(f) => Some((f, true)),
                    None => None,
                };
            }
            start = k + 1;
        }
    }
}

fn set_of(names: &[&str]) -> (s: StringHashSet)
    ensures
        s@ == Set::new(|n: Seq<char>| exists|i: int| 0 <= i < names@.len() && names@[i]@ == n),
{
    let mut s = StringHashSet::new();
    let mut i: usize = 0;
    while i < names.len()
        invariant
            i <= names.len(),
            s@ == Set::new(|n: Seq<char>| exists|j: int| 0 <= j < i && names@[j]@ == n),
        decreases names.len() - i,
    {
        s.insert(string_of(&chars_of(names[i])));
        proof {
            assert forall|n: Seq<char>| s@.contains(n) <==> exists|j: int| 0 <= j < i + 1 && names@[j]@ == n by {
                if n == names@[i as int]@ {
                }
            }
            assert(s@ =~= Set::new(|n: Seq<char>| exists|j: int| 0 <= j < i + 1 && names@[j]@ == n));
        }
        i += 1;
    }
    s
}

impl Default for Blocklist {
    fn default() -> (b: Blocklist)
        ensures
            b.blocked_set() == Set::<Seq<char>>::empty(),
            b.allow_set() == Set::<Seq<char>>::empty(),
    {
        Blocklist::new()
    }
}


// ------------------------------------------------------------ laws

/// The levels of a name: the name itself first, then names that follow a
/// dot in it and hold a dot themselves — so the walk never reaches a bare
/// top-level domain, nor anything that is not a suffix of the name.
pub proof fn lemma_levels_are_dotted_suffixes(s: Seq<char>)
    ensures
        levels(s).len() >= 1,
        levels(s)[0] == s,
        forall|i: int|
            0 < i < levels(s).len() ==> crate::text::ends_with(s, seq!['.'] + #[trigger] levels(s)[i])
                && levels(s)[i].contains('.'),
    decreases s.len(),
{
    match parent_level(s) {
        Some(t) => {
            if t.len() < s.len() {
                lemma_levels_are_dotted_suffixes(t);
                crate::text::lemma_find_char(s, '.');
                let k = find_char(s, '.')->0;
                assert(s.skip(k + 1) == t);
                assert(crate::text::ends_with(s, seq!['.'] + t)) by {
                    assert(s.skip(s.len() - (t.len() + 1)) =~= seq!['.'] + t);
                }
                assert forall|i: int| 0 < i < levels(s).len() implies crate::text::ends_with(
                    s,
                    seq!['.'] + #[trigger] levels(s)[i],
                ) && levels(s)[i].contains('.') by {
                    assert(levels(s)[i] == levels(t)[i - 1]);
                    if i > 1 {
                        let l = levels(t)[i - 1];
                        // a dotted suffix of t is a dotted suffix of s
                        assert(s.skip(s.len() - (l.len() + 1)) =~= t.skip(t.len() - (l.len() + 1)));
                    }
                }
            }
        },
        None => {},
    }
}

/// some name of `ls` is in `set`
pub open spec fn on_some_level(set: Set<Seq<char>>, ls: Seq<Seq<char>>) -> bool {
    exists|i: int| 0 <= i < ls.len() && set.contains(#[trigger] ls[i])
}

/// A level of `s` is found in a set exactly when one of the levels of `s`
/// is in it.
pub proof fn lemma_first_level_on_some_level(set: Set<Seq<char>>, s: Seq<char>)
    ensures
        first_level_in(set, s) is Some <==> on_some_level(set, levels(s)),
    decreases s.len(),
{
    let ls = levels(s);
    assert(ls[0] == s);
    if !set.contains(s) {
        match parent_level(s) {
            Some(t) => {
                if t.len() < s.len() {
                    lemma_first_level_on_some_level(set, t);
                    let lt = levels(t);
                    assert(ls == seq![s] + lt);
                    if on_some_level(set, lt) {
                        let i = choose|i: int| 0 <= i < lt.len() && set.contains(#[trigger] lt[i]);
                        assert(ls[i + 1] == lt[i]);
                    }
                    if on_some_level(set, ls) {
                        let i = choose|i: int| 0 <= i < ls.len() && set.contains(#[trigger] ls[i]);
                        assert(i > 0);
                        assert(lt[i - 1] == ls[i]);
                    }
                } else {
                    assert(ls == seq![s]);
                }
            },
            None => {
                assert(ls == seq![s]);
            },
        }
    }
}

/// The verdict over the levels of a name: blocked exactly when one of its
/// levels is on the lists and none of them is on the allowlist.
pub proof fn lemma_walk_over_levels(bl: Set<Seq<char>>, al: Set<Seq<char>>, s: Seq<char>)
    ensures
        walk(bl, al, s) <==> (on_some_level(bl, levels(s)) && !on_some_level(al, levels(s))),
{
    lemma_first_level_on_some_level(bl, s);
    lemma_first_level_on_some_level(al, s);
}

/// A listed name blocks every name under it (and itself), unless the
/// allowlist names some level of the name looked up.
pub proof fn lemma_listed_name_blocks_its_subtree(b: &Blocklist, name: Seq<char>, i: int)
    requires
        0 <= i < levels(dns_norm(name)).len(),
        b.blocked_set().contains(levels(dns_norm(name))[i]),
        forall|j: int| 0 <= j < levels(dns_norm(name)).len() ==> !b.allow_set().contains(#[trigger] levels(dns_norm(name))[j]),
    ensures
        b.blocks(name),
{
    lemma_walk_over_levels(b.blocked_set(), b.allow_set(), dns_norm(name));
}

/// An allowlist entry covers itself and everything under it: a name with
/// an allowed level is never blocked, whatever the lists hold.
pub proof fn lemma_allowlist_rescues_its_subtree(b: &Blocklist, name: Seq<char>, i: int)
    requires
        0 <= i < levels(dns_norm(name)).len(),
        b.allow_set().contains(levels(dns_norm(name))[i]),
    ensures
        !b.blocks(name),
{
    lemma_walk_over_levels(b.blocked_set(), b.allow_set(), dns_norm(name));
}

/// A name is only ever blocked by a listed level of itself: the name, or a
/// dotted name that follows a dot in it. Neither a parent with nothing
/// listed above it nor a bare top-level domain blocks anything.
pub proof fn lemma_blocked_only_by_a_listed_level(b: &Blocklist, name: Seq<char>)
    requires
        b.blocks(name),
    ensures
        on_some_level(b.blocked_set(), levels(dns_norm(name))),
{
    lemma_walk_over_levels(b.blocked_set(), b.allow_set(), dns_norm(name));
}


// ------------------------------------------------------------ catalogue

/// the `id:level` key of a list
pub open spec fn source_key(s: Source) -> Seq<char> {
    s.id@ + seq![':'] + s.level@
}

impl Source {
    pub fn key(&self) -> (k: String)
        ensures
            k@ == source_key(*self),
    {
        let colon: Vec<char> = vec![':'];
        assert(colon@ == seq![':']);
        let v = crate::text::concat(&crate::text::concat(&chars_of(self.id), &colon), &chars_of(self.level));
        string_of(&v)
    }
}

/// the first index at which `keys` holds `key`
pub open spec fn key_index(keys: Seq<Seq<char>>, key: Seq<char>) -> Option<int>
    decreases keys.len(),
{
    if keys.len() == 0 {
        None
    } else {
        match key_index(keys.drop_last(), key) {
            Some(i) => Some(i),
            None => if keys.last() == key {
                Some(keys.len() - 1)
            } else {
                None
            },
        }
    }
}

pub proof fn lemma_key_index(keys: Seq<Seq<char>>, key: Seq<char>)
    ensures
        match key_index(keys, key) {
            Some(i) => 0 <= i < keys.len() && keys[i] == key && forall|j: int| 0 <= j < i ==> #[trigger] keys[j] != key,
            None => forall|j: int| 0 <= j < keys.len() ==> #[trigger] keys[j] != key,
        },
    decreases keys.len(),
{
    if keys.len() > 0 {
        lemma_key_index(keys.drop_last(), key);
        assert forall|j: int| 0 <= j < keys.len() - 1 implies keys[j] == keys.drop_last()[j] by {}
    }
}

/// a first index found in a prefix is the first index of the whole table
pub proof fn lemma_key_index_prefix(keys: Seq<Seq<char>>, key: Seq<char>, n: int)
    requires
        0 <= n <= keys.len(),
        key_index(keys.take(n), key) is Some,
    ensures
        key_index(keys, key) == key_index(keys.take(n), key),
    decreases keys.len() - n,
{
    if n < keys.len() {
        assert(keys.take(n + 1).drop_last() == keys.take(n));
        lemma_key_index_prefix(keys, key, n + 1);
    } else {
        assert(keys.take(n) == keys);
    }
}

pub open spec fn category_keys() -> Seq<Seq<char>> {
    Seq::new(category_table().len(), |i: int| category_table()[i].key@)
}

/// Every list of the catalogue is filed under one of the categories.
#[verifier::rlimit(80)]
#[verifier::spinoff_prover]
pub proof fn lemma_every_list_is_filed_under_a_category()
    ensures
        forall|i: int| 0 <= i < source_table().len() ==> category_keys().contains(#[trigger] source_table()[i].category@),
{
    lemma_category_keys_are_distinct();
    let ks = category_keys();
    assert(source_table().len() == 61);
    assert forall|i: int| 0 <= i < source_table().len() implies category_keys().contains(#[trigger] source_table()[i].category@) by {
        if i == 0 { assert(ks[0] == source_table()[0].category@); }
        if i == 1 { assert(ks[0] == source_table()[1].category@); }
        if i == 2 { assert(ks[0] == source_table()[2].category@); }
        if i == 3 { assert(ks[0] == source_table()[3].category@); }
        if i == 4 { assert(ks[0] == source_table()[4].category@); }
        if i == 5 { assert(ks[0] == source_table()[5].category@); }
        if i == 6 { assert(ks[0] == source_table()[6].category@); }
        if i == 7 { assert(ks[0] == source_table()[7].category@); }
        if i == 8 { assert(ks[0] == source_table()[8].category@); }
        if i == 9 { assert(ks[0] == source_table()[9].category@); }
        if i == 10 { assert(ks[0] == source_table()[10].category@); }
        if i == 11 { assert(ks[0] == source_table()[11].category@); }
        if i == 12 { assert(ks[0] == source_table()[12].category@); }
        if i == 13 { assert(ks[0] == source_table()[13].category@); }
        if i == 14 { assert(ks[1] == source_table()[14].category@); }
        if i == 15 { assert(ks[1] == source_table()[15].category@); }
        if i == 16 { assert(ks[1] == source_table()[16].category@); }
        if i == 17 { assert(ks[2] == source_table()[17].category@); }
        if i == 18 { assert(ks[2] == source_table()[18].category@); }
        if i == 19 { assert(ks[2] == source_table()[19].category@); }
        if i == 20 { assert(ks[2] == source_table()[20].category@); }
        if i == 21 { assert(ks[2] == source_table()[21].category@); }
        if i == 22 { assert(ks[2] == source_table()[22].category@); }
        if i == 23 { assert(ks[2] == source_table()[23].category@); }
        if i == 24 { assert(ks[2] == source_table()[24].category@); }
        if i == 25 { assert(ks[2] == source_table()[25].category@); }
        if i == 26 { assert(ks[2] == source_table()[26].category@); }
        if i == 27 { assert(ks[2] == source_table()[27].category@); }
        if i == 28 { assert(ks[3] == source_table()[28].category@); }
        if i == 29 { assert(ks[3] == source_table()[29].category@); }
        if i == 30 { assert(ks[4] == source_table()[30].category@); }
        if i == 31 { assert(ks[5] == source_table()[31].category@); }
        if i == 32 { assert(ks[5] == source_table()[32].category@); }
        if i == 33 { assert(ks[5] == source_table()[33].category@); }
        if i == 34 { assert(ks[6] == source_table()[34].category@); }
        if i == 35 { assert(ks[6] == source_table()[35].category@); }
        if i == 36 { assert(ks[6] == source_table()[36].category@); }
        if i == 37 { assert(ks[6] == source_table()[37].category@); }
        if i == 38 { assert(ks[6] == source_table()[38].category@); }
        if i == 39 { assert(ks[6] == source_table()[39].category@); }
        if i == 40 { assert(ks[6] == source_table()[40].category@); }
        if i == 41 { assert(ks[6] == source_table()[41].category@); }
        if i == 42 { assert(ks[6] == source_table()[42].category@); }
        if i == 43 { assert(ks[6] == source_table()[43].category@); }
        if i == 44 { assert(ks[6] == source_table()[44].category@); }
        if i == 45 { assert(ks[7] == source_table()[45].category@); }
        if i == 46 { assert(ks[7] == source_table()[46].category@); }
        if i == 47 { assert(ks[7] == source_table()[47].category@); }
        if i == 48 { assert(ks[7] == source_table()[48].category@); }
        if i == 49 { assert(ks[8] == source_table()[49].category@); }
        if i == 50 { assert(ks[8] == source_table()[50].category@); }
        if i == 51 { assert(ks[8] == source_table()[51].category@); }
        if i == 52 { assert(ks[9] == source_table()[52].category@); }
        if i == 53 { assert(ks[9] == source_table()[53].category@); }
        if i == 54 { assert(ks[9] == source_table()[54].category@); }
        if i == 55 { assert(ks[9] == source_table()[55].category@); }
        if i == 56 { assert(ks[10] == source_table()[56].category@); }
        if i == 57 { assert(ks[10] == source_table()[57].category@); }
        if i == 58 { assert(ks[10] == source_table()[58].category@); }
        if i == 59 { assert(ks[11] == source_table()[59].category@); }
        if i == 60 { assert(ks[11] == source_table()[60].category@); }
    }
}

/// Every list a category turns on is one of the catalogue's, filed under
/// that category.
#[verifier::rlimit(100)]
#[verifier::spinoff_prover]
pub proof fn lemma_category_lists_are_in_the_catalogue()
    ensures
        forall|c: int, m: int|
            #![trigger str_views(category_table()[c].sources@)[m]]
            0 <= c < category_table().len() && 0 <= m < category_table()[c].sources@.len() ==> exists|j: int|
                #![trigger source_keys()[j]]
                0 <= j < source_table().len() && source_keys()[j] == str_views(
                    category_table()[c].sources@,
                )[m] && source_table()[j].category@ == category_table()[c].key@,
{
    reveal_strlit("anti.piracy");
    reveal_strlit("blocklistproject");
    reveal_strlit("blocklistproject:crypto");
    reveal_strlit("blocklistproject:drugs");
    reveal_strlit("crypto");
    reveal_strlit("doh");
    reveal_strlit("drugs");
    reveal_strlit("fake");
    reveal_strlit("firstparty");
    reveal_strlit("frogeye");
    reveal_strlit("frogeye:firstparty");
    reveal_strlit("frogeye:multiparty");
    reveal_strlit("gambling");
    reveal_strlit("hagezi");
    reveal_strlit("hagezi:anti.piracy");
    reveal_strlit("hagezi:doh");
    reveal_strlit("hagezi:fake");
    reveal_strlit("hagezi:gambling");
    reveal_strlit("hagezi:native.amazon");
    reveal_strlit("hagezi:native.apple");
    reveal_strlit("hagezi:native.samsung");
    reveal_strlit("hagezi:native.tiktok");
    reveal_strlit("hagezi:native.winoffice");
    reveal_strlit("hagezi:native.xiaomi");
    reveal_strlit("hagezi:nsfw");
    reveal_strlit("hagezi:pro");
    reveal_strlit("hagezi:tif");
    reveal_strlit("multiparty");
    reveal_strlit("native.amazon");
    reveal_strlit("native.apple");
    reveal_strlit("native.samsung");
    reveal_strlit("native.tiktok");
    reveal_strlit("native.winoffice");
    reveal_strlit("native.xiaomi");
    reveal_strlit("nsfw");
    reveal_strlit("pro");
    reveal_strlit("sinfonietta");
    reveal_strlit("sinfonietta:social");
    reveal_strlit("social");
    reveal_strlit("tif");
    assert(source_table().len() == 61);
    assert(category_table().len() == 12);
    assert forall|c: int, m: int|
        #![trigger str_views(category_table()[c].sources@)[m]]
        0 <= c < category_table().len() && 0 <= m < category_table()[c].sources@.len() implies exists|j: int|
            #![trigger source_keys()[j]]
            0 <= j < source_table().len() && source_keys()[j] == str_views(
                category_table()[c].sources@,
            )[m] && source_table()[j].category@ == category_table()[c].key@ by {
        if c == 0 {
            assert(category_table()[0].sources@.len() == 1);
            if m == 0 {
                assert(category_table()[0].sources@[0]@ == "hagezi:pro"@);
                assert(source_keys()[2] =~= "hagezi:pro"@);
                assert(source_table()[2].category@ == category_table()[0].key@);
                assert(source_keys()[2] == str_views(category_table()[0].sources@)[0]);
            }
        }
        if c == 1 {
            assert(category_table()[1].sources@.len() == 2);
            if m == 0 {
                assert(category_table()[1].sources@[0]@ == "frogeye:multiparty"@);
                assert(source_keys()[14] =~= "frogeye:multiparty"@);
                assert(source_table()[14].category@ == category_table()[1].key@);
                assert(source_keys()[14] == str_views(category_table()[1].sources@)[0]);
            }
            if m == 1 {
                assert(category_table()[1].sources@[1]@ == "frogeye:firstparty"@);
                assert(source_keys()[15] =~= "frogeye:firstparty"@);
                assert(source_table()[15].category@ == category_table()[1].key@);
                assert(source_keys()[15] == str_views(category_table()[1].sources@)[1]);
            }
        }
        if c == 2 {
            assert(category_table()[2].sources@.len() == 1);
            if m == 0 {
                assert(category_table()[2].sources@[0]@ == "hagezi:tif"@);
                assert(source_keys()[17] =~= "hagezi:tif"@);
                assert(source_table()[17].category@ == category_table()[2].key@);
                assert(source_keys()[17] == str_views(category_table()[2].sources@)[0]);
            }
        }
        if c == 3 {
            assert(category_table()[3].sources@.len() == 1);
            if m == 0 {
                assert(category_table()[3].sources@[0]@ == "hagezi:fake"@);
                assert(source_keys()[28] =~= "hagezi:fake"@);
                assert(source_table()[28].category@ == category_table()[3].key@);
                assert(source_keys()[28] == str_views(category_table()[3].sources@)[0]);
            }
        }
        if c == 4 {
            assert(category_table()[4].sources@.len() == 1);
            if m == 0 {
                assert(category_table()[4].sources@[0]@ == "blocklistproject:crypto"@);
                assert(source_keys()[30] =~= "blocklistproject:crypto"@);
                assert(source_table()[30].category@ == category_table()[4].key@);
                assert(source_keys()[30] == str_views(category_table()[4].sources@)[0]);
            }
        }
        if c == 5 {
            assert(category_table()[5].sources@.len() == 1);
            if m == 0 {
                assert(category_table()[5].sources@[0]@ == "hagezi:doh"@);
                assert(source_keys()[31] =~= "hagezi:doh"@);
                assert(source_table()[31].category@ == category_table()[5].key@);
                assert(source_keys()[31] == str_views(category_table()[5].sources@)[0]);
            }
        }
        if c == 6 {
            assert(category_table()[6].sources@.len() == 6);
            if m == 0 {
                assert(category_table()[6].sources@[0]@ == "hagezi:native.winoffice"@);
                assert(source_keys()[34] =~= "hagezi:native.winoffice"@);
                assert(source_table()[34].category@ == category_table()[6].key@);
                assert(source_keys()[34] == str_views(category_table()[6].sources@)[0]);
            }
            if m == 1 {
                assert(category_table()[6].sources@[1]@ == "hagezi:native.apple"@);
                assert(source_keys()[35] =~= "hagezi:native.apple"@);
                assert(source_table()[35].category@ == category_table()[6].key@);
                assert(source_keys()[35] == str_views(category_table()[6].sources@)[1]);
            }
            if m == 2 {
                assert(category_table()[6].sources@[2]@ == "hagezi:native.samsung"@);
                assert(source_keys()[37] =~= "hagezi:native.samsung"@);
                assert(source_table()[37].category@ == category_table()[6].key@);
                assert(source_keys()[37] == str_views(category_table()[6].sources@)[2]);
            }
            if m == 3 {
                assert(category_table()[6].sources@[3]@ == "hagezi:native.xiaomi"@);
                assert(source_keys()[38] =~= "hagezi:native.xiaomi"@);
                assert(source_table()[38].category@ == category_table()[6].key@);
                assert(source_keys()[38] == str_views(category_table()[6].sources@)[3]);
            }
            if m == 4 {
                assert(category_table()[6].sources@[4]@ == "hagezi:native.amazon"@);
                assert(source_keys()[36] =~= "hagezi:native.amazon"@);
                assert(source_table()[36].category@ == category_table()[6].key@);
                assert(source_keys()[36] == str_views(category_table()[6].sources@)[4]);
            }
            if m == 5 {
                assert(category_table()[6].sources@[5]@ == "hagezi:native.tiktok"@);
                assert(source_keys()[40] =~= "hagezi:native.tiktok"@);
                assert(source_table()[40].category@ == category_table()[6].key@);
                assert(source_keys()[40] == str_views(category_table()[6].sources@)[5]);
            }
        }
        if c == 7 {
            assert(category_table()[7].sources@.len() == 1);
            if m == 0 {
                assert(category_table()[7].sources@[0]@ == "sinfonietta:social"@);
                assert(source_keys()[45] =~= "sinfonietta:social"@);
                assert(source_table()[45].category@ == category_table()[7].key@);
                assert(source_keys()[45] == str_views(category_table()[7].sources@)[0]);
            }
        }
        if c == 8 {
            assert(category_table()[8].sources@.len() == 1);
            if m == 0 {
                assert(category_table()[8].sources@[0]@ == "hagezi:gambling"@);
                assert(source_keys()[49] =~= "hagezi:gambling"@);
                assert(source_table()[49].category@ == category_table()[8].key@);
                assert(source_keys()[49] == str_views(category_table()[8].sources@)[0]);
            }
        }
        if c == 9 {
            assert(category_table()[9].sources@.len() == 1);
            if m == 0 {
                assert(category_table()[9].sources@[0]@ == "hagezi:nsfw"@);
                assert(source_keys()[52] =~= "hagezi:nsfw"@);
                assert(source_table()[52].category@ == category_table()[9].key@);
                assert(source_keys()[52] == str_views(category_table()[9].sources@)[0]);
            }
        }
        if c == 10 {
            assert(category_table()[10].sources@.len() == 1);
            if m == 0 {
                assert(category_table()[10].sources@[0]@ == "hagezi:anti.piracy"@);
                assert(source_keys()[56] =~= "hagezi:anti.piracy"@);
                assert(source_table()[56].category@ == category_table()[10].key@);
                assert(source_keys()[56] == str_views(category_table()[10].sources@)[0]);
            }
        }
        if c == 11 {
            assert(category_table()[11].sources@.len() == 1);
            if m == 0 {
                assert(category_table()[11].sources@[0]@ == "blocklistproject:drugs"@);
                assert(source_keys()[59] =~= "blocklistproject:drugs"@);
                assert(source_table()[59].category@ == category_table()[11].key@);
                assert(source_keys()[59] == str_views(category_table()[11].sources@)[0]);
            }
        }
    }
}

/// The categories on by default are categories.
pub proof fn lemma_default_categories_exist()
    ensures
        category_keys().contains("ads"@),
        category_keys().contains("phishing"@),
{
    lemma_category_keys_are_distinct();
    assert(category_keys()[0] == "ads"@);
    assert(category_keys()[2] == "phishing"@);
}

/// The twelve categories have distinct keys: `ads`, `tracking`,
/// `phishing`, `fake`, `crypto`, `dns-bypass`, `telemetry`, `social`,
/// `gambling`, `porn`, `piracy`, `drugs`.
#[verifier::rlimit(60)]
#[verifier::spinoff_prover]
pub proof fn lemma_category_keys_are_distinct()
    ensures
        category_keys() == seq!["ads"@, "tracking"@, "phishing"@, "fake"@, "crypto"@, "dns-bypass"@, "telemetry"@, "social"@, "gambling"@, "porn"@, "piracy"@, "drugs"@],
        category_keys().no_duplicates(),
{
    reveal_strlit("ads");
    reveal_strlit("tracking");
    reveal_strlit("phishing");
    reveal_strlit("fake");
    reveal_strlit("crypto");
    reveal_strlit("dns-bypass");
    reveal_strlit("telemetry");
    reveal_strlit("social");
    reveal_strlit("gambling");
    reveal_strlit("porn");
    reveal_strlit("piracy");
    reveal_strlit("drugs");
    let ks: Seq<Seq<char>> = seq!["ads"@, "tracking"@, "phishing"@, "fake"@, "crypto"@, "dns-bypass"@, "telemetry"@, "social"@, "gambling"@, "porn"@, "piracy"@, "drugs"@];
    assert(category_keys() =~= ks);
    assert("ads"@.len() != "tracking"@.len());
    assert("ads"@.len() != "phishing"@.len());
    assert("ads"@.len() != "fake"@.len());
    assert("ads"@.len() != "crypto"@.len());
    assert("ads"@.len() != "dns-bypass"@.len());
    assert("ads"@.len() != "telemetry"@.len());
    assert("ads"@.len() != "social"@.len());
    assert("ads"@.len() != "gambling"@.len());
    assert("ads"@.len() != "porn"@.len());
    assert("ads"@.len() != "piracy"@.len());
    assert("ads"@.len() != "drugs"@.len());
    assert("tracking"@[0] != "phishing"@[0]);
    assert("tracking"@.len() != "fake"@.len());
    assert("tracking"@.len() != "crypto"@.len());
    assert("tracking"@.len() != "dns-bypass"@.len());
    assert("tracking"@.len() != "telemetry"@.len());
    assert("tracking"@.len() != "social"@.len());
    assert("tracking"@[0] != "gambling"@[0]);
    assert("tracking"@.len() != "porn"@.len());
    assert("tracking"@.len() != "piracy"@.len());
    assert("tracking"@.len() != "drugs"@.len());
    assert("phishing"@.len() != "fake"@.len());
    assert("phishing"@.len() != "crypto"@.len());
    assert("phishing"@.len() != "dns-bypass"@.len());
    assert("phishing"@.len() != "telemetry"@.len());
    assert("phishing"@.len() != "social"@.len());
    assert("phishing"@[0] != "gambling"@[0]);
    assert("phishing"@.len() != "porn"@.len());
    assert("phishing"@.len() != "piracy"@.len());
    assert("phishing"@.len() != "drugs"@.len());
    assert("fake"@.len() != "crypto"@.len());
    assert("fake"@.len() != "dns-bypass"@.len());
    assert("fake"@.len() != "telemetry"@.len());
    assert("fake"@.len() != "social"@.len());
    assert("fake"@.len() != "gambling"@.len());
    assert("fake"@[0] != "porn"@[0]);
    assert("fake"@.len() != "piracy"@.len());
    assert("fake"@.len() != "drugs"@.len());
    assert("crypto"@.len() != "dns-bypass"@.len());
    assert("crypto"@.len() != "telemetry"@.len());
    assert("crypto"@[0] != "social"@[0]);
    assert("crypto"@.len() != "gambling"@.len());
    assert("crypto"@.len() != "porn"@.len());
    assert("crypto"@[0] != "piracy"@[0]);
    assert("crypto"@.len() != "drugs"@.len());
    assert("dns-bypass"@.len() != "telemetry"@.len());
    assert("dns-bypass"@.len() != "social"@.len());
    assert("dns-bypass"@.len() != "gambling"@.len());
    assert("dns-bypass"@.len() != "porn"@.len());
    assert("dns-bypass"@.len() != "piracy"@.len());
    assert("dns-bypass"@.len() != "drugs"@.len());
    assert("telemetry"@.len() != "social"@.len());
    assert("telemetry"@.len() != "gambling"@.len());
    assert("telemetry"@.len() != "porn"@.len());
    assert("telemetry"@.len() != "piracy"@.len());
    assert("telemetry"@.len() != "drugs"@.len());
    assert("social"@.len() != "gambling"@.len());
    assert("social"@.len() != "porn"@.len());
    assert("social"@[0] != "piracy"@[0]);
    assert("social"@.len() != "drugs"@.len());
    assert("gambling"@.len() != "porn"@.len());
    assert("gambling"@.len() != "piracy"@.len());
    assert("gambling"@.len() != "drugs"@.len());
    assert("porn"@.len() != "piracy"@.len());
    assert("porn"@.len() != "drugs"@.len());
    assert("piracy"@.len() != "drugs"@.len());
    assert forall|a: int, b: int| 0 <= a < b < 12 implies ks[a] != ks[b] by {
        assert(0 <= a < 12 && 0 <= b < 12);
        assert(a == 0 || a == 1 || a == 2 || a == 3 || a == 4 || a == 5 || a == 6 || a == 7 || a == 8 || a == 9 || a == 10 || a == 11);
        assert(b == 1 || b == 2 || b == 3 || b == 4 || b == 5 || b == 6 || b == 7 || b == 8 || b == 9 || b == 10 || b == 11);
    }
}


pub open spec fn source_keys() -> Seq<Seq<char>> {
    Seq::new(source_table().len(), |i: int| source_key(source_table()[i]))
}

/// the category named `key`, if there is one
pub open spec fn category_spec(key: Seq<char>) -> Option<Category> {
    match key_index(category_keys(), key) {
        Some(i) => Some(category_table()[i]),
        None => None,
    }
}

/// the list whose key is `key`, if there is one
pub open spec fn source_spec(key: Seq<char>) -> Option<Source> {
    match key_index(source_keys(), key) {
        Some(i) => Some(source_table()[i]),
        None => None,
    }
}

pub fn category(key: &str) -> (r: Option<Category>)
    ensures
        r == category_spec(key@),
{
    let t = categories();
    let kv = chars_of(key);
    let ghost ks = category_keys();
    let mut i: usize = 0;
    while i < t.len()
        invariant
            i <= t.len(),
            t@ == category_table(),
            ks == category_keys(),
            kv@ == key@,
            key_index(ks.take(i as int), key@) is None,
        decreases t.len() - i,
    {
        assert(ks.take(i + 1).drop_last() == ks.take(i as int));
        assert(ks.take(i + 1).last() == t@[i as int].key@);
        let ck = chars_of(t[i].key);
        if seq_eq(&ck, &kv) {
            assert(key_index(ks.take(i + 1), key@) == Some(i as int));
            proof {
                lemma_key_index_prefix(ks, key@, i as int + 1);
            }
            return Some(t[i]);
        }
        i += 1;
    }
    assert(ks.take(t.len() as int) == ks);
    None
}

pub fn source(key: &str) -> (r: Option<Source>)
    ensures
        r == source_spec(key@),
{
    let t = sources();
    let kv = chars_of(key);
    let ghost ks = source_keys();
    let mut i: usize = 0;
    while i < t.len()
        invariant
            i <= t.len(),
            t@ == source_table(),
            ks == source_keys(),
            kv@ == key@,
            key_index(ks.take(i as int), key@) is None,
        decreases t.len() - i,
    {
        assert(ks.take(i + 1).drop_last() == ks.take(i as int));
        assert(ks.take(i + 1).last() == source_key(t@[i as int]));
        let k = t[i].key();
        let ck = chars_of(k.as_str());
        if seq_eq(&ck, &kv) {
            assert(key_index(ks.take(i + 1), key@) == Some(i as int));
            proof {
                lemma_key_index_prefix(ks, key@, i as int + 1);
            }
            return Some(t[i]);
        }
        i += 1;
    }
    assert(ks.take(t.len() as int) == ks);
    None
}

/// Every list of the catalogue is found by its own key, since no two lists
/// share one; and a key that is no list's finds nothing.
pub proof fn lemma_a_list_is_found_by_its_key()
    ensures
        source_keys().no_duplicates(),
        forall|i: int|
            0 <= i < source_table().len() ==> source_spec(#[trigger] source_key(source_table()[i]))
                == Some(source_table()[i]),
        forall|key: Seq<char>| #[trigger] source_spec(key) is None <==> !source_keys().contains(key),
{
    crate::key_order::lemma_source_keys_distinct();
    let ks = source_keys();
    assert forall|i: int| 0 <= i < source_table().len() implies source_spec(
        #[trigger] source_key(source_table()[i]),
    ) == Some(source_table()[i]) by {
        let key = source_key(source_table()[i]);
        lemma_key_index(ks, key);
        assert(ks[i] == key);
    }
    assert forall|key: Seq<char>| #[trigger] source_spec(key) is None <==> !ks.contains(key) by {
        lemma_key_index(ks, key);
        if ks.contains(key) {
            let j = choose|j: int| 0 <= j < ks.len() && ks[j] == key;
            assert(ks[j] == key);
        }
    }
}

/// Ads and phishing: what turning blocking on with nothing chosen covers.
pub fn default_categories() -> (v: Vec<&'static str>)
    ensures
        v@.len() == 2,
        v@[0]@ == "ads"@,
        v@[1]@ == "phishing"@,
{
    vec!["ads", "phishing"]
}

/// Names that make encrypted DNS give up and fall back to plain DNS:
/// Mozilla's canary and the bootstrap names of the major DoH clients.
pub open spec fn doh_bootstrap_table() -> Seq<&'static str> {
    seq!["use-application-dns.net", "mozilla.cloudflare-dns.com", "cloudflare-dns.com", "chrome.cloudflare-dns.com", "dns.google", "dns.google.com", "dns.quad9.net", "dns.nextdns.io", "dns.adguard.com", "dns.adguard-dns.com", "doh.opendns.com", "doh.cleanbrowsing.org", "dns.cloudflare.com", "doh.dns.sb", "dns.controld.com", "doh.mullvad.net", "dns.alidns.com", "doh.pub", "dns.twnic.tw", "odvr.nic.cz"
    ]
}

pub fn doh_bootstrap() -> (v: Vec<&'static str>)
    ensures
        v@ == doh_bootstrap_table(),
{
    let v = vec!["use-application-dns.net", "mozilla.cloudflare-dns.com", "cloudflare-dns.com", "chrome.cloudflare-dns.com", "dns.google", "dns.google.com", "dns.quad9.net", "dns.nextdns.io", "dns.adguard.com", "dns.adguard-dns.com", "doh.opendns.com", "doh.cleanbrowsing.org", "dns.cloudflare.com", "doh.dns.sb", "dns.controld.com", "doh.mullvad.net", "dns.alidns.com", "doh.pub", "dns.twnic.tw", "odvr.nic.cz"];
    assert(v@ =~= doh_bootstrap_table());
    v
}

/// the maintained list of addresses that answer DoH
pub fn doh_ips_url() -> (s: &'static str)
    ensures
        s@ == "https://raw.githubusercontent.com/hagezi/dns-blocklists/main/ips/doh.txt"@,
{
    "https://raw.githubusercontent.com/hagezi/dns-blocklists/main/ips/doh.txt"
}

/// the key the DoH address list is cached under
pub fn doh_ips_key() -> (s: &'static str)
    ensures
        s@ == "doh-ips"@,
{
    "doh-ips"
}

// ------------------------------------------------------------ lists in force

pub open spec fn views(v: Seq<String>) -> Seq<Seq<char>> {
    v.map_values(|s: String| s@)
}

pub open spec fn str_views(v: Seq<&str>) -> Seq<Seq<char>> {
    v.map_values(|s: &str| s@)
}

/// the lists a category name turns on (none for an unknown name)
pub open spec fn category_lists(name: Seq<char>) -> Seq<Seq<char>> {
    match category_spec(name) {
        Some(c) => str_views(c.sources@),
        None => seq![],
    }
}

/// the lists a category uses under the config's per-category entries: its
/// first entry where it has one, else the catalogue's lists
pub open spec fn chosen_lists(picks: Seq<(Seq<char>, Seq<Seq<char>>)>, name: Seq<char>) -> Seq<Seq<char>>
    decreases picks.len(),
{
    if picks.len() == 0 {
        category_lists(name)
    } else if picks[0].0 == name {
        picks[0].1
    } else {
        chosen_lists(picks.drop_first(), name)
    }
}

/// the lists of each named category, in order
pub open spec fn lists_of_categories(
    picks: Seq<(Seq<char>, Seq<Seq<char>>)>,
    names: Seq<Seq<char>>,
) -> Seq<Seq<char>>
    decreases names.len(),
{
    if names.len() == 0 {
        seq![]
    } else {
        lists_of_categories(picks, names.drop_last()) + chosen_lists(picks, names.last())
    }
}

/// `keys` with every repeat after the first dropped, order kept
pub open spec fn dedup(keys: Seq<Seq<char>>) -> Seq<Seq<char>>
    decreases keys.len(),
{
    if keys.len() == 0 {
        seq![]
    } else {
        let prev = dedup(keys.drop_last());
        if prev.contains(keys.last()) {
            prev
        } else {
            prev.push(keys.last())
        }
    }
}

/// every list a config asks for: the lists of its categories, then the
/// ones added by key
pub open spec fn requested_lists(cfg: BlocklistConfig) -> Seq<Seq<char>> {
    lists_of_categories(picks_view(cfg.category_sources@), views(cfg.categories@)) + views(cfg.sources@)
}

/// the lists in force: the requested ones, each once, first mention first
pub open spec fn effective_spec(cfg: BlocklistConfig) -> Seq<Seq<char>> {
    dedup(requested_lists(cfg))
}

/// `dedup` holds each key once, and exactly the keys it was given.
pub proof fn lemma_dedup(keys: Seq<Seq<char>>)
    ensures
        dedup(keys).no_duplicates(),
        forall|k: Seq<char>| dedup(keys).contains(k) <==> keys.contains(k),
    decreases keys.len(),
{
    if keys.len() > 0 {
        let init = keys.drop_last();
        lemma_dedup(init);
        let prev = dedup(init);
        assert forall|k: Seq<char>| dedup(keys).contains(k) <==> keys.contains(k) by {
            if init.contains(k) {
                let i = choose|i: int| 0 <= i < init.len() && init[i] == k;
                assert(keys[i] == k);
            }
            if keys.contains(k) {
                let i = choose|i: int| 0 <= i < keys.len() && keys[i] == k;
                if i < keys.len() - 1 {
                    assert(init[i] == k);
                }
            }
            if !prev.contains(keys.last()) {
                if prev.push(keys.last()).contains(k) {
                    let i = choose|i: int| 0 <= i < prev.len() + 1 && prev.push(keys.last())[i] == k;
                    if i < prev.len() {
                        assert(prev[i] == k);
                    }
                }
                if prev.contains(k) {
                    let i = choose|i: int| 0 <= i < prev.len() && prev[i] == k;
                    assert(prev.push(keys.last())[i] == k);
                }
                assert(prev.push(keys.last())[prev.len() as int] == keys.last());
            }
        }
    }
}

/// Every list in force appears once, and a list is in force exactly when a
/// category of the config turns it on or the config adds it by key.
pub proof fn lemma_effective_sources_are_the_requested_ones_once(cfg: BlocklistConfig)
    ensures
        effective_spec(cfg).no_duplicates(),
        forall|k: Seq<char>| effective_spec(cfg).contains(k) <==> requested_lists(cfg).contains(k),
{
    lemma_dedup(requested_lists(cfg));
}

fn position_of(out: &Vec<String>, key: &[char]) -> (r: bool)
    ensures
        r == views(out@).contains(key@),
{
    let mut i: usize = 0;
    while i < out.len()
        invariant
            i <= out.len(),
            forall|j: int| 0 <= j < i ==> out@[j]@ != key@,
        decreases out.len() - i,
    {
        if seq_eq(&chars_of(out[i].as_str()), key) {
            assert(views(out@)[i as int] == key@);
            return true;
        }
        i += 1;
    }
    assert forall|j: int| 0 <= j < views(out@).len() implies views(out@)[j] != key@ by {
        assert(views(out@)[j] == out@[j]@);
    }
    false
}

fn push_unique(out: &mut Vec<String>, key: &[char], ghost_keys: Ghost<Seq<Seq<char>>>)
    requires
        views(old(out)@) == dedup(ghost_keys@),
    ensures
        views(final(out)@) == dedup(ghost_keys@.push(key@)),
{
    let ghost ks = ghost_keys@;
    assert(ks.push(key@).drop_last() == ks);
    if !position_of(out, key) {
        out.push(string_of(key));
        assert(views(out@) =~= views(old(out)@).push(key@));
    }
}

/// `v`'s keys as owned strings
fn owned_keys(v: &[&str]) -> (r: Vec<String>)
    ensures
        views(r@) == str_views(v@),
{
    let mut r: Vec<String> = Vec::new();
    let mut i: usize = 0;
    while i < v.len()
        invariant
            i <= v.len(),
            views(r@) == str_views(v@.take(i as int)),
        decreases v.len() - i,
    {
        let ghost before = r@;
        let k = string_of(&chars_of(v[i]));
        r.push(k);
        assert(v@.take(i + 1) == v@.take(i as int).push(v@[i as int]));
        assert(views(r@) =~= views(before).push(k@));
        assert(str_views(v@.take(i + 1)) =~= str_views(v@.take(i as int)).push(v@[i as int]@));
        i += 1;
    }
    assert(v@.take(v.len() as int) == v@);
    r
}

/// The lists the category `key` uses (`chosen_lists`): the config's entry
/// for it where it has one, else the catalogue's lists, none for a key the
/// catalogue does not know.
pub fn category_sources(cfg: &BlocklistConfig, key: &str) -> (r: Vec<String>)
    ensures
        views(r@) == chosen_lists(picks_view(cfg.category_sources@), key@),
{
    let kv = chars_of(key);
    let ghost p = picks_view(cfg.category_sources@);
    let mut i: usize = 0;
    assert(p.subrange(0, p.len() as int) == p);
    while i < cfg.category_sources.len()
        invariant
            i <= cfg.category_sources.len(),
            p == picks_view(cfg.category_sources@),
            p.len() == cfg.category_sources.len(),
            kv@ == key@,
            chosen_lists(p, key@) == chosen_lists(p.subrange(i as int, p.len() as int), key@),
        decreases cfg.category_sources.len() - i,
    {
        let ghost rest = p.subrange(i as int, p.len() as int);
        assert(rest[0] == pick_view(cfg.category_sources@[i as int]));
        if seq_eq(&chars_of(cfg.category_sources[i].0.as_str()), &kv) {
            let r = clone_strings(&cfg.category_sources[i].1);
            assert(views(r@) =~= rest[0].1);
            return r;
        }
        assert(rest.drop_first() =~= p.subrange(i + 1, p.len() as int));
        i += 1;
    }
    assert(p.subrange(i as int, p.len() as int).len() == 0);
    match category(key) {
        Some(cat) => owned_keys(cat.sources),
        None => Vec::new(),
    }
}

// ------------------------------------------------------------ choosing a category's lists

/// whether `s` is filed under `cat` and is more than the catalogue's own
/// choice for it
pub open spec fn filed_choice(s: Source, cat: Category) -> bool {
    s.category@ == cat.key@ && seq![source_key(s)] != str_views(cat.sources@)
}

/// each list of `table` filed under `cat`, as a choice of its own, in order
pub open spec fn filed_singles(table: Seq<Source>, cat: Category) -> Seq<Seq<Seq<char>>>
    decreases table.len(),
{
    if table.len() == 0 {
        seq![]
    } else {
        let prev = filed_singles(table.drop_last(), cat);
        if filed_choice(table.last(), cat) {
            prev.push(seq![source_key(table.last())])
        } else {
            prev
        }
    }
}

/// what a category can be switched to: the catalogue's lists first, then
/// each list filed under it on its own
pub open spec fn choices_spec(cat: Category) -> Seq<Seq<Seq<char>>> {
    seq![str_views(cat.sources@)] + filed_singles(source_table(), cat)
}

pub open spec fn choice_views(v: Seq<Vec<String>>) -> Seq<Seq<Seq<char>>> {
    v.map_values(|c: Vec<String>| views(c@))
}

/// whether `v` is the one key `k` and nothing else
fn only_key(v: &[&str], k: &[char]) -> (r: bool)
    ensures
        r == (str_views(v@) == seq![k@]),
{
    if v.len() != 1 {
        assert(str_views(v@).len() != 1);
        return false;
    }
    let r = seq_eq(&chars_of(v[0]), k);
    assert(str_views(v@)[0] == v@[0]@);
    assert(r ==> str_views(v@) =~= seq![k@]);
    r
}

/// The choices for `cat` (`choices_spec`): its catalogue lists, then every
/// list filed under it, one at a time.
pub fn source_choices(cat: &Category) -> (r: Vec<Vec<String>>)
    ensures
        choice_views(r@) == choices_spec(*cat),
{
    let mut r: Vec<Vec<String>> = Vec::new();
    r.push(owned_keys(cat.sources));
    let t = sources();
    let key = chars_of(cat.key);
    let mut i: usize = 0;
    assert(t@.take(0) == Seq::<Source>::empty());
    assert(choice_views(r@) =~= seq![str_views(cat.sources@)] + filed_singles(t@.take(0), *cat));
    while i < t.len()
        invariant
            i <= t.len(),
            t@ == source_table(),
            key@ == cat.key@,
            choice_views(r@) == seq![str_views(cat.sources@)] + filed_singles(t@.take(i as int), *cat),
        decreases t.len() - i,
    {
        let s = t[i];
        let ghost before = r@;
        assert(t@.take(i + 1).drop_last() == t@.take(i as int));
        assert(t@.take(i + 1).last() == s);
        let k = s.key();
        let kc = chars_of(k.as_str());
        if seq_eq(&chars_of(s.category), &key) && !only_key(cat.sources, &kc) {
            let mut one: Vec<String> = Vec::new();
            one.push(k);
            assert(views(one@) =~= seq![source_key(s)]);
            r.push(one);
            assert(choice_views(r@) =~= choice_views(before).push(seq![source_key(s)]));
        }
        i += 1;
    }
    assert(t@.take(t.len() as int) == t@);
    r
}

/// the first index at which `s` holds `x`
pub open spec fn first_index<A>(s: Seq<A>, x: A) -> Option<int>
    decreases s.len(),
{
    if s.len() == 0 {
        None
    } else {
        match first_index(s.drop_last(), x) {
            Some(i) => Some(i),
            None => if s.last() == x {
                Some(s.len() - 1)
            } else {
                None
            },
        }
    }
}

pub proof fn lemma_first_index<A>(s: Seq<A>, x: A)
    ensures
        match first_index(s, x) {
            Some(i) => 0 <= i < s.len() && s[i] == x && forall|j: int| 0 <= j < i ==> #[trigger] s[j] != x,
            None => forall|j: int| 0 <= j < s.len() ==> #[trigger] s[j] != x,
        },
    decreases s.len(),
{
    if s.len() > 0 {
        lemma_first_index(s.drop_last(), x);
        assert forall|j: int| 0 <= j < s.len() - 1 implies s[j] == s.drop_last()[j] by {}
    }
}

/// the choice after `now`, wrapping round to the first; the first where
/// `now` is none of them
pub open spec fn next_choice_spec(choices: Seq<Seq<Seq<char>>>, now: Seq<Seq<char>>) -> Seq<Seq<char>> {
    match first_index(choices, now) {
        Some(i) => if i + 1 < choices.len() {
            choices[i + 1]
        } else {
            choices[0]
        },
        None => choices[0],
    }
}

/// Stepping a category always lands on one of its choices, whatever it
/// used before.
pub proof fn lemma_a_step_lands_on_a_choice(cat: Category, now: Seq<Seq<char>>)
    ensures
        choices_spec(cat).contains(next_choice_spec(choices_spec(cat), now)),
{
    let cs = choices_spec(cat);
    lemma_first_index(cs, now);
    let r = next_choice_spec(cs, now);
    match first_index(cs, now) {
        Some(i) => {
            if i + 1 < cs.len() {
                assert(cs[i + 1] == r);
            } else {
                assert(cs[0] == r);
            }
        },
        None => {
            assert(cs[0] == r);
        },
    }
}

/// whether two key lists are the same, key for key
fn same_keys(a: &Vec<String>, b: &Vec<String>) -> (r: bool)
    ensures
        r == (views(a@) == views(b@)),
{
    if a.len() != b.len() {
        assert(views(a@).len() != views(b@).len());
        return false;
    }
    let mut i: usize = 0;
    while i < a.len()
        invariant
            i <= a.len(),
            a.len() == b.len(),
            forall|j: int| 0 <= j < i ==> a@[j]@ == b@[j]@,
        decreases a.len() - i,
    {
        if !seq_eq(&chars_of(a[i].as_str()), &chars_of(b[i].as_str())) {
            assert(views(a@)[i as int] != views(b@)[i as int]);
            return false;
        }
        i += 1;
    }
    assert(views(a@) =~= views(b@));
    true
}

/// The lists the category `cat` is switched to next (`next_choice_spec`):
/// the choice after the one it uses now, wrapping round to the catalogue's;
/// a set of lists put together by hand is none of the choices, so from it
/// the step goes to the catalogue's.
pub fn next_choice(cfg: &BlocklistConfig, cat: &Category) -> (r: Vec<String>)
    ensures
        views(r@) == next_choice_spec(choices_spec(*cat), chosen_lists(picks_view(cfg.category_sources@), cat.key@)),
{
    let choices = source_choices(cat);
    let now = category_sources(cfg, cat.key);
    let ghost cs = choice_views(choices@);
    proof {
        lemma_first_index(cs, views(now@));
    }
    let mut i: usize = 0;
    while i < choices.len()
        invariant
            i <= choices.len(),
            cs == choice_views(choices@),
            cs == choices_spec(*cat),
            views(now@) == chosen_lists(picks_view(cfg.category_sources@), cat.key@),
            cs.len() == choices.len(),
            choices.len() >= 1,
            forall|j: int| 0 <= j < i ==> #[trigger] cs[j] != views(now@),
        decreases choices.len() - i,
    {
        if same_keys(&choices[i], &now) {
            assert(cs[i as int] == views(now@));
            assert(first_index(cs, views(now@)) == Some(i as int)) by {
                lemma_first_index(cs, views(now@));
                if first_index(cs, views(now@)) != Some(i as int) {
                    match first_index(cs, views(now@)) {
                        Some(k) => {
                            if k < i {
                                assert(cs[k] != views(now@));
                            } else {
                                assert(cs[i as int] != views(now@));
                            }
                        },
                        None => {
                            assert(cs[i as int] != views(now@));
                        },
                    }
                }
            }
            let n: usize = if i + 1 < choices.len() {
                i + 1
            } else {
                0
            };
            let r = clone_strings(&choices[n]);
            assert(views(r@) == cs[n as int]);
            return r;
        }
        i += 1;
    }
    assert(first_index(cs, views(now@)) is None) by {
        lemma_first_index(cs, views(now@));
        if let Some(k) = first_index(cs, views(now@)) {
            assert(cs[k] != views(now@));
        }
    }
    let r = clone_strings(&choices[0]);
    assert(views(r@) == cs[0]);
    r
}

/// whether the per-category entries have one for `name`
pub open spec fn has_pick(picks: Seq<(Seq<char>, Seq<Seq<char>>)>, name: Seq<char>) -> bool {
    exists|i: int| 0 <= i < picks.len() && #[trigger] picks[i].0 == name
}

/// `picks` with `name`'s entry set to `lists`: its first entry replaced
/// where it has one, else one added at the end
pub open spec fn set_pick(
    picks: Seq<(Seq<char>, Seq<Seq<char>>)>,
    name: Seq<char>,
    lists: Seq<Seq<char>>,
) -> Seq<(Seq<char>, Seq<Seq<char>>)>
    decreases picks.len(),
{
    if picks.len() == 0 {
        seq![(name, lists)]
    } else if picks[0].0 == name {
        picks.update(0, (name, lists))
    } else {
        seq![picks[0]] + set_pick(picks.drop_first(), name, lists)
    }
}

proof fn lemma_set_pick_at(
    picks: Seq<(Seq<char>, Seq<Seq<char>>)>,
    name: Seq<char>,
    lists: Seq<Seq<char>>,
    i: int,
)
    requires
        0 <= i <= picks.len(),
        forall|j: int| 0 <= j < i ==> #[trigger] picks[j].0 != name,
        i < picks.len() ==> picks[i].0 == name,
    ensures
        set_pick(picks, name, lists) == (if i < picks.len() {
            picks.update(i, (name, lists))
        } else {
            picks.push((name, lists))
        }),
    decreases picks.len(),
{
    if picks.len() > 0 && i > 0 {
        let rest = picks.drop_first();
        assert forall|j: int| 0 <= j < i - 1 implies #[trigger] rest[j].0 != name by {
            assert(rest[j] == picks[j + 1]);
        }
        lemma_set_pick_at(rest, name, lists, i - 1);
        if i < picks.len() {
            assert(seq![picks[0]] + rest.update(i - 1, (name, lists)) =~= picks.update(i, (name, lists)));
        } else {
            assert(seq![picks[0]] + rest.push((name, lists)) =~= picks.push((name, lists)));
        }
    } else if picks.len() == 0 {
        assert(seq![(name, lists)] =~= picks.push((name, lists)));
    }
}

/// Sets the lists the category `key` uses to `lists` (`set_pick`): its
/// entry is replaced where it has one, else one is added. Nothing else of
/// the config changes.
pub fn set_category_sources(b: &mut BlocklistConfig, key: &str, lists: Vec<String>)
    ensures
        picks_view(final(b).category_sources@) == set_pick(picks_view(old(b).category_sources@), key@, views(lists@)),
        final(b).enabled == old(b).enabled,
        final(b).categories@ == old(b).categories@,
        final(b).sources@ == old(b).sources@,
        final(b).allow@ == old(b).allow@,
        final(b).block_encrypted_dns == old(b).block_encrypted_dns,
        final(b).require_resolved == old(b).require_resolved,
        final(b).update_hours == old(b).update_hours,
{
    let kv = chars_of(key);
    let ghost p = picks_view(b.category_sources@);
    let ghost l = views(lists@);
    let mut i: usize = 0;
    while i < b.category_sources.len()
        invariant
            i <= b.category_sources.len(),
            p == picks_view(b.category_sources@),
            p == picks_view(old(b).category_sources@),
            l == views(lists@),
            p.len() == b.category_sources.len(),
            kv@ == key@,
            forall|j: int| 0 <= j < i ==> #[trigger] p[j].0 != key@,
            b.enabled == old(b).enabled,
            b.categories@ == old(b).categories@,
            b.sources@ == old(b).sources@,
            b.allow@ == old(b).allow@,
            b.block_encrypted_dns == old(b).block_encrypted_dns,
            b.require_resolved == old(b).require_resolved,
            b.update_hours == old(b).update_hours,
        decreases b.category_sources.len() - i,
    {
        assert(p[i as int] == pick_view(b.category_sources@[i as int]));
        if seq_eq(&chars_of(b.category_sources[i].0.as_str()), &kv) {
            assert(p[i as int].0 == key@);
            proof {
                lemma_set_pick_at(p, key@, l, i as int);
            }
            let name = string_of(&kv);
            b.category_sources.set(i, (name, lists));
            assert(picks_view(b.category_sources@) =~= p.update(i as int, (key@, l)));
            return;
        }
        i += 1;
    }
    proof {
        lemma_set_pick_at(p, key@, l, i as int);
    }
    let name = string_of(&kv);
    b.category_sources.push((name, lists));
    assert(picks_view(b.category_sources@) =~= p.push((key@, l)));
}

/// What was set for a category is what it then uses, and every other
/// category keeps the lists it had.
pub proof fn lemma_set_lists_read_back(
    picks: Seq<(Seq<char>, Seq<Seq<char>>)>,
    name: Seq<char>,
    lists: Seq<Seq<char>>,
    other: Seq<char>,
)
    ensures
        chosen_lists(set_pick(picks, name, lists), name) == lists,
        other != name ==> chosen_lists(set_pick(picks, name, lists), other) == chosen_lists(picks, other),
    decreases picks.len(),
{
    let after = set_pick(picks, name, lists);
    if picks.len() == 0 {
        assert(after.drop_first() =~= picks);
    } else if picks[0].0 == name {
        assert(after.drop_first() =~= picks.drop_first());
    } else {
        lemma_set_lists_read_back(picks.drop_first(), name, lists, other);
        assert(after.drop_first() =~= set_pick(picks.drop_first(), name, lists));
    }
}

/// a category with no entry uses the catalogue's lists
proof fn lemma_no_pick_is_catalogue(picks: Seq<(Seq<char>, Seq<Seq<char>>)>, name: Seq<char>)
    requires
        !has_pick(picks, name),
    ensures
        chosen_lists(picks, name) == category_lists(name),
    decreases picks.len(),
{
    if picks.len() > 0 {
        assert(picks[0].0 != name);
        let rest = picks.drop_first();
        if has_pick(rest, name) {
            let i = choose|i: int| 0 <= i < rest.len() && #[trigger] rest[i].0 == name;
            assert(picks[i + 1].0 == name);
        }
        lemma_no_pick_is_catalogue(rest, name);
    }
}

/// adding a category's catalogue lists as its entry, where it had none,
/// changes what no category uses
proof fn lemma_push_catalogue_pick(
    picks: Seq<(Seq<char>, Seq<Seq<char>>)>,
    key: Seq<char>,
    name: Seq<char>,
)
    requires
        !has_pick(picks, key),
    ensures
        chosen_lists(picks.push((key, category_lists(key))), name) == chosen_lists(picks, name),
    decreases picks.len(),
{
    let after = picks.push((key, category_lists(key)));
    if picks.len() == 0 {
        assert(after.drop_first() =~= picks);
    } else {
        assert(picks[0].0 != key);
        let rest = picks.drop_first();
        if has_pick(rest, key) {
            let i = choose|i: int| 0 <= i < rest.len() && #[trigger] rest[i].0 == key;
            assert(picks[i + 1].0 == key);
        }
        assert(after.drop_first() =~= rest.push((key, category_lists(key))));
        lemma_push_catalogue_pick(rest, key, name);
    }
}

/// `picks` with an entry added, in catalogue order, for each category of
/// `table` that has none: the lists it uses
pub open spec fn fill_picks(
    picks: Seq<(Seq<char>, Seq<Seq<char>>)>,
    table: Seq<Category>,
) -> Seq<(Seq<char>, Seq<Seq<char>>)>
    decreases table.len(),
{
    if table.len() == 0 {
        picks
    } else {
        let p = fill_picks(picks, table.drop_last());
        let key = table.last().key@;
        if has_pick(p, key) {
            p
        } else {
            p.push((key, category_lists(key)))
        }
    }
}

proof fn lemma_fill_picks(picks: Seq<(Seq<char>, Seq<Seq<char>>)>, table: Seq<Category>, name: Seq<char>)
    ensures
        chosen_lists(fill_picks(picks, table), name) == chosen_lists(picks, name),
        forall|i: int| 0 <= i < table.len() ==> has_pick(fill_picks(picks, table), #[trigger] table[i].key@),
        has_pick(picks, name) ==> has_pick(fill_picks(picks, table), name),
    decreases table.len(),
{
    if table.len() > 0 {
        let init = table.drop_last();
        lemma_fill_picks(picks, init, name);
        let p = fill_picks(picks, init);
        let key = table.last().key@;
        if !has_pick(p, key) {
            lemma_push_catalogue_pick(p, key, name);
            let after = p.push((key, category_lists(key)));
            assert(after[p.len() as int].0 == key);
            assert forall|i: int| 0 <= i < table.len() implies has_pick(after, #[trigger] table[i].key@) by {
                if i < table.len() - 1 {
                    lemma_fill_picks(picks, init, table[i].key@);
                    assert(init[i] == table[i]);
                    let j = choose|j: int| 0 <= j < p.len() && #[trigger] p[j].0 == table[i].key@;
                    assert(after[j] == p[j]);
                }
            }
            if has_pick(p, name) {
                let j = choose|j: int| 0 <= j < p.len() && #[trigger] p[j].0 == name;
                assert(after[j] == p[j]);
            }
        } else {
            assert forall|i: int| 0 <= i < table.len() implies has_pick(p, #[trigger] table[i].key@) by {
                if i < table.len() - 1 {
                    lemma_fill_picks(picks, init, table[i].key@);
                    assert(init[i] == table[i]);
                }
            }
        }
    }
}

/// two sets of entries under which every category uses the same lists
/// turn the same lists on for any categories
proof fn lemma_same_choices_same_lists(
    p1: Seq<(Seq<char>, Seq<Seq<char>>)>,
    p2: Seq<(Seq<char>, Seq<Seq<char>>)>,
    names: Seq<Seq<char>>,
)
    requires
        forall|n: Seq<char>| #[trigger] chosen_lists(p1, n) == chosen_lists(p2, n),
    ensures
        lists_of_categories(p1, names) == lists_of_categories(p2, names),
    decreases names.len(),
{
    if names.len() > 0 {
        lemma_same_choices_same_lists(p1, p2, names.drop_last());
        assert(chosen_lists(p1, names.last()) == chosen_lists(p2, names.last()));
    }
}

/// Writing out every category's lists changes what no category uses, so
/// no list comes into force or leaves it; afterwards every category of the
/// catalogue has its entry, and an entry there already stays.
pub proof fn lemma_filling_changes_no_lists(picks: Seq<(Seq<char>, Seq<Seq<char>>)>, names: Seq<Seq<char>>)
    ensures
        forall|n: Seq<char>| #[trigger] chosen_lists(fill_picks(picks, category_table()), n) == chosen_lists(picks, n),
        lists_of_categories(fill_picks(picks, category_table()), names) == lists_of_categories(picks, names),
        forall|i: int| 0 <= i < category_table().len() ==> has_pick(fill_picks(picks, category_table()), #[trigger] category_table()[i].key@),
        forall|n: Seq<char>| has_pick(picks, n) ==> #[trigger] has_pick(fill_picks(picks, category_table()), n),
{
    assert forall|n: Seq<char>| #[trigger] chosen_lists(fill_picks(picks, category_table()), n) == chosen_lists(picks, n) by {
        lemma_fill_picks(picks, category_table(), n);
    }
    assert forall|n: Seq<char>| has_pick(picks, n) implies #[trigger] has_pick(fill_picks(picks, category_table()), n) by {
        lemma_fill_picks(picks, category_table(), n);
    }
    lemma_fill_picks(picks, category_table(), seq![]);
    lemma_same_choices_same_lists(fill_picks(picks, category_table()), picks, names);
}

fn has_pick_exec(v: &Vec<(String, Vec<String>)>, key: &[char]) -> (r: bool)
    ensures
        r == has_pick(picks_view(v@), key@),
{
    let ghost p = picks_view(v@);
    let mut i: usize = 0;
    while i < v.len()
        invariant
            i <= v.len(),
            p == picks_view(v@),
            p.len() == v.len(),
            forall|j: int| 0 <= j < i ==> #[trigger] p[j].0 != key@,
        decreases v.len() - i,
    {
        assert(p[i as int] == pick_view(v@[i as int]));
        if seq_eq(&chars_of(v[i].0.as_str()), key) {
            assert(p[i as int].0 == key@);
            return true;
        }
        i += 1;
    }
    false
}

/// Writes out, for each category of the catalogue that has no entry yet,
/// the lists it uses (`fill_picks`), so what a category means can be read
/// and edited in the file. No category's lists change, so the lists in force
/// stay the same.
pub fn fill_category_sources(b: &mut BlocklistConfig)
    ensures
        picks_view(final(b).category_sources@) == fill_picks(picks_view(old(b).category_sources@), category_table()),
        effective_spec(*final(b)) == effective_spec(*old(b)),
        final(b).enabled == old(b).enabled,
        final(b).categories@ == old(b).categories@,
        final(b).sources@ == old(b).sources@,
        final(b).allow@ == old(b).allow@,
        final(b).block_encrypted_dns == old(b).block_encrypted_dns,
        final(b).require_resolved == old(b).require_resolved,
        final(b).update_hours == old(b).update_hours,
{
    let t = categories();
    let ghost p0 = picks_view(b.category_sources@);
    let mut i: usize = 0;
    assert(t@.take(0) == Seq::<Category>::empty());
    while i < t.len()
        invariant
            i <= t.len(),
            t@ == category_table(),
            picks_view(b.category_sources@) == fill_picks(p0, t@.take(i as int)),
            p0 == picks_view(old(b).category_sources@),
            b.enabled == old(b).enabled,
            b.categories@ == old(b).categories@,
            b.sources@ == old(b).sources@,
            b.allow@ == old(b).allow@,
            b.block_encrypted_dns == old(b).block_encrypted_dns,
            b.require_resolved == old(b).require_resolved,
            b.update_hours == old(b).update_hours,
        decreases t.len() - i,
    {
        let key = t[i].key;
        let kv = chars_of(key);
        let ghost p = picks_view(b.category_sources@);
        assert(t@.take(i + 1).drop_last() == t@.take(i as int));
        assert(t@.take(i + 1).last() == t@[i as int]);
        if !has_pick_exec(&b.category_sources, &kv) {
            let lists = category_sources(b, key);
            proof {
                lemma_no_pick_is_catalogue(p, key@);
            }
            b.category_sources.push((string_of(&kv), lists));
            assert(picks_view(b.category_sources@) =~= p.push((key@, category_lists(key@))));
        }
        i += 1;
    }
    assert(t@.take(t.len() as int) == t@);
    proof {
        lemma_filling_changes_no_lists(p0, views(old(b).categories@));
    }
}

/// Every list in force: the lists of each enabled category, then any
/// added by key, each once (see `effective_spec`).
pub fn effective_sources(cfg: &BlocklistConfig) -> (out: Vec<String>)
    ensures
        views(out@) == effective_spec(*cfg),
{
    let mut out: Vec<String> = Vec::new();
    let ghost picks = picks_view(cfg.category_sources@);
    let ghost mut keys: Seq<Seq<char>> = seq![];
    let mut c: usize = 0;
    assert(views(cfg.categories@).take(0) == Seq::<Seq<char>>::empty());
    assert(views(out@) =~= dedup(keys));
    while c < cfg.categories.len()
        invariant
            c <= cfg.categories.len(),
            picks == picks_view(cfg.category_sources@),
            keys == lists_of_categories(picks, views(cfg.categories@).take(c as int)),
            views(out@) == dedup(keys),
        decreases cfg.categories.len() - c,
    {
        let name = &cfg.categories[c];
        let ghost before = keys;
        assert(views(cfg.categories@).take(c + 1).drop_last() == views(cfg.categories@).take(c as int));
        assert(views(cfg.categories@).take(c + 1).last() == name@);
        let lists = category_sources(cfg, name.as_str());
        let mut j: usize = 0;
        assert(views(lists@).take(0) == Seq::<Seq<char>>::empty());
        assert(before + Seq::<Seq<char>>::empty() == before);
        while j < lists.len()
            invariant
                j <= lists.len(),
                keys == before + views(lists@).take(j as int),
                views(out@) == dedup(keys),
            decreases lists.len() - j,
        {
            let kv = chars_of(lists[j].as_str());
            push_unique(&mut out, &kv, Ghost(keys));
            proof {
                assert(views(lists@).take(j + 1) == views(lists@).take(j as int).push(kv@));
                keys = keys.push(kv@);
            }
            j += 1;
        }
        assert(views(lists@).take(lists.len() as int) == views(lists@));
        c += 1;
    }
    assert(views(cfg.categories@).take(cfg.categories.len() as int) == views(cfg.categories@));
    let ghost cat_keys = keys;
    let mut u: usize = 0;
    assert(cat_keys + views(cfg.sources@).take(0) == cat_keys);
    while u < cfg.sources.len()
        invariant
            u <= cfg.sources.len(),
            keys == cat_keys + views(cfg.sources@).take(u as int),
            cat_keys == lists_of_categories(picks_view(cfg.category_sources@), views(cfg.categories@)),
            views(out@) == dedup(keys),
        decreases cfg.sources.len() - u,
    {
        let kv = chars_of(cfg.sources[u].as_str());
        push_unique(&mut out, &kv, Ghost(keys));
        proof {
            assert(views(cfg.sources@).take(u + 1) == views(cfg.sources@).take(u as int).push(kv@));
            keys = keys.push(kv@);
        }
        u += 1;
    }
    assert(views(cfg.sources@).take(cfg.sources.len() as int) == views(cfg.sources@));
    out
}


// ------------------------------------------------------------ on disk

pub open spec fn file_char(c: char) -> char {
    if c == ':' || c == '/' {
        '_'
    } else {
        c
    }
}

/// the file a list is cached in: its key with `:` and `/` made `_`, `.txt`
pub open spec fn cache_file_name(key: Seq<char>) -> Seq<char> {
    Seq::new(key.len(), |i: int| file_char(key[i])) + ".txt"@
}

/// `dir` joined with `name`, as `Path::join` joins a relative name
pub open spec fn join_path(dir: Seq<char>, name: Seq<char>) -> Seq<char> {
    if dir.len() == 0 {
        name
    } else if dir.last() == '/' {
        dir + name
    } else {
        dir + seq!['/'] + name
    }
}

/// where the list `key` is cached under the cache directory `dir`
pub fn cache_path(dir: &str, key: &str) -> (p: String)
    ensures
        p@ == join_path(dir@, cache_file_name(key@)),
{
    let kv = chars_of(key);
    let mut name: Vec<char> = Vec::new();
    let mut i: usize = 0;
    while i < kv.len()
        invariant
            i <= kv.len(),
            name@ == Seq::new(i as nat, |j: int| file_char(kv@[j])),
        decreases kv.len() - i,
    {
        let c = kv[i];
        name.push(if c == ':' || c == '/' { '_' } else { c });
        assert(name@ =~= Seq::new((i + 1) as nat, |j: int| file_char(kv@[j])));
        i += 1;
    }
    let name = crate::text::concat(&name, &chars_of(".txt"));
    assert(name@ == cache_file_name(key@));
    let dv = chars_of(dir);
    if dv.len() == 0 {
        string_of(&name)
    } else if dv[dv.len() - 1] == '/' {
        string_of(&crate::text::concat(&dv, &name))
    } else {
        let slash: Vec<char> = vec!['/'];
        assert(slash@ == seq!['/']);
        string_of(&crate::text::concat(&crate::text::concat(&dv, &slash), &name))
    }
}

/// every name the texts of the lists block
pub open spec fn names_of_lists(texts: Seq<Seq<char>>) -> Set<Seq<char>> {
    Set::new(
        |n: Seq<char>|
            exists|i: int|
                0 <= i < texts.len() && line_names(crate::text::lines_of(texts[i])).contains(n),
    )
}

pub open spec fn bootstrap_names() -> Set<Seq<char>> {
    str_views(doh_bootstrap_table()).to_set()
}

/// the allowlist as the walk compares it
pub open spec fn allow_names(allow: Seq<String>) -> Set<Seq<char>> {
    Set::new(|n: Seq<char>| exists|i: int| 0 <= i < allow.len() && dns_norm(allow[i]@) == n)
}

/// the names a config blocks with these list texts: none with blocking
/// off; otherwise every name of the lists, and the DoH bootstrap names when
/// encrypted DNS is refused
pub open spec fn loaded_names(cfg: BlocklistConfig, texts: Seq<Seq<char>>) -> Set<Seq<char>> {
    if cfg.enabled {
        names_of_lists(texts).union(
            if cfg.block_encrypted_dns {
                bootstrap_names()
            } else {
                Set::empty()
            },
        )
    } else {
        Set::empty()
    }
}

/// What is loaded does not depend on the allowlist, the categories or the
/// added keys (they pick the texts): two configs alike in whether blocking
/// is on and encrypted DNS refused load the same names from the same texts;
/// and with encrypted DNS refused, the bootstrap names are among them.
pub proof fn lemma_what_load_holds(c1: BlocklistConfig, c2: BlocklistConfig, texts: Seq<Seq<char>>)
    ensures
        c1.enabled == c2.enabled && c1.block_encrypted_dns == c2.block_encrypted_dns ==> loaded_names(c1, texts)
            == loaded_names(c2, texts),
        c1.enabled && c1.block_encrypted_dns ==> bootstrap_names().subset_of(loaded_names(c1, texts)),
        !c1.enabled ==> loaded_names(c1, texts).is_empty(),
{
}

impl Blocklist {
    /// Every enabled list, merged, plus the allowlist. `lists` holds the
    /// text of each list of `effective_sources(cfg)` that is on disk — a
    /// list never fetched is simply absent. With blocking off nothing is
    /// loaded; with encrypted DNS refused the DoH bootstrap names are added.
    pub fn load(cfg: &BlocklistConfig, lists: &[String]) -> (b: Blocklist)
        ensures
            b.blocked_set() == loaded_names(*cfg, views(lists@)),
            b.allow_set() == allow_names(cfg.allow@),
    {
        let mut blocked = StringHashSet::new();
        if cfg.enabled {
            let mut i: usize = 0;
            while i < lists.len()
                invariant
                    i <= lists.len(),
                    blocked@ == names_of_lists(views(lists@).take(i as int)),
                decreases lists.len() - i,
            {
                let ghost before = blocked@;
                parse_into(lists[i].as_str(), &mut blocked);
                proof {
                    let t = views(lists@);
                    assert(t.take(i + 1).drop_last() == t.take(i as int));
                    assert(t.take(i + 1)[i as int] == lists@[i as int]@);
                    assert forall|n: Seq<char>| blocked@.contains(n) <==> names_of_lists(t.take(i + 1)).contains(n) by {
                        if names_of_lists(t.take(i + 1)).contains(n) {
                            let k = choose|k: int| 0 <= k < i + 1 && line_names(crate::text::lines_of(#[trigger] t.take(i + 1)[k])).contains(n);
                            if k < i {
                                assert(t.take(i + 1)[k] == t.take(i as int)[k]);
                                assert(names_of_lists(t.take(i as int)).contains(n));
                            }
                        }
                        if before.contains(n) {
                            let k = choose|k: int| 0 <= k < i && line_names(crate::text::lines_of(#[trigger] t.take(i as int)[k])).contains(n);
                            assert(t.take(i + 1)[k] == t.take(i as int)[k]);
                        }
                    }
                    assert(blocked@ =~= names_of_lists(t.take(i + 1)));
                }
                i += 1;
            }
            assert(views(lists@).take(lists.len() as int) == views(lists@));
            let ghost lists_set = blocked@;
            if cfg.block_encrypted_dns {
                let names = doh_bootstrap();
                let mut j: usize = 0;
                while j < names.len()
                    invariant
                        j <= names.len(),
                        names@ == doh_bootstrap_table(),
                        blocked@ == lists_set.union(str_views(names@).take(j as int).to_set()),
                    decreases names.len() - j,
                {
                    blocked.insert(string_of(&chars_of(names[j])));
                    proof {
                        assert(str_views(names@).take(j + 1) == str_views(names@).take(j as int).push(names@[j as int]@));
                        lemma_push_to_set(str_views(names@).take(j as int), names@[j as int]@);
                        assert(blocked@ =~= lists_set.union(str_views(names@).take(j + 1).to_set()));
                    }
                    j += 1;
                }
                assert(str_views(names@).take(names.len() as int) == str_views(names@));
            } else {
                assert(blocked@ =~= lists_set.union(Set::empty()));
            }
        } else {
            assert(blocked@ =~= Set::<Seq<char>>::empty());
        }
        let mut allow = StringHashSet::new();
        let mut k: usize = 0;
        while k < cfg.allow.len()
            invariant
                k <= cfg.allow.len(),
                allow@ == allow_names(cfg.allow@.take(k as int)),
            decreases cfg.allow.len() - k,
        {
            let a = chars_of(cfg.allow[k].as_str());
            let n = lower_exec(&crate::text::trim_end_char_exec(&a, '.'));
            allow.insert(string_of(&n));
            proof {
                let al = cfg.allow@;
                assert forall|x: Seq<char>| allow@.contains(x) <==> allow_names(al.take(k + 1)).contains(x) by {
                    if allow_names(al.take(k + 1)).contains(x) {
                        let m = choose|m: int| 0 <= m < k + 1 && dns_norm((#[trigger] al.take(k + 1)[m])@) == x;
                        if m < k {
                            assert(al.take(k + 1)[m] == al.take(k as int)[m]);
                            assert(allow_names(al.take(k as int)).contains(x));
                        } else {
                            assert(al.take(k + 1)[m] == al[k as int]);
                        }
                    }
                    if allow_names(al.take(k as int)).contains(x) {
                        let m = choose|m: int| 0 <= m < k && dns_norm((#[trigger] al.take(k as int)[m])@) == x;
                        assert(al.take(k + 1)[m] == al.take(k as int)[m]);
                    }
                    if x == n@ {
                        assert(al.take(k + 1)[k as int] == al[k as int]);
                    }
                }
                assert(allow@ =~= allow_names(al.take(k + 1)));
            }
            k += 1;
        }
        assert(cfg.allow@.take(cfg.allow.len() as int) == cfg.allow@);
        Blocklist { blocked, allow }
    }
}


// ------------------------------------------------------------ explaining a verdict

/// Why a name is blocked or not: the allowlist entry the walk stops at, if
/// it stops at one, and each list that names the name, with the entry on
/// it that matched (`explain`).
#[derive(Debug)]
pub struct Explanation {
    pub allowed_by: Option<String>,
    pub blocked_by: Vec<(String, String)>,
}

pub open spec fn pair_views(v: Seq<(String, String)>) -> Seq<(Seq<char>, Seq<char>)> {
    v.map_values(|p: (String, String)| (p.0@, p.1@))
}

/// the texts of `(key, text)` lists
pub open spec fn list_texts(lists: Seq<(Seq<char>, Seq<char>)>) -> Seq<Seq<char>> {
    lists.map_values(|l: (Seq<char>, Seq<char>)| l.1)
}

/// the most specific level of `s` on the one list `text`
pub open spec fn hit_in(text: Seq<char>, s: Seq<char>) -> Option<Seq<char>> {
    first_level_in(names_of_lists(seq![text]), s)
}

/// for each list, in order, that holds a level of `s`: its key and that level
pub open spec fn list_hits(lists: Seq<(Seq<char>, Seq<char>)>, s: Seq<char>) -> Seq<(Seq<char>, Seq<char>)>
    decreases lists.len(),
{
    if lists.len() == 0 {
        seq![]
    } else {
        let prev = list_hits(lists.drop_last(), s);
        match hit_in(lists.last().1, s) {
            Some(l) => prev.push((lists.last().0, l)),
            None => prev,
        }
    }
}

/// the allowlist entry a lookup of `s` is let through by: its most
/// specific level on the allowlist `allow`
pub open spec fn allowed_by_spec(allow: Seq<String>, s: Seq<char>) -> Option<Seq<char>> {
    first_level_in(allow_names(allow), s)
}

/// Why `domain` is blocked or not by the lists `lists`, each a key and the
/// text of that list, with the config's allowlist: the allowlist entry that
/// lets it through, if one does, and each list holding a level of the name
/// with the most specific one it holds. The DoH bootstrap names are not among
/// the lists.
pub fn explain(cfg: &BlocklistConfig, domain: &str, lists: &[(String, String)]) -> (e: Explanation)
    ensures
        opt_view(e.allowed_by) == allowed_by_spec(cfg.allow@, dns_norm(domain@)),
        pair_views(e.blocked_by@) == list_hits(pair_views(lists@), dns_norm(domain@)),
{
    let alone = BlocklistConfig {
        enabled: true,
        categories: Vec::new(),
        sources: Vec::new(),
        allow: Vec::new(),
        block_encrypted_dns: false,
        require_resolved: false,
        update_hours: 0,
        category_sources: Vec::new(),
    };
    assert(allow_names(alone.allow@) =~= Set::<Seq<char>>::empty());
    let ghost ls = pair_views(lists@);
    let mut hits: Vec<(String, String)> = Vec::new();
    let mut i: usize = 0;
    assert(ls.take(0) =~= Seq::<(Seq<char>, Seq<char>)>::empty());
    while i < lists.len()
        invariant
            i <= lists.len(),
            ls == pair_views(lists@),
            alone.enabled,
            !alone.block_encrypted_dns,
            allow_names(alone.allow@) == Set::<Seq<char>>::empty(),
            pair_views(hits@) == list_hits(ls.take(i as int), dns_norm(domain@)),
        decreases lists.len() - i,
    {
        let text = lists[i].1.clone();
        let one = vec![text.clone()];
        assert(views(one@) =~= seq![text@]);
        let b = Blocklist::load(&alone, &one);
        assert(b.blocked_set() =~= names_of_lists(seq![text@]));
        assert(b.allow_set() =~= Set::<Seq<char>>::empty());
        assert(ls.take(i + 1).drop_last() == ls.take(i as int));
        assert(ls.take(i + 1).last() == ls[i as int]);
        assert(ls[i as int] == (lists@[i as int].0@, lists@[i as int].1@));
        let ghost before = hits@;
        proof {
            lemma_level_found(b.allow_set(), dns_norm(domain@));
        }
        match b.decided_by(domain) {
            Some((level, _)) => {
                hits.push((lists[i].0.clone(), level));
                assert(pair_views(hits@) =~= pair_views(before).push((lists@[i as int].0@, level@)));
            },
            None => {},
        }
        i += 1;
    }
    assert(ls.take(lists.len() as int) == ls);
    let all = BlocklistConfig {
        enabled: true,
        categories: Vec::new(),
        sources: Vec::new(),
        allow: clone_strings(&cfg.allow),
        block_encrypted_dns: false,
        require_resolved: false,
        update_hours: 0,
        category_sources: Vec::new(),
    };
    let no_lists: Vec<String> = Vec::new();
    let allowing = Blocklist::load(&all, &no_lists);
    let allowed_by = match allowing.decided_by(domain) {
        Some((level, false)) => Some(level),
        _ => None,
    };
    Explanation { allowed_by, blocked_by: hits }
}

/// two sets of names merged hold a level of a name exactly when one of them does
proof fn lemma_level_union(a: Set<Seq<char>>, b: Set<Seq<char>>, s: Seq<char>)
    ensures
        first_level_in(a.union(b), s) is Some <==> (first_level_in(a, s) is Some || first_level_in(b, s) is Some),
    decreases s.len(),
{
    if !a.contains(s) && !b.contains(s) {
        if let Some(t) = parent_level(s) {
            if t.len() < s.len() {
                lemma_level_union(a, b, t);
            }
        }
    }
}

/// some list names a level of the name exactly when the lists merged do
proof fn lemma_hits(lists: Seq<(Seq<char>, Seq<char>)>, s: Seq<char>)
    ensures
        list_hits(lists, s).len() > 0 <==> first_level_in(names_of_lists(list_texts(lists)), s) is Some,
    decreases lists.len(),
{
    let texts = list_texts(lists);
    if lists.len() == 0 {
        assert(names_of_lists(texts) =~= Set::<Seq<char>>::empty());
        lemma_level_found(names_of_lists(texts), s);
    } else {
        let init = lists.drop_last();
        lemma_hits(init, s);
        assert(list_texts(init) =~= texts.drop_last());
        let last = seq![lists.last().1];
        assert(texts[texts.len() - 1] == lists.last().1);
        assert(names_of_lists(texts) =~= names_of_lists(list_texts(init)).union(names_of_lists(last))) by {
            assert forall|n: Seq<char>| names_of_lists(texts).contains(n) implies names_of_lists(list_texts(init)).union(
                names_of_lists(last),
            ).contains(n) by {
                let i = choose|i: int| 0 <= i < texts.len() && line_names(crate::text::lines_of(texts[i])).contains(n);
                if i < texts.len() - 1 {
                    assert(list_texts(init)[i] == texts[i]);
                } else {
                    assert(last[0] == texts[i]);
                }
            }
            assert forall|n: Seq<char>| names_of_lists(list_texts(init)).union(names_of_lists(last)).contains(n) implies names_of_lists(
                texts,
            ).contains(n) by {
                if names_of_lists(list_texts(init)).contains(n) {
                    let i = choose|i: int| 0 <= i < list_texts(init).len() && line_names(crate::text::lines_of(list_texts(init)[i])).contains(n);
                    assert(texts[i] == list_texts(init)[i]);
                } else {
                    assert(line_names(crate::text::lines_of(last[0])).contains(n));
                    assert(texts[texts.len() - 1] == last[0]);
                }
            }
        }
        lemma_level_union(names_of_lists(list_texts(init)), names_of_lists(last), s);
    }
}

/// What `explain` reports matches what is blocked: for a blocklist made of
/// these lists and this allowlist, a name is blocked exactly when no
/// allowlist entry lets it through and at least one of the lists names it.
pub proof fn lemma_explanation_agrees_with_the_verdict(
    b: &Blocklist,
    lists: Seq<(Seq<char>, Seq<char>)>,
    allow: Seq<String>,
    name: Seq<char>,
)
    requires
        b.blocked_set() == names_of_lists(list_texts(lists)),
        b.allow_set() == allow_names(allow),
    ensures
        b.blocks(name) <==> (allowed_by_spec(allow, dns_norm(name)) is None && list_hits(
            lists,
            dns_norm(name),
        ).len() > 0),
{
    lemma_hits(lists, dns_norm(name));
}

// ------------------------------------------------------------ laws of the lists

/// where in `line` the name it is accepted as stands
proof fn lemma_accepted_name_at(line: Seq<char>) -> (k: int)
    requires
        parse_line_spec(line) is Some,
    ensures
        ({
            let d = parse_line_spec(line).unwrap();
            0 <= k && k + d.len() <= line.len() && line.subrange(k, k + d.len()) == d
        }),
{
    let b = before_char(line, '#');
    crate::text::lemma_find_char(line, '#');
    assert(b =~= line.take(b.len() as int));
    let s1 = trim_start_ws(b);
    crate::text::lemma_trim_start_is_suffix(b);
    let o1 = b.len() - s1.len();
    let t = trim_end_ws(s1);
    crate::text::lemma_trim_end_is_prefix(s1);
    assert(t =~= line.subrange(o1, o1 + t.len()));
    let raw = raw_candidate(t).unwrap();
    let o2: int = if starts_with(t, seq!['|', '|']) {
        crate::text::lemma_find_char(t.skip(2), '^');
        assert(raw =~= t.subrange(2, 2 + raw.len() as int));
        2
    } else {
        let f = first_ws(t);
        crate::text::lemma_first_ws_bound(t);
        let after = trim_start_ws(t.skip(f));
        crate::text::lemma_trim_start_is_suffix(t.skip(f));
        if after.len() == 0 {
            assert(raw =~= t.subrange(0, raw.len() as int));
            0
        } else {
            crate::text::lemma_first_ws_bound(after);
            let o = t.len() - after.len();
            assert(after =~= t.subrange(o, t.len() as int));
            assert(raw =~= t.subrange(o, o + raw.len()));
            o
        }
    };
    let d = trim_end_char(raw, '.');
    crate::text::lemma_trim_end_char(raw, '.');
    assert(d =~= line.subrange(o1 + o2, o1 + o2 + d.len()));
    o1 + o2
}

/// What a line is accepted as is a name that stands in the line: not
/// empty, holding a dot, not ending in one, made only of letters, digits,
/// `.`, `-` and `_`, neither an IPv4 address nor a hosts-file housekeeping
/// name; and a line holding a cosmetic marker is no name at all.
pub proof fn lemma_accepted_name_shape(line: Seq<char>)
    ensures
        cosmetic(line) ==> parse_line_spec(line) is None,
        parse_line_spec(line) matches Some(d) ==> {
            &&& contains(line, d)
            &&& d.len() > 0
            &&& d.contains('.')
            &&& d.last() != '.'
            &&& forall|i: int| 0 <= i < d.len() ==> domain_char(#[trigger] d[i])
            &&& !ipv4_text(d)
            &&& !reserved_name(d)
        },
{
    if let Some(d) = parse_line_spec(line) {
        let t = trim_ws(before_char(line, '#'));
        let raw = raw_candidate(t).unwrap();
        crate::text::lemma_trim_end_char(raw, '.');
        let k = lemma_accepted_name_at(line);
        assert(crate::text::occurs_at(line, d, k));
    }
}

/// The file a list is cached in holds no `/`, so the directory it is joined
/// to is its parent, whatever the key.
pub proof fn lemma_cache_file_stays_in_its_dir(key: Seq<char>)
    ensures
        !cache_file_name(key).contains('/'),
        cache_file_name(key).len() > 0,
{
    reveal_strlit(".txt");
    let n = cache_file_name(key);
    if n.contains('/') {
        let i = choose|i: int| 0 <= i < n.len() && n[i] == '/';
        if i < key.len() {
            assert(n[i] == file_char(key[i]));
        } else {
            assert(n[i] == ".txt"@[i - key.len()]);
        }
    }
}

/// how many of `names` are new to `seen` is how much adding them grows it
proof fn lemma_count_new_is_growth(seen: Set<Seq<char>>, names: Seq<Seq<char>>)
    requires
        seen.finite(),
    ensures
        seen.union(names.to_set()).finite(),
        seen.union(names.to_set()).len() == seen.len() + count_new(seen, names),
    decreases names.len(),
{
    if names.len() == 0 {
        assert(seen.union(names.to_set()) =~= seen);
    } else {
        let prev = names.drop_last();
        lemma_count_new_is_growth(seen, prev);
        let before = seen.union(prev.to_set());
        assert(names == prev.push(names.last()));
        lemma_push_to_set(prev, names.last());
        assert(seen.union(names.to_set()) =~= before.insert(names.last()));
    }
}

/// names that are all in `seen` add nothing new
proof fn lemma_count_new_none(seen: Set<Seq<char>>, names: Seq<Seq<char>>)
    requires
        names.to_set().subset_of(seen),
    ensures
        count_new(seen, names) == 0,
    decreases names.len(),
{
    if names.len() > 0 {
        let prev = names.drop_last();
        assert(prev.to_set().subset_of(seen)) by {
            assert forall|x: Seq<char>| prev.to_set().contains(x) implies seen.contains(x) by {
                let i = choose|i: int| 0 <= i < prev.len() && prev[i] == x;
                assert(names[i] == x);
                assert(names.to_set().contains(x));
            }
        }
        lemma_count_new_none(seen, prev);
        assert(names.to_set().contains(names[names.len() - 1]));
    }
}

/// What `parse_into` returns is how much the set grew; and taking the same
/// text in again adds nothing and returns 0.
pub proof fn lemma_parse_into_counts_the_growth(seen: Set<Seq<char>>, text: Seq<char>)
    requires
        seen.finite(),
    ensures
        ({
            let names = line_names(crate::text::lines_of(text));
            let grown = seen.union(names.to_set());
            &&& grown.finite()
            &&& grown.len() == seen.len() + count_new(seen, names)
            &&& grown.union(names.to_set()) == grown
            &&& count_new(grown, names) == 0
        }),
{
    let names = line_names(crate::text::lines_of(text));
    lemma_count_new_is_growth(seen, names);
    let grown = seen.union(names.to_set());
    assert(grown.union(names.to_set()) =~= grown);
    lemma_count_new_none(grown, names);
}

/// With blocking on and encrypted DNS refused, each bootstrap name — the
/// canary that tells Firefox to turn its own DoH off, and the DoH
/// resolvers' own names — is blocked, unless the allowlist names a level
/// of it.
pub proof fn lemma_bootstrap_names_are_blocked(b: &Blocklist, i: int)
    requires
        bootstrap_names().subset_of(b.blocked_set()),
        0 <= i < doh_bootstrap_table().len(),
        dns_norm(doh_bootstrap_table()[i]@) == doh_bootstrap_table()[i]@,
        forall|j: int|
            0 <= j < levels(doh_bootstrap_table()[i]@).len() ==> !b.allow_set().contains(
                #[trigger] levels(doh_bootstrap_table()[i]@)[j],
            ),
    ensures
        b.blocks(doh_bootstrap_table()[i]@),
{
    let t = doh_bootstrap_table()[i]@;
    assert(str_views(doh_bootstrap_table())[i] == t);
    assert(bootstrap_names().contains(t));
    lemma_levels_are_dotted_suffixes(t);
    assert(levels(t)[0] == t);
    lemma_listed_name_blocks_its_subtree(b, t, 0);
}

/// How many distinct domains the lines of `text` name — a download that
/// names none is a server error page or a moved url, not an empty list.
pub fn domains_in(text: &str) -> (n: usize)
    ensures
        n == count_new(Set::empty(), line_names(crate::text::lines_of(text@))),
{
    let mut seen = StringHashSet::new();
    parse_into(text, &mut seen)
}

} // verus!
