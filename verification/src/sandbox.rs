//! Naming sandboxed apps. A flatpak's /proc/<pid>/exe is a path inside its
//! own mount namespace and shared by every flatpak, so those are ruled by
//! app id instead: from the `.flatpak-info` the sandbox mounts at its root,
//! or, for a snap, from the cgroup scope snapd puts it in.
use vstd::prelude::*;
use crate::text::{
    char_views, chars_of, find_exec, is_hex_digit, lines_exec, lines_of, occurs_at, contains,
    slice_of, starts_with, starts_with_exec, ends_with, ends_with_exec, string_of, trim_range,
    trim_ws,
};

verus! {

broadcast use vstd::string::group_string_axioms;

/// `i` is where `p` first occurs in `s`
pub open spec fn first_at(s: Seq<char>, p: Seq<char>, i: int) -> bool {
    occurs_at(s, p, i) && forall|j: int| 0 <= j < i ==> !occurs_at(s, p, j)
}

/// the part of `s` up to the first `p`, all of it when there is none
pub open spec fn before_first(s: Seq<char>, p: Seq<char>) -> Seq<char> {
    if contains(s, p) {
        s.take(choose|i: int| first_at(s, p, i))
    } else {
        s
    }
}

/// `s.split(p).nth(1)`: what lies between the first `p` and the next
pub open spec fn second_piece(s: Seq<char>, p: Seq<char>) -> Option<Seq<char>> {
    if contains(s, p) {
        let a = choose|i: int| first_at(s, p, i);
        Some(before_first(s.skip(a + p.len()), p))
    } else {
        None
    }
}

proof fn lemma_first_unique(s: Seq<char>, p: Seq<char>, i: int)
    requires
        first_at(s, p, i),
    ensures
        contains(s, p),
        (choose|k: int| first_at(s, p, k)) == i,
{
    assert(occurs_at(s, p, i));
    let k = choose|k: int| first_at(s, p, k);
    assert(first_at(s, p, k));
    if k < i {
        assert(!occurs_at(s, p, k));
    } else if k > i {
        assert(!occurs_at(s, p, i));
    }
}

fn before_first_exec(s: &[char], p: &[char]) -> (r: Vec<char>)
    ensures
        r@ == before_first(s@, p@),
{
    match find_exec(s, p) {
        Some(i) => {
            proof {
                lemma_first_unique(s@, p@, i as int);
            }
            let r = slice_of(s, 0, i);
            assert(r@ =~= s@.take(i as int));
            r
        },
        None => slice_of(s, 0, s.len()),
    }
}

pub fn second_piece_exec(s: &[char], p: &[char]) -> (r: Option<Vec<char>>)
    ensures
        match r {
            Some(v) => second_piece(s@, p@) == Some(v@),
            None => second_piece(s@, p@) is None,
        },
{
    match find_exec(s, p) {
        Some(i) => {
            proof {
                lemma_first_unique(s@, p@, i as int);
            }
            assert(occurs_at(s@, p@, i as int));
            let sl = s.len();
            assert(i + p@.len() <= sl);
            let rest = slice_of(s, i + p.len(), sl);
            assert(rest@ =~= s@.skip(i + p@.len()));
            Some(before_first_exec(&rest, p))
        },
        None => None,
    }
}

/// the value of the first `name=` line, lines trimmed, before the next
/// `[section]` line
pub open spec fn name_line(ls: Seq<Seq<char>>) -> Option<Seq<char>>
    decreases ls.len(),
{
    if ls.len() == 0 {
        None
    } else {
        let t = trim_ws(ls[0]);
        if t.len() > 0 && t[0] == '[' {
            None
        } else if starts_with(t, "name="@) {
            Some(trim_ws(t.skip(5)))
        } else {
            name_line(ls.drop_first())
        }
    }
}

/// `name=` under `[Application]` of a .flatpak-info file, when not empty
pub open spec fn flatpak_spec(info: Seq<char>) -> Option<Seq<char>> {
    match second_piece(info, "[Application]"@) {
        None => None,
        Some(app) => match name_line(lines_of(app)) {
            Some(n) => if n.len() > 0 {
                Some(n)
            } else {
                None
            },
            None => None,
        },
    }
}

/// `name=` under `[Application]` of a .flatpak-info file
pub fn flatpak_id(info: &str) -> (r: Option<String>)
    ensures
        match r {
            Some(s) => flatpak_spec(info@) == Some(s@),
            None => flatpak_spec(info@) is None,
        },
{
    let v = chars_of(info);
    let app = match second_piece_exec(&v, &chars_of("[Application]")) {
        Some(a) => a,
        None => return None,
    };
    proof {
        reveal_strlit("[Application]");
    }
    let lines = lines_exec(&string_of(&app));
    let ghost ls = char_views(lines@);
    assert(ls == lines_of(app@));
    let name_pre = chars_of("name=");
    proof {
        reveal_strlit("name=");
    }
    let mut k: usize = 0;
    assert(ls.skip(0) =~= ls);
    while k < lines.len()
        invariant
            ls == char_views(lines@),
            k <= lines@.len(),
            name_line(ls) == name_line(ls.skip(k as int)),
            second_piece(info@, "[Application]"@) == Some(app@),
            ls == lines_of(app@),
            name_pre@ == "name="@,
            name_pre@.len() == 5,
        decreases lines@.len() - k,
    {
        let line = &lines[k];
        assert(ls.skip(k as int)[0] == line@);
        assert(ls.skip(k as int).drop_first() =~= ls.skip(k + 1));
        let (a, b) = trim_range(line, 0, line.len());
        assert(line@.subrange(0, line@.len() as int) =~= line@);
        let t = slice_of(line, a, b);
        if t.len() > 0 && t[0] == '[' {
            return None;
        }
        if starts_with_exec(&t, &name_pre) {
            let (c, d) = trim_range(&t, 5, t.len());
            assert(t@.subrange(5, t@.len() as int) =~= t@.skip(5));
            if c == d {
                return None;
            }
            return Some(string_of(&slice_of(&t, c, d)));
        }
        k = k + 1;
    }
    assert(ls.skip(k as int) =~= Seq::<Seq<char>>::empty());
    None
}

/// the pieces of `s` between slashes and newlines, `cur` the piece being
/// read
pub open spec fn pieces_acc(s: Seq<char>, cur: Seq<char>) -> Seq<Seq<char>>
    decreases s.len(),
{
    if s.len() == 0 {
        seq![cur]
    } else if s[0] == '/' || s[0] == '\n' {
        seq![cur] + pieces_acc(s.drop_first(), seq![])
    } else {
        pieces_acc(s.drop_first(), cur.push(s[0]))
    }
}

/// a `snap.<..>.scope` piece, what lies between the two
pub open spec fn scope_body(seg: Seq<char>) -> Option<Seq<char>> {
    if starts_with(seg, "snap."@) && ends_with(seg.skip(5), ".scope"@) {
        Some(seg.subrange(5, seg.len() - 6))
    } else {
        None
    }
}

/// the first piece that is a snap scope
pub open spec fn first_scope(segs: Seq<Seq<char>>) -> Option<Seq<char>>
    decreases segs.len(),
{
    if segs.len() == 0 {
        None
    } else {
        match scope_body(segs[0]) {
            Some(b) => Some(b),
            None => first_scope(segs.drop_first()),
        }
    }
}

/// snap and app names may contain '-', so the fixed-width uuid at the end
/// is cut off by its shape: a '-' and 36 hex digits or dashes
pub open spec fn cut_uuid(rest: Seq<char>) -> Seq<char> {
    let n = rest.len();
    if n >= 37 && rest[n - 37] == '-' && forall|j: int|
        n - 36 <= j < n ==> is_hex_digit(#[trigger] rest[j]) || rest[j] == '-' {
        rest.take(n - 37)
    } else {
        rest
    }
}

/// "<snap>.<app>" out of a cgroup path with a segment like
/// "snap.firefox.firefox-<uuid>.scope"
pub open spec fn snap_spec(cgroup: Seq<char>) -> Option<Seq<char>> {
    match first_scope(pieces_acc(cgroup, seq![])) {
        None => None,
        Some(rest) => {
            let id = cut_uuid(rest);
            if crate::text::contains(id, seq!['.']) {
                Some(id)
            } else {
                None
            }
        },
    }
}

fn scope_body_exec(seg: &[char]) -> (r: Option<Vec<char>>)
    ensures
        match r {
            Some(b) => scope_body(seg@) == Some(b@),
            None => scope_body(seg@) is None,
        },
{
    let pre = chars_of("snap.");
    let suf = chars_of(".scope");
    proof {
        reveal_strlit("snap.");
        reveal_strlit(".scope");
    }
    if !starts_with_exec(seg, &pre) {
        return None;
    }
    let tail = slice_of(seg, 5, seg.len());
    assert(tail@ =~= seg@.skip(5));
    if !ends_with_exec(&tail, &suf) {
        return None;
    }
    Some(slice_of(seg, 5, seg.len() - 6))
}

fn hex_or_dash(c: char) -> (r: bool)
    ensures
        r == (is_hex_digit(c) || c == '-'),
{
    ('0' <= c && c <= '9') || ('a' <= c && c <= 'f') || ('A' <= c && c <= 'F') || c == '-'
}

fn cut_uuid_exec(rest: &[char]) -> (r: Vec<char>)
    ensures
        r@ == cut_uuid(rest@),
{
    let n = rest.len();
    if n >= 37 && rest[n - 37] == '-' {
        let mut j = n - 36;
        while j < n
            invariant
                n == rest@.len(),
                n >= 37,
                n - 36 <= j <= n,
                forall|i: int| n - 36 <= i < j ==> is_hex_digit(#[trigger] rest@[i]) || rest@[i] == '-',
            decreases n - j,
        {
            if !hex_or_dash(rest[j]) {
                return slice_of(rest, 0, n);
            }
            j = j + 1;
        }
        return slice_of(rest, 0, n - 37);
    }
    slice_of(rest, 0, n)
}

/// "<snap>.<app>" out of a cgroup path segment like
/// "snap.firefox.firefox-<uuid>.scope"; `None` for a plain process
pub fn snap_id(cgroup: &str) -> (r: Option<String>)
    ensures
        match r {
            Some(s) => snap_spec(cgroup@) == Some(s@),
            None => snap_spec(cgroup@) is None,
        },
{
    let v = chars_of(cgroup);
    let ghost all = pieces_acc(v@, seq![]);
    let mut cur: Vec<char> = Vec::new();
    let mut i: usize = 0;
    assert(v@.skip(0) =~= v@);
    assert(cur@ =~= Seq::<char>::empty());
    while i < v.len()
        invariant
            v@ == cgroup@,
            i <= v@.len(),
            all == pieces_acc(v@, seq![]),
            first_scope(all) == first_scope(pieces_acc(v@.skip(i as int), cur@)),
        decreases v@.len() - i,
    {
        let ghost rest = v@.skip(i as int);
        assert(rest.drop_first() =~= v@.skip(i + 1));
        if v[i] == '/' || v[i] == '\n' {
            assert((seq![cur@] + pieces_acc(rest.drop_first(), seq![])).drop_first()
                =~= pieces_acc(rest.drop_first(), seq![]));
            match scope_body_exec(&cur) {
                Some(b) => return finish_snap(&b),
                None => {},
            }
            cur = Vec::new();
            assert(cur@ =~= Seq::<char>::empty());
        } else {
            cur.push(v[i]);
        }
        i = i + 1;
    }
    assert(v@.skip(i as int) =~= Seq::<char>::empty());
    assert(seq![cur@].drop_first() =~= Seq::<Seq<char>>::empty());
    assert(pieces_acc(v@.skip(i as int), cur@) == seq![cur@]);
    assert(first_scope(all) == scope_body(cur@)) by {
        reveal_with_fuel(first_scope, 2);
    }
    match scope_body_exec(&cur) {
        Some(b) => finish_snap(&b),
        None => None,
    }
}

fn finish_snap(b: &[char]) -> (r: Option<String>)
    ensures
        match r {
            Some(s) => s@ == cut_uuid(b@) && crate::text::contains(cut_uuid(b@), seq!['.']),
            None => !crate::text::contains(cut_uuid(b@), seq!['.']),
        },
{
    let id = cut_uuid_exec(b);
    let dot: Vec<char> = vec!['.'];
    assert(dot@ =~= seq!['.']);
    if crate::text::contains_exec(&id, &dot) {
        Some(string_of(&id))
    } else {
        None
    }
}

} // verus!
