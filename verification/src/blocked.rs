//! The DNS tap's counters: every reply it saw, every lookup it refused, the
//! most recent refusals and which apps asked — and the dashboard payload
//! made of them.
use vstd::prelude::*;
use crate::blocklist::{effective_sources, effective_spec, views};
use crate::config::{BlocklistConfig, clone_opt_string};
use crate::ipc::{Blocked, BlocklistStats};
use crate::text::{chars_of, seq_eq, string_of};

verus! {

broadcast use vstd::string::group_string_axioms;

/// how many refusals the dashboard keeps
pub const BLOCKED_RECENT_CAP: usize = 200;

/// The tap's counters since the daemon started. `by_app` holds each exe
/// once.
pub struct BlockedLog {
    /// DNS replies seen
    queries: u64,
    /// lookups refused
    total: u64,
    /// newest last, at most `BLOCKED_RECENT_CAP`
    recent: Vec<Blocked>,
    /// exe -> refusals of its lookups
    by_app: Vec<(String, u64)>,
}

pub open spec fn app_views(v: Seq<(String, u64)>) -> Seq<(Seq<char>, u64)> {
    v.map_values(|p: (String, u64)| (p.0@, p.1))
}

/// no exe twice
pub open spec fn distinct_apps(v: Seq<(Seq<char>, u64)>) -> bool {
    forall|i: int, j: int| 0 <= i < j < v.len() ==> (#[trigger] v[i]).0 != (#[trigger] v[j]).0
}

/// the newest `BLOCKED_RECENT_CAP` of some refusals
pub open spec fn keep_recent(r: Seq<Blocked>) -> Seq<Blocked> {
    if r.len() > BLOCKED_RECENT_CAP {
        r.skip(r.len() - BLOCKED_RECENT_CAP)
    } else {
        r
    }
}

/// one more refusal counted for `exe`: its count up by one, or a new entry
/// at the end
pub open spec fn bump(v: Seq<(Seq<char>, u64)>, exe: Seq<char>) -> Seq<(Seq<char>, u64)>
    decreases v.len(),
{
    if v.len() == 0 {
        seq![(exe, 1u64)]
    } else if v[0].0 == exe {
        seq![(exe, (v[0].1 + 1) as u64)] + v.drop_first()
    } else {
        seq![v[0]] + bump(v.drop_first(), exe)
    }
}

impl BlockedLog {
    /// DNS replies seen
    pub closed spec fn seen(self) -> u64 {
        self.queries
    }

    /// lookups refused
    pub closed spec fn refused(self) -> u64 {
        self.total
    }

    pub closed spec fn recent_view(self) -> Seq<Blocked> {
        self.recent@
    }

    pub closed spec fn apps(self) -> Seq<(Seq<char>, u64)> {
        app_views(self.by_app@)
    }

    pub closed spec fn wf(self) -> bool {
        &&& self.recent@.len() <= BLOCKED_RECENT_CAP
        &&& distinct_apps(app_views(self.by_app@))
    }

    /// nothing seen yet
    pub fn new() -> (l: BlockedLog)
        ensures
            l.wf(),
            l.seen() == 0,
            l.refused() == 0,
            l.recent_view().len() == 0,
            l.apps().len() == 0,
    {
        let l = BlockedLog { queries: 0, total: 0, recent: Vec::new(), by_app: Vec::new() };
        assert(app_views(l.by_app@) =~= Seq::<(Seq<char>, u64)>::empty());
        l
    }

    /// A log whose recent refusals are read back from disk: the newest
    /// `BLOCKED_RECENT_CAP` of `recent`, oldest first, and nothing counted
    /// yet — the counters are this run's.
    pub fn seeded(recent: Vec<Blocked>) -> (l: BlockedLog)
        ensures
            l.wf(),
            l.seen() == 0,
            l.refused() == 0,
            l.recent_view() == keep_recent(recent@),
            l.apps().len() == 0,
    {
        let n = recent.len();
        let start: usize = if n > BLOCKED_RECENT_CAP { n - BLOCKED_RECENT_CAP } else { 0 };
        let mut kept: Vec<Blocked> = Vec::new();
        let mut i: usize = start;
        while i < n
            invariant
                start <= i <= n,
                n == recent@.len(),
                start == (if n > BLOCKED_RECENT_CAP { n - BLOCKED_RECENT_CAP } else { 0 }),
                kept@ == recent@.subrange(start as int, i as int),
            decreases n - i,
        {
            kept.push(recent[i].clone());
            assert(kept@ =~= recent@.subrange(start as int, i + 1));
            i = i + 1;
        }
        assert(keep_recent(recent@) =~= recent@.subrange(start as int, n as int));
        let l = BlockedLog { queries: 0, total: 0, recent: kept, by_app: Vec::new() };
        assert(app_views(l.by_app@) =~= Seq::<(Seq<char>, u64)>::empty());
        l
    }

    /// one more DNS reply seen (the counter wraps, as an atomic add does)
    pub fn note_query(&mut self)
        ensures
            final(self).seen() == (old(self).seen() + 1) % 0x1_0000_0000_0000_0000,
            final(self).refused() == old(self).refused(),
            final(self).recent_view() == old(self).recent_view(),
            final(self).apps() == old(self).apps(),
            final(self).wf() == old(self).wf(),
    {
        self.queries = if self.queries == u64::MAX {
            0
        } else {
            self.queries + 1
        };
    }

    /// One more refused lookup of `name`, asked by `exe` when the reply's
    /// destination named one, at unix time `ts`: counted in the total and
    /// against the app, and kept as the newest refusal, the oldest dropped
    /// past the cap. A count wraps at its limit, as an atomic add does.
    pub fn note_blocked(&mut self, name: &str, exe: Option<String>, ts: u64)
        requires
            old(self).wf(),
            old(self).apps().len() < usize::MAX,
        ensures
            final(self).wf(),
            final(self).seen() == old(self).seen(),
            final(self).refused() == (old(self).refused() + 1) % 0x1_0000_0000_0000_0000,
            final(self).recent_view() == keep_recent(
                old(self).recent_view().push(Blocked { ts, name: final(self).recent_view().last().name, exe }),
            ),
            final(self).recent_view().last().name@ == name@,
            match exe {
                Some(e) => final(self).apps() == bump_wrapping(old(self).apps(), e@),
                None => final(self).apps() == old(self).apps(),
            },
    {
        self.total = if self.total == u64::MAX {
            0
        } else {
            self.total + 1
        };
        match &exe {
            Some(e) => {
                bump_app(&mut self.by_app, e.as_str());
            },
            None => {},
        }
        let entry = Blocked { ts, name: string_of(&chars_of(name)), exe };
        let ghost before = self.recent@;
        if self.recent.len() >= BLOCKED_RECENT_CAP {
            let mut out: Vec<Blocked> = Vec::new();
            let mut i: usize = 1;
            while i < self.recent.len()
                invariant
                    1 <= i <= self.recent@.len(),
                    self.recent@ == before,
                    out@ == before.subrange(1, i as int),
                decreases self.recent@.len() - i,
            {
                out.push(self.recent[i].clone());
                assert(out@ =~= before.subrange(1, i + 1));
                i = i + 1;
            }
            out.push(entry);
            self.recent = out;
            assert(self.recent@ =~= keep_recent(before.push(self.recent@.last())));
        } else {
            self.recent.push(entry);
            assert(self.recent@ =~= keep_recent(before.push(self.recent@.last())));
        }
    }

    /// how many apps have refusals counted against them
    pub fn app_count(&self) -> (n: usize)
        ensures
            n == self.apps().len(),
    {
        self.by_app.len()
    }

    pub fn queries(&self) -> (n: u64)
        ensures
            n == self.seen(),
    {
        self.queries
    }

    pub fn refused_count(&self) -> (n: u64)
        ensures
            n == self.refused(),
    {
        self.total
    }

    /// the most recent refusals, oldest first
    pub fn blocked_recent(&self) -> (v: Vec<Blocked>)
        ensures
            v@ == self.recent_view(),
    {
        let mut v: Vec<Blocked> = Vec::new();
        let mut i: usize = 0;
        while i < self.recent.len()
            invariant
                i <= self.recent@.len(),
                v@ == self.recent@.take(i as int),
            decreases self.recent@.len() - i,
        {
            v.push(self.recent[i].clone());
            assert(v@ =~= self.recent@.take(i + 1));
            i = i + 1;
        }
        assert(self.recent@.take(i as int) =~= self.recent@);
        v
    }

    /// The busiest `limit` apps, most blocked first, ties by name.
    pub fn blocked_by_app(&self, limit: usize) -> (v: Vec<(String, u64)>)
        requires
            self.wf(),
        ensures
            app_views(v@) == top(self.apps(), limit as nat),
    {
        let mut rest: Vec<(String, u64)> = Vec::new();
        let mut i: usize = 0;
        while i < self.by_app.len()
            invariant
                i <= self.by_app@.len(),
                app_views(rest@) == app_views(self.by_app@).take(i as int),
            decreases self.by_app@.len() - i,
        {
            let ghost before = app_views(rest@);
            let name = self.by_app[i].0.clone();
            assert(name@ == self.by_app@[i as int].0@);
            rest.push((name, self.by_app[i].1));
            assert(app_views(rest@) =~= before.push(app_views(self.by_app@)[i as int]));
            assert(app_views(rest@) =~= app_views(self.by_app@).take(i + 1));
            i = i + 1;
        }
        assert(app_views(self.by_app@).take(i as int) =~= app_views(self.by_app@));
        let mut out: Vec<(String, u64)> = Vec::new();
        let mut k: usize = 0;
        assert(app_views(out@) + top(app_views(rest@), limit as nat) =~= top(self.apps(), limit as nat));
        while k < limit && rest.len() > 0
            invariant
                k <= limit,
                app_views(out@) + top(app_views(rest@), (limit - k) as nat) == top(
                    self.apps(),
                    limit as nat,
                ),
            decreases limit - k,
        {
            let b = best_exec(&rest);
            let ghost rv = app_views(rest@);
            let ghost ov = app_views(out@);
            let picked = rest.remove(b);
            out.push(picked);
            assert(app_views(rest@) =~= rv.remove(b as int));
            assert(app_views(out@) =~= ov.push(rv[b as int]));
            assert(top(rv, (limit - k) as nat) == seq![rv[b as int]] + top(
                rv.remove(b as int),
                (limit - k - 1) as nat,
            ));
            assert(app_views(out@) + top(app_views(rest@), (limit - k - 1) as nat) =~= ov + top(
                rv,
                (limit - k) as nat,
            ));
            k = k + 1;
        }
        assert(top(app_views(rest@), (limit - k) as nat) =~= Seq::<(Seq<char>, u64)>::empty());
        assert(app_views(out@) =~= top(self.apps(), limit as nat));
        out
    }
}

/// `bump`, with a count at its limit wrapping to 0
pub open spec fn bump_wrapping(v: Seq<(Seq<char>, u64)>, exe: Seq<char>) -> Seq<(Seq<char>, u64)>
    decreases v.len(),
{
    if v.len() == 0 {
        seq![(exe, 1u64)]
    } else if v[0].0 == exe {
        seq![(exe, if v[0].1 == u64::MAX { 0u64 } else { (v[0].1 + 1) as u64 })] + v.drop_first()
    } else {
        seq![v[0]] + bump_wrapping(v.drop_first(), exe)
    }
}

/// some entry is for `x`
pub open spec fn has_key(v: Seq<(Seq<char>, u64)>, x: Seq<char>) -> bool {
    exists|i: int| 0 <= i < v.len() && (#[trigger] v[i]).0 == x
}

proof fn lemma_bump_keys(v: Seq<(Seq<char>, u64)>, exe: Seq<char>)
    requires
        distinct_apps(v),
    ensures
        distinct_apps(bump_wrapping(v, exe)),
        forall|x: Seq<char>| #[trigger] has_key(bump_wrapping(v, exe), x) ==> x == exe || has_key(v, x),
    decreases v.len(),
{
    let b = bump_wrapping(v, exe);
    if v.len() > 0 {
        let t = v.drop_first();
        assert forall|i: int, j: int| 0 <= i < j < t.len() implies (#[trigger] t[i]).0 != (
        #[trigger] t[j]).0 by {
            assert(t[i] == v[i + 1]);
            assert(t[j] == v[j + 1]);
        }
        lemma_bump_keys(t, exe);
        if v[0].0 == exe {
            assert forall|i: int, j: int| 0 <= i < j < b.len() implies (#[trigger] b[i]).0 != (
            #[trigger] b[j]).0 by {
                assert(b[j] == v[j]);
                if i > 0 {
                    assert(b[i] == v[i]);
                }
            }
            assert forall|x: Seq<char>| #[trigger] has_key(b, x) implies x == exe || has_key(v, x) by {
                let i = choose|i: int| 0 <= i < b.len() && (#[trigger] b[i]).0 == x;
                if i > 0 {
                    assert(b[i] == v[i]);
                }
            }
        } else {
            let bt = bump_wrapping(t, exe);
            assert(b == seq![v[0]] + bt);
            assert forall|x: Seq<char>| #[trigger] has_key(b, x) implies x == exe || has_key(v, x) by {
                let i = choose|i: int| 0 <= i < b.len() && (#[trigger] b[i]).0 == x;
                if i == 0 {
                    assert(v[0].0 == x);
                } else {
                    assert(b[i] == bt[i - 1]);
                    assert(has_key(bt, x));
                    if x != exe {
                        assert(has_key(t, x));
                        let k = choose|k: int| 0 <= k < t.len() && (#[trigger] t[k]).0 == x;
                        assert(v[k + 1] == t[k]);
                    }
                }
            }
            assert forall|i: int, j: int| 0 <= i < j < b.len() implies (#[trigger] b[i]).0 != (
            #[trigger] b[j]).0 by {
                if i == 0 {
                    assert(b[j] == bt[j - 1]);
                    if bt[j - 1].0 == v[0].0 {
                        assert(has_key(bt, v[0].0));
                        assert(has_key(t, v[0].0));
                        let k = choose|k: int| 0 <= k < t.len() && (#[trigger] t[k]).0 == v[0].0;
                        assert(v[k + 1] == t[k]);
                    }
                } else {
                    assert(b[i] == bt[i - 1]);
                    assert(b[j] == bt[j - 1]);
                }
            }
        }
    }
}

fn bump_app(v: &mut Vec<(String, u64)>, exe: &str)
    requires
        distinct_apps(app_views(old(v)@)),
        old(v)@.len() < usize::MAX,
    ensures
        app_views(final(v)@) == bump_wrapping(app_views(old(v)@), exe@),
        distinct_apps(app_views(final(v)@)),
{
    let ev = chars_of(exe);
    let ghost start = app_views(v@);
    proof {
        lemma_bump_keys(start, exe@);
    }
    let mut i: usize = 0;
    assert(start.skip(0) =~= start);
    while i < v.len()
        invariant
            v@ == old(v)@,
            start == app_views(v@),
            ev@ == exe@,
            i <= v@.len(),
            forall|j: int| 0 <= j < i ==> (#[trigger] start[j]).0 != exe@,
            distinct_apps(bump_wrapping(start, exe@)),
            bump_wrapping(start, exe@) == start.take(i as int) + bump_wrapping(
                start.skip(i as int),
                exe@,
            ),
        decreases v@.len() - i,
    {
        let ghost rest = start.skip(i as int);
        assert(rest[0] == start[i as int]);
        assert(rest.drop_first() =~= start.skip(i + 1));
        if seq_eq(&chars_of(v[i].0.as_str()), &ev) {
            let n = v[i].1;
            let name = v[i].0.clone();
            v.set(i, (name, if n == u64::MAX { 0 } else { n + 1 }));
            assert(app_views(v@) =~= bump_wrapping(start, exe@));
            return;
        }
        assert(start.take(i + 1) =~= start.take(i as int) + seq![start[i as int]]);
        i = i + 1;
    }
    v.push((string_of(&ev), 1));
    assert(start.skip(i as int) =~= Seq::<(Seq<char>, u64)>::empty());
    assert(start.take(i as int) =~= start);
    assert(app_views(v@) =~= bump_wrapping(start, exe@));
}

/// `a` comes before `b` in code-point order (which is also the order of
/// their UTF-8 bytes, and so `String`'s)
pub open spec fn lex_lt(a: Seq<char>, b: Seq<char>) -> bool
    decreases a.len(),
{
    if a.len() == 0 {
        b.len() > 0
    } else if b.len() == 0 {
        false
    } else if a[0] != b[0] {
        (a[0] as u32) < (b[0] as u32)
    } else {
        lex_lt(a.drop_first(), b.drop_first())
    }
}

/// `a` is listed before `b`: more blocked, or as many and first by name
pub open spec fn ahead(a: (Seq<char>, u64), b: (Seq<char>, u64)) -> bool {
    a.1 > b.1 || (a.1 == b.1 && lex_lt(a.0, b.0))
}

/// the index of the entry nothing is ahead of, the first such one
pub open spec fn best_of(v: Seq<(Seq<char>, u64)>) -> int
    decreases v.len(),
{
    if v.len() <= 1 {
        0
    } else {
        let b = best_of(v.drop_last());
        if ahead(v.last(), v[b]) {
            v.len() - 1
        } else {
            b
        }
    }
}

/// the first `k` entries, best first
pub open spec fn top(v: Seq<(Seq<char>, u64)>, k: nat) -> Seq<(Seq<char>, u64)>
    decreases k,
{
    if k == 0 || v.len() == 0 {
        seq![]
    } else {
        let b = best_of(v);
        seq![v[b]] + top(v.remove(b), (k - 1) as nat)
    }
}

proof fn lemma_best_in_range(v: Seq<(Seq<char>, u64)>)
    requires
        v.len() > 0,
    ensures
        0 <= best_of(v) < v.len(),
    decreases v.len(),
{
    if v.len() > 1 {
        lemma_best_in_range(v.drop_last());
    }
}

pub(crate) fn lex_lt_exec(a: &[char], b: &[char]) -> (r: bool)
    ensures
        r == lex_lt(a@, b@),
{
    let mut i: usize = 0;
    assert(a@.skip(0) =~= a@);
    assert(b@.skip(0) =~= b@);
    while i < a.len() && i < b.len() && a[i] == b[i]
        invariant
            i <= a@.len(),
            i <= b@.len(),
            lex_lt(a@, b@) == lex_lt(a@.skip(i as int), b@.skip(i as int)),
        decreases a@.len() - i,
    {
        assert(a@.skip(i as int).drop_first() =~= a@.skip(i + 1));
        assert(b@.skip(i as int).drop_first() =~= b@.skip(i + 1));
        i = i + 1;
    }
    if i == a.len() {
        i < b.len()
    } else if i == b.len() {
        false
    } else {
        (a[i] as u32) < (b[i] as u32)
    }
}

fn ahead_exec(a: &(String, u64), b: &(String, u64)) -> (r: bool)
    ensures
        r == ahead((a.0@, a.1), (b.0@, b.1)),
{
    a.1 > b.1 || (a.1 == b.1 && lex_lt_exec(&chars_of(a.0.as_str()), &chars_of(b.0.as_str())))
}

fn best_exec(v: &Vec<(String, u64)>) -> (b: usize)
    requires
        v@.len() > 0,
    ensures
        b == best_of(app_views(v@)),
        b < v@.len(),
{
    let ghost vs = app_views(v@);
    let mut b: usize = 0;
    let mut i: usize = 1;
    assert(vs.take(1).len() == 1);
    while i < v.len()
        invariant
            vs == app_views(v@),
            1 <= i <= v@.len(),
            b < i,
            b == best_of(vs.take(i as int)),
        decreases v@.len() - i,
    {
        assert(vs.take(i + 1).drop_last() =~= vs.take(i as int));
        assert(vs.take(i + 1).last() == vs[i as int]);
        assert(vs.take(i + 1)[b as int] == vs[b as int]);
        if ahead_exec(&v[i], &v[b]) {
            b = i;
        }
        i = i + 1;
    }
    assert(vs.take(i as int) =~= vs);
    b
}

/// the oldest of some download times; `None` when one was never made or
/// there are none
pub open spec fn oldest(ts: Seq<Option<u64>>) -> Option<u64>
    decreases ts.len(),
{
    if ts.len() == 0 {
        None
    } else if ts.len() == 1 {
        ts[0]
    } else {
        match (ts[0], oldest(ts.drop_first())) {
            (Some(a), Some(b)) => Some(if a < b { a } else { b }),
            _ => None,
        }
    }
}

/// The lists' update time is the oldest of their download times: none when
/// there are no lists or one was never downloaded; otherwise a time one of
/// them was downloaded at, and no later than any of them.
pub proof fn lemma_oldest_is_the_earliest_download(ts: Seq<Option<u64>>)
    ensures
        oldest(ts) is None <==> (ts.len() == 0 || exists|i: int| 0 <= i < ts.len() && #[trigger] ts[i] is None),
        oldest(ts) matches Some(t) ==> (exists|i: int| 0 <= i < ts.len() && #[trigger] ts[i] == Some(t))
            && forall|i: int| 0 <= i < ts.len() ==> (#[trigger] ts[i] matches Some(x) && t <= x),
    decreases ts.len(),
{
    if ts.len() > 1 {
        let rest = ts.drop_first();
        lemma_oldest_is_the_earliest_download(rest);
        assert forall|i: int| 0 < i < ts.len() implies ts[i] == rest[i - 1] by {}
        if exists|i: int| 0 <= i < rest.len() && #[trigger] rest[i] is None {
            let i = choose|i: int| 0 <= i < rest.len() && #[trigger] rest[i] is None;
            assert(ts[i + 1] is None);
        }
        if let Some(t) = oldest(ts) {
            let b = oldest(rest).unwrap();
            let j = choose|i: int| 0 <= i < rest.len() && #[trigger] rest[i] == Some(b);
            assert(ts[j + 1] == Some(b));
            assert(ts[0] matches Some(a) && t <= a);
            assert forall|i: int| 0 <= i < ts.len() implies (#[trigger] ts[i] matches Some(x) && t <= x) by {
                if i > 0 {
                    assert(rest[i - 1] == ts[i]);
                }
            }
        }
    }
}

/// the recent list after noting each of `es` in turn, from `r`
pub open spec fn noted_all(r: Seq<Blocked>, es: Seq<Blocked>) -> Seq<Blocked>
    decreases es.len(),
{
    if es.len() == 0 {
        r
    } else {
        keep_recent(noted_all(r, es.drop_last()).push(es.last()))
    }
}

/// one refusal noted after capping is the same as capping after noting it
proof fn lemma_keep_recent_push(a: Seq<Blocked>, x: Blocked)
    ensures
        keep_recent(keep_recent(a).push(x)) == keep_recent(a.push(x)),
{
    if a.len() > BLOCKED_RECENT_CAP {
        assert(keep_recent(keep_recent(a).push(x)) =~= keep_recent(a.push(x)));
    }
}

/// Over a run of refusals the recent list is the newest
/// `BLOCKED_RECENT_CAP` of all of them, oldest first — whatever it held
/// before, within the cap, followed by each one noted.
pub proof fn lemma_recent_is_the_newest_of_a_run(r: Seq<Blocked>, es: Seq<Blocked>)
    requires
        r.len() <= BLOCKED_RECENT_CAP,
    ensures
        noted_all(r, es) == keep_recent(r + es),
        noted_all(r, es).len() <= BLOCKED_RECENT_CAP,
    decreases es.len(),
{
    if es.len() == 0 {
        assert(r + es =~= r);
    } else {
        let init = es.drop_last();
        lemma_recent_is_the_newest_of_a_run(r, init);
        lemma_keep_recent_push(r + init, es.last());
        assert((r + init).push(es.last()) =~= r + es);
    }
}

fn oldest_exec(ts: &[Option<u64>]) -> (r: Option<u64>)
    ensures
        r == oldest(ts@),
{
    if ts.len() == 0 {
        return None;
    }
    let mut i: usize = ts.len() - 1;
    let mut acc: Option<u64> = ts[i];
    assert(ts@.skip(i as int).len() == 1);
    while i > 0
        invariant
            i < ts@.len(),
            acc == oldest(ts@.skip(i as int)),
        decreases i,
    {
        let ghost t = ts@.skip(i - 1);
        assert(t.drop_first() =~= ts@.skip(i as int));
        acc = match (ts[i - 1], acc) {
            (Some(a), Some(b)) => Some(if a < b { a } else { b }),
            _ => None,
        };
        i = i - 1;
    }
    assert(ts@.skip(0) =~= ts@);
    acc
}

/// The dashboard payload: the configuration's switches, the lists in force
/// (`effective_sources`), how many domains are loaded, the tap's counters,
/// its recent refusals and busiest five apps, and how stale the set is —
/// the oldest of `stamps`, the download times of those lists in order.
pub fn blocklist_stats(
    cfg: &BlocklistConfig,
    log: &BlockedLog,
    domains: usize,
    stamps: &[Option<u64>],
) -> (s: BlocklistStats)
    requires
        log.wf(),
    ensures
        s.enabled == cfg.enabled,
        s.encrypted_dns_blocked == (cfg.enabled && cfg.block_encrypted_dns),
        views(s.sources@) == effective_spec(*cfg),
        s.domains == domains,
        s.queries == log.seen(),
        s.blocked == log.refused(),
        s.recent@ == log.recent_view(),
        app_views(s.by_app@) == top(log.apps(), 5),
        s.updated_at == (if effective_spec(*cfg).len() == 0 {
            None
        } else {
            oldest(stamps@)
        }),
{
    let sources = effective_sources(cfg);
    let updated_at = if sources.len() == 0 {
        None
    } else {
        oldest_exec(stamps)
    };
    BlocklistStats {
        enabled: cfg.enabled,
        encrypted_dns_blocked: cfg.enabled && cfg.block_encrypted_dns,
        domains,
        queries: log.queries(),
        blocked: log.refused_count(),
        recent: log.blocked_recent(),
        by_app: log.blocked_by_app(5),
        updated_at,
        sources,
    }
}

} // verus!
