//! What the daemon keeps and changes: the app rules as answers arrive, the
//! flow history a reconnecting client is shown, and how old an entry reads.
use vstd::prelude::*;
use crate::config::{
    Action, AppRule, Direction, best_rule, clone_opt_string, match_rule_at, max_app_rule_id,
    next_app_rule_id, opt_str_view, opt_view, rule_applies,
};
use crate::ipc::{FlowStatus, FlowWire};
use crate::num::{decimal, decimal_exec};
use crate::text::{chars_of, concat, seq_eq, string_of};

verus! {

broadcast use vstd::string::group_string_axioms;

// ------------------------------------------------------------ app rules

/// the rule `upsert_rule` replaces: for the whole-app case (no port, no
/// host) every rule for `exe`; otherwise the one with the same exe, port,
/// direction and host
pub open spec fn replaced_by(
    r: AppRule,
    exe: Seq<char>,
    port: Option<u16>,
    dir: Option<Direction>,
    host: Option<Seq<char>>,
) -> bool {
    if port is None && host is None {
        r.exe@ == exe
    } else {
        r.exe@ == exe && r.port == port && r.direction == dir && opt_view(r.host) == host
    }
}

/// the rules that survive an upsert, in order
pub open spec fn kept(
    rules: Seq<AppRule>,
    exe: Seq<char>,
    port: Option<u16>,
    dir: Option<Direction>,
    host: Option<Seq<char>>,
) -> Seq<AppRule>
    decreases rules.len(),
{
    if rules.len() == 0 {
        seq![]
    } else {
        let rest = kept(rules.drop_last(), exe, port, dir, host);
        if replaced_by(rules.last(), exe, port, dir, host) {
            rest
        } else {
            rest.push(rules.last())
        }
    }
}

/// An upsert keeps exactly the rules it does not replace: a whole-app
/// answer (no port, no host) drops every rule of the app, a narrower one
/// only the rule with its own port, direction and host; every other rule
/// stays.
pub proof fn lemma_upsert_keeps_exactly_the_unreplaced(
    rules: Seq<AppRule>,
    exe: Seq<char>,
    port: Option<u16>,
    dir: Option<Direction>,
    host: Option<Seq<char>>,
    r: AppRule,
)
    ensures
        kept(rules, exe, port, dir, host).contains(r) <==> (rules.contains(r) && !replaced_by(r, exe, port, dir, host)),
        port is None && host is None ==> (kept(rules, exe, port, dir, host).contains(r) <==> (rules.contains(r) && r.exe@ != exe)),
    decreases rules.len(),
{
    if rules.len() > 0 {
        let init = rules.drop_last();
        lemma_upsert_keeps_exactly_the_unreplaced(init, exe, port, dir, host, r);
        let rest = kept(init, exe, port, dir, host);
        if rules.contains(r) {
            let i = choose|i: int| 0 <= i < rules.len() && rules[i] == r;
            if i < rules.len() - 1 {
                assert(init[i] == r);
            }
        }
        if init.contains(r) {
            let i = choose|i: int| 0 <= i < init.len() && init[i] == r;
            assert(rules[i] == r);
        }
        if !replaced_by(rules.last(), exe, port, dir, host) {
            if rest.push(rules.last()).contains(r) {
                let i = choose|i: int| 0 <= i < rest.len() + 1 && rest.push(rules.last())[i] == r;
                if i < rest.len() {
                    assert(rest[i] == r);
                }
            }
            if rest.contains(r) {
                let i = choose|i: int| 0 <= i < rest.len() && rest[i] == r;
                assert(rest.push(rules.last())[i] == r);
            }
            assert(rest.push(rules.last())[rest.len() as int] == rules.last());
        }
    }
}

pub(crate) fn opt_str_eq(a: &Option<String>, b: &Option<String>) -> (r: bool)
    ensures
        r == (opt_view(*a) == opt_view(*b)),
{
    match (a, b) {
        (Some(x), Some(y)) => seq_eq(&chars_of(x.as_str()), &chars_of(y.as_str())),
        (None, None) => true,
        _ => false,
    }
}

fn replaced_exec(
    r: &AppRule,
    exe: &[char],
    port: Option<u16>,
    dir: Option<Direction>,
    host: &Option<String>,
) -> (b: bool)
    ensures
        b == replaced_by(*r, exe@, port, dir, opt_view(*host)),
{
    let same_exe = seq_eq(&chars_of(r.exe.as_str()), exe);
    if port.is_none() && host.is_none() {
        same_exe
    } else {
        same_exe && r.port == port && r.direction == dir && opt_str_eq(&r.host, host)
    }
}

/// Sets the rule for `exe` on `port`, in `direction`, toward `host`. The
/// whole-app case — no port and no host — wipes every existing rule for
/// `exe`, the per-port and per-host ones too, since "allow the whole app"
/// means everything; a narrower rule replaces only the existing rule with
/// the same (port, direction, host). The new rule is appended, enabled,
/// with the next free id and `fingerprint` (the binary's, as it is now).
pub fn upsert_rule(
    rules: &mut Vec<AppRule>,
    exe: &str,
    port: Option<u16>,
    direction: Option<Direction>,
    action: Action,
    expires: Option<u64>,
    host: Option<String>,
    fingerprint: Option<String>,
)
    requires
        max_app_rule_id(kept(old(rules)@, exe@, port, direction, opt_view(host))) < u32::MAX,
    ensures
        final(rules)@ == kept(old(rules)@, exe@, port, direction, opt_view(host)).push(
            AppRule {
                id: (max_app_rule_id(kept(old(rules)@, exe@, port, direction, opt_view(host))) + 1) as u32,
                exe: final(rules)@.last().exe,
                port,
                direction,
                action,
                enabled: true,
                expires,
                fingerprint,
                host,
            },
        ),
        final(rules)@.last().exe@ == exe@,
{
    let ev = chars_of(exe);
    let ghost old_rules = rules@;
    let mut out: Vec<AppRule> = Vec::new();
    let mut i: usize = 0;
    while i < rules.len()
        invariant
            rules@ == old_rules,
            ev@ == exe@,
            i <= old_rules.len(),
            out@ == kept(old_rules.take(i as int), exe@, port, direction, opt_view(host)),
        decreases old_rules.len() - i,
    {
        assert(old_rules.take(i + 1).drop_last() =~= old_rules.take(i as int));
        assert(old_rules.take(i + 1).last() == old_rules[i as int]);
        if !replaced_exec(&rules[i], &ev, port, direction, &host) {
            out.push(rules[i].clone());
        }
        i = i + 1;
    }
    assert(old_rules.take(i as int) =~= old_rules);
    let id = next_app_rule_id(&out);
    out.push(
        AppRule {
            id,
            exe: string_of(&ev),
            port,
            direction,
            action,
            enabled: true,
            expires,
            fingerprint,
            host,
        },
    );
    *rules = out;
}

/// Whole-app upsert is the last word on the app: afterwards the new rule is
/// the only rule for `exe`, so any connection of `exe` that it applies to is
/// decided by it.
pub proof fn lemma_whole_app_rule_decides(
    rules: Seq<AppRule>,
    new_rule: AppRule,
    exe: Seq<char>,
    dir: Option<Direction>,
    cport: Option<u16>,
    cdir: Option<Direction>,
    chost: Option<Seq<char>>,
    now: u64,
)
    requires
        new_rule.exe@ == exe,
        new_rule.port is None,
        new_rule.host is None,
        rule_applies(new_rule, exe, cport, cdir, chost, now),
    ensures
        best_rule(kept(rules, exe, None, dir, None).push(new_rule), exe, cport, cdir, chost, now)
            == Some(kept(rules, exe, None, dir, None).len() as int),
        forall|j: int|
            0 <= j < kept(rules, exe, None, dir, None).len() ==> kept(
                rules,
                exe,
                None,
                dir,
                None,
            )[j].exe@ != exe,
{
    lemma_kept_drops(rules, exe, None, dir, None);
    let k = kept(rules, exe, None, dir, None);
    lemma_no_rule_applies(k, exe, cport, cdir, chost, now);
    assert(k.push(new_rule).drop_last() =~= k);
}

proof fn lemma_kept_drops(
    rules: Seq<AppRule>,
    exe: Seq<char>,
    port: Option<u16>,
    dir: Option<Direction>,
    host: Option<Seq<char>>,
)
    ensures
        forall|j: int|
            0 <= j < kept(rules, exe, port, dir, host).len() ==> !replaced_by(
                #[trigger] kept(rules, exe, port, dir, host)[j],
                exe,
                port,
                dir,
                host,
            ),
    decreases rules.len(),
{
    if rules.len() > 0 {
        lemma_kept_drops(rules.drop_last(), exe, port, dir, host);
        let rest = kept(rules.drop_last(), exe, port, dir, host);
        let l = rules.last();
        if !replaced_by(l, exe, port, dir, host) {
            assert forall|j: int| 0 <= j < rest.push(l).len() implies !replaced_by(
                #[trigger] rest.push(l)[j],
                exe,
                port,
                dir,
                host,
            ) by {
                if j < rest.len() {
                    assert(rest.push(l)[j] == rest[j]);
                }
            }
        }
    }
}

proof fn lemma_no_rule_applies(
    k: Seq<AppRule>,
    exe: Seq<char>,
    port: Option<u16>,
    dir: Option<Direction>,
    host: Option<Seq<char>>,
    now: u64,
)
    requires
        forall|j: int| 0 <= j < k.len() ==> (#[trigger] k[j]).exe@ != exe,
    ensures
        best_rule(k, exe, port, dir, host, now) is None,
    decreases k.len(),
{
    if k.len() > 0 {
        lemma_no_rule_applies(k.drop_last(), exe, port, dir, host, now);
        assert(k[k.len() - 1].exe@ != exe);
    }
}

/// A narrower upsert replaces only its own key: every rule of another exe,
/// port, direction or host is still there, in its order.
pub proof fn lemma_narrow_upsert_keeps_other_keys(
    rules: Seq<AppRule>,
    exe: Seq<char>,
    port: Option<u16>,
    dir: Option<Direction>,
    host: Option<Seq<char>>,
    i: int,
)
    requires
        port is Some || host is Some,
        0 <= i < rules.len(),
        !(rules[i].exe@ == exe && rules[i].port == port && rules[i].direction == dir && opt_view(
            rules[i].host,
        ) == host),
    ensures
        kept(rules, exe, port, dir, host).contains(rules[i]),
    decreases rules.len(),
{
    if i < rules.len() - 1 {
        lemma_narrow_upsert_keeps_other_keys(rules.drop_last(), exe, port, dir, host, i);
        let rest = kept(rules.drop_last(), exe, port, dir, host);
        assert(rules.drop_last()[i] == rules[i]);
        if !replaced_by(rules.last(), exe, port, dir, host) {
            let w = choose|w: int| 0 <= w < rest.len() && rest[w] == rules[i];
            assert(rest.push(rules.last())[w] == rules[i]);
        }
    } else {
        let rest = kept(rules.drop_last(), exe, port, dir, host);
        assert(rest.push(rules.last())[rest.len() as int] == rules[i]);
    }
}

/// What the rules say for a connection of `exe` on `port` in `dir` to a
/// peer resolved as `host` at `now` — `None` also when the deciding rule was
/// made for a binary that has since changed (`current`, the binary's
/// fingerprint now, differs from the rule's), so the app is asked again.
pub open spec fn ruled_spec(
    rules: Seq<AppRule>,
    exe: Seq<char>,
    port: u16,
    dir: Direction,
    host: Option<Seq<char>>,
    now: u64,
    current: Option<Seq<char>>,
) -> Option<Action> {
    match best_rule(rules, exe, Some(port), Some(dir), host, now) {
        None => None,
        Some(i) => if rules[i].fingerprint is Some && opt_view(rules[i].fingerprint) != current {
            None
        } else {
            Some(rules[i].action)
        },
    }
}

pub fn ruled(
    rules: &[AppRule],
    exe: &str,
    port: u16,
    dir: Direction,
    host: Option<&str>,
    now: u64,
    current: &Option<String>,
) -> (r: Option<Action>)
    ensures
        r == ruled_spec(rules@, exe@, port, dir, opt_str_view(host), now, opt_view(*current)),
{
    match match_rule_at(rules, exe, Some(port), Some(dir), host, now) {
        None => None,
        Some(r) => {
            if r.stale(current) {
                None
            } else {
                Some(r.action)
            }
        },
    }
}

/// the rules that have not expired at `now`, in order
pub open spec fn unexpired(rules: Seq<AppRule>, now: u64) -> Seq<AppRule>
    decreases rules.len(),
{
    if rules.len() == 0 {
        seq![]
    } else {
        let rest = unexpired(rules.drop_last(), now);
        if rules.last().expired_at(now) {
            rest
        } else {
            rest.push(rules.last())
        }
    }
}

/// Drops every rule expired at `now`; `None` when none was, so that nothing
/// needs writing back or telling.
pub fn sweep_expired(rules: &[AppRule], now: u64) -> (r: Option<Vec<AppRule>>)
    ensures
        match r {
            Some(v) => (exists|i: int| 0 <= i < rules@.len() && (#[trigger] rules@[i]).expired_at(now))
                && v@ == unexpired(rules@, now),
            None => forall|i: int| 0 <= i < rules@.len() ==> !(#[trigger] rules@[i]).expired_at(now),
        },
{
    let mut out: Vec<AppRule> = Vec::new();
    let mut any = false;
    let mut i: usize = 0;
    while i < rules.len()
        invariant
            i <= rules@.len(),
            out@ == unexpired(rules@.take(i as int), now),
            any == exists|j: int| 0 <= j < i && (#[trigger] rules@[j]).expired_at(now),
        decreases rules@.len() - i,
    {
        assert(rules@.take(i + 1).drop_last() =~= rules@.take(i as int));
        assert(rules@.take(i + 1).last() == rules@[i as int]);
        if rules[i].expired(now) {
            any = true;
        } else {
            out.push(rules[i].clone());
        }
        i = i + 1;
    }
    assert(rules@.take(i as int) =~= rules@);
    if any {
        Some(out)
    } else {
        None
    }
}

/// Flips `enabled` on the rule with id `id`, the first one if several.
pub fn toggle_app_rule(rules: &mut Vec<AppRule>, id: u32)
    ensures
        final(rules)@.len() == old(rules)@.len(),
        match first_with_id(old(rules)@, id) {
            Some(k) => final(rules)@ == old(rules)@.update(
                k,
                AppRule { enabled: !old(rules)@[k].enabled, ..old(rules)@[k] },
            ),
            None => final(rules)@ == old(rules)@,
        },
{
    let mut i: usize = 0;
    while i < rules.len()
        invariant
            i <= rules@.len(),
            rules@ == old(rules)@,
            forall|j: int| 0 <= j < i ==> rules@[j].id != id,
        decreases rules@.len() - i,
    {
        if rules[i].id == id {
            proof {
                lemma_first_with_id(old(rules)@, id, i as int);
            }
            let mut r = rules[i].clone();
            r.enabled = !r.enabled;
            rules.set(i, r);
            return;
        }
        i = i + 1;
    }
    proof {
        lemma_first_with_id_none(old(rules)@, id);
    }
}

/// the index of the first rule with id `id`
pub open spec fn first_with_id(rules: Seq<AppRule>, id: u32) -> Option<int>
    decreases rules.len(),
{
    if rules.len() == 0 {
        None
    } else if rules[0].id == id {
        Some(0)
    } else {
        match first_with_id(rules.drop_first(), id) {
            Some(k) => Some(k + 1),
            None => None,
        }
    }
}

proof fn lemma_first_with_id(rules: Seq<AppRule>, id: u32, i: int)
    requires
        0 <= i < rules.len(),
        rules[i].id == id,
        forall|j: int| 0 <= j < i ==> rules[j].id != id,
    ensures
        first_with_id(rules, id) == Some(i),
    decreases i,
{
    if i > 0 {
        assert forall|j: int| 0 <= j < i - 1 implies rules.drop_first()[j].id != id by {
            assert(rules.drop_first()[j] == rules[j + 1]);
        }
        lemma_first_with_id(rules.drop_first(), id, i - 1);
    }
}

proof fn lemma_first_with_id_none(rules: Seq<AppRule>, id: u32)
    requires
        forall|j: int| 0 <= j < rules.len() ==> rules[j].id != id,
    ensures
        first_with_id(rules, id) is None,
    decreases rules.len(),
{
    if rules.len() > 0 {
        assert forall|j: int| 0 <= j < rules.len() - 1 implies rules.drop_first()[j].id != id by {
            assert(rules.drop_first()[j] == rules[j + 1]);
        }
        lemma_first_with_id_none(rules.drop_first(), id);
    }
}

/// the rules not for `exe`, in order
pub open spec fn not_for(rules: Seq<AppRule>, exe: Seq<char>) -> Seq<AppRule>
    decreases rules.len(),
{
    if rules.len() == 0 {
        seq![]
    } else {
        let rest = not_for(rules.drop_last(), exe);
        if rules.last().exe@ == exe {
            rest
        } else {
            rest.push(rules.last())
        }
    }
}

/// Removes every rule for `exe`.
pub fn remove_app_rules(rules: &[AppRule], exe: &str) -> (out: Vec<AppRule>)
    ensures
        out@ == not_for(rules@, exe@),
{
    let ev = chars_of(exe);
    let mut out: Vec<AppRule> = Vec::new();
    let mut i: usize = 0;
    while i < rules.len()
        invariant
            i <= rules@.len(),
            ev@ == exe@,
            out@ == not_for(rules@.take(i as int), exe@),
        decreases rules@.len() - i,
    {
        assert(rules@.take(i + 1).drop_last() =~= rules@.take(i as int));
        assert(rules@.take(i + 1).last() == rules@[i as int]);
        if !seq_eq(&chars_of(rules[i].exe.as_str()), &ev) {
            out.push(rules[i].clone());
        }
        i = i + 1;
    }
    assert(rules@.take(i as int) =~= rules@);
    out
}

// ------------------------------------------------------------ history

/// how many flow entries the daemon keeps for a reconnecting client
pub const HISTORY_CAP: usize = 300;

/// the newest `HISTORY_CAP` entries of `h`
pub open spec fn capped(h: Seq<FlowWire>) -> Seq<FlowWire> {
    if h.len() > HISTORY_CAP {
        h.skip(h.len() - HISTORY_CAP)
    } else {
        h
    }
}

/// Appends `entry`, dropping the oldest entries past the cap.
pub fn push_history(history: &mut Vec<FlowWire>, entry: FlowWire)
    ensures
        final(history)@ == capped(old(history)@.push(entry)),
{
    history.push(entry);
    if history.len() > HISTORY_CAP {
        let excess = history.len() - HISTORY_CAP;
        let mut out: Vec<FlowWire> = Vec::new();
        let mut i: usize = excess;
        while i < history.len()
            invariant
                excess <= i <= history@.len(),
                out@ == history@.subrange(excess as int, i as int),
            decreases history@.len() - i,
        {
            out.push(history[i].clone());
            assert(out@ =~= history@.subrange(excess as int, i + 1));
            i = i + 1;
        }
        assert(history@.subrange(excess as int, history@.len() as int) =~= history@.skip(
            excess as int,
        ));
        *history = out;
    }
}

/// the index of the newest entry with request id `req_id`
pub open spec fn last_with_req(h: Seq<FlowWire>, req_id: u32) -> Option<int>
    decreases h.len(),
{
    if h.len() == 0 {
        None
    } else if h.last().req_id == Some(req_id) {
        Some(h.len() - 1)
    } else {
        last_with_req(h.drop_last(), req_id)
    }
}

proof fn lemma_last_with_req(h: Seq<FlowWire>, req_id: u32, k: int)
    requires
        0 <= k <= h.len(),
        forall|j: int| k <= j < h.len() ==> h[j].req_id != Some(req_id),
    ensures
        last_with_req(h, req_id) == last_with_req(h.take(k), req_id),
    decreases h.len() - k,
{
    if k < h.len() {
        assert(h.drop_last().take(k) =~= h.take(k));
        lemma_last_with_req(h.drop_last(), req_id, k);
    } else {
        assert(h.take(k) =~= h);
    }
}

/// Gives the newest entry for `req_id` its final status; the updated entry,
/// so the caller can persist it.
pub fn resolve_history(history: &mut Vec<FlowWire>, req_id: u32, status: FlowStatus) -> (r: Option<
    FlowWire,
>)
    ensures
        match last_with_req(old(history)@, req_id) {
            Some(k) => {
                &&& r == Some(FlowWire { status, ..old(history)@[k] })
                &&& final(history)@ == old(history)@.update(k, FlowWire { status, ..old(history)@[k] })
            },
            None => r is None && final(history)@ == old(history)@,
        },
{
    let mut i: usize = history.len();
    assert(history@.take(i as int) =~= history@);
    while i > 0
        invariant
            i <= history@.len(),
            history@ == old(history)@,
            last_with_req(history@, req_id) == last_with_req(history@.take(i as int), req_id),
        decreases i,
    {
        let ghost t = history@.take(i as int);
        assert(t.drop_last() =~= history@.take(i - 1));
        if history[i - 1].req_id == Some(req_id) {
            let mut e = history[i - 1].clone();
            e.status = status;
            let out = e.clone();
            history.set(i - 1, e);
            return Some(out);
        }
        i = i - 1;
    }
    assert(history@.take(0) =~= Seq::<FlowWire>::empty());
    None
}

// ------------------------------------------------------------ ages

/// how long ago, in the largest whole unit: seconds under a minute, minutes
/// under an hour, hours under a day, else days
pub open spec fn ago_spec(secs: u64) -> Seq<char> {
    if secs < 60 {
        decimal(secs as nat) + seq!['s']
    } else if secs < 3600 {
        decimal((secs / 60) as nat) + seq!['m']
    } else if secs < 86400 {
        decimal((secs / 3600) as nat) + seq!['h']
    } else {
        decimal((secs / 86400) as nat) + seq!['d']
    }
}

pub fn ago(secs: u64) -> (s: String)
    ensures
        s@ == ago_spec(secs),
{
    let (n, unit) = if secs < 60 {
        (secs, 's')
    } else if secs < 3600 {
        (secs / 60, 'm')
    } else if secs < 86400 {
        (secs / 3600, 'h')
    } else {
        (secs / 86400, 'd')
    };
    let mut v = decimal_exec(n);
    v.push(unit);
    string_of(&v)
}

/// the entries whose app path contains `filter` (all of them for none), in
/// order
pub open spec fn matching_app(h: Seq<FlowWire>, filter: Option<Seq<char>>) -> Seq<FlowWire>
    decreases h.len(),
{
    if h.len() == 0 {
        seq![]
    } else {
        let r = matching_app(h.drop_last(), filter);
        let keep = match filter {
            None => true,
            Some(f) => crate::text::contains(h.last().exe@, f),
        };
        if keep {
            r.push(h.last())
        } else {
            r
        }
    }
}

/// The last `limit` entries of a history, oldest first, optionally only
/// those whose app path contains `filter` — what the audit trail shows.
pub fn tail_matching(entries: Vec<FlowWire>, limit: usize, filter: Option<&str>) -> (out: Vec<FlowWire>)
    ensures
        out@ == crate::log::last_n(matching_app(entries@, opt_str_view(filter)), limit as nat),
{
    let fv: Option<Vec<char>> = match filter {
        Some(f) => Some(chars_of(f)),
        None => None,
    };
    let mut kept: Vec<FlowWire> = Vec::new();
    let mut i: usize = 0;
    while i < entries.len()
        invariant
            i <= entries@.len(),
            match fv {
                Some(v) => opt_str_view(filter) == Some(v@),
                None => opt_str_view(filter) is None,
            },
            kept@ == matching_app(entries@.take(i as int), opt_str_view(filter)),
        decreases entries@.len() - i,
    {
        assert(entries@.take(i + 1).drop_last() =~= entries@.take(i as int));
        assert(entries@.take(i + 1).last() == entries@[i as int]);
        let keep = match &fv {
            None => true,
            Some(v) => crate::text::contains_exec(&chars_of(entries[i].exe.as_str()), v),
        };
        if keep {
            kept.push(entries[i].clone());
        }
        i = i + 1;
    }
    assert(entries@.take(i as int) =~= entries@);
    let n = kept.len();
    let start = if n > limit {
        n - limit
    } else {
        0
    };
    let mut out: Vec<FlowWire> = Vec::new();
    let mut j = start;
    while j < n
        invariant
            n == kept@.len(),
            start <= j <= n,
            out@ == kept@.subrange(start as int, j as int),
        decreases n - j,
    {
        out.push(kept[j].clone());
        assert(out@ =~= kept@.subrange(start as int, j + 1));
        j = j + 1;
    }
    assert(kept@.subrange(start as int, n as int) =~= crate::log::last_n(kept@, limit as nat));
    out
}


/// The audit trail's app filter keeps an entry exactly when the filter text
/// stands somewhere in its app path — anywhere, not only at an end — and no
/// filter keeps everything.
pub proof fn lemma_app_filter_is_a_substring_match(h: Seq<FlowWire>, f: Seq<char>, e: FlowWire)
    ensures
        h.contains(e) && (exists|x: Seq<char>, y: Seq<char>| e.exe@ == x + f + y) ==> matching_app(
            h,
            Some(f),
        ).contains(e),
        matching_app(h, Some(f)).contains(e) ==> h.contains(e) && exists|x: Seq<char>, y: Seq<char>|
            e.exe@ == x + f + y,
        matching_app(h, None) == h,
    decreases h.len(),
{
    if h.len() > 0 {
        lemma_app_filter_is_a_substring_match(h.drop_last(), f, e);
        let init = h.drop_last();
        assert(h == init.push(h.last()));
        assert(init.push(h.last()).drop_last() == init);
        let kept = crate::text::contains(h.last().exe@, f);
        if exists|x: Seq<char>, y: Seq<char>| e.exe@ == x + f + y {
            let (x, y) = choose|x: Seq<char>, y: Seq<char>| e.exe@ == x + f + y;
            assert(e.exe@.subrange(x.len() as int, (x.len() + f.len()) as int) =~= f);
            assert(crate::text::occurs_at(e.exe@, f, x.len() as int));
        }
        if crate::text::contains(e.exe@, f) {
            let i = choose|i: int| crate::text::occurs_at(e.exe@, f, i);
            assert(e.exe@ =~= e.exe@.take(i) + f + e.exe@.skip(i + f.len()));
        }
        if h.contains(e) && !init.contains(e) {
            let k = choose|k: int| 0 <= k < h.len() && h[k] == e;
            if k < init.len() {
                assert(init[k] == e);
            }
        }
        let r = matching_app(init, Some(f));
        if matching_app(h, Some(f)).contains(e) && !r.contains(e) {
            let k = choose|k: int| 0 <= k < matching_app(h, Some(f)).len() && matching_app(h, Some(f))[k] == e;
            if k < r.len() {
                assert(r[k] == e);
            }
            assert(e == h.last());
        }
        if init.contains(e) {
            let k = choose|k: int| 0 <= k < init.len() && init[k] == e;
            assert(h[k] == e);
        }
        if r.contains(e) {
            let k = choose|k: int| 0 <= k < r.len() && r[k] == e;
            if kept {
                assert(r.push(h.last())[k] == e);
            }
        }
        if h.contains(e) && e == h.last() && kept {
            assert(r.push(h.last())[r.len() as int] == e);
        }
        assert(matching_app(h, None) =~= matching_app(init, None).push(h.last()));
    }
}

} // verus!
