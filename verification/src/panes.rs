//! What the dashboard's panes hold and what a verdict given in them
//! reaches, apart from drawing them: which flow rows a decision covers and
//! the message that carries it, the rows of one app, and an app's earlier
//! history read back from disk.
use vstd::prelude::*;
use crate::blocked::{lex_lt, lex_lt_exec};
use crate::config::{Action, AppRule, Direction, clone_opt_string, opt_str_view, opt_view};
use crate::num::{decimal, decimal_exec};
use crate::ipc::{ClientMsg, FlowStatus, FlowWire, ListenEntry, status_of};
use crate::state::opt_str_eq;
use crate::text::{char_views, chars_of, contains, contains_exec, seq_eq, string_of};
use crate::tui::{all_ascii_digits, digits_only, lowercase, unicode_lower};

verus! {

broadcast use vstd::string::group_string_axioms;

// ------------------------------------------------------------ scopes

/// Which flow rows a verdict covers.
#[derive(Debug)]
pub enum Scope {
    /// every row of the app: the apps pane's whole-app verdict
    App { exe: String },
    /// the app on one port, one way, and — when there is one — one peer
    /// name: a flow row's or a listening port's verdict
    Port { exe: String, port: Option<u16>, dir: Direction, host: Option<String> },
    /// every row of the app that reached one name, on any port: `Y`/`N`
    Host { exe: String, name: String },
}

pub open spec fn covers(s: Scope, e: FlowWire) -> bool {
    match s {
        Scope::App { exe } => e.exe@ == exe@,
        Scope::Port { exe, port, dir, host } => {
            &&& e.exe@ == exe@
            &&& e.port == port
            &&& e.direction == dir
            &&& (host is None || opt_view(e.peer_name) == opt_view(host))
        },
        Scope::Host { exe, name } => e.exe@ == exe@ && opt_view(e.peer_name) == Some(name@),
    }
}

fn same_str(a: &String, b: &String) -> (r: bool)
    ensures
        r == (a@ == b@),
{
    seq_eq(&chars_of(a.as_str()), &chars_of(b.as_str()))
}

pub fn covers_exec(s: &Scope, e: &FlowWire) -> (r: bool)
    ensures
        r == covers(*s, *e),
{
    match s {
        Scope::App { exe } => same_str(&e.exe, exe),
        Scope::Port { exe, port, dir, host } => {
            let same_port = match (e.port, *port) {
                (Some(a), Some(b)) => a == b,
                (None, None) => true,
                _ => false,
            };
            same_str(&e.exe, exe) && same_port && e.direction == *dir && (host.is_none()
                || opt_str_eq(&e.peer_name, host))
        },
        Scope::Host { exe, name } => same_str(&e.exe, exe) && match &e.peer_name {
            Some(n) => same_str(n, name),
            None => false,
        },
    }
}

/// the row as it reads with another status
pub open spec fn with_status(e: FlowWire, s: FlowStatus) -> FlowWire {
    FlowWire {
        req_id: e.req_id,
        exe: e.exe,
        direction: e.direction,
        proto: e.proto,
        port: e.port,
        peer_ip: e.peer_ip,
        peer_name: e.peer_name,
        status: s,
        denied_by: e.denied_by,
        why: e.why,
        ts: e.ts,
    }
}

/// the row after a verdict given under `s`
pub open spec fn cascaded(e: FlowWire, s: Scope, a: Action) -> FlowWire {
    if covers(s, e) {
        with_status(e, status_of(a))
    } else {
        e
    }
}

/// the request ids of the rows `s` covers that the daemon still holds, in order
pub open spec fn pending_ids(flow: Seq<FlowWire>, s: Scope) -> Seq<u32>
    decreases flow.len(),
{
    if flow.len() == 0 {
        seq![]
    } else {
        let rest = pending_ids(flow.drop_last(), s);
        let e = flow.last();
        if covers(s, e) && e.status == FlowStatus::Pending && e.req_id is Some {
            rest.push(e.req_id->0)
        } else {
            rest
        }
    }
}

/// A verdict applied to the rows it covers: every one of them shows it at
/// once, and the ids of those the daemon still holds are handed back, in
/// order, to be answered — a rule set for an app must not leave its earlier
/// requests waiting for their own timeout.
pub fn cascade(flow: &mut Vec<FlowWire>, s: &Scope, action: Action) -> (pending: Vec<u32>)
    ensures
        final(flow)@.len() == old(flow)@.len(),
        forall|i: int|
            0 <= i < old(flow)@.len() ==> #[trigger] final(flow)@[i] == cascaded(old(flow)@[i], *s, action),
        pending@ == pending_ids(old(flow)@, *s),
{
    let ghost start = flow@;
    let mut out: Vec<u32> = Vec::new();
    let mut i: usize = 0;
    while i < flow.len()
        invariant
            flow@.len() == start.len(),
            i <= start.len(),
            forall|j: int| 0 <= j < i ==> #[trigger] flow@[j] == cascaded(start[j], *s, action),
            forall|j: int| i <= j < start.len() ==> #[trigger] flow@[j] == start[j],
            out@ == pending_ids(start.take(i as int), *s),
        decreases start.len() - i,
    {
        assert(start.take(i + 1).drop_last() =~= start.take(i as int));
        assert(start.take(i + 1).last() == start[i as int]);
        if covers_exec(s, &flow[i]) {
            if flow[i].status == FlowStatus::Pending {
                match flow[i].req_id {
                    Some(id) => out.push(id),
                    None => {},
                }
            }
            let mut e = flow[i].clone();
            e.status = FlowStatus::from(action);
            flow.set(i, e);
        }
        i = i + 1;
    }
    assert(start.take(start.len() as int) =~= start);
    out
}

// ------------------------------------------------------------ decisions

/// What `y`/`n` on a flow row sends, and the rows it covers: a request the
/// daemon still holds is answered (the daemon records the rule from the
/// packet it holds); a resolved row has its rule set. Either way the rule
/// is about this app, this port and direction, and the peer's name when
/// the row has one — denying an app one tracker must not deny it DNS.
/// `None` for a held row without a request id, which cannot be answered.
pub fn row_decision(e: &FlowWire, verdict: Action) -> (r: Option<(ClientMsg, Scope)>)
    ensures
        match r {
            None => e.status == FlowStatus::Pending && e.req_id is None,
            Some((m, s)) => {
                &&& s matches Scope::Port { exe, port, dir, host } && exe@ == e.exe@ && port == e.port
                    && dir == e.direction && opt_view(host) == opt_view(e.peer_name)
                &&& if e.status == FlowStatus::Pending {
                    m matches ClientMsg::Decide { req_id, verdict: v } && e.req_id == Some(req_id)
                        && v == verdict
                } else {
                    m matches ClientMsg::SetAppRule { exe, port, direction, action, expires, host }
                        && exe@ == e.exe@ && port == e.port && direction == Some(e.direction)
                        && action == verdict && expires is None && opt_view(host) == opt_view(
                        e.peer_name,
                    )
                }
            },
        },
{
    let scope = Scope::Port {
        exe: e.exe.clone(),
        port: e.port,
        dir: e.direction,
        host: clone_opt_string(&e.peer_name),
    };
    if e.status == FlowStatus::Pending {
        match e.req_id {
            Some(req_id) => Some((ClientMsg::Decide { req_id, verdict }, scope)),
            None => None,
        }
    } else {
        let m = ClientMsg::SetAppRule {
            exe: e.exe.clone(),
            port: e.port,
            direction: Some(e.direction),
            action: verdict,
            expires: None,
            host: clone_opt_string(&e.peer_name),
        };
        Some((m, scope))
    }
}

/// What `Y`/`N` on a flow row sends: the peer's name rather than the port —
/// every connection the app makes to that exact name, on any port, either
/// way. `None` when the peer has no known name.
pub fn host_decision(e: &FlowWire, verdict: Action) -> (r: Option<(ClientMsg, Scope)>)
    ensures
        match e.peer_name {
            None => r is None,
            Some(name) => r matches Some((m, s)) && (m matches ClientMsg::SetAppRule {
                exe,
                port,
                direction,
                action,
                expires,
                host,
            } && exe@ == e.exe@ && port is None && direction is None && action == verdict
                && expires is None && opt_view(host) == Some(name@)) && (s matches Scope::Host {
                exe,
                name: h,
            } && exe@ == e.exe@ && h@ == name@),
        },
{
    match &e.peer_name {
        None => None,
        Some(name) => {
            let m = ClientMsg::SetAppRule {
                exe: e.exe.clone(),
                port: None,
                direction: None,
                action: verdict,
                expires: None,
                host: Some(name.clone()),
            };
            Some((m, Scope::Host { exe: e.exe.clone(), name: name.clone() }))
        },
    }
}

/// What the apps pane's `y`/`n` sends: the whole app, every port, both
/// ways, every peer — and every row of the app goes with it.
pub fn app_decision(exe: &str, verdict: Action) -> (r: (ClientMsg, Scope))
    ensures
        r.0 matches ClientMsg::SetAppRule { exe: x, port, direction, action, expires, host }
            && x@ == exe@ && port is None && direction is None && action == verdict
            && expires is None && host is None,
        r.1 matches Scope::App { exe: x } && x@ == exe@,
{
    let m = ClientMsg::SetAppRule {
        exe: string_of(&chars_of(exe)),
        port: None,
        direction: None,
        action: verdict,
        expires: None,
        host: None,
    };
    (m, Scope::App { exe: string_of(&chars_of(exe)) })
}

/// What `y`/`n` on a listening port sends: that port of its owner, inbound
/// only — a listening socket is only ever reached from outside.
pub fn port_decision(l: &ListenEntry, verdict: Action) -> (r: (ClientMsg, Scope))
    ensures
        r.0 matches ClientMsg::SetAppRule { exe, port, direction, action, expires, host }
            && exe@ == l.exe@ && port == Some(l.port) && direction == Some(Direction::In)
            && action == verdict && expires is None && host is None,
        r.1 matches Scope::Port { exe, port, dir, host } && exe@ == l.exe@ && port == Some(l.port)
            && dir == Direction::In && host is None,
{
    let m = ClientMsg::SetAppRule {
        exe: l.exe.clone(),
        port: Some(l.port),
        direction: Some(Direction::In),
        action: verdict,
        expires: None,
        host: None,
    };
    (m, Scope::Port { exe: l.exe.clone(), port: Some(l.port), dir: Direction::In, host: None })
}

// ------------------------------------------------------------ one app's rows

/// the indices of `exe`'s rows in `flow`, newest (last) first
pub open spec fn app_indices(flow: Seq<FlowWire>, exe: Seq<char>) -> Seq<usize>
    decreases flow.len(),
{
    if flow.len() == 0 {
        seq![]
    } else {
        let rest = app_indices(flow.drop_last(), exe);
        if flow.last().exe@ == exe {
            seq![(flow.len() - 1) as usize] + rest
        } else {
            rest
        }
    }
}

/// What the flow pane shows of the selected app: the positions of its rows
/// in the whole flow, newest first.
pub fn flow_indices(flow: &[FlowWire], exe: &str) -> (out: Vec<usize>)
    ensures
        out@ == app_indices(flow@, exe@),
{
    let ev = chars_of(exe);
    let mut out: Vec<usize> = Vec::new();
    let mut i: usize = flow.len();
    assert(flow@.take(flow@.len() as int) =~= flow@);
    while i > 0
        invariant
            i <= flow@.len(),
            ev@ == exe@,
            out@ + app_indices(flow@.take(i as int), exe@) == app_indices(flow@, exe@),
        decreases i,
    {
        let ghost before = out@;
        assert(flow@.take(i as int).drop_last() =~= flow@.take(i - 1));
        assert(flow@.take(i as int).last() == flow@[i - 1]);
        if seq_eq(&chars_of(flow[i - 1].exe.as_str()), &ev) {
            out.push(i - 1);
            assert(before + (seq![(i - 1) as usize] + app_indices(flow@.take(i - 1), exe@)) =~= out@
                + app_indices(flow@.take(i - 1), exe@));
        }
        i = i - 1;
    }
    assert(flow@.take(0) =~= Seq::<FlowWire>::empty());
    assert(out@ + Seq::<usize>::empty() =~= out@);
    out
}

/// the oldest time among `exe`'s rows, or `u64::MAX` when it has none
pub open spec fn oldest_ts(flow: Seq<FlowWire>, exe: Seq<char>) -> u64
    decreases flow.len(),
{
    if flow.len() == 0 {
        u64::MAX
    } else {
        let rest = oldest_ts(flow.drop_last(), exe);
        let e = flow.last();
        if e.exe@ == exe && e.ts < rest {
            e.ts
        } else {
            rest
        }
    }
}

/// the rows of `disk` older than `ts`, in order
pub open spec fn older_than(disk: Seq<FlowWire>, ts: u64) -> Seq<FlowWire>
    decreases disk.len(),
{
    if disk.len() == 0 {
        seq![]
    } else {
        let rest = older_than(disk.drop_last(), ts);
        if disk.last().ts < ts {
            rest.push(disk.last())
        } else {
            rest
        }
    }
}

fn oldest_ts_exec(flow: &Vec<FlowWire>, ev: &Vec<char>) -> (t: u64)
    ensures
        t == oldest_ts(flow@, ev@),
{
    let mut t: u64 = u64::MAX;
    let mut i: usize = 0;
    while i < flow.len()
        invariant
            i <= flow@.len(),
            t == oldest_ts(flow@.take(i as int), ev@),
        decreases flow@.len() - i,
    {
        assert(flow@.take(i + 1).drop_last() =~= flow@.take(i as int));
        assert(flow@.take(i + 1).last() == flow@[i as int]);
        if seq_eq(&chars_of(flow[i].exe.as_str()), ev) && flow[i].ts < t {
            t = flow[i].ts;
        }
        i = i + 1;
    }
    assert(flow@.take(flow@.len() as int) =~= flow@);
    t
}

/// Puts an app's earlier history, read back off disk, in front of what the
/// pane already holds: the daemon hands a new client a capped slice across
/// all apps, so an app quiet of late arrives with little. Only rows older
/// than the oldest one held for the app are taken, so nothing doubles up.
pub fn prepend_older(flow: &mut Vec<FlowWire>, exe: &str, disk: Vec<FlowWire>)
    ensures
        final(flow)@ == older_than(disk@, oldest_ts(old(flow)@, exe@)) + old(flow)@,
{
    let ev = chars_of(exe);
    let oldest = oldest_ts_exec(flow, &ev);
    let mut out: Vec<FlowWire> = Vec::new();
    let mut i: usize = 0;
    while i < disk.len()
        invariant
            i <= disk@.len(),
            out@ == older_than(disk@.take(i as int), oldest),
        decreases disk@.len() - i,
    {
        assert(disk@.take(i + 1).drop_last() =~= disk@.take(i as int));
        assert(disk@.take(i + 1).last() == disk@[i as int]);
        if disk[i].ts < oldest {
            out.push(disk[i].clone());
        }
        i = i + 1;
    }
    assert(disk@.take(disk@.len() as int) =~= disk@);
    let ghost kept = out@;
    let ghost held = flow@;
    out.append(flow);
    assert(out@ =~= kept + held);
    *flow = out;
}


// ------------------------------------------------------------ order of names

proof fn lemma_lex_irreflexive(a: Seq<char>)
    ensures
        !lex_lt(a, a),
    decreases a.len(),
{
    if a.len() > 0 {
        lemma_lex_irreflexive(a.drop_first());
    }
}

proof fn lemma_lex_transitive(a: Seq<char>, b: Seq<char>, c: Seq<char>)
    requires
        lex_lt(a, b),
        lex_lt(b, c),
    ensures
        lex_lt(a, c),
    decreases a.len(),
{
    if a.len() > 0 && b.len() > 0 && c.len() > 0 && a[0] == b[0] && b[0] == c[0] {
        lemma_lex_transitive(a.drop_first(), b.drop_first(), c.drop_first());
    }
}

proof fn lemma_char_codes_differ(x: char, y: char)
    requires
        x != y,
    ensures
        (x as u32) != (y as u32),
{
}

proof fn lemma_lex_total(a: Seq<char>, b: Seq<char>)
    requires
        a != b,
    ensures
        lex_lt(a, b) || lex_lt(b, a),
    decreases a.len(),
{
    if a.len() > 0 && b.len() > 0 && a[0] == b[0] {
        if a.drop_first() == b.drop_first() {
            assert(a =~= seq![a[0]] + a.drop_first());
            assert(b =~= seq![b[0]] + b.drop_first());
        }
        lemma_lex_total(a.drop_first(), b.drop_first());
    } else if a.len() > 0 && b.len() > 0 {
        lemma_char_codes_differ(a[0], b[0]);
    } else if a.len() == 0 && b.len() == 0 {
        assert(a =~= b);
    }
}

// ------------------------------------------------------------ the apps pane

/// One row of the apps pane: an app, its whole-app rule if it has one, and
/// how many narrower rules — for a port or a host — it has besides.
#[derive(Debug)]
pub struct AppRow {
    pub exe: String,
    pub rule: Option<AppRule>,
    pub port_overrides: usize,
}

/// first occurrences only, in order
pub open spec fn dedup(s: Seq<Seq<char>>) -> Seq<Seq<char>>
    decreases s.len(),
{
    if s.len() == 0 {
        seq![]
    } else {
        let d = dedup(s.drop_last());
        if d.contains(s.last()) {
            d
        } else {
            d.push(s.last())
        }
    }
}

/// Every app the pane knows, once: each app with a rule, and each app the
/// flow has seen asking.
pub open spec fn app_exes(rules: Seq<AppRule>, flow: Seq<FlowWire>) -> Seq<Seq<char>> {
    dedup(rules.map_values(|r: AppRule| r.exe@) + flow.map_values(|e: FlowWire| e.exe@))
}

/// a rule about the whole app: no port, no host
pub open spec fn whole(r: AppRule) -> bool {
    r.port is None && r.host is None
}

/// the app's first whole-app rule
pub open spec fn first_whole(rules: Seq<AppRule>, exe: Seq<char>) -> Option<AppRule>
    decreases rules.len(),
{
    if rules.len() == 0 {
        None
    } else if rules[0].exe@ == exe && whole(rules[0]) {
        Some(rules[0])
    } else {
        first_whole(rules.drop_first(), exe)
    }
}

/// how many narrower rules — for a port, or for a host — the app has
pub open spec fn overrides(rules: Seq<AppRule>, exe: Seq<char>) -> nat
    decreases rules.len(),
{
    if rules.len() == 0 {
        0
    } else {
        overrides(rules.drop_last(), exe) + if rules.last().exe@ == exe && !whole(rules.last()) {
            1nat
        } else {
            0nat
        }
    }
}

/// the app is shown under the filter: no filter, or its path holds the
/// filter, case aside
pub open spec fn shown(exe: Seq<char>, filter: Seq<char>) -> bool {
    filter.len() == 0 || contains(unicode_lower(exe), unicode_lower(filter))
}

fn first_whole_exec(rules: &[AppRule], exe: &Vec<char>) -> (r: Option<AppRule>)
    ensures
        r == first_whole(rules@, exe@),
{
    let mut i: usize = 0;
    assert(rules@.skip(0) =~= rules@);
    while i < rules.len()
        invariant
            i <= rules@.len(),
            first_whole(rules@, exe@) == first_whole(rules@.skip(i as int), exe@),
        decreases rules@.len() - i,
    {
        assert(rules@.skip(i as int).drop_first() =~= rules@.skip(i + 1));
        assert(rules@.skip(i as int)[0] == rules@[i as int]);
        if rules[i].port.is_none() && rules[i].host.is_none() && seq_eq(&chars_of(rules[i].exe.as_str()), exe) {
            return Some(rules[i].clone());
        }
        i = i + 1;
    }
    None
}

fn overrides_exec(rules: &[AppRule], exe: &Vec<char>) -> (n: usize)
    ensures
        n == overrides(rules@, exe@),
{
    let mut n: usize = 0;
    let mut i: usize = 0;
    while i < rules.len()
        invariant
            i <= rules@.len(),
            n == overrides(rules@.take(i as int), exe@),
            n <= i,
        decreases rules@.len() - i,
    {
        assert(rules@.take(i + 1).drop_last() =~= rules@.take(i as int));
        assert(rules@.take(i + 1).last() == rules@[i as int]);
        if (rules[i].port.is_some() || rules[i].host.is_some()) && seq_eq(&chars_of(rules[i].exe.as_str()), exe) {
            n = n + 1;
        }
        i = i + 1;
    }
    assert(rules@.take(rules@.len() as int) =~= rules@);
    n
}

fn holds(v: &Vec<Vec<char>>, x: &Vec<char>) -> (r: bool)
    ensures
        r == char_views(v@).contains(x@),
{
    let mut i: usize = 0;
    while i < v.len()
        invariant
            i <= v@.len(),
            forall|j: int| 0 <= j < i ==> v@[j]@ != x@,
        decreases v@.len() - i,
    {
        if seq_eq(&v[i], x) {
            assert(char_views(v@)[i as int] == x@);
            return true;
        }
        i = i + 1;
    }
    assert forall|j: int| 0 <= j < char_views(v@).len() implies char_views(v@)[j] != x@ by {
        assert(char_views(v@)[j] == v@[j]@);
    }
    false
}

/// `x` has a row among `rows`
pub open spec fn listed(rows: Seq<AppRow>, x: Seq<char>) -> bool {
    exists|k: int| 0 <= k < rows.len() && rows[k].exe@ == x
}

/// the row an app gets
pub open spec fn row_ok(rules: Seq<AppRule>, row: AppRow) -> bool {
    &&& row.rule == first_whole(rules, row.exe@)
    &&& row.port_overrides == overrides(rules, row.exe@)
}

/// The rows of the apps pane: every app with a rule or seen in the flow,
/// once, under the filter, each with its whole-app rule and its count of
/// narrower rules, in plain order of name — a row never moves under you
/// because a decision landed on it.
pub fn app_rows(rules: &[AppRule], flow: &[FlowWire], filter: &str) -> (out: Vec<AppRow>)
    ensures
        forall|i: int| 0 <= i < out@.len() ==> row_ok(rules@, #[trigger] out@[i]),
        forall|i: int, j: int|
            0 <= i < j < out@.len() ==> lex_lt(#[trigger] out@[i].exe@, #[trigger] out@[j].exe@),
        forall|x: Seq<char>|
            #[trigger] listed(out@, x) <==> (app_exes(rules@, flow@).contains(x) && shown(x, filter@)),
{
    // every app met, in the order it is met
    let mut cands: Vec<Vec<char>> = Vec::new();
    let mut i: usize = 0;
    assert(char_views(cands@) =~= rules@.take(0).map_values(|r: AppRule| r.exe@));
    while i < rules.len()
        invariant
            i <= rules@.len(),
            char_views(cands@) == rules@.take(i as int).map_values(|r: AppRule| r.exe@),
        decreases rules@.len() - i,
    {
        let ghost before = char_views(cands@);
        let ghost e = rules@[i as int].exe@;
        cands.push(chars_of(rules[i].exe.as_str()));
        assert(char_views(cands@) =~= before.push(e));
        assert(rules@.take(i + 1).map_values(|r: AppRule| r.exe@) =~= rules@.take(i as int).map_values(
            |r: AppRule| r.exe@,
        ).push(e));
        assert(char_views(cands@) =~= rules@.take(i + 1).map_values(|r: AppRule| r.exe@));
        i = i + 1;
    }
    let ghost ruled = char_views(cands@);
    assert(rules@.take(rules@.len() as int) =~= rules@);
    i = 0;
    while i < flow.len()
        invariant
            i <= flow@.len(),
            char_views(cands@) == ruled + flow@.take(i as int).map_values(|e: FlowWire| e.exe@),
        decreases flow@.len() - i,
    {
        let ghost before = char_views(cands@);
        let ghost e = flow@[i as int].exe@;
        cands.push(chars_of(flow[i].exe.as_str()));
        assert(char_views(cands@) =~= before.push(e));
        assert(flow@.take(i + 1).map_values(|e: FlowWire| e.exe@) =~= flow@.take(i as int).map_values(
            |e: FlowWire| e.exe@,
        ).push(e));
        assert(char_views(cands@) =~= ruled + flow@.take(i + 1).map_values(|e: FlowWire| e.exe@));
        i = i + 1;
    }
    assert(flow@.take(flow@.len() as int) =~= flow@);
    let ghost all = char_views(cands@);
    assert(dedup(all) == app_exes(rules@, flow@));

    let needle = chars_of(lowercase(filter).as_str());
    let no_filter = chars_of(filter).len() == 0;
    let mut seen: Vec<Vec<char>> = Vec::new();
    let mut out: Vec<AppRow> = Vec::new();
    i = 0;
    while i < cands.len()
        invariant
            i <= cands@.len(),
            all == char_views(cands@),
            dedup(all) == app_exes(rules@, flow@),
            needle@ == unicode_lower(filter@),
            no_filter == (filter@.len() == 0),
            char_views(seen@) == dedup(all.take(i as int)),
            forall|k: int| 0 <= k < out@.len() ==> row_ok(rules@, #[trigger] out@[k]),
            forall|k: int, m: int|
                0 <= k < m < out@.len() ==> lex_lt(#[trigger] out@[k].exe@, #[trigger] out@[m].exe@),
            forall|y: Seq<char>|
                #[trigger] listed(out@, y) <==> (dedup(all.take(i as int)).contains(y) && shown(y, filter@)),
        decreases cands@.len() - i,
    {
        let ghost d = dedup(all.take(i as int));
        assert(all.take(i + 1).drop_last() =~= all.take(i as int));
        assert(all.take(i + 1).last() == cands@[i as int]@);
        let x = &cands[i];
        if holds(&seen, x) {
            assert(dedup(all.take(i + 1)) == d);
            i = i + 1;
            continue;
        }
        assert(dedup(all.take(i + 1)) == d.push(x@));
        seen.push(x.clone());
        proof {
            assert(char_views(seen@) =~= d.push(x@));
        }
        let name = string_of(x);
        let lowered = chars_of(lowercase(name.as_str()).as_str());
        let show = no_filter || contains_exec(&lowered, &needle);
        assert(show == shown(x@, filter@));
        if !show {
            assert forall|y: Seq<char>| #[trigger] listed(out@, y) <==> (d.push(x@).contains(y) && shown(y, filter@)) by {
                if d.push(x@).contains(y) && y != x@ {
                    let j = choose|j: int| 0 <= j < d.push(x@).len() && d.push(x@)[j] == y;
                    assert(d[j] == y);
                }
                if d.contains(y) {
                    let j = choose|j: int| 0 <= j < d.len() && d[j] == y;
                    assert(d.push(x@)[j] == y);
                }
            }
            i = i + 1;
            continue;
        }
        let row = AppRow {
            exe: name,
            rule: first_whole_exec(rules, x),
            port_overrides: overrides_exec(rules, x),
        };
        // the first row this one goes before
        let mut p: usize = 0;
        while p < out.len() && !lex_lt_exec(&chars_of(row.exe.as_str()), &chars_of(out[p].exe.as_str()))
            invariant
                p <= out@.len(),
                row_ok(rules@, row),
                row.exe@ == x@,
                forall|k: int| 0 <= k < out@.len() ==> row_ok(rules@, #[trigger] out@[k]),
                forall|k: int| 0 <= k < p ==> !lex_lt(x@, #[trigger] out@[k].exe@),
            decreases out@.len() - p,
        {
            p = p + 1;
        }
        let ghost old_out = out@;
        proof {
            // the new app is none of those already shown
            assert forall|k: int| 0 <= k < old_out.len() implies #[trigger] old_out[k].exe@ != x@ by {
                if old_out[k].exe@ == x@ {
                    assert(listed(old_out, x@));
                }
            }
            assert forall|k: int| 0 <= k < p implies lex_lt(#[trigger] old_out[k].exe@, x@) by {
                lemma_lex_total(old_out[k].exe@, x@);
            }
            assert forall|k: int| p <= k < old_out.len() implies lex_lt(x@, #[trigger] old_out[k].exe@) by {
                if k > p {
                    lemma_lex_transitive(x@, old_out[p as int].exe@, old_out[k].exe@);
                }
            }
            old_out.insert_ensures(p as int, row);
        }
        out.insert(p, row);
        proof {
            let n = out@;
            assert(n =~= old_out.insert(p as int, row));
            assert forall|k: int| 0 <= k < n.len() implies row_ok(rules@, #[trigger] n[k]) by {
                if k < p {
                    assert(n[k] == old_out[k]);
                } else if k > p {
                    assert(n[k] == old_out[k - 1]);
                }
            }
            assert forall|k: int, m: int| 0 <= k < m < n.len() implies lex_lt(
                #[trigger] n[k].exe@,
                #[trigger] n[m].exe@,
            ) by {
                if m < p {
                    assert(n[k] == old_out[k] && n[m] == old_out[m]);
                } else if m == p {
                    assert(n[k] == old_out[k]);
                } else if k < p {
                    assert(n[k] == old_out[k] && n[m] == old_out[m - 1]);
                } else if k == p {
                    assert(n[m] == old_out[m - 1]);
                } else {
                    assert(n[k] == old_out[k - 1] && n[m] == old_out[m - 1]);
                }
            }
            assert forall|y: Seq<char>| #[trigger] listed(n, y) <==> (d.push(x@).contains(y) && shown(y, filter@)) by {
                if d.push(x@).contains(y) && shown(y, filter@) {
                    if y == x@ {
                        assert(n[p as int].exe@ == y);
                    } else {
                        let j = choose|j: int| 0 <= j < d.push(x@).len() && d.push(x@)[j] == y;
                        assert(d[j] == y);
                        assert(listed(old_out, y));
                        let k = choose|k: int| 0 <= k < old_out.len() && old_out[k].exe@ == y;
                        if k < p {
                            assert(n[k] == old_out[k]);
                        } else {
                            assert(n[k + 1] == old_out[k]);
                        }
                    }
                }
                if listed(n, y) {
                    let k = choose|k: int| 0 <= k < n.len() && n[k].exe@ == y;
                    if k == p {
                        assert(d.push(x@)[d.len() as int] == y);
                    } else {
                        let k2 = if k < p { k } else { k - 1 };
                        assert(n[k] == old_out[k2]);
                        assert(listed(old_out, y));
                        let j = choose|j: int| 0 <= j < d.len() && d[j] == y;
                        assert(d.push(x@)[j] == y);
                    }
                }
            }
        }
        i = i + 1;
    }
    assert(all.take(all.len() as int) =~= all);
    out
}


// ------------------------------------------------------------ the listening pane

/// Is a listening socket shown? Within the tab's scope (one app, when the
/// tab was opened for one), and under the filter: a digits-only filter is
/// the port as a whole number, anything else a piece of the bound address
/// or of the owner's path, case aside.
pub open spec fn port_shown(e: ListenEntry, scope: Option<Seq<char>>, filter: Seq<char>) -> bool {
    &&& (scope is None || e.exe@ == scope->0)
    &&& (filter.len() == 0 || if all_ascii_digits(filter) {
        decimal(e.port as nat) == filter
    } else {
        contains(unicode_lower(e.addr@), unicode_lower(filter)) || contains(
            unicode_lower(e.exe@),
            unicode_lower(filter),
        )
    })
}

/// the sockets shown, in the order they came
pub open spec fn kept_ports(all: Seq<ListenEntry>, scope: Option<Seq<char>>, filter: Seq<char>) -> Seq<
    ListenEntry,
>
    decreases all.len(),
{
    if all.len() == 0 {
        seq![]
    } else {
        let rest = kept_ports(all.drop_last(), scope, filter);
        if port_shown(all.last(), scope, filter) {
            rest.push(all.last())
        } else {
            rest
        }
    }
}

/// the pane's order: by protocol, then port, then address
pub open spec fn port_lt(a: ListenEntry, b: ListenEntry) -> bool {
    ||| lex_lt(a.proto@, b.proto@)
    ||| (a.proto@ == b.proto@ && a.port < b.port)
    ||| (a.proto@ == b.proto@ && a.port == b.port && lex_lt(a.addr@, b.addr@))
}

/// where `x` goes among `s`: just before the first entry it sorts before
pub open spec fn slot(s: Seq<ListenEntry>, x: ListenEntry) -> int
    decreases s.len(),
{
    if s.len() == 0 {
        0
    } else if port_lt(x, s[0]) {
        0
    } else {
        1 + slot(s.drop_first(), x)
    }
}

/// `s` in the pane's order, entries that tie keeping the order they came in
pub open spec fn by_port(s: Seq<ListenEntry>) -> Seq<ListenEntry>
    decreases s.len(),
{
    if s.len() == 0 {
        seq![]
    } else {
        let t = by_port(s.drop_last());
        t.insert(slot(t, s.last()), s.last())
    }
}

pub open spec fn port_sorted(s: Seq<ListenEntry>) -> bool {
    forall|i: int, j: int| 0 <= i < j < s.len() ==> !port_lt(#[trigger] s[j], #[trigger] s[i])
}

proof fn lemma_port_lt_transitive(a: ListenEntry, b: ListenEntry, c: ListenEntry)
    requires
        port_lt(a, b),
        port_lt(b, c),
    ensures
        port_lt(a, c),
{
    if lex_lt(a.proto@, b.proto@) && lex_lt(b.proto@, c.proto@) {
        lemma_lex_transitive(a.proto@, b.proto@, c.proto@);
    }
    if a.proto@ == b.proto@ && a.port == b.port && b.proto@ == c.proto@ && b.port == c.port && lex_lt(
        a.addr@,
        b.addr@,
    ) && lex_lt(b.addr@, c.addr@) {
        lemma_lex_transitive(a.addr@, b.addr@, c.addr@);
    }
}

proof fn lemma_port_lt_irreflexive(a: ListenEntry)
    ensures
        !port_lt(a, a),
{
    lemma_lex_irreflexive(a.proto@);
    lemma_lex_irreflexive(a.addr@);
}

proof fn lemma_slot(s: Seq<ListenEntry>, x: ListenEntry)
    ensures
        0 <= slot(s, x) <= s.len(),
        forall|k: int| 0 <= k < slot(s, x) ==> !port_lt(x, #[trigger] s[k]),
        slot(s, x) < s.len() ==> port_lt(x, s[slot(s, x)]),
    decreases s.len(),
{
    if s.len() > 0 && !port_lt(x, s[0]) {
        lemma_slot(s.drop_first(), x);
        assert forall|k: int| 0 <= k < slot(s, x) implies !port_lt(x, #[trigger] s[k]) by {
            if k > 0 {
                assert(s[k] == s.drop_first()[k - 1]);
            }
        }
        if slot(s, x) < s.len() {
            assert(s[slot(s, x)] == s.drop_first()[slot(s.drop_first(), x)]);
        }
    }
}

proof fn lemma_by_port(s: Seq<ListenEntry>)
    ensures
        by_port(s).len() == s.len(),
        port_sorted(by_port(s)),
    decreases s.len(),
{
    if s.len() > 0 {
        let t = by_port(s.drop_last());
        let x = s.last();
        lemma_by_port(s.drop_last());
        lemma_slot(t, x);
        let p = slot(t, x);
        t.insert_ensures(p, x);
        let n = t.insert(p, x);
        assert forall|i: int, j: int| 0 <= i < j < n.len() implies !port_lt(#[trigger] n[j], #[trigger] n[i]) by {
            if j < p {
                assert(n[i] == t[i] && n[j] == t[j]);
            } else if j == p {
                assert(n[i] == t[i]);
            } else if i < p {
                assert(n[i] == t[i] && n[j] == t[j - 1]);
            } else if i == p {
                assert(n[j] == t[j - 1]);
                if port_lt(t[j - 1], x) {
                    lemma_port_lt_transitive(t[j - 1], x, t[p]);
                    if j - 1 == p {
                        lemma_port_lt_irreflexive(t[p]);
                    }
                }
            } else {
                assert(n[i] == t[i - 1] && n[j] == t[j - 1]);
            }
        }
    }
}

fn port_lt_exec(a: &ListenEntry, b: &ListenEntry) -> (r: bool)
    ensures
        r == port_lt(*a, *b),
{
    let (pa, pb) = (chars_of(a.proto.as_str()), chars_of(b.proto.as_str()));
    lex_lt_exec(&pa, &pb) || (seq_eq(&pa, &pb) && (a.port < b.port || (a.port == b.port
        && lex_lt_exec(&chars_of(a.addr.as_str()), &chars_of(b.addr.as_str())))))
}

fn port_shown_exec(e: &ListenEntry, scope: Option<&str>, filter: &str, digits: bool, needle: &Vec<char>) -> (r: bool)
    requires
        digits == all_ascii_digits(filter@),
        needle@ == unicode_lower(filter@),
    ensures
        r == port_shown(*e, opt_str_view(scope), filter@),
{
    let in_scope = match scope {
        None => true,
        Some(x) => seq_eq(&chars_of(e.exe.as_str()), &chars_of(x)),
    };
    let fv = chars_of(filter);
    if !in_scope {
        return false;
    }
    if fv.len() == 0 {
        return true;
    }
    if digits {
        return seq_eq(&decimal_exec(e.port as u64), &fv);
    }
    contains_exec(&chars_of(lowercase(e.addr.as_str()).as_str()), needle) || contains_exec(
        &chars_of(lowercase(e.exe.as_str()).as_str()),
        needle,
    )
}

/// What the listening pane shows: the sockets within the tab's scope and
/// under its filter (`port_shown`), by protocol, port and address, sockets
/// that tie keeping the order they were reported in.
pub fn shown_ports(all: &[ListenEntry], scope: Option<&str>, filter: &str) -> (out: Vec<ListenEntry>)
    ensures
        out@ == by_port(kept_ports(all@, opt_str_view(scope), filter@)),
        port_sorted(out@),
{
    let ghost sc = opt_str_view(scope);
    let digits = digits_only(&chars_of(filter));
    let needle = chars_of(lowercase(filter).as_str());
    let mut kept: Vec<ListenEntry> = Vec::new();
    let mut i: usize = 0;
    while i < all.len()
        invariant
            i <= all@.len(),
            sc == opt_str_view(scope),
            digits == all_ascii_digits(filter@),
            needle@ == unicode_lower(filter@),
            kept@ == kept_ports(all@.take(i as int), sc, filter@),
        decreases all@.len() - i,
    {
        assert(all@.take(i + 1).drop_last() =~= all@.take(i as int));
        assert(all@.take(i + 1).last() == all@[i as int]);
        if port_shown_exec(&all[i], scope, filter, digits, &needle) {
            kept.push(all[i].clone());
        }
        i = i + 1;
    }
    assert(all@.take(all@.len() as int) =~= all@);
    let mut out: Vec<ListenEntry> = Vec::new();
    let mut k: usize = 0;
    while k < kept.len()
        invariant
            k <= kept@.len(),
            out@ == by_port(kept@.take(k as int)),
            out@.len() == k,
        decreases kept@.len() - k,
    {
        assert(kept@.take(k + 1).drop_last() =~= kept@.take(k as int));
        assert(kept@.take(k + 1).last() == kept@[k as int]);
        let x = kept[k].clone();
        let mut p: usize = 0;
        assert(out@.skip(0) =~= out@);
        while p < out.len() && !port_lt_exec(&x, &out[p])
            invariant
                p <= out@.len(),
                slot(out@, x) == p + slot(out@.skip(p as int), x),
            decreases out@.len() - p,
        {
            assert(out@.skip(p as int).drop_first() =~= out@.skip(p + 1));
            assert(out@.skip(p as int)[0] == out@[p as int]);
            p = p + 1;
        }
        proof {
            if p < out@.len() {
                assert(out@.skip(p as int)[0] == out@[p as int]);
            }
            lemma_by_port(kept@.take(k as int));
        }
        out.insert(p, x);
        k = k + 1;
    }
    assert(kept@.take(kept@.len() as int) =~= kept@);
    proof {
        lemma_by_port(kept@);
    }
    out
}

} // verus!
