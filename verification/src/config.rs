//! The configuration: IP/port rules for the kernel, per-app rules for the
//! daemon, and the matching that decides which per-app rule applies.
use vstd::prelude::*;
use crate::text::{
    chars_of, concat, contains, contains_exec, debug_str, debug_string, ends_with, ends_with_exec,
    is_ascii_alnum, lower, lower_exec, seq_eq, slice_of, starts_with, starts_with_exec, string_of,
    trim_end_char, trim_end_char_exec,
};
use crate::auto::Fallback;

verus! {

broadcast use vstd::string::group_string_axioms;

#[derive(Debug, Clone, Copy, PartialEq, Eq, Structural)]
pub enum Action {
    Allow,
    Deny,
}

#[derive(Debug, Clone, Copy, PartialEq, Eq, Structural)]
pub enum Proto {
    Tcp,
    Udp,
    Any,
}

#[derive(Debug, Clone, Copy, PartialEq, Eq, Structural)]
pub enum Direction {
    In,
    Out,
}

impl Direction {
    pub fn as_str(self) -> (s: &'static str)
        ensures
            s@ == (match self {
                Direction::In => "in"@,
                Direction::Out => "out"@,
            }),
    {
        match self {
            Direction::In => "in",
            Direction::Out => "out",
        }
    }
}

/// An IP/port rule, rendered into the kernel ruleset. `src` is "any" or an
/// address or address/prefix of the peer, in both directions; `direction:
/// None` covers both.
#[derive(Debug)]
pub struct Rule {
    pub id: u32,
    pub action: Action,
    pub proto: Proto,
    pub src: String,
    pub port: Option<u16>,
    pub direction: Option<Direction>,
    pub enabled: bool,
}

impl Clone for Rule {
    fn clone(&self) -> (r: Self)
        ensures
            r == *self,
    {
        Rule {
            id: self.id,
            action: self.action,
            proto: self.proto,
            src: self.src.clone(),
            port: self.port,
            direction: self.direction,
            enabled: self.enabled,
        }
    }
}

/// A per-application rule. `port: None` is the whole-app default, `port:
/// Some(p)` a per-port override; `direction: None` covers both ways;
/// `host: Some(pat)` restricts the rule to peers whose resolved name
/// matches `pat` (see `host_matches`); `expires` is the unix second after
/// which it no longer matches; `fingerprint` pins the binary it was made for.
#[derive(Debug, PartialEq, Eq)]
pub struct AppRule {
    pub id: u32,
    pub exe: String,
    pub port: Option<u16>,
    pub direction: Option<Direction>,
    pub action: Action,
    pub enabled: bool,
    pub expires: Option<u64>,
    pub fingerprint: Option<String>,
    pub host: Option<String>,
}

pub fn clone_opt_string(s: &Option<String>) -> (r: Option<String>)
    ensures
        r == *s,
{
    match s {
        Some(x) => Some(x.clone()),
        None => None,
    }
}

impl Clone for AppRule {
    fn clone(&self) -> (r: Self)
        ensures
            r == *self,
    {
        AppRule {
            id: self.id,
            exe: self.exe.clone(),
            port: self.port,
            direction: self.direction,
            action: self.action,
            enabled: self.enabled,
            expires: self.expires,
            fingerprint: clone_opt_string(&self.fingerprint),
            host: clone_opt_string(&self.host),
        }
    }
}

/// The view of an optional string: its characters, when present.
pub open spec fn opt_view(s: Option<String>) -> Option<Seq<char>> {
    match s {
        Some(x) => Some(x@),
        None => None,
    }
}

pub open spec fn opt_str_view(s: Option<&str>) -> Option<Seq<char>> {
    match s {
        Some(x) => Some(x@),
        None => None,
    }
}

impl AppRule {
    pub open spec fn expired_at(self, now: u64) -> bool {
        match self.expires {
            Some(t) => t <= now,
            None => false,
        }
    }

    pub fn expired(&self, now: u64) -> (r: bool)
        ensures
            r == self.expired_at(now),
    {
        match self.expires {
            Some(t) => t <= now,
            None => false,
        }
    }

    /// the binary this rule was made for is not the one on disk any more:
    /// the rule carries a fingerprint and `current` (the binary's
    /// fingerprint now, `None` when it is gone) differs from it
    pub fn stale(&self, current: &Option<String>) -> (r: bool)
        ensures
            r == (self.fingerprint is Some && opt_view(self.fingerprint) != opt_view(*current)),
    {
        match (&self.fingerprint, current) {
            (Some(f), Some(c)) => {
                let a = chars_of(f.as_str());
                let b = chars_of(c.as_str());
                !seq_eq(&a, &b)
            },
            (Some(_), None) => true,
            (None, _) => false,
        }
    }
}

// ------------------------------------------------------------ host patterns

/// a name as DNS compares it: no trailing dots, ASCII case folded
pub open spec fn dns_norm(s: Seq<char>) -> Seq<char> {
    lower(trim_end_char(s, '.'))
}

/// does the resolved peer name fall under the host pattern? `*.apex`
/// covers the apex and everything under it; anything else is an exact name.
/// A peer with no resolved name matches nothing.
pub open spec fn host_matches_spec(pat: Seq<char>, name: Option<Seq<char>>) -> bool {
    match name {
        None => false,
        Some(n) => {
            let n = dns_norm(n);
            let p = dns_norm(pat);
            if starts_with(p, seq!['*', '.']) {
                let apex = p.skip(2);
                n == apex || ends_with(n, seq!['.'] + apex)
            } else {
                n == p
            }
        },
    }
}

pub fn host_matches(pat: &str, name: Option<&str>) -> (r: bool)
    ensures
        r == host_matches_spec(pat@, opt_str_view(name)),
{
    let name = match name {
        Some(n) => n,
        None => return false,
    };
    let nv = chars_of(name);
    let pv = chars_of(pat);
    let n = lower_exec(&trim_end_char_exec(&nv, '.'));
    let p = lower_exec(&trim_end_char_exec(&pv, '.'));
    let star: Vec<char> = vec!['*', '.'];
    assert(star@ == seq!['*', '.']);
    if starts_with_exec(&p, &star) {
        let apex = slice_of(&p, 2, p.len());
        proof {
            assert(apex@ == p@.skip(2));
        }
        let dot: Vec<char> = vec!['.'];
        assert(dot@ == seq!['.']);
        let dotted = concat(&dot, &apex);
        seq_eq(&n, &apex) || ends_with_exec(&n, &dotted)
    } else {
        seq_eq(&n, &p)
    }
}

/// hostname characters: ASCII letters and digits, `-`, `.` and `_`
pub open spec fn host_char(c: char) -> bool {
    is_ascii_alnum(c) || c == '-' || c == '.' || c == '_'
}

/// the pattern with a leading `*.` and trailing dots taken off
pub open spec fn host_bare(pat: Seq<char>) -> Seq<char> {
    let rest = if starts_with(pat, seq!['*', '.']) { pat.skip(2) } else { pat };
    trim_end_char(rest, '.')
}

/// a host pattern: an optional leading `*.`, then a name of hostname
/// characters that is not empty, does not start with a dot, and has no
/// empty label
pub open spec fn valid_host_spec(pat: Seq<char>) -> bool {
    let bare = host_bare(pat);
    &&& bare.len() > 0
    &&& bare[0] != '.'
    &&& !contains(bare, seq!['.', '.'])
    &&& forall|i: int| 0 <= i < bare.len() ==> host_char(bare[i])
}

fn host_char_exec(c: char) -> (r: bool)
    ensures
        r == host_char(c),
{
    ('0' <= c && c <= '9') || ('a' <= c && c <= 'z') || ('A' <= c && c <= 'Z') || c == '-'
        || c == '.' || c == '_'
}

pub open spec fn host_error(pat: Seq<char>) -> Seq<char> {
    "bad host "@ + debug_str(pat) + ": want a hostname like example.com or *.example.com"@
}

/// a host pattern is only ever compared against a resolved name, so this is
/// a typo guard: `Err` exactly when the pattern is not a hostname or a
/// `*.`-wildcard of one
pub fn validate_host(pat: &str) -> (r: Result<(), String>)
    ensures
        r is Ok <==> valid_host_spec(pat@),
        r matches Err(e) ==> e@ == host_error(pat@),
{
    let pv = chars_of(pat);
    let star: Vec<char> = vec!['*', '.'];
    assert(star@ == seq!['*', '.']);
    let rest = if starts_with_exec(&pv, &star) {
        slice_of(&pv, 2, pv.len())
    } else {
        slice_of(&pv, 0, pv.len())
    };
    proof {
        if starts_with(pv@, seq!['*', '.']) {
            assert(rest@ == pv@.skip(2));
        } else {
            assert(rest@ == pv@);
        }
    }
    let bare = trim_end_char_exec(&rest, '.');
    let dd: Vec<char> = vec!['.', '.'];
    assert(dd@ == seq!['.', '.']);
    let ok = bare.len() > 0 && bare[0] != '.' && !contains_exec(&bare, &dd) && all_host_chars(&bare);
    if ok {
        Ok(())
    } else {
        Err(host_error_exec(pat))
    }
}

fn all_host_chars(s: &[char]) -> (r: bool)
    ensures
        r == forall|i: int| 0 <= i < s@.len() ==> host_char(s@[i]),
{
    let mut i: usize = 0;
    while i < s.len()
        invariant
            i <= s.len(),
            forall|j: int| 0 <= j < i ==> host_char(s@[j]),
        decreases s.len() - i,
    {
        if !host_char_exec(s[i]) {
            return false;
        }
        i += 1;
    }
    true
}

fn host_error_exec(pat: &str) -> (e: String)
    ensures
        e@ == host_error(pat@),
{
    let mut v = chars_of("bad host ");
    let d = debug_string(pat);
    v = concat(&v, &chars_of(d.as_str()));
    v = concat(&v, &chars_of(": want a hostname like example.com or *.example.com"));
    string_of(&v)
}

// ------------------------------------------------------------ matching

/// the rule could apply to a connection of `exe` on `port`, in `dir`, to a
/// peer resolved as `host`, at time `now`
pub open spec fn rule_applies(
    r: AppRule,
    exe: Seq<char>,
    port: Option<u16>,
    dir: Option<Direction>,
    host: Option<Seq<char>>,
    now: u64,
) -> bool {
    &&& r.enabled
    &&& r.exe@ == exe
    &&& !r.expired_at(now)
    &&& (r.port is None || r.port == port)
    &&& (r.direction is None || r.direction == dir)
    &&& match r.host {
        None => true,
        Some(p) => host_matches_spec(p@, host),
    }
}

/// how specific a rule is: a host rule over a per-port rule over the
/// whole-app default, and within each a directional rule over one that
/// covers both ways
pub open spec fn specificity(r: AppRule) -> int {
    (if r.host is Some { 4int } else { 0int }) + (if r.port is Some { 2int } else { 0int }) + (
    if r.direction is Some { 1int } else { 0int })
}

/// The index of the rule that decides, among the first `rules.len()`: the
/// most specific applicable one, the last of those when several tie.
pub open spec fn best_rule(
    rules: Seq<AppRule>,
    exe: Seq<char>,
    port: Option<u16>,
    dir: Option<Direction>,
    host: Option<Seq<char>>,
    now: u64,
) -> Option<int>
    decreases rules.len(),
{
    if rules.len() == 0 {
        None
    } else {
        let i = rules.len() - 1;
        let prev = best_rule(rules.drop_last(), exe, port, dir, host, now);
        if rule_applies(rules[i], exe, port, dir, host, now) {
            match prev {
                Some(j) => if specificity(rules[i]) >= specificity(rules[j]) {
                    Some(i)
                } else {
                    Some(j)
                },
                None => Some(i),
            }
        } else {
            prev
        }
    }
}

pub proof fn lemma_best_rule_in_range(
    rules: Seq<AppRule>,
    exe: Seq<char>,
    port: Option<u16>,
    dir: Option<Direction>,
    host: Option<Seq<char>>,
    now: u64,
)
    ensures
        best_rule(rules, exe, port, dir, host, now) matches Some(i) ==> 0 <= i < rules.len(),
    decreases rules.len(),
{
    if rules.len() > 0 {
        lemma_best_rule_in_range(rules.drop_last(), exe, port, dir, host, now);
    }
}

fn opt_u16_eq(a: Option<u16>, b: Option<u16>) -> (r: bool)
    ensures
        r == (a == b),
{
    match (a, b) {
        (Some(x), Some(y)) => x == y,
        (None, None) => true,
        _ => false,
    }
}

fn opt_dir_eq(a: Option<Direction>, b: Option<Direction>) -> (r: bool)
    ensures
        r == (a == b),
{
    match (a, b) {
        (Some(Direction::In), Some(Direction::In)) => true,
        (Some(Direction::Out), Some(Direction::Out)) => true,
        (None, None) => true,
        _ => false,
    }
}

fn specificity_exec(r: &AppRule) -> (n: u8)
    ensures
        n == specificity(*r),
{
    (if r.host.is_some() { 4 } else { 0 }) + (if r.port.is_some() { 2 } else { 0 }) + (
    if r.direction.is_some() { 1 } else { 0 })
}

fn rule_applies_exec(
    r: &AppRule,
    exe: &[char],
    port: Option<u16>,
    dir: Option<Direction>,
    host: Option<&str>,
    now: u64,
) -> (b: bool)
    ensures
        b == rule_applies(*r, exe@, port, dir, opt_str_view(host), now),
{
    if !r.enabled || r.expired(now) {
        return false;
    }
    if !(r.port.is_none() || opt_u16_eq(r.port, port)) {
        return false;
    }
    if !(r.direction.is_none() || opt_dir_eq(r.direction, dir)) {
        return false;
    }
    let ok_host = match &r.host {
        None => true,
        Some(p) => host_matches(p.as_str(), host),
    };
    if !ok_host {
        return false;
    }
    let e = chars_of(r.exe.as_str());
    seq_eq(&e, exe)
}

/// The one rule that decides a connection of `exe` on `port`, in `dir`, to
/// a peer resolved as `host`, at unix time `now`: the most specific rule
/// that applies (see `best_rule`).
pub fn match_rule_at<'a>(
    rules: &'a [AppRule],
    exe: &str,
    port: Option<u16>,
    dir: Option<Direction>,
    host: Option<&str>,
    now: u64,
) -> (r: Option<&'a AppRule>)
    ensures
        match best_rule(rules@, exe@, port, dir, opt_str_view(host), now) {
            Some(i) => 0 <= i < rules@.len() && r == Some(&rules@[i]),
            None => r is None,
        },
{
    let ev = chars_of(exe);
    let mut best: Option<usize> = None;
    let mut i: usize = 0;
    while i < rules.len()
        invariant
            i <= rules.len(),
            ev@ == exe@,
            match best_rule(rules@.take(i as int), exe@, port, dir, opt_str_view(host), now) {
                Some(k) => best == Some(k as usize) && 0 <= k < i,
                None => best is None,
            },
        decreases rules.len() - i,
    {
        assert(rules@.take(i + 1).drop_last() == rules@.take(i as int));
        assert(rules@.take(i + 1)[i as int] == rules@[i as int]);
        proof {
            lemma_best_rule_in_range(rules@.take(i as int), exe@, port, dir, opt_str_view(host), now);
        }
        if rule_applies_exec(&rules[i], &ev, port, dir, host, now) {
            best = match best {
                Some(j) => if specificity_exec(&rules[i]) >= specificity_exec(&rules[j]) {
                    Some(i)
                } else {
                    Some(j)
                },
                None => Some(i),
            };
        }
        i += 1;
    }
    assert(rules@.take(rules.len() as int) == rules@);
    proof {
        lemma_best_rule_in_range(rules@, exe@, port, dir, opt_str_view(host), now);
    }
    match best {
        Some(k) => Some(&rules[k]),
        None => None,
    }
}

/// the unix time now, in seconds: `SystemTime::now()` since the epoch,
/// 0 when the clock reads before it. Nothing is promised of the value.
#[verifier::external_body]
pub fn now_ts() -> u64 {
    std::time::SystemTime::now()
        .duration_since(std::time::UNIX_EPOCH)
        .map(|d| d.as_secs())
        .unwrap_or(0)
}

/// `match_rule_at` at the current time.
pub fn match_rule<'a>(
    rules: &'a [AppRule],
    exe: &str,
    port: Option<u16>,
    dir: Option<Direction>,
    host: Option<&str>,
) -> (r: Option<&'a AppRule>)
    ensures
        exists|now: u64|
            #![trigger best_rule(rules@, exe@, port, dir, opt_str_view(host), now)]
            match best_rule(rules@, exe@, port, dir, opt_str_view(host), now) {
                Some(i) => r == Some(&rules@[i]),
                None => r is None,
            },
{
    let now = now_ts();
    match_rule_at(rules, exe, port, dir, host, now)
}


/// The rule `best_rule` picks applies, nothing that applies is more
/// specific, and nothing after it that applies is as specific; when it
/// picks nothing, no rule applies.
pub proof fn lemma_most_specific_rule_wins(
    rules: Seq<AppRule>,
    exe: Seq<char>,
    port: Option<u16>,
    dir: Option<Direction>,
    host: Option<Seq<char>>,
    now: u64,
)
    ensures
        match best_rule(rules, exe, port, dir, host, now) {
            Some(i) => {
                &&& 0 <= i < rules.len()
                &&& rule_applies(rules[i], exe, port, dir, host, now)
                &&& forall|j: int|
                    0 <= j < rules.len() && rule_applies(rules[j], exe, port, dir, host, now)
                        ==> specificity(rules[j]) <= specificity(rules[i])
                &&& forall|j: int|
                    i < j < rules.len() && rule_applies(rules[j], exe, port, dir, host, now)
                        ==> specificity(rules[j]) < specificity(rules[i])
            },
            None => forall|j: int|
                0 <= j < rules.len() ==> !rule_applies(rules[j], exe, port, dir, host, now),
        },
    decreases rules.len(),
{
    if rules.len() > 0 {
        let init = rules.drop_last();
        lemma_most_specific_rule_wins(init, exe, port, dir, host, now);
        assert forall|j: int| 0 <= j < init.len() implies init[j] == rules[j] by {}
    }
}

// ------------------------------------------------------------ the file

/// how long the daemon holds a packet waiting for a decision, by default
pub open spec fn default_pending_timeout() -> u32 {
    25
}

/// how often the daemon refetches the enabled lists, by default
pub open spec fn default_update_hours() -> u32 {
    24
}

/// Ads / tracking blocking. Off until someone turns it on.
#[derive(Debug)]
pub struct BlocklistConfig {
    pub enabled: bool,
    /// what to block, in blocklist category keys
    pub categories: Vec<String>,
    /// extra `id:level` list keys on top of the categories
    pub sources: Vec<String>,
    /// names that are never blocked, nor anything under them
    pub allow: Vec<String>,
    /// refuse DoT/DoQ and known DoH endpoints
    pub block_encrypted_dns: bool,
    /// refuse outbound HTTPS to an address no lookup was seen for
    pub require_resolved: bool,
    /// how often the lists are refetched; 0 = never
    pub update_hours: u32,
    /// which lists a category uses, where the file says: a category key
    /// and its list keys, one entry per category
    pub category_sources: Vec<(String, Vec<String>)>,
}

/// the view of one category's entry: its key and its list keys
pub open spec fn pick_view(p: (String, Vec<String>)) -> (Seq<char>, Seq<Seq<char>>) {
    (p.0@, p.1@.map_values(|s: String| s@))
}

/// the view of the per-category entries, in order
pub open spec fn picks_view(v: Seq<(String, Vec<String>)>) -> Seq<(Seq<char>, Seq<Seq<char>>)> {
    v.map_values(|p: (String, Vec<String>)| pick_view(p))
}

/// A copy of the per-category entries.
pub fn clone_picks(v: &Vec<(String, Vec<String>)>) -> (r: Vec<(String, Vec<String>)>)
    ensures
        picks_view(r@) == picks_view(v@),
{
    let mut r: Vec<(String, Vec<String>)> = Vec::new();
    let mut i: usize = 0;
    while i < v.len()
        invariant
            i <= v.len(),
            picks_view(r@) == picks_view(v@.take(i as int)),
        decreases v.len() - i,
    {
        let key = v[i].0.clone();
        let lists = clone_strings(&v[i].1);
        let ghost before = r@;
        r.push((key, lists));
        proof {
            assert(lists@.map_values(|s: String| s@) =~= v@[i as int].1@.map_values(|s: String| s@));
            assert(picks_view(r@) =~= picks_view(before).push(pick_view(v@[i as int])));
            assert(v@.take(i + 1) =~= v@.take(i as int).push(v@[i as int]));
            assert(picks_view(v@.take(i + 1)) =~= picks_view(v@.take(i as int)).push(pick_view(v@[i as int])));
        }
        i += 1;
    }
    assert(v@.take(v.len() as int) == v@);
    r
}

pub fn clone_strings(v: &Vec<String>) -> (r: Vec<String>)
    ensures
        r@ == v@,
{
    let mut r: Vec<String> = Vec::new();
    let mut i: usize = 0;
    while i < v.len()
        invariant
            i <= v.len(),
            r@ == v@.take(i as int),
        decreases v.len() - i,
    {
        r.push(v[i].clone());
        assert(v@.take(i as int).push(v@[i as int]) == v@.take(i + 1));
        i += 1;
    }
    assert(v@.take(v.len() as int) == v@);
    r
}

impl BlocklistConfig {
    /// the same settings, list for list
    pub open spec fn same(self, o: BlocklistConfig) -> bool {
        &&& self.enabled == o.enabled
        &&& self.categories@ == o.categories@
        &&& self.sources@ == o.sources@
        &&& self.allow@ == o.allow@
        &&& self.block_encrypted_dns == o.block_encrypted_dns
        &&& self.require_resolved == o.require_resolved
        &&& self.update_hours == o.update_hours
        &&& picks_view(self.category_sources@) == picks_view(o.category_sources@)
    }
}

impl Clone for BlocklistConfig {
    fn clone(&self) -> (r: Self)
        ensures
            r.same(*self),
    {
        BlocklistConfig {
            enabled: self.enabled,
            categories: clone_strings(&self.categories),
            sources: clone_strings(&self.sources),
            allow: clone_strings(&self.allow),
            block_encrypted_dns: self.block_encrypted_dns,
            require_resolved: self.require_resolved,
            update_hours: self.update_hours,
            category_sources: clone_picks(&self.category_sources),
        }
    }
}

impl Default for BlocklistConfig {
    fn default() -> (r: Self)
        ensures
            !r.enabled,
            r.categories@.len() == 0,
            r.sources@.len() == 0,
            r.allow@.len() == 0,
            r.block_encrypted_dns,
            !r.require_resolved,
            r.update_hours == default_update_hours(),
            r.category_sources@.len() == 0,
    {
        BlocklistConfig {
            enabled: false,
            categories: Vec::new(),
            sources: Vec::new(),
            allow: Vec::new(),
            block_encrypted_dns: true,
            require_resolved: false,
            update_hours: 24,
            category_sources: Vec::new(),
        }
    }
}

/// Auto mode: decide unruled connections here instead of asking.
#[derive(Debug, Clone, Copy, PartialEq, Eq, Structural)]
pub struct AutoConfig {
    pub enabled: bool,
    pub fallback: Fallback,
}

impl Default for AutoConfig {
    fn default() -> (r: Self)
        ensures
            !r.enabled,
            r.fallback == Fallback::Allow,
    {
        AutoConfig { enabled: false, fallback: Fallback::Allow }
    }
}

/// Everything in `/etc/guardit/rules.toml`.
#[derive(Debug)]
pub struct Config {
    pub rule: Vec<Rule>,
    pub app_rule: Vec<AppRule>,
    /// how long the daemon holds a packet open waiting for a decision
    pub pending_timeout_secs: u32,
    /// what a held packet gets when nobody decides in time
    pub default_verdict: Action,
    /// desktop notification when a new app asks
    pub notify: bool,
    /// also filter traffic that only passes through this machine
    pub filter_forwarded: bool,
    pub blocklist: BlocklistConfig,
    pub auto: AutoConfig,
}

impl Default for Config {
    fn default() -> (r: Self)
        ensures
            r.rule@.len() == 0,
            r.app_rule@.len() == 0,
            r.pending_timeout_secs == default_pending_timeout(),
            r.default_verdict == Action::Deny,
            r.notify,
            !r.filter_forwarded,
            !r.blocklist.enabled,
            r.blocklist.categories@.len() == 0,
            r.blocklist.sources@.len() == 0,
            r.blocklist.allow@.len() == 0,
            r.blocklist.block_encrypted_dns,
            !r.blocklist.require_resolved,
            r.blocklist.update_hours == default_update_hours(),
            !r.auto.enabled,
            r.auto.fallback == Fallback::Allow,
    {
        Config {
            rule: Vec::new(),
            app_rule: Vec::new(),
            pending_timeout_secs: 25,
            default_verdict: Action::Deny,
            notify: true,
            filter_forwarded: false,
            blocklist: BlocklistConfig::default(),
            auto: AutoConfig::default(),
        }
    }
}

/// the fixed system-wide path of the configuration
pub fn config_path() -> (p: String)
    ensures
        p@ == "/etc/guardit/rules.toml"@,
{
    string_of(&chars_of("/etc/guardit/rules.toml"))
}

/// `p` up to and including its last `/`; nothing when it has none
pub open spec fn dir_prefix(p: Seq<char>) -> Seq<char>
    decreases p.len(),
{
    if p.len() == 0 {
        seq![]
    } else if p.last() == '/' {
        p
    } else {
        dir_prefix(p.drop_last())
    }
}

/// The file `name` in the directory of `path`: its last component
/// replaced, as a sibling of a file is named.
pub fn sibling_file(path: &str, name: &str) -> (r: String)
    ensures
        r@ == dir_prefix(path@) + name@,
{
    let v = chars_of(path);
    let mut end: usize = v.len();
    assert(v@.take(end as int) == v@);
    while end > 0 && v[end - 1] != '/'
        invariant
            end <= v.len(),
            v@ == path@,
            dir_prefix(path@) == dir_prefix(v@.take(end as int)),
        decreases end,
    {
        assert(v@.take(end as int).drop_last() == v@.take(end - 1));
        end -= 1;
    }
    if end > 0 {
        assert(v@.take(end as int).last() == '/');
    } else {
        assert(v@.take(0) == Seq::<char>::empty());
    }
    let dir = slice_of(&v, 0, end);
    assert(dir@ == v@.take(end as int));
    string_of(&crate::text::concat(&dir, &chars_of(name)))
}

/// where the audit trail of connection attempts is kept: `history.jsonl`
/// beside the config
pub fn history_log_path() -> (p: String)
    ensures
        p@ == "/etc/guardit/history.jsonl"@,
{
    let c = config_path();
    let p = sibling_file(c.as_str(), "history.jsonl");
    proof {
        lemma_config_dir();
        reveal_strlit("history.jsonl");
        reveal_strlit("/etc/guardit/history.jsonl");
        assert(p@ =~= "/etc/guardit/history.jsonl"@);
    }
    p
}

/// where refused lookups are kept: `blocked.jsonl` beside the config
pub fn blocked_log_path() -> (p: String)
    ensures
        p@ == "/etc/guardit/blocked.jsonl"@,
{
    let c = config_path();
    let p = sibling_file(c.as_str(), "blocked.jsonl");
    proof {
        lemma_config_dir();
        reveal_strlit("blocked.jsonl");
        reveal_strlit("/etc/guardit/blocked.jsonl");
        assert(p@ =~= "/etc/guardit/blocked.jsonl"@);
    }
    p
}

proof fn lemma_config_dir()
    ensures
        dir_prefix("/etc/guardit/rules.toml"@) == seq!['/', 'e', 't', 'c', '/', 'g', 'u', 'a', 'r', 'd', 'i', 't', '/'],
{
    reveal_strlit("/etc/guardit/rules.toml");
    reveal_with_fuel(dir_prefix, 11);
    let p = "/etc/guardit/rules.toml"@;
    assert(p.take(13) =~= seq!['/', 'e', 't', 'c', '/', 'g', 'u', 'a', 'r', 'd', 'i', 't', '/']);
    assert(p.drop_last().drop_last().drop_last().drop_last().drop_last().drop_last().drop_last().drop_last().drop_last().drop_last() =~= p.take(13));
}

/// the largest rule id, 0 for none
pub open spec fn max_rule_id(rules: Seq<Rule>) -> u32
    decreases rules.len(),
{
    if rules.len() == 0 {
        0
    } else {
        let m = max_rule_id(rules.drop_last());
        if rules.last().id > m {
            rules.last().id
        } else {
            m
        }
    }
}

/// the largest app rule id, 0 for none
pub open spec fn max_app_rule_id(rules: Seq<AppRule>) -> u32
    decreases rules.len(),
{
    if rules.len() == 0 {
        0
    } else {
        let m = max_app_rule_id(rules.drop_last());
        if rules.last().id > m {
            rules.last().id
        } else {
            m
        }
    }
}

pub proof fn lemma_max_app_rule_id(rules: Seq<AppRule>)
    ensures
        forall|i: int| 0 <= i < rules.len() ==> rules[i].id <= max_app_rule_id(rules),
        rules.len() == 0 || exists|i: int| 0 <= i < rules.len() && rules[i].id == max_app_rule_id(rules),
    decreases rules.len(),
{
    if rules.len() > 0 {
        lemma_max_app_rule_id(rules.drop_last());
        assert forall|i: int| 0 <= i < rules.len() implies rules[i].id <= max_app_rule_id(rules) by {
            if i < rules.len() - 1 {
                assert(rules[i] == rules.drop_last()[i]);
            }
        }
        if rules.last().id <= max_app_rule_id(rules.drop_last()) && rules.len() > 1 {
            let k = choose|i: int| 0 <= i < rules.len() - 1 && rules.drop_last()[i].id == max_app_rule_id(rules.drop_last());
            assert(rules[k] == rules.drop_last()[k]);
        }
    }
}

impl Config {
    /// the largest IP/port rule id (0 for none): at `u32::MAX` no rule can
    /// be added
    pub fn largest_id(&self) -> (m: u32)
        ensures
            m == max_rule_id(self.rule@),
    {
        let mut m: u32 = 0;
        let mut i: usize = 0;
        while i < self.rule.len()
            invariant
                i <= self.rule.len(),
                m == max_rule_id(self.rule@.take(i as int)),
            decreases self.rule.len() - i,
        {
            assert(self.rule@.take(i + 1).drop_last() == self.rule@.take(i as int));
            if self.rule[i].id > m {
                m = self.rule[i].id;
            }
            i += 1;
        }
        assert(self.rule@.take(self.rule.len() as int) == self.rule@);
        m
    }

    /// one more than the largest IP/port rule id (1 for none)
    pub fn next_id(&self) -> (n: u32)
        requires
            max_rule_id(self.rule@) < u32::MAX,
        ensures
            n == max_rule_id(self.rule@) + 1,
    {
        self.largest_id() + 1
    }

    /// the largest app rule id (0 for none): at `u32::MAX` no app rule can
    /// be added
    pub fn largest_app_id(&self) -> (m: u32)
        ensures
            m == max_app_rule_id(self.app_rule@),
    {
        largest_app_rule_id(&self.app_rule)
    }

    /// one more than the largest app rule id (1 for none)
    pub fn next_app_id(&self) -> (n: u32)
        requires
            max_app_rule_id(self.app_rule@) < u32::MAX,
        ensures
            n == max_app_rule_id(self.app_rule@) + 1,
    {
        next_app_rule_id(&self.app_rule)
    }
}

/// the largest id in `rules` (0 for none)
pub fn largest_app_rule_id(rules: &Vec<AppRule>) -> (m: u32)
    ensures
        m == max_app_rule_id(rules@),
{
    let mut m: u32 = 0;
    let mut i: usize = 0;
    while i < rules.len()
        invariant
            i <= rules.len(),
            m == max_app_rule_id(rules@.take(i as int)),
        decreases rules.len() - i,
    {
        assert(rules@.take(i + 1).drop_last() == rules@.take(i as int));
        if rules[i].id > m {
            m = rules[i].id;
        }
        i += 1;
    }
    assert(rules@.take(rules.len() as int) == rules@);
    m
}

/// one more than the largest id in `rules` (1 for none)
pub fn next_app_rule_id(rules: &Vec<AppRule>) -> (n: u32)
    requires
        max_app_rule_id(rules@) < u32::MAX,
    ensures
        n == max_app_rule_id(rules@) + 1,
{
    largest_app_rule_id(rules) + 1
}


/// Which rule decides does not depend on where the rules stand, only on how
/// narrow they are: of two rules that both apply, one for a host beats one
/// for no host; with the same host-ness, one for a port beats one for every
/// port; with the same host-ness and port-ness, one for a direction beats one
/// for both ways. Only between rules alike in all three does the later win.
pub proof fn lemma_narrower_rule_wins(
    rules: Seq<AppRule>,
    exe: Seq<char>,
    port: Option<u16>,
    dir: Option<Direction>,
    host: Option<Seq<char>>,
    now: u64,
    i: int,
    j: int,
)
    requires
        0 <= i < rules.len(),
        0 <= j < rules.len(),
        rule_applies(rules[i], exe, port, dir, host, now),
        rule_applies(rules[j], exe, port, dir, host, now),
    ensures
        rules[i].host is Some && rules[j].host is None ==> best_rule(rules, exe, port, dir, host, now)
            != Some(j),
        (rules[i].host is Some) == (rules[j].host is Some) && rules[i].port is Some && rules[j].port is None
            ==> best_rule(rules, exe, port, dir, host, now) != Some(j),
        (rules[i].host is Some) == (rules[j].host is Some) && (rules[i].port is Some) == (
        rules[j].port is Some) && rules[i].direction is Some && rules[j].direction is None ==> best_rule(
            rules,
            exe,
            port,
            dir,
            host,
            now,
        ) != Some(j),
        (rules[i].host is Some) == (rules[j].host is Some) && (rules[i].port is Some) == (
        rules[j].port is Some) && (rules[i].direction is Some) == (rules[j].direction is Some) && j < i
            ==> best_rule(rules, exe, port, dir, host, now) != Some(j),
        best_rule(rules, exe, port, dir, host, now) is Some,
{
    lemma_most_specific_rule_wins(rules, exe, port, dir, host, now);
}


/// The rule that decides a connection is an enabled, unexpired rule for
/// that very program, whose port, if it names one, is the connection's and
/// whose direction, if it names one, is the connection's.
pub proof fn lemma_deciding_rule_fits_the_connection(
    rules: Seq<AppRule>,
    exe: Seq<char>,
    port: Option<u16>,
    dir: Option<Direction>,
    host: Option<Seq<char>>,
    now: u64,
)
    ensures
        best_rule(rules, exe, port, dir, host, now) matches Some(k) ==> {
            &&& rules[k].enabled
            &&& rules[k].exe@ == exe
            &&& (rules[k].expires matches Some(t) ==> now < t)
            &&& (rules[k].port matches Some(p) ==> port == Some(p))
            &&& (rules[k].direction matches Some(d) ==> dir == Some(d))
        },
{
    lemma_most_specific_rule_wins(rules, exe, port, dir, host, now);
}

} // verus!
