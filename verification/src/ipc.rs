//! What the daemon and its clients say to each other: flow rows, listening
//! sockets, the blocking dashboard, and the two message enums.
use vstd::prelude::*;
use crate::config::{Action, AppRule, Direction, clone_opt_string, opt_view};
use crate::text::{chars_of, concat, string_of};

verus! {

broadcast use vstd::string::group_string_axioms;

/// where the daemon listens for clients
pub fn socket_path() -> (p: String)
    ensures
        p@ == "/run/guardit/ipc.sock"@,
{
    string_of(&chars_of("/run/guardit/ipc.sock"))
}

#[derive(Debug, Clone, Copy, PartialEq, Eq, Structural)]
pub enum FlowStatus {
    Pending,
    Allowed,
    Denied,
}

pub open spec fn status_of(a: Action) -> FlowStatus {
    match a {
        Action::Allow => FlowStatus::Allowed,
        Action::Deny => FlowStatus::Denied,
    }
}

impl From<Action> for FlowStatus {
    fn from(a: Action) -> (s: Self)
        ensures
            s == status_of(a),
    {
        match a {
            Action::Allow => FlowStatus::Allowed,
            Action::Deny => FlowStatus::Denied,
        }
    }
}

impl vstd::std_specs::convert::FromSpecImpl<Action> for FlowStatus {
    open spec fn obeys_from_spec() -> bool {
        true
    }

    open spec fn from_spec(a: Action) -> FlowStatus {
        status_of(a)
    }
}

/// A policy that refused a connection on evidence of its own, which no
/// reading of the app rules can reach.
#[derive(Debug, Clone, Copy, PartialEq, Eq, Structural)]
pub enum DeniedBy {
    /// the peer's name is on an enabled blocklist
    Blocklist,
    /// HTTPS to an address no lookup named, under `require_resolved`
    Unresolved,
}

/// One connection attempt: awaiting a decision (`req_id: Some`, `status:
/// Pending`) or already verdicted.
#[derive(Debug)]
pub struct FlowWire {
    pub req_id: Option<u32>,
    pub exe: String,
    pub direction: Direction,
    pub proto: String,
    pub port: Option<u16>,
    pub peer_ip: String,
    /// the name the app resolved to get `peer_ip`, when the DNS tap saw it
    pub peer_name: Option<String>,
    pub status: FlowStatus,
    /// set when a policy refused it rather than the app rules
    pub denied_by: Option<DeniedBy>,
    /// the fact auto mode decided it on, when it did
    pub why: Option<String>,
    /// unix seconds when it was logged
    pub ts: u64,
}

impl Clone for FlowWire {
    fn clone(&self) -> (r: Self)
        ensures
            r == *self,
    {
        FlowWire {
            req_id: self.req_id,
            exe: self.exe.clone(),
            direction: self.direction,
            proto: self.proto.clone(),
            port: self.port,
            peer_ip: self.peer_ip.clone(),
            peer_name: clone_opt_string(&self.peer_name),
            status: self.status,
            denied_by: self.denied_by,
            why: clone_opt_string(&self.why),
            ts: self.ts,
        }
    }
}

/// how a flow's peer reads: "name (ip)" when the name is known, else the ip
pub open spec fn peer_text(peer_ip: Seq<char>, peer_name: Option<Seq<char>>) -> Seq<char> {
    match peer_name {
        Some(n) => n + seq![' ', '('] + peer_ip + seq![')'],
        None => peer_ip,
    }
}

impl FlowWire {
    /// "github.com (140.82.121.4)" when the name is known, else the ip
    pub fn peer(&self) -> (s: String)
        ensures
            s@ == peer_text(self.peer_ip@, opt_view(self.peer_name)),
    {
        match &self.peer_name {
            Some(n) => {
                let open: Vec<char> = vec![' ', '('];
                let close: Vec<char> = vec![')'];
                assert(open@ == seq![' ', '(']);
                assert(close@ == seq![')']);
                let v = concat(
                    &concat(&concat(&chars_of(n.as_str()), &open), &chars_of(self.peer_ip.as_str())),
                    &close,
                );
                string_of(&v)
            },
            None => self.peer_ip.clone(),
        }
    }
}

/// One listening (or, for UDP, bound-and-receiving) local socket.
#[derive(Debug, PartialEq, Eq)]
pub struct ListenEntry {
    pub proto: String,
    pub addr: String,
    pub port: u16,
    pub exe: String,
}

impl Clone for ListenEntry {
    fn clone(&self) -> (r: Self)
        ensures
            r == *self,
    {
        ListenEntry {
            proto: self.proto.clone(),
            addr: self.addr.clone(),
            port: self.port,
            exe: self.exe.clone(),
        }
    }
}

/// One lookup the blocklists refused.
#[derive(Debug, PartialEq, Eq)]
pub struct Blocked {
    pub ts: u64,
    pub name: String,
    /// the app that asked, when the reply's destination named one
    pub exe: Option<String>,
}

impl Clone for Blocked {
    fn clone(&self) -> (r: Self)
        ensures
            r == *self,
    {
        Blocked { ts: self.ts, name: self.name.clone(), exe: clone_opt_string(&self.exe) }
    }
}

/// What the ads/tracking dashboard shows. Counters are since the daemon
/// started.
#[derive(Debug, Default, PartialEq, Eq)]
pub struct BlocklistStats {
    pub enabled: bool,
    pub encrypted_dns_blocked: bool,
    /// `id:level` keys currently in force
    pub sources: Vec<String>,
    /// domains loaded across all of them
    pub domains: usize,
    /// DNS replies the daemon saw
    pub queries: u64,
    /// how many of those it refused
    pub blocked: u64,
    /// the most recent refusals, oldest first
    pub recent: Vec<Blocked>,
    /// the busiest blocked apps, most blocked first
    pub by_app: Vec<(String, u64)>,
    /// unix seconds of the oldest list's last download; None = some list
    /// was never fetched
    pub updated_at: Option<u64>,
}

/// daemon -> client
#[derive(Debug)]
pub enum ServerMsg {
    /// sent once right after a client connects
    Snapshot {
        app_rules: Vec<AppRule>,
        flow: Vec<FlowWire>,
        listening: Vec<ListenEntry>,
        blocklist: BlocklistStats,
    },
    /// refreshed counters for the dashboard
    Blocklist(BlocklistStats),
    /// a new row to append
    FlowNew(FlowWire),
    /// an existing pending row got its final status
    FlowResolved { req_id: u32, status: FlowStatus },
    AppRules(Vec<AppRule>),
    /// full replace of the listening sockets
    Listening(Vec<ListenEntry>),
}

/// client -> daemon
#[derive(Debug)]
pub enum ClientMsg {
    /// verdict a held packet — also remembered as a rule
    Decide { req_id: u32, verdict: Action },
    /// set (creating if needed) a rule for `exe`
    SetAppRule {
        exe: String,
        port: Option<u16>,
        direction: Option<Direction>,
        action: Action,
        expires: Option<u64>,
        host: Option<String>,
    },
    ToggleAppRule { id: u32 },
    /// removes every rule for `exe`
    RmAppRule { exe: String },
    /// re-read rules.toml and broadcast the app rules it now holds
    Reload,
}

} // verus!
