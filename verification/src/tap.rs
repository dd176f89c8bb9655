//! The decisions of the daemon's two queue loops, apart from the queues
//! themselves: what to do with a DNS query or reply the tap holds, and how a new
//! connection is verdicted — at once from the rules, or by asking.
use vstd::prelude::*;
use crate::auto::{Decision, Fallback};
use crate::blocklist::Blocklist;
use crate::config::{Action, AppRule, Direction, best_rule, match_rule_at, opt_str_view};
use crate::ipc::DeniedBy;
use crate::dns::{answers_spec, dns_question, parse_dns_answers, question_spec, spells};
use crate::net::{Ip, is_local_address, is_local_spec};
use crate::packet::{PktInfo, parse_packet, readable, v4_fields, v6_fields, version};
use crate::reply::{
    local_answer, local_answer_spec, nxdomain_reply, nxdomain_spec, tcp_message, tcp_message_at,
    tcp_nxdomain_reply, tcp_nxdomain_spec,
};

verus! {

/// What the tap does with a DNS query or reply.
#[derive(Debug)]
pub enum DnsAct {
    /// pass it on untouched
    Nothing,
    /// pass it on, and remember that these addresses are this name
    Learn(String, Vec<Ip>),
    /// the name is blocked: send `reply` (an NXDOMAIN) in its place;
    /// `port` is the asking socket's, which names the process; `ips` are the
    /// addresses the refused answer named, remembered all the same so that
    /// the connection layer knows them for that name
    Nxdomain { name: String, reply: Vec<u8>, port: u16, ips: Vec<Ip> },
    /// the query asks for a blocked name: drop it and put `answer` (an
    /// NXDOMAIN addressed back to the asker) on the wire from here; `port`
    /// is the asking socket's
    Answer { name: String, answer: Vec<u8>, port: u16 },
}

/// a query on its way out: UDP to port 53 from a port that is not 53 (a
/// resolver talking to another is left to the reply path), with a whole
/// UDP header
pub open spec fn is_query(p: Seq<u8>, i: PktInfo) -> bool {
    i.proto == 17 && i.dst_port == 53 && i.src_port != 53 && i.l4 + 8 <= p.len()
}

/// the DNS message of a reply from port 53: a UDP datagram's payload, or
/// the one whole message a TCP segment carries (`tcp_message`)
pub open spec fn dns_body(p: Seq<u8>, i: PktInfo) -> Option<Seq<u8>> {
    if i.proto == 17 && i.src_port == 53 && i.l4 + 8 <= p.len() {
        Some(p.skip(i.l4 + 8))
    } else if i.proto == 6 && i.src_port == 53 {
        match tcp_message(p, i.l4 as int) {
            Some(m) => Some(p.skip(m)),
            None => None,
        }
    } else {
        None
    }
}

/// the NXDOMAIN a reply is rewritten into: a shorter datagram over UDP,
/// the same length in place over TCP
pub open spec fn rewrite_spec(p: Seq<u8>, i: PktInfo, q_end: int) -> Option<Seq<u8>> {
    if i.proto == 17 {
        nxdomain_spec(p, i.l4 as int, q_end)
    } else {
        tcp_nxdomain_spec(p, i.l4 as int, q_end)
    }
}

/// Every query to port 53 and every reply from it passes the tap. A UDP
/// query over IPv4 for a blocked name is answered from here: the query is
/// dropped and an NXDOMAIN goes back to the asker, so the name never leaves
/// the machine; any other query passes untouched (an IPv6 one is caught on
/// the way back instead). Replies come over UDP or TCP (a TCP reply split
/// across segments is left alone). When the name a reply answers is
/// blocked the reply is rewritten to NXDOMAIN, so the app never learns an
/// address — though the addresses are still recorded for the name, so that
/// a connection reaching them another way is known for what it is;
/// otherwise its A/AAAA answers are learned. Anything else, or a
/// reply that cannot be rewritten, passes untouched.
pub fn dns_decide(payload: &[u8], blocklist: &Blocklist) -> (act: DnsAct)
    requires
        payload@.len() <= 65535,
    ensures
        match parse_packet_spec(payload@) {
            None => act is Nothing,
            Some(i) => if is_query(payload@, i) {
                match question_spec(payload@.skip(i.l4 + 8)) {
                    Some((name, q_end)) if blocklist.blocks(name) => match local_answer_spec(
                        payload@,
                        i.l4 as int,
                        q_end,
                    ) {
                        Some(out) => act matches DnsAct::Answer { name: n, answer, port } && n@
                            == name && answer@ == out && port == i.src_port,
                        None => act is Nothing,
                    },
                    _ => act is Nothing,
                }
            } else {
                match dns_body(payload@, i) {
                None => act is Nothing,
                Some(dns) => match question_spec(dns) {
                    Some((name, q_end)) if blocklist.blocks(name) => match rewrite_spec(
                        payload@,
                        i,
                        q_end,
                    ) {
                        Some(out) => act matches DnsAct::Nxdomain { name: n, reply, port, ips } && n@
                            == name && reply@ == out && port == i.dst_port && match answers_spec(dns) {
                            Some((_, recs)) => spells(ips@, recs),
                            None => ips@.len() == 0,
                        },
                        None => act is Nothing,
                    },
                    _ => match answers_spec(dns) {
                        Some((name, recs)) => act matches DnsAct::Learn(n, ips) && n@ == name
                            && spells(ips@, recs),
                        None => act is Nothing,
                    },
                },
                }
            },
        },
{
    let pkt = match parse_packet(payload) {
        Some(p) => p,
        None => return DnsAct::Nothing,
    };
    proof {
        lemma_parse_unique(payload@, pkt);
    }
    if pkt.proto == 17 && pkt.dst_port == 53 && pkt.src_port != 53 {
        if payload.len() < 8 || payload.len() - 8 < pkt.l4 {
            return DnsAct::Nothing;
        }
        let query = vstd::slice::slice_subrange(payload, pkt.l4 + 8, payload.len());
        assert(query@ =~= payload@.skip(pkt.l4 + 8));
        return match dns_question(query) {
            Some((name, q_end)) => {
                if blocklist.blocked(name.as_str()) {
                    match local_answer(payload, pkt.l4, q_end) {
                        Some(answer) => DnsAct::Answer { name, answer, port: pkt.src_port },
                        None => DnsAct::Nothing,
                    }
                } else {
                    DnsAct::Nothing
                }
            },
            None => DnsAct::Nothing,
        };
    }
    if pkt.src_port != 53 {
        return DnsAct::Nothing;
    }
    let start: usize = if pkt.proto == 17 {
        if payload.len() < 8 || payload.len() - 8 < pkt.l4 {
            return DnsAct::Nothing;
        }
        pkt.l4 + 8
    } else if pkt.proto == 6 {
        match tcp_message_at(payload, pkt.l4) {
            Some(m) => m,
            None => return DnsAct::Nothing,
        }
    } else {
        return DnsAct::Nothing;
    };
    let dns = vstd::slice::slice_subrange(payload, start, payload.len());
    assert(dns@ =~= payload@.skip(start as int));
    match dns_question(dns) {
        Some((name, q_end)) => {
            if blocklist.blocked(name.as_str()) {
                let rewritten = if pkt.proto == 17 {
                    nxdomain_reply(payload, pkt.l4, q_end)
                } else {
                    tcp_nxdomain_reply(payload, pkt.l4, q_end)
                };
                return match rewritten {
                    Some(reply) => {
                        let ips = match parse_dns_answers(dns) {
                            Some((_, ips)) => ips,
                            None => Vec::new(),
                        };
                        DnsAct::Nxdomain { name, reply, port: pkt.dst_port, ips }
                    },
                    None => DnsAct::Nothing,
                };
            }
        },
        None => {},
    }
    match parse_dns_answers(dns) {
        Some((name, ips)) => DnsAct::Learn(name, ips),
        None => DnsAct::Nothing,
    }
}

/// What `parse_packet` reads, as one value: the fields are fixed by the
/// bytes, so there is exactly one reading.
pub open spec fn parse_packet_spec(p: Seq<u8>) -> Option<PktInfo> {
    if readable(p) {
        Some(
            choose|i: PktInfo|
                (version(p) == 4 && v4_fields(p, i)) || (version(p) == 6 && v6_fields(p, i)),
        )
    } else {
        None
    }
}

proof fn lemma_ip_unique(a: Ip, b: Ip, bytes: Seq<u8>)
    requires
        crate::packet::ip_of_bytes(a, bytes),
        crate::packet::ip_of_bytes(b, bytes),
    ensures
        a == b,
{
    match (a, b) {
        (Ip::V4(x), Ip::V4(y)) => {
            assert(x@ =~= y@);
            vstd::array::lemma_array_index(x, 0);
            assert(x == y) by {
                broadcast use vstd::array::axiom_array_ext_equal;
            }
        },
        (Ip::V6(x), Ip::V6(y)) => {
            assert forall|k: int| 0 <= k < 8 implies x@[k] == y@[k] by {}
            assert(x@ =~= y@);
            assert(x == y) by {
                broadcast use vstd::array::axiom_array_ext_equal;
            }
        },
        _ => {},
    }
}

proof fn lemma_parse_unique(p: Seq<u8>, i: PktInfo)
    requires
        (version(p) == 4 && v4_fields(p, i)) || (version(p) == 6 && v6_fields(p, i)),
        readable(p),
    ensures
        parse_packet_spec(p) == Some(i),
{
    let c = choose|j: PktInfo| (version(p) == 4 && v4_fields(p, j)) || (version(p) == 6 && v6_fields(p, j));
    assert((version(p) == 4 && v4_fields(p, c)) || (version(p) == 6 && v6_fields(p, c)));
    if version(p) == 4 {
        lemma_ip_unique(c.src_ip, i.src_ip, p.subrange(12, 16));
        lemma_ip_unique(c.dst_ip, i.dst_ip, p.subrange(16, 20));
    } else {
        lemma_ip_unique(c.src_ip, i.src_ip, p.subrange(8, 24));
        lemma_ip_unique(c.dst_ip, i.dst_ip, p.subrange(24, 40));
    }
}

/// The ports and peer of a connection as a rule sees it: the local port
/// names the process, and the port a rule is about is always the
/// destination port — the service being reached, remote for outbound, our
/// own for inbound (the peer's source port is ephemeral).
#[derive(Debug, Clone, Copy)]
pub struct Conn {
    pub local_port: u16,
    pub peer_port: u16,
    pub peer: Ip,
    pub rule_port: u16,
}

pub fn conn_of(pkt: &PktInfo, dir: Direction) -> (c: Conn)
    ensures
        c.rule_port == pkt.dst_port,
        dir == Direction::In ==> c.local_port == pkt.dst_port && c.peer_port == pkt.src_port && c.peer
            == pkt.src_ip,
        dir == Direction::Out ==> c.local_port == pkt.src_port && c.peer_port == pkt.dst_port
            && c.peer == pkt.dst_ip,
{
    match dir {
        Direction::In => Conn {
            local_port: pkt.dst_port,
            peer_port: pkt.src_port,
            peer: pkt.src_ip,
            rule_port: pkt.dst_port,
        },
        Direction::Out => Conn {
            local_port: pkt.src_port,
            peer_port: pkt.dst_port,
            peer: pkt.dst_ip,
            rule_port: pkt.dst_port,
        },
    }
}

/// How a new connection is handled.
#[derive(Debug, Clone, Copy, PartialEq, Eq, Structural)]
pub enum Step {
    /// let it through without a look: the debug mode
    Pass,
    /// unreadable, or no process owns it: the configured default
    Default(Action),
    /// a rule decides it
    Ruled(Action),
    /// nothing decides it: hold it and ask
    Ask,
}

/// The first decision on a held packet: `readable` is whether its headers
/// could be read, `exe_known` whether its process was found, `ruled` what
/// the rules say for it (see `state::ruled`). A packet that cannot be read
/// gets the configured default, as one no process owns does — the firewall
/// fails closed; only the debug mode lets traffic through unlooked-at.
pub fn first_step(readable: bool, debug: bool, exe_known: bool, ruled: Option<Action>, default_verdict: Action) -> (s: Step)
    ensures
        s == (if debug {
            Step::Pass
        } else if !readable || !exe_known {
            Step::Default(default_verdict)
        } else {
            match ruled {
                Some(a) => Step::Ruled(a),
                None => Step::Ask,
            }
        }),
{
    if debug {
        Step::Pass
    } else if !readable || !exe_known {
        Step::Default(default_verdict)
    } else {
        match ruled {
            Some(a) => Step::Ruled(a),
            None => Step::Ask,
        }
    }
}

/// After asking: the verdict, and whether to remember it as a per-port
/// rule. An answer is remembered unless the rules (which may have changed
/// meanwhile, e.g. a whole-app answer) already give exactly it; no answer
/// before the timeout takes the default and remembers nothing.
pub fn after_ask(answer: Option<Action>, ruled_now: Option<Action>, default_verdict: Action) -> (r: (
    Action,
    bool,
))
    ensures
        r == (match answer {
            Some(v) => (v, ruled_now != Some(v)),
            None => (default_verdict, false),
        }),
{
    match answer {
        Some(v) => (v, !(match ruled_now {
            Some(x) => x == v,
            None => false,
        })),
        None => (default_verdict, false),
    }
}


// ------------------------------------------------------------ policies

/// Does a policy refuse the connection before the app rules decide it? A
/// peer whose name is on the blocklists is refused — a name the app had
/// cached never passed the DNS tap — unless the rule that decides the
/// connection names that host. With `require_resolved`, outbound :443 or
/// :853 to a public address no lookup named is refused, unless the rule
/// that decides it names that port: an app that never asked for a name
/// cannot have learnt the address from a resolver this machine can read.
pub open spec fn refusal_spec(
    rules: Seq<AppRule>,
    exe: Seq<char>,
    port: u16,
    dir: Direction,
    peer: Ip,
    name: Option<Seq<char>>,
    blocked: bool,
    require_resolved: bool,
    now: u64,
) -> Option<DeniedBy> {
    let best = best_rule(rules, exe, Some(port), Some(dir), name, now);
    if blocked && !(best matches Some(i) && rules[i].host is Some) {
        Some(DeniedBy::Blocklist)
    } else if require_resolved && dir == Direction::Out && (port == 443 || port == 853)
        && !is_local_spec(peer) && name is None && !(
    best matches Some(i) && rules[i].port == Some(port)) {
        Some(DeniedBy::Unresolved)
    } else {
        None
    }
}

/// The policy that refuses a connection, if one does (`refusal_spec`); the
/// peer's name is checked against `blocklist`.
pub fn policy_refusal(
    rules: &[AppRule],
    exe: &str,
    port: u16,
    dir: Direction,
    peer: &Ip,
    peer_name: Option<&str>,
    blocklist: &Blocklist,
    require_resolved: bool,
    now: u64,
) -> (r: Option<DeniedBy>)
    ensures
        r == refusal_spec(
            rules@,
            exe@,
            port,
            dir,
            *peer,
            opt_str_view(peer_name),
            match peer_name {
                Some(n) => blocklist.blocks(n@),
                None => false,
            },
            require_resolved,
            now,
        ),
{
    let best = match_rule_at(rules, exe, Some(port), Some(dir), peer_name, now);
    let blocked = match peer_name {
        Some(n) => blocklist.blocked(n),
        None => false,
    };
    let host_ruled = match best {
        Some(r) => r.host.is_some(),
        None => false,
    };
    if blocked && !host_ruled {
        return Some(DeniedBy::Blocklist);
    }
    let port_ruled = match best {
        Some(r) => match r.port {
            Some(p) => p == port,
            None => false,
        },
        None => false,
    };
    if require_resolved && dir == Direction::Out && (port == 443 || port == 853) && !is_local_address(peer)
        && peer_name.is_none() && !port_ruled {
        return Some(DeniedBy::Unresolved);
    }
    None
}

/// How a held packet is finally handled, in the order the decisions are
/// taken.
#[derive(Debug, Clone, Copy)]
pub enum Plan {
    /// let it through: the debug mode
    Pass,
    /// the configured default: unreadable, or no process owns it
    Default(Action),
    /// a policy refuses it before any app rule is read
    Refused(DeniedBy),
    /// an app rule decides it
    Ruled(Action),
    /// auto mode decides it on a fact
    Auto(Decision),
    /// auto mode found no fact, and its fallback decides
    Fallback(Action),
    /// nothing decides it: hold it and ask
    Ask,
}

/// The order a held packet is decided in: the first step's pass or default
/// stands; otherwise a policy refusal comes before the rules; then a rule;
/// then, for a connection nothing rules, auto mode when it is on — its
/// verdict on a fact, else its fallback, unless that is to ask; then ask.
pub open spec fn plan_spec(
    step: Step,
    refusal: Option<DeniedBy>,
    auto_on: bool,
    auto: Option<Decision>,
    fallback: Fallback,
) -> Plan {
    match step {
        Step::Pass => Plan::Pass,
        Step::Default(a) => Plan::Default(a),
        Step::Ruled(a) => match refusal {
            Some(d) => Plan::Refused(d),
            None => Plan::Ruled(a),
        },
        Step::Ask => match refusal {
            Some(d) => Plan::Refused(d),
            None => if !auto_on {
                Plan::Ask
            } else {
                match auto {
                    Some(d) => Plan::Auto(d),
                    None => match fallback {
                        Fallback::Allow => Plan::Fallback(Action::Allow),
                        Fallback::Deny => Plan::Fallback(Action::Deny),
                        Fallback::Ask => Plan::Ask,
                    },
                }
            },
        },
    }
}

/// How a held packet is handled (`plan_spec`), from its first step, the
/// policy refusal (`policy_refusal`), whether auto mode is on, what auto
/// mode decides (`auto::decide`; only read for a connection nothing rules)
/// and auto mode's fallback.
pub fn packet_plan(
    step: Step,
    refusal: Option<DeniedBy>,
    auto_on: bool,
    auto: Option<Decision>,
    fallback: Fallback,
) -> (r: Plan)
    ensures
        r == plan_spec(step, refusal, auto_on, auto, fallback),
{
    match step {
        Step::Pass => Plan::Pass,
        Step::Default(a) => Plan::Default(a),
        Step::Ruled(a) => match refusal {
            Some(d) => Plan::Refused(d),
            None => Plan::Ruled(a),
        },
        Step::Ask => match refusal {
            Some(d) => Plan::Refused(d),
            None => if !auto_on {
                Plan::Ask
            } else {
                match auto {
                    Some(d) => Plan::Auto(d),
                    None => match fallback {
                        Fallback::Allow => Plan::Fallback(Action::Allow),
                        Fallback::Deny => Plan::Fallback(Action::Deny),
                        Fallback::Ask => Plan::Ask,
                    },
                }
            },
        },
    }
}

/// Whether auto mode is asked about a held packet: only for one nothing
/// rules and no policy refuses, with auto mode on.
pub fn consults_auto(step: Step, refusal: Option<DeniedBy>, auto_on: bool) -> (r: bool)
    ensures
        r == (step is Ask && refusal is None && auto_on),
{
    match (step, refusal) {
        (Step::Ask, None) => auto_on,
        _ => false,
    }
}

/// Auto mode's conclusion weighs only where it is consulted: elsewhere the
/// plan is the same whatever it would have concluded.
pub proof fn lemma_auto_weighs_only_where_consulted(
    step: Step,
    refusal: Option<DeniedBy>,
    auto_on: bool,
    a: Option<Decision>,
    b: Option<Decision>,
    fallback: Fallback,
)
    requires
        !(step is Ask && refusal is None && auto_on),
    ensures
        plan_spec(step, refusal, auto_on, a, fallback) == plan_spec(step, refusal, auto_on, b, fallback),
{
}

/// The verdict a plan gives the packet: `None` while it still has to be
/// asked about. A refusal denies; debug mode lets it through.
pub fn plan_verdict(plan: &Plan) -> (r: Option<Action>)
    ensures
        r == (match *plan {
            Plan::Pass => Some(Action::Allow),
            Plan::Default(a) => Some(a),
            Plan::Refused(_) => Some(Action::Deny),
            Plan::Ruled(a) => Some(a),
            Plan::Auto(d) => Some(d.action),
            Plan::Fallback(a) => Some(a),
            Plan::Ask => None,
        }),
{
    match plan {
        Plan::Pass => Some(Action::Allow),
        Plan::Default(a) => Some(*a),
        Plan::Refused(_) => Some(Action::Deny),
        Plan::Ruled(a) => Some(*a),
        Plan::Auto(d) => Some(d.action),
        Plan::Fallback(a) => Some(*a),
        Plan::Ask => None,
    }
}

} // verus!
