//! The kernel half: the configuration rendered as an nftables ruleset.
//!
//! Every new connection the IP/port rules do not settle is queued to the
//! daemon, without `bypass`, so a stopped daemon fails closed. Only the DNS
//! tap (it decides nothing) and the forward queue bypass.
use vstd::prelude::*;
use crate::config::{Action, Config, Direction, Proto, Rule};
use crate::num::{decimal, decimal_exec};
use crate::text::{chars_of, contains, has_char, string_of};

verus! {

broadcast use vstd::string::group_string_axioms;

/// the queue the daemon reads new inbound connections from
pub const QUEUE_IN: u16 = 0;
/// the queue the daemon reads new outbound connections from
pub const QUEUE_OUT: u16 = 1;
/// DNS traffic, for the tap; bypassed, since it decides nothing
pub const QUEUE_DNS: u16 = 2;
/// forwarded traffic, when asked for; bypassed, never fails closed
pub const QUEUE_FWD: u16 = 3;

/// Which chain a rule line is rendered into: inbound and forwarded traffic
/// match the peer as the source, outbound as the destination.
#[derive(Debug, Clone, Copy, PartialEq, Eq, Structural)]
pub enum Chain {
    Input,
    Output,
    Forward,
}

pub open spec fn verdict_word(a: Action) -> Seq<char> {
    match a {
        Action::Allow => "accept"@,
        Action::Deny => "drop"@,
    }
}

/// an address with a colon is IPv6
pub open spec fn family(src: Seq<char>) -> Seq<char> {
    if contains(src, seq![':']) {
        "ip6"@
    } else {
        "ip"@
    }
}

pub open spec fn peer_word(c: Chain) -> Seq<char> {
    match c {
        Chain::Output => "daddr"@,
        _ => "saddr"@,
    }
}

/// One rule as an nft line: the peer match unless `any`, then the
/// protocol — with the port, `<proto> dport <port>`, a port without a
/// protocol taken as tcp — and the verdict.
pub open spec fn rule_line_spec(r: Rule, c: Chain) -> Seq<char> {
    "    "@ + src_part(r, c) + proto_part(r) + verdict_word(r.action)
}

/// the peer match, unless the rule is for any peer
pub open spec fn src_part(r: Rule, c: Chain) -> Seq<char> {
    if r.src@ == "any"@ {
        seq![]
    } else {
        family(r.src@) + " "@ + peer_word(c) + " "@ + r.src@ + " "@
    }
}

/// the protocol, with the port when there is one
pub open spec fn proto_part(r: Rule) -> Seq<char> {
    match r.port {
        Some(p) => (match r.proto {
            Proto::Udp => "udp"@,
            _ => "tcp"@,
        }) + " dport "@ + decimal(p as nat) + " "@,
        None => match r.proto {
            Proto::Tcp => "tcp "@,
            Proto::Udp => "udp "@,
            Proto::Any => seq![],
        },
    }
}

/// a rule goes into a chain when enabled and, for input and output, when
/// its direction is that chain's or none
pub open spec fn in_chain(r: Rule, c: Chain) -> bool {
    r.enabled && match c {
        Chain::Input => r.direction != Some(Direction::Out),
        Chain::Output => r.direction != Some(Direction::In),
        Chain::Forward => true,
    }
}

/// the lines of the rules that go into `c`, in order
pub open spec fn rule_lines(rules: Seq<Rule>, c: Chain) -> Seq<char>
    decreases rules.len(),
{
    if rules.len() == 0 {
        seq![]
    } else {
        rule_lines(rules.drop_last(), c) + if in_chain(rules.last(), c) {
            rule_line_spec(rules.last(), c) + "\n"@
        } else {
            seq![]
        }
    }
}

/// `v` joined with `sep`
pub open spec fn join(v: Seq<Seq<char>>, sep: Seq<char>) -> Seq<char>
    decreases v.len(),
{
    if v.len() == 0 {
        seq![]
    } else if v.len() == 1 {
        v[0]
    } else {
        join(v.drop_last(), sep) + sep + v.last()
    }
}

/// the DoH address sets, a family with no address left out (nft refuses a
/// set with no element)
pub open spec fn doh_sets(v4: Seq<Seq<char>>, v6: Seq<Seq<char>>) -> Seq<char> {
    (if v4.len() > 0 {
        "  set doh4 { type ipv4_addr; elements = { "@ + join(v4, ", "@) + " } }\n"@
    } else {
        seq![]
    }) + if v6.len() > 0 {
        "  set doh6 { type ipv6_addr; elements = { "@ + join(v6, ", "@) + " } }\n"@
    } else {
        seq![]
    }
}

/// Refusing encrypted DNS: DoT/DoQ on 853, and 443 to a known DoH address
/// — `reject`, not `drop`, so a client falls back to plain DNS at once
/// instead of hanging until its own timeout.
pub open spec fn doh_chain(v4: Seq<Seq<char>>, v6: Seq<Seq<char>>) -> Seq<char> {
    "    tcp dport 853 reject with tcp reset\n"@ + "    udp dport 853 reject\n"@ + (if v4.len() > 0 {
        "    ip daddr @doh4 tcp dport 443 reject with tcp reset\n"@
            + "    ip daddr @doh4 udp dport 443 reject\n"@
    } else {
        seq![]
    }) + if v6.len() > 0 {
        "    ip6 daddr @doh6 tcp dport 443 reject with tcp reset\n"@
            + "    ip6 daddr @doh6 udp dport 443 reject\n"@
    } else {
        seq![]
    }
}

/// The forward chain: accept by default and bypassing, so it only ever
/// subtracts; the DNS tap, the encrypted-DNS refusals and the IP/port rules.
pub open spec fn forward_spec(rules: Seq<Rule>, block_dns: bool, v4: Seq<Seq<char>>, v6: Seq<Seq<char>>) -> Seq<char> {
    "  chain forward {\n"@ + "    type filter hook forward priority 0; policy accept;\n"@
        + "    udp sport 53 queue num 2 bypass\n"@ + "    tcp sport 53 queue num 2 bypass\n"@
        + "    udp dport 53 queue num 2 bypass\n"@ + (if block_dns {
        doh_chain(v4, v6)
    } else {
        seq![]
    }) + rule_lines(rules, Chain::Forward) + "    ct state new queue num 3 bypass\n"@ + "  }\n"@
}

/// the mark the daemon puts on the answers it sends for blocked queries, so
/// that the output chain lets them pass untouched and the DNS tap knows its
/// own answers when they come back in over lo
pub const LOCAL_ANSWER_MARK: u32 = 0x4e58;

/// The whole ruleset. Input: drop by default; the DNS tap before `iif lo`
/// (a local resolver answers over lo); loopback and established traffic;
/// the IP/port rules; then every new connection logged and queued to the
/// daemon. Output: accept by default; the daemon's own answers to blocked
/// queries (`LOCAL_ANSWER_MARK`) pass; the encrypted-DNS refusals, the
/// IP/port rules, the DNS tap on queries, then the queue. `v4` and `v6` are
/// the known DoH addresses, as text.
pub open spec fn render_spec(cfg: Config, v4: Seq<Seq<char>>, v6: Seq<Seq<char>>) -> Seq<char> {
    let block_dns = cfg.blocklist.enabled && cfg.blocklist.block_encrypted_dns;
    "table inet guardit {\n"@ + (if block_dns {
        doh_sets(v4, v6)
    } else {
        seq![]
    }) + "  chain input {\n"@ + "    type filter hook input priority 0; policy drop;\n"@
        + "    udp sport 53 queue num 2 bypass\n"@ + "    tcp sport 53 queue num 2 bypass\n"@
        + "    iif lo accept\n"@ + "    ct state established,related accept\n"@ + rule_lines(
        cfg.rule@,
        Chain::Input,
    ) + "    ct state new log prefix \"guardit-in: \" queue num 0\n"@ + "  }\n"@
        + "  chain output {\n"@ + "    type filter hook output priority 0; policy accept;\n"@
        + "    meta mark 0x4e58 accept\n"@ + (
    if block_dns {
        doh_chain(v4, v6)
    } else {
        seq![]
    }) + rule_lines(cfg.rule@, Chain::Output) + "    udp dport 53 queue num 2 bypass\n"@
        + "    ct state new log prefix \"guardit-out: \" queue num 1\n"@ + "  }\n"@ + (
    if cfg.filter_forwarded {
        forward_spec(cfg.rule@, block_dns, v4, v6)
    } else {
        seq![]
    }) + "}\n"@
}

fn push_str(out: &mut Vec<char>, s: &str)
    ensures
        final(out)@ == old(out)@ + s@,
{
    let v = chars_of(s);
    push_chars(out, &v);
}

fn push_chars(out: &mut Vec<char>, v: &[char])
    ensures
        final(out)@ == old(out)@ + v@,
{
    let ghost start = out@;
    let mut i: usize = 0;
    while i < v.len()
        invariant
            i <= v@.len(),
            out@ == start + v@.take(i as int),
        decreases v@.len() - i,
    {
        out.push(v[i]);
        assert(out@ =~= start + v@.take(i + 1));
        i = i + 1;
    }
    assert(v@.take(i as int) =~= v@);
}

proof fn lemma_contains_char(s: Seq<char>, c: char)
    ensures
        contains(s, seq![c]) == (exists|j: int| 0 <= j < s.len() && s[j] == c),
{
    if exists|j: int| 0 <= j < s.len() && s[j] == c {
        let j = choose|j: int| 0 <= j < s.len() && s[j] == c;
        assert(s.subrange(j, j + 1) =~= seq![c]);
        assert(crate::text::occurs_at(s, seq![c], j));
    }
    if contains(s, seq![c]) {
        let i = choose|i: int| crate::text::occurs_at(s, seq![c], i);
        assert(s.subrange(i, i + 1)[0] == s[i]);
    }
}

fn push_src_part(out: &mut Vec<char>, r: &Rule, c: Chain)
    ensures
        final(out)@ == old(out)@ + src_part(*r, c),
{
    let ghost start = out@;
    let src = chars_of(r.src.as_str());
    let any = chars_of("any");
    if !crate::text::seq_eq(&src, &any) {
        proof {
            lemma_contains_char(r.src@, ':');
        }
        if has_char(&src, ':') {
            push_str(out, "ip6");
        } else {
            push_str(out, "ip");
        }
        let ghost f = out@;
        push_str(out, " ");
        match c {
            Chain::Output => push_str(out, "daddr"),
            _ => push_str(out, "saddr"),
        }
        push_str(out, " ");
        push_chars(out, &src);
        push_str(out, " ");
    }
    assert(out@ =~= start + src_part(*r, c));
}

fn push_proto_part(out: &mut Vec<char>, r: &Rule)
    ensures
        final(out)@ == old(out)@ + proto_part(*r),
{
    let ghost start = out@;
    match r.port {
        Some(p) => {
            match r.proto {
                Proto::Udp => push_str(out, "udp"),
                _ => push_str(out, "tcp"),
            }
            push_str(out, " dport ");
            push_chars(out, &decimal_exec(p as u64));
            push_str(out, " ");
        },
        None => match r.proto {
            Proto::Tcp => push_str(out, "tcp "),
            Proto::Udp => push_str(out, "udp "),
            Proto::Any => {},
        },
    }
    assert(out@ =~= start + proto_part(*r));
}

fn rule_line(r: &Rule, c: Chain) -> (s: Vec<char>)
    ensures
        s@ == rule_line_spec(*r, c),
{
    let mut out: Vec<char> = Vec::new();
    push_str(&mut out, "    ");
    push_src_part(&mut out, r, c);
    push_proto_part(&mut out, r);
    match r.action {
        Action::Allow => push_str(&mut out, "accept"),
        Action::Deny => push_str(&mut out, "drop"),
    }
    assert(out@ =~= rule_line_spec(*r, c));
    out
}

fn push_rule_lines(out: &mut Vec<char>, rules: &Vec<Rule>, c: Chain)
    ensures
        final(out)@ == old(out)@ + rule_lines(rules@, c),
{
    let ghost start = out@;
    let mut i: usize = 0;
    assert(rules@.take(0) =~= Seq::<Rule>::empty());
    while i < rules.len()
        invariant
            i <= rules@.len(),
            out@ == start + rule_lines(rules@.take(i as int), c),
        decreases rules@.len() - i,
    {
        assert(rules@.take(i + 1).drop_last() =~= rules@.take(i as int));
        assert(rules@.take(i + 1).last() == rules@[i as int]);
        let r = &rules[i];
        let take = r.enabled && match c {
            Chain::Input => !(match r.direction {
                Some(Direction::Out) => true,
                _ => false,
            }),
            Chain::Output => !(match r.direction {
                Some(Direction::In) => true,
                _ => false,
            }),
            Chain::Forward => true,
        };
        let ghost before = out@;
        if take {
            let line = rule_line(r, c);
            push_chars(out, &line);
            push_str(out, "\n");
        }
        assert(out@ =~= start + rule_lines(rules@.take(i + 1), c));
        i = i + 1;
    }
    assert(rules@.take(i as int) =~= rules@);
}

fn push_join(out: &mut Vec<char>, v: &[String], sep: &str)
    ensures
        final(out)@ == old(out)@ + join(v@.map_values(|s: String| s@), sep@),
{
    let ghost vs = v@.map_values(|s: String| s@);
    let ghost start = out@;
    let mut i: usize = 0;
    assert(vs.take(0) =~= Seq::<Seq<char>>::empty());
    while i < v.len()
        invariant
            vs == v@.map_values(|s: String| s@),
            i <= vs.len(),
            out@ == start + join(vs.take(i as int), sep@),
        decreases vs.len() - i,
    {
        assert(vs.take(i + 1).drop_last() =~= vs.take(i as int));
        assert(vs.take(i + 1).last() == v@[i as int]@);
        if i > 0 {
            push_str(out, sep);
        }
        push_str(out, v[i].as_str());
        assert(out@ =~= start + join(vs.take(i + 1), sep@));
        i = i + 1;
    }
    assert(vs.take(i as int) =~= vs);
}

fn push_doh_chain(out: &mut Vec<char>, v4: &[String], v6: &[String])
    ensures
        final(out)@ == old(out)@ + doh_chain(
            v4@.map_values(|s: String| s@),
            v6@.map_values(|s: String| s@),
        ),
{
    let ghost start = out@;
    push_str(out, "    tcp dport 853 reject with tcp reset\n");
    push_str(out, "    udp dport 853 reject\n");
    if v4.len() > 0 {
        push_str(out, "    ip daddr @doh4 tcp dport 443 reject with tcp reset\n");
        push_str(out, "    ip daddr @doh4 udp dport 443 reject\n");
    }
    if v6.len() > 0 {
        push_str(out, "    ip6 daddr @doh6 tcp dport 443 reject with tcp reset\n");
        push_str(out, "    ip6 daddr @doh6 udp dport 443 reject\n");
    }
    assert(out@ =~= start + doh_chain(
        v4@.map_values(|s: String| s@),
        v6@.map_values(|s: String| s@),
    ));
}

fn push_doh_sets(out: &mut Vec<char>, v4: &[String], v6: &[String])
    ensures
        final(out)@ == old(out)@ + doh_sets(
            v4@.map_values(|s: String| s@),
            v6@.map_values(|s: String| s@),
        ),
{
    let ghost start = out@;
    if v4.len() > 0 {
        push_str(out, "  set doh4 { type ipv4_addr; elements = { ");
        push_join(out, v4, ", ");
        push_str(out, " } }\n");
    }
    let ghost mid = out@;
    if v6.len() > 0 {
        push_str(out, "  set doh6 { type ipv6_addr; elements = { ");
        push_join(out, v6, ", ");
        push_str(out, " } }\n");
    }
    assert(out@ =~= start + doh_sets(
        v4@.map_values(|s: String| s@),
        v6@.map_values(|s: String| s@),
    ));
}

fn push_forward(out: &mut Vec<char>, rules: &Vec<Rule>, block_dns: bool, v4: &[String], v6: &[String])
    ensures
        final(out)@ == old(out)@ + forward_spec(
            rules@,
            block_dns,
            v4@.map_values(|s: String| s@),
            v6@.map_values(|s: String| s@),
        ),
{
    let ghost start = out@;
    push_str(out, "  chain forward {\n");
    push_str(out, "    type filter hook forward priority 0; policy accept;\n");
    push_str(out, "    udp sport 53 queue num 2 bypass\n");
    push_str(out, "    tcp sport 53 queue num 2 bypass\n");
    push_str(out, "    udp dport 53 queue num 2 bypass\n");
    if block_dns {
        push_doh_chain(out, v4, v6);
    }
    push_rule_lines(out, rules, Chain::Forward);
    push_str(out, "    ct state new queue num 3 bypass\n");
    push_str(out, "  }\n");
    assert(out@ =~= start + forward_spec(
        rules@,
        block_dns,
        v4@.map_values(|s: String| s@),
        v6@.map_values(|s: String| s@),
    ));
}

/// Renders the configuration as an nft ruleset (see `render_spec`). `doh_v4`
/// and `doh_v6` are the known DoH resolver addresses, in text, for the
/// encrypted-DNS refusal.
pub fn render(cfg: &Config, doh_v4: &[String], doh_v6: &[String]) -> (s: String)
    ensures
        s@ == render_spec(
            *cfg,
            doh_v4@.map_values(|s: String| s@),
            doh_v6@.map_values(|s: String| s@),
        ),
{
    let block_dns = cfg.blocklist.enabled && cfg.blocklist.block_encrypted_dns;
    let mut out: Vec<char> = Vec::new();
    push_str(&mut out, "table inet guardit {\n");
    if block_dns {
        push_doh_sets(&mut out, doh_v4, doh_v6);
    }
    push_str(&mut out, "  chain input {\n");
    push_str(&mut out, "    type filter hook input priority 0; policy drop;\n");
    push_str(&mut out, "    udp sport 53 queue num 2 bypass\n");
    push_str(&mut out, "    tcp sport 53 queue num 2 bypass\n");
    push_str(&mut out, "    iif lo accept\n");
    push_str(&mut out, "    ct state established,related accept\n");
    push_rule_lines(&mut out, &cfg.rule, Chain::Input);
    push_str(&mut out, "    ct state new log prefix \"guardit-in: \" queue num 0\n");
    push_str(&mut out, "  }\n");
    let ghost mid = out@;
    push_str(&mut out, "  chain output {\n");
    push_str(&mut out, "    type filter hook output priority 0; policy accept;\n");
    push_str(&mut out, "    meta mark 0x4e58 accept\n");
    if block_dns {
        push_doh_chain(&mut out, doh_v4, doh_v6);
    }
    push_rule_lines(&mut out, &cfg.rule, Chain::Output);
    push_str(&mut out, "    udp dport 53 queue num 2 bypass\n");
    push_str(&mut out, "    ct state new log prefix \"guardit-out: \" queue num 1\n");
    push_str(&mut out, "  }\n");
    if cfg.filter_forwarded {
        push_forward(&mut out, &cfg.rule, block_dns, doh_v4, doh_v6);
    }
    push_str(&mut out, "}\n");
    assert(out@ =~= render_spec(
        *cfg,
        doh_v4@.map_values(|s: String| s@),
        doh_v6@.map_values(|s: String| s@),
    ));
    string_of(&out)
}


/// A rule's line names its own protocol: with a port, `udp dport <port>`
/// for a UDP rule and `tcp dport <port>` for a TCP rule or one for any
/// protocol (nft needs one to match a port); without a port, `udp` or
/// `tcp` alone, and nothing for any protocol. The peer match comes before
/// it and the verdict, `accept` or `drop`, after.
pub proof fn lemma_rule_line_names_its_protocol(r: Rule, c: Chain)
    ensures
        r.port is Some && r.proto == Proto::Udp ==> rule_line_spec(r, c) == "    "@ + src_part(r, c)
            + "udp dport "@ + decimal(r.port.unwrap() as nat) + " "@ + verdict_word(r.action),
        r.port is Some && r.proto != Proto::Udp ==> rule_line_spec(r, c) == "    "@ + src_part(r, c)
            + "tcp dport "@ + decimal(r.port.unwrap() as nat) + " "@ + verdict_word(r.action),
        r.port is None && r.proto == Proto::Udp ==> rule_line_spec(r, c) == "    "@ + src_part(r, c) + "udp "@
            + verdict_word(r.action),
        r.port is None && r.proto == Proto::Tcp ==> rule_line_spec(r, c) == "    "@ + src_part(r, c) + "tcp "@
            + verdict_word(r.action),
        r.port is None && r.proto == Proto::Any ==> rule_line_spec(r, c) == "    "@ + src_part(r, c)
            + verdict_word(r.action),
        r.src@ == "any"@ ==> src_part(r, c) == Seq::<char>::empty(),
        verdict_word(r.action) == (if r.action == Action::Allow { "accept"@ } else { "drop"@ }),
{
    reveal_strlit("udp");
    reveal_strlit("tcp");
    reveal_strlit(" dport ");
    reveal_strlit("udp dport ");
    reveal_strlit("tcp dport ");
    reveal_strlit("udp ");
    reveal_strlit("tcp ");
    reveal_strlit(" ");
    if let Some(p) = r.port {
        let d = decimal(p as nat);
        assert("udp"@ + " dport "@ + d + " "@ =~= "udp dport "@ + d + " "@);
        assert("tcp"@ + " dport "@ + d + " "@ =~= "tcp dport "@ + d + " "@);
    }
    assert(r.port is None && r.proto == Proto::Any ==> "    "@ + src_part(r, c) + Seq::<char>::empty()
        + verdict_word(r.action) =~= "    "@ + src_part(r, c) + verdict_word(r.action));
}

} // verus!
