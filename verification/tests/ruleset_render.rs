use guardit::config::{Action, Config, Direction, Proto, Rule};
use guardit::ruleset::{render, LOCAL_ANSWER_MARK, QUEUE_DNS, QUEUE_FWD, QUEUE_IN, QUEUE_OUT};

fn rule(action: Action, proto: Proto, src: &str, port: Option<u16>) -> Rule {
    Rule { id: 1, action, proto, src: src.into(), port, direction: None, enabled: true }
}

fn render_cfg(cfg: &Config) -> String {
    render(cfg, &[], &[])
}

#[test]
fn allow_with_src_and_port() {
    let cfg = Config {
        rule: vec![rule(Action::Allow, Proto::Tcp, "192.168.1.0/24", Some(22))],
        ..Config::default()
    };
    let out = render_cfg(&cfg);
    assert!(out.contains("ip saddr 192.168.1.0/24 tcp dport 22 accept"));
    assert!(out.contains("ip daddr 192.168.1.0/24 tcp dport 22 accept"), "the peer, both ways");
}

#[test]
fn deny_any_any_drops_everything() {
    let cfg = Config { rule: vec![rule(Action::Deny, Proto::Any, "any", None)], ..Config::default() };
    let out = render_cfg(&cfg);
    assert!(out.contains("drop"));
    assert!(!out.contains("saddr"));
}

#[test]
fn disabled_rule_is_skipped() {
    let mut r = rule(Action::Allow, Proto::Any, "any", None);
    r.enabled = false;
    let cfg = Config { rule: vec![r], ..Config::default() };
    let out = render_cfg(&cfg);
    let input_chain = out.split("chain output").next().unwrap();
    assert_eq!(input_chain.matches("accept").count(), 2);
}

#[test]
fn ipv6_src_uses_ip6_saddr() {
    let cfg = Config {
        rule: vec![rule(Action::Allow, Proto::Tcp, "fd00::1/64", Some(22))],
        ..Config::default()
    };
    let out = render_cfg(&cfg);
    assert!(out.contains("ip6 saddr fd00::1/64 tcp dport 22 accept"));
}

#[test]
fn forwarded_traffic_is_untouched_unless_asked_for_and_never_fails_closed() {
    let mut cfg = Config::default();
    cfg.rule.push(rule(Action::Deny, Proto::Tcp, "any", Some(23)));
    assert!(!render_cfg(&cfg).contains("hook forward"));
    cfg.filter_forwarded = true;
    let out = render_cfg(&cfg);
    let chain = out.split("chain forward").nth(1).unwrap();
    assert!(chain.contains("policy accept;"), "must never default-drop");
    assert!(chain.contains(&format!("queue num {QUEUE_FWD} bypass")));
    assert!(chain.contains("tcp dport 23 drop"), "the ip rules apply here too");
    assert!(chain.contains(&format!("udp sport 53 queue num {QUEUE_DNS} bypass")));
    assert!(chain.contains(&format!("udp dport 53 queue num {QUEUE_DNS} bypass")));
}

#[test]
fn encrypted_dns_is_only_refused_when_asked_for() {
    let mut cfg = Config::default();
    assert!(!render_cfg(&cfg).contains("853"));
    cfg.blocklist.enabled = true;
    cfg.blocklist.block_encrypted_dns = true;
    let out = render_cfg(&cfg);
    assert!(out.contains("tcp dport 853 reject with tcp reset\n"));
    assert!(out.contains("udp dport 853 reject\n"));
    let chain = out.split("chain output").nth(1).unwrap();
    assert!(!chain.contains("853 drop"));
    cfg.blocklist.block_encrypted_dns = false;
    assert!(!render_cfg(&cfg).contains("853"));
}

#[test]
fn queue_line_present_in_both_chains_without_bypass() {
    let cfg = Config { rule: vec![], ..Config::default() };
    let out = render_cfg(&cfg);
    assert!(out.contains(&format!("queue num {QUEUE_IN}\n")));
    for line in out.lines().filter(|l| l.contains("bypass")) {
        assert!(line.contains("sport 53") || line.contains("dport 53"), "unexpected bypass: {line}");
    }
    assert!(out.contains(&format!("queue num {QUEUE_OUT}\n")));
    assert_eq!(out.matches("bypass").count(), 3);
    assert!(out.contains(&format!("udp sport 53 queue num {QUEUE_DNS} bypass\n")));
    let dns = out.find("sport 53").unwrap();
    let lo = out.find("iif lo accept").unwrap();
    assert!(dns < lo, "DNS tap must see local-resolver replies on lo");
}

#[test]
fn queue_line_comes_after_ip_rules_in_input_chain() {
    let cfg = Config { rule: vec![rule(Action::Deny, Proto::Tcp, "1.2.3.4", None)], ..Config::default() };
    let out = render_cfg(&cfg);
    let input_chain = out.split("chain output").next().unwrap();
    let rule_pos = input_chain.find("1.2.3.4 tcp drop").unwrap();
    let queue_pos = input_chain.find(&format!("queue num {QUEUE_IN}")).unwrap();
    assert!(rule_pos < queue_pos, "ip rule must be evaluated before the queue fallback");
}

#[test]
fn port_without_explicit_proto_defaults_tcp() {
    let cfg = Config { rule: vec![rule(Action::Allow, Proto::Any, "any", Some(443))], ..Config::default() };
    let out = render_cfg(&cfg);
    assert!(out.contains("tcp dport 443 accept"));
}

#[test]
fn a_directional_rule_lands_only_in_its_own_chain() {
    let mut r = rule(Action::Deny, Proto::Tcp, "any", Some(25));
    r.direction = Some(Direction::Out);
    let cfg = Config { rule: vec![r], ..Config::default() };
    let out = render_cfg(&cfg);
    let (input, output) = out.split_once("chain output").unwrap();
    assert!(!input.contains("dport 25"));
    assert!(output.contains("tcp dport 25 drop"));
}

#[test]
fn the_doh_addresses_become_sets_and_refusals() {
    let mut cfg = Config::default();
    cfg.blocklist.enabled = true;
    let out = render(&cfg, &["1.1.1.1".to_string(), "8.8.8.8".to_string()], &[]);
    assert!(out.contains("  set doh4 { type ipv4_addr; elements = { 1.1.1.1, 8.8.8.8 } }\n"));
    assert!(!out.contains("doh6"), "an empty family is left out");
    assert!(out.contains("    ip daddr @doh4 tcp dport 443 reject with tcp reset\n"));
}

#[test]
fn the_daemons_own_answers_leave_before_the_query_tap_and_the_queue() {
    let out = render_cfg(&Config::default());
    let (input, output) = out.split_once("chain output").unwrap();
    let line = format!("meta mark {LOCAL_ANSWER_MARK:#x} accept");
    assert!(!input.contains("meta mark"), "coming back in, the tap itself lets them by");
    let mark = output.find(&line).unwrap();
    assert!(mark < output.find("udp dport 53 queue").unwrap());
    assert!(mark < output.find("ct state new").unwrap());
}
