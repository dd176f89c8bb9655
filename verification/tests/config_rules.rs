use guardit::address::{check_src, src_address, IpFamily};
use guardit::config::{
    blocked_log_path, history_log_path, host_matches, match_rule, match_rule_at, now_ts,
    sibling_file, validate_host, Action, AppRule, Config, Direction, Proto, Rule,
};

fn rule(exe: &str, port: Option<u16>, action: Action) -> AppRule {
    AppRule {
        id: 0,
        exe: exe.into(),
        port,
        direction: None,
        action,
        enabled: true,
        expires: None,
        fingerprint: None,
        host: None,
    }
}

fn m<'a>(
    rules: &'a [AppRule],
    exe: &str,
    port: Option<u16>,
    dir: Option<Direction>,
) -> Option<&'a AppRule> {
    match_rule(rules, exe, port, dir, None)
}

fn act(r: Option<&AppRule>) -> Option<Action> {
    r.map(|r| r.action)
}

#[test]
fn port_override_wins_over_whole_app_default_only_for_its_port() {
    let rules = vec![
        rule("/usr/bin/a", None, Action::Allow),
        rule("/usr/bin/a", Some(443), Action::Deny),
    ];
    assert_eq!(act(m(&rules, "/usr/bin/a", Some(443), None)), Some(Action::Deny));
    assert_eq!(
        act(m(&rules, "/usr/bin/a", Some(80), None)),
        Some(Action::Allow),
        "other ports keep the app default"
    );
    assert_eq!(act(m(&rules, "/usr/bin/b", Some(443), None)), None);
}

#[test]
fn port_rule_alone_leaves_other_ports_unruled() {
    let rules = vec![rule("/usr/bin/a", Some(443), Action::Deny)];
    assert_eq!(
        act(m(&rules, "/usr/bin/a", Some(53), None)),
        None,
        "denying one port must not deny the app"
    );
}

#[test]
fn host_pattern_covers_subdomains_and_the_apex() {
    assert!(host_matches("*.foo.com", Some("a.foo.com")));
    assert!(host_matches("*.foo.com", Some("deep.a.foo.com")));
    assert!(host_matches("*.foo.com", Some("foo.com")), "apex included");
    assert!(host_matches("*.foo.com", Some("FOO.COM")), "case-insensitive");
    assert!(host_matches("*.foo.com", Some("foo.com.")), "trailing dot");
    assert!(!host_matches("*.foo.com", Some("evilfoo.com")));
    assert!(!host_matches("*.foo.com", Some("foo.com.evil.net")));
    assert!(!host_matches("foo.com", Some("a.foo.com")), "exact means exact");
    assert!(!host_matches("*.foo.com", None), "unresolved peer matches nothing");
}

#[test]
fn host_rule_beats_port_rule_but_only_for_that_host() {
    let mut blocked = rule("/usr/bin/a", None, Action::Deny);
    blocked.host = Some("*.ads.net".into());
    let rules = vec![rule("/usr/bin/a", Some(443), Action::Allow), blocked];
    assert_eq!(
        act(match_rule(&rules, "/usr/bin/a", Some(443), None, Some("tracker.ads.net"))),
        Some(Action::Deny),
        "the host rule survives the broader port allow"
    );
    assert_eq!(
        act(match_rule(&rules, "/usr/bin/a", Some(443), None, Some("github.com"))),
        Some(Action::Allow)
    );
    assert_eq!(
        act(match_rule(&rules, "/usr/bin/a", Some(443), None, None)),
        Some(Action::Allow),
        "an unresolved peer falls through to the port rule"
    );
}

#[test]
fn host_rule_alone_leaves_other_hosts_unruled() {
    let mut r = rule("/usr/bin/a", None, Action::Deny);
    r.host = Some("*.ads.net".into());
    assert_eq!(
        act(match_rule(&[r], "/usr/bin/a", Some(443), None, Some("github.com"))),
        None,
        "denying one domain must not deny the app"
    );
}

#[test]
fn host_must_be_a_hostname_or_wildcard() {
    for ok in ["example.com", "*.example.com", "a-b_c.example.com", "localhost"] {
        assert!(validate_host(ok).is_ok(), "{ok}");
    }
    for bad in ["", "*.", "*", "ex ample.com", "a//b", "a..b", ".example.com", "http://x"] {
        assert!(validate_host(bad).is_err(), "{bad}");
    }
}

#[test]
fn expired_rule_does_not_match() {
    let mut r = rule("/usr/bin/a", None, Action::Allow);
    r.expires = Some(now_ts() - 1);
    assert_eq!(act(m(&[r.clone()], "/usr/bin/a", Some(80), None)), None);
    r.expires = Some(now_ts() + 60);
    assert_eq!(act(m(&[r], "/usr/bin/a", Some(80), None)), Some(Action::Allow));
}

#[test]
fn directional_rule_beats_both_ways_rule_only_for_its_direction() {
    let mut out_only = rule("/usr/bin/a", Some(443), Action::Deny);
    out_only.direction = Some(Direction::Out);
    let rules = vec![rule("/usr/bin/a", Some(443), Action::Allow), out_only];
    assert_eq!(
        act(m(&rules, "/usr/bin/a", Some(443), Some(Direction::Out))),
        Some(Action::Deny)
    );
    assert_eq!(
        act(m(&rules, "/usr/bin/a", Some(443), Some(Direction::In))),
        Some(Action::Allow)
    );
    let mut app_in = rule("/usr/bin/a", None, Action::Deny);
    app_in.direction = Some(Direction::In);
    let rules = vec![rule("/usr/bin/a", Some(22), Action::Allow), app_in];
    assert_eq!(
        act(m(&rules, "/usr/bin/a", Some(22), Some(Direction::In))),
        Some(Action::Allow)
    );
}

/// the family `str::parse::<IpAddr>` finds, for the handful of addresses
/// used below
fn family(addr: &str) -> Option<IpFamily> {
    match addr {
        "10.0.0.1" | "192.168.1.0" | "0.0.0.0" | "1.2.3.4" => Some(IpFamily::V4),
        "fd00::1" | "fd00::" => Some(IpFamily::V6),
        _ => None,
    }
}

fn validate_src(src: &str) -> Result<(), String> {
    check_src(src, family(&src_address(src)))
}

#[test]
fn src_must_be_any_ip_or_cidr() {
    for ok in ["any", "10.0.0.1", "192.168.1.0/24", "fd00::1", "fd00::/64", "0.0.0.0/0"] {
        assert!(validate_src(ok).is_ok(), "{ok}");
    }
    for bad in ["", "lan", "10.0.0.1/33", "fd00::/129", "1.2.3.4 accept", "1.2.3", "10.0.0.0/"] {
        assert!(validate_src(bad).is_err(), "{bad}");
    }
    assert_eq!(
        validate_src("10.0.0.1/33").unwrap_err(),
        "bad prefix in \"10.0.0.1/33\": want /0../32"
    );
    assert_eq!(
        validate_src("lan").unwrap_err(),
        "bad source \"lan\": want any, an ip, or ip/prefix"
    );
}

#[test]
fn the_most_specific_rule_decides_and_the_last_of_equals() {
    let rules = vec![
        rule("/usr/bin/a", Some(443), Action::Allow),
        rule("/usr/bin/a", Some(443), Action::Deny),
    ];
    assert_eq!(act(match_rule_at(&rules, "/usr/bin/a", Some(443), None, None, 0)), Some(Action::Deny));
    let mut off = rule("/usr/bin/a", None, Action::Deny);
    off.enabled = false;
    assert_eq!(act(match_rule_at(&[off], "/usr/bin/a", Some(1), None, None, 0)), None);
}

#[test]
fn a_fresh_config_holds_nothing_and_denies_by_default() {
    let c = Config::default();
    assert!(c.rule.is_empty() && c.app_rule.is_empty());
    assert_eq!(c.default_verdict, Action::Deny);
    assert_eq!(c.pending_timeout_secs, 25);
    assert!(!c.blocklist.enabled && c.blocklist.block_encrypted_dns);
    assert_eq!(c.next_app_id(), 1);
    assert_eq!(c.next_id(), 1);
}

#[test]
fn the_logs_sit_beside_the_config() {
    assert_eq!(history_log_path(), "/etc/guardit/history.jsonl");
    assert_eq!(blocked_log_path(), "/etc/guardit/blocked.jsonl");
    assert_eq!(sibling_file("/a/b/c.toml", "d.json"), "/a/b/d.json");
    assert_eq!(sibling_file("c.toml", "d.json"), "d.json");
    assert_eq!(sibling_file("/c.toml", "d.json"), "/d.json");
}

#[test]
fn ids_count_on_from_the_largest_and_the_last_one_is_seen() {
    let mut c = Config::default();
    assert_eq!((c.largest_id(), c.largest_app_id()), (0, 0));
    for id in [3, 9, 4] {
        c.rule.push(Rule { id, action: Action::Allow, proto: Proto::Tcp, src: "any".into(), port: None, direction: None, enabled: true });
        let mut a = rule("/usr/bin/a", None, Action::Deny);
        a.id = id * 2;
        c.app_rule.push(a);
    }
    assert_eq!((c.largest_id(), c.next_id()), (9, 10));
    assert_eq!((c.largest_app_id(), c.next_app_id()), (18, 19));
    c.rule[1].id = u32::MAX;
    assert_eq!(c.largest_id(), u32::MAX, "no id left to give");
}
