use guardit::state::tail_matching;
use guardit::blocked::{blocklist_stats, BlockedLog};
use guardit::blocklist::Blocklist;
use guardit::config::{match_rule_at, Action, AppRule, BlocklistConfig, Direction};
use guardit::ipc::{Blocked, DeniedBy, FlowStatus, FlowWire};
use guardit::net::Ip;
use guardit::state::{
    push_history, remove_app_rules, resolve_history, ruled, sweep_expired, toggle_app_rule,
    upsert_rule, HISTORY_CAP,
};
use guardit::auto::{Decision, Fallback};
use guardit::tap::{
    after_ask, consults_auto, dns_decide, first_step, packet_plan, plan_verdict, policy_refusal, DnsAct, Plan, Step,
};

fn rule(id: u32, exe: &str, port: Option<u16>, action: Action) -> AppRule {
    AppRule {
        id,
        exe: exe.into(),
        port,
        direction: None,
        action,
        enabled: true,
        expires: None,
        fingerprint: None,
        host: None,
    }
}

fn flow(req_id: Option<u32>, ts: u64) -> FlowWire {
    FlowWire {
        req_id,
        exe: "/usr/bin/a".into(),
        direction: Direction::Out,
        proto: "tcp".into(),
        port: Some(443),
        peer_ip: "1.2.3.4".into(),
        peer_name: None,
        status: FlowStatus::Pending,
        denied_by: None,
        why: None,
        ts,
    }
}

#[test]
fn a_whole_app_answer_replaces_every_rule_of_the_app() {
    let mut rules = vec![
        rule(1, "/usr/bin/a", None, Action::Deny),
        rule(2, "/usr/bin/a", Some(443), Action::Deny),
        rule(7, "/usr/bin/b", None, Action::Allow),
    ];
    upsert_rule(&mut rules, "/usr/bin/a", None, None, Action::Allow, None, None, None);
    assert_eq!(rules.len(), 2);
    assert_eq!(rules[0].exe, "/usr/bin/b");
    assert_eq!((rules[1].id, rules[1].action), (8, Action::Allow), "next free id");
    let r = match_rule_at(&rules, "/usr/bin/a", Some(443), Some(Direction::Out), None, 0).unwrap();
    assert_eq!(r.action, Action::Allow, "and it decides every port now");
}

#[test]
fn a_per_port_answer_replaces_only_its_own_key() {
    let mut rules = vec![
        rule(1, "/usr/bin/a", None, Action::Deny),
        rule(2, "/usr/bin/a", Some(443), Action::Deny),
    ];
    upsert_rule(&mut rules, "/usr/bin/a", Some(443), None, Action::Allow, Some(99), None, None);
    assert_eq!(rules.len(), 2, "the app default stays");
    assert_eq!(rules[0].id, 1);
    assert_eq!((rules[1].id, rules[1].port, rules[1].expires), (2, Some(443), Some(99)));
    upsert_rule(&mut rules, "/usr/bin/a", Some(80), Some(Direction::Out), Action::Deny, None, None, None);
    assert_eq!(rules.len(), 3, "another port is another key");
}

#[test]
fn a_changed_binary_is_asked_again() {
    let mut r = rule(1, "/usr/bin/a", None, Action::Allow);
    r.fingerprint = Some("10:100".into());
    let rules = vec![r];
    assert_eq!(
        ruled(&rules, "/usr/bin/a", 443, Direction::Out, None, 0, &Some("10:100".into())),
        Some(Action::Allow)
    );
    assert_eq!(ruled(&rules, "/usr/bin/a", 443, Direction::Out, None, 0, &Some("11:100".into())), None);
    assert_eq!(ruled(&rules, "/usr/bin/a", 443, Direction::Out, None, 0, &None), None, "gone");
    assert_eq!(ruled(&rules, "/usr/bin/b", 443, Direction::Out, None, 0, &None), None);
}

#[test]
fn expired_rules_are_swept_and_nothing_else() {
    let mut old = rule(1, "/usr/bin/a", None, Action::Allow);
    old.expires = Some(10);
    let rules = vec![old, rule(2, "/usr/bin/b", None, Action::Deny)];
    assert!(sweep_expired(&rules, 5).is_none(), "nothing expired yet");
    let left = sweep_expired(&rules, 10).unwrap();
    assert_eq!(left.len(), 1);
    assert_eq!(left[0].id, 2);
}

#[test]
fn toggling_and_forgetting_rules() {
    let mut rules = vec![rule(1, "/usr/bin/a", None, Action::Allow), rule(2, "/usr/bin/b", None, Action::Deny)];
    toggle_app_rule(&mut rules, 2);
    assert!(rules[0].enabled && !rules[1].enabled);
    toggle_app_rule(&mut rules, 9);
    assert!(rules[0].enabled && !rules[1].enabled, "no such id, no change");
    let left = remove_app_rules(&rules, "/usr/bin/a");
    assert_eq!(left.len(), 1);
    assert_eq!(left[0].exe, "/usr/bin/b");
}

#[test]
fn the_history_keeps_the_newest_and_resolves_the_newest_ask() {
    let mut h: Vec<FlowWire> = Vec::new();
    for i in 0..(HISTORY_CAP as u64 + 5) {
        push_history(&mut h, flow(None, i));
    }
    assert_eq!(h.len(), HISTORY_CAP);
    assert_eq!(h[0].ts, 5, "the oldest went first");
    push_history(&mut h, flow(Some(7), 1000));
    push_history(&mut h, flow(Some(7), 1001));
    let done = resolve_history(&mut h, 7, FlowStatus::Denied).unwrap();
    assert_eq!((done.ts, done.status), (1001, FlowStatus::Denied));
    assert_eq!(h[h.len() - 1].status, FlowStatus::Denied);
    assert_eq!(h[h.len() - 2].status, FlowStatus::Pending, "only the newest");
    assert!(resolve_history(&mut h, 8, FlowStatus::Allowed).is_none());
}

#[test]
fn the_first_step_on_a_new_connection() {
    assert_eq!(first_step(false, false, true, Some(Action::Allow), Action::Deny), Step::Default(Action::Deny), "an unreadable packet fails closed");
    assert_eq!(first_step(false, true, true, None, Action::Deny), Step::Pass, "only debug lets it through");
    assert_eq!(first_step(true, true, true, None, Action::Deny), Step::Pass);
    assert_eq!(first_step(true, false, false, Some(Action::Allow), Action::Deny), Step::Default(Action::Deny));
    assert_eq!(first_step(true, false, true, Some(Action::Allow), Action::Deny), Step::Ruled(Action::Allow));
    assert_eq!(first_step(true, false, true, None, Action::Deny), Step::Ask);
    assert_eq!(after_ask(Some(Action::Allow), None, Action::Deny), (Action::Allow, true));
    assert_eq!(after_ask(Some(Action::Allow), Some(Action::Allow), Action::Deny), (Action::Allow, false));
    assert_eq!(after_ask(None, None, Action::Deny), (Action::Deny, false));
}

fn reply(name_labels: &[&str]) -> Vec<u8> {
    let mut dns = vec![0x12, 0x34, 0x81, 0x80, 0, 1, 0, 1, 0, 0, 0, 0];
    for label in name_labels {
        dns.push(label.len() as u8);
        dns.extend_from_slice(label.as_bytes());
    }
    dns.push(0);
    dns.extend_from_slice(&[0, 1, 0, 1]);
    dns.extend_from_slice(&[0xC0, 0x0C, 0, 1, 0, 1, 0, 0, 0, 60, 0, 4, 93, 184, 216, 34]);
    let udp_len = (8 + dns.len()) as u16;
    let total = 20 + udp_len;
    let mut p = vec![0x45, 0];
    p.extend_from_slice(&total.to_be_bytes());
    p.extend_from_slice(&[0, 0, 0, 0, 64, 17, 0, 0, 1, 1, 1, 1, 10, 0, 0, 2]);
    p.extend_from_slice(&53u16.to_be_bytes());
    p.extend_from_slice(&40000u16.to_be_bytes());
    p.extend_from_slice(&udp_len.to_be_bytes());
    p.extend_from_slice(&[0, 0]);
    p.extend_from_slice(&dns);
    p
}

#[test]
fn the_tap_answers_a_blocked_name_and_learns_the_rest() {
    let bl = Blocklist::from_names(&["ads.example.com"], &[]);
    match dns_decide(&reply(&["ads", "example", "com"]), &bl) {
        DnsAct::Nxdomain { name, reply, port, .. } => {
            assert_eq!(name, "ads.example.com");
            assert_eq!(port, 40000, "the asking socket");
            assert_eq!(reply[28 + 3] & 0x0F, 3);
        }
        other => panic!("{other:?}"),
    }
    match dns_decide(&reply(&["www", "example", "com"]), &bl) {
        DnsAct::Learn(name, ips) => {
            assert_eq!(name, "www.example.com");
            assert_eq!(ips.len(), 1);
        }
        other => panic!("{other:?}"),
    }
    assert!(matches!(dns_decide(&[0x45, 0, 0], &bl), DnsAct::Nothing));
}

#[test]
fn the_dashboard_counts_and_keeps_the_busiest_apps_first() {
    let mut log = BlockedLog::new();
    log.note_query();
    log.note_query();
    log.note_blocked("a.example", Some("/usr/bin/b".into()), 1);
    log.note_blocked("b.example", Some("/usr/bin/a".into()), 2);
    log.note_blocked("c.example", Some("/usr/bin/a".into()), 3);
    log.note_blocked("d.example", None, 4);
    let top = log.blocked_by_app(5);
    assert_eq!(top, vec![("/usr/bin/a".to_string(), 2), ("/usr/bin/b".to_string(), 1)]);
    assert_eq!(log.blocked_by_app(1).len(), 1);
    let recent = log.blocked_recent();
    assert_eq!(recent.len(), 4);
    assert_eq!(recent[3].name, "d.example", "newest last");
    let cfg = BlocklistConfig { enabled: true, categories: vec!["ads".into()], ..Default::default() };
    let stats = blocklist_stats(&cfg, &log, 123, &[Some(50)]);
    assert_eq!((stats.queries, stats.blocked, stats.domains), (2, 4, 123));
    assert_eq!(stats.sources, vec!["hagezi:pro"]);
    assert_eq!(stats.updated_at, Some(50));
    assert!(stats.enabled && stats.encrypted_dns_blocked);
    let never = blocklist_stats(&cfg, &log, 0, &[None]);
    assert_eq!(never.updated_at, None, "a list never fetched makes it unknown");
}

#[test]
fn the_recent_refusals_are_capped() {
    let mut log = BlockedLog::new();
    for i in 0..250u64 {
        log.note_blocked("x.example", None, i);
    }
    let recent = log.blocked_recent();
    assert_eq!(recent.len(), 200);
    assert_eq!(recent[0].ts, 50);
}

#[test]
fn the_audit_trail_is_the_newest_of_the_matching_apps() {
    let mut h = Vec::new();
    for i in 0..5u64 {
        let mut e = flow(None, i);
        if i % 2 == 0 {
            e.exe = "/usr/bin/curl".into();
        }
        h.push(e);
    }
    let all = tail_matching(h.clone(), 100, None);
    assert_eq!(all.len(), 5);
    let curl = tail_matching(h.clone(), 2, Some("curl"));
    assert_eq!(curl.iter().map(|e| e.ts).collect::<Vec<_>>(), vec![2, 4]);
    assert!(tail_matching(h, 3, Some("wget")).is_empty());
}

#[test]
fn a_refused_name_still_hands_over_the_addresses_it_resolved_to() {
    let bl = Blocklist::from_names(&["example.com"], &[]);
    match dns_decide(&reply(&["ads", "example", "com"]), &bl) {
        DnsAct::Nxdomain { name, ips, .. } => {
            assert_eq!(name, "ads.example.com");
            assert_eq!(ips, vec![Ip::V4([93, 184, 216, 34])]);
        }
        other => panic!("{other:?}"),
    }
}

#[test]
fn a_blocklisted_peer_is_refused_unless_a_rule_names_its_host() {
    let bl = Blocklist::from_names(&["tracker.example"], &[]);
    let none: Vec<AppRule> = vec![];
    let refused = policy_refusal(&none, "/usr/bin/app", 443, Direction::Out, &public(), Some("cdn.tracker.example"), &bl, false, 0);
    assert!(matches!(refused, Some(DeniedBy::Blocklist)));
    // a plain rule for the app does not lift it
    let plain = vec![rule(1, "/usr/bin/app", None, Action::Allow)];
    let refused = policy_refusal(&plain, "/usr/bin/app", 443, Direction::Out, &public(), Some("cdn.tracker.example"), &bl, false, 0);
    assert!(matches!(refused, Some(DeniedBy::Blocklist)));
    // a rule naming the host does
    let mut hosted = rule(2, "/usr/bin/app", None, Action::Allow);
    hosted.host = Some("*.tracker.example".into());
    let ok = policy_refusal(&[hosted], "/usr/bin/app", 443, Direction::Out, &public(), Some("cdn.tracker.example"), &bl, false, 0);
    assert!(ok.is_none());
    // a name not on the list passes
    assert!(policy_refusal(&none, "/usr/bin/app", 443, Direction::Out, &public(), Some("example.org"), &bl, false, 0).is_none());
}

#[test]
fn unresolved_https_is_refused_only_when_asked_for() {
    let bl = Blocklist::new();
    let none: Vec<AppRule> = vec![];
    let app = "/usr/bin/app";
    assert!(policy_refusal(&none, app, 443, Direction::Out, &public(), None, &bl, false, 0).is_none());
    assert!(matches!(
        policy_refusal(&none, app, 443, Direction::Out, &public(), None, &bl, true, 0),
        Some(DeniedBy::Unresolved)
    ));
    // a looked-up name, another port or inbound traffic are not concerned
    assert!(policy_refusal(&none, app, 443, Direction::Out, &public(), Some("example.org"), &bl, true, 0).is_none());
    assert!(policy_refusal(&none, app, 80, Direction::Out, &public(), None, &bl, true, 0).is_none());
    assert!(policy_refusal(&none, app, 443, Direction::In, &public(), None, &bl, true, 0).is_none());
    // DoT's port too, and only to a public address
    assert!(matches!(
        policy_refusal(&none, app, 853, Direction::Out, &public(), None, &bl, true, 0),
        Some(DeniedBy::Unresolved)
    ));
    assert!(policy_refusal(&none, app, 443, Direction::Out, &Ip::V4([192, 168, 1, 10]), None, &bl, true, 0).is_none());
    // a rule for the app on that port decides it
    let port_rule = vec![rule(3, app, Some(443), Action::Allow)];
    assert!(policy_refusal(&port_rule, app, 443, Direction::Out, &public(), None, &bl, true, 0).is_none());
}

#[test]
fn the_recent_refusals_are_read_back_newest_kept() {
    let from_disk: Vec<Blocked> = (0..260u64)
        .map(|i| Blocked { ts: i, name: format!("n{i}.example"), exe: None })
        .collect();
    let log = BlockedLog::seeded(from_disk);
    let recent = log.blocked_recent();
    assert_eq!(recent.len(), 200);
    assert_eq!(recent[0].ts, 60);
    assert_eq!(recent[199].name, "n259.example", "oldest first, newest last");
    assert_eq!((log.queries(), log.refused_count()), (0, 0), "this run counts afresh");
    assert!(log.blocked_by_app(5).is_empty());
    let few = BlockedLog::seeded(vec![Blocked { ts: 7, name: "a.example".into(), exe: Some("/usr/bin/x".into()) }]);
    assert_eq!(few.blocked_recent().len(), 1);
}

#[test]
fn a_held_packet_is_decided_refusal_first_then_rules_then_auto_then_ask() {
    let fact = Decision { action: Action::Deny, why: "binary gone from disk" };
    let b = Some(DeniedBy::Blocklist);
    // a policy refusal outranks a rule and auto mode
    assert!(matches!(packet_plan(Step::Ruled(Action::Allow), b, true, None, Fallback::Allow), Plan::Refused(DeniedBy::Blocklist)));
    assert!(matches!(packet_plan(Step::Ask, b, true, Some(fact), Fallback::Allow), Plan::Refused(DeniedBy::Blocklist)));
    // a rule outranks auto mode
    assert!(matches!(packet_plan(Step::Ruled(Action::Allow), None, true, Some(fact), Fallback::Deny), Plan::Ruled(Action::Allow)));
    // auto mode: its fact, else its fallback, unless that is to ask
    assert!(matches!(packet_plan(Step::Ask, None, true, Some(fact), Fallback::Allow), Plan::Auto(d) if d == fact));
    assert!(matches!(packet_plan(Step::Ask, None, true, None, Fallback::Allow), Plan::Fallback(Action::Allow)));
    assert!(matches!(packet_plan(Step::Ask, None, true, None, Fallback::Deny), Plan::Fallback(Action::Deny)));
    assert!(matches!(packet_plan(Step::Ask, None, true, None, Fallback::Ask), Plan::Ask));
    // auto mode off: ask, whatever it would have concluded
    assert!(matches!(packet_plan(Step::Ask, None, false, Some(fact), Fallback::Deny), Plan::Ask));
    // the first step's pass and default stand
    assert!(matches!(packet_plan(Step::Pass, b, true, None, Fallback::Deny), Plan::Pass));
    assert!(matches!(packet_plan(Step::Default(Action::Deny), None, true, None, Fallback::Allow), Plan::Default(Action::Deny)));
}

fn public() -> Ip {
    Ip::V4([93, 184, 216, 34])
}

#[test]
fn auto_mode_is_asked_only_about_what_nothing_else_decides() {
    assert!(consults_auto(Step::Ask, None, true));
    assert!(!consults_auto(Step::Ask, None, false));
    assert!(!consults_auto(Step::Ask, Some(DeniedBy::Blocklist), true));
    assert!(!consults_auto(Step::Ruled(Action::Allow), None, true));
    assert!(!consults_auto(Step::Default(Action::Deny), None, true));
    assert!(!consults_auto(Step::Pass, None, true));
}

#[test]
fn each_plan_gives_its_verdict() {
    let d = Decision { action: Action::Allow, why: "a fact" };
    assert_eq!(plan_verdict(&Plan::Pass), Some(Action::Allow));
    assert_eq!(plan_verdict(&Plan::Default(Action::Deny)), Some(Action::Deny));
    assert_eq!(plan_verdict(&Plan::Refused(DeniedBy::Unresolved)), Some(Action::Deny));
    assert_eq!(plan_verdict(&Plan::Ruled(Action::Allow)), Some(Action::Allow));
    assert_eq!(plan_verdict(&Plan::Auto(d)), Some(Action::Allow));
    assert_eq!(plan_verdict(&Plan::Fallback(Action::Deny)), Some(Action::Deny));
    assert_eq!(plan_verdict(&Plan::Ask), None);
}
