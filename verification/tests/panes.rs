use guardit::config::{Action, AppRule, Direction};
use guardit::ipc::{ClientMsg, FlowStatus, FlowWire, ListenEntry};
use guardit::panes::{
    app_decision, app_rows, cascade, flow_indices, host_decision, port_decision, prepend_older,
    row_decision, shown_ports, Scope,
};
use guardit::procnet::{net_interfaces, net_totals};

fn row(exe: &str, port: u16, name: Option<&str>, status: FlowStatus, req_id: Option<u32>, ts: u64) -> FlowWire {
    FlowWire {
        req_id,
        exe: exe.into(),
        direction: Direction::Out,
        proto: "tcp".into(),
        port: Some(port),
        peer_ip: "1.2.3.4".into(),
        peer_name: name.map(|n| n.into()),
        status,
        denied_by: None,
        why: None,
        ts,
    }
}

fn app_rule(id: u32, exe: &str, port: Option<u16>, action: Action) -> AppRule {
    AppRule {
        id,
        exe: exe.into(),
        port,
        direction: None,
        action,
        enabled: true,
        expires: None,
        fingerprint: None,
        host: None,
    }
}

fn listen(proto: &str, addr: &str, port: u16, exe: &str) -> ListenEntry {
    ListenEntry { proto: proto.into(), addr: addr.into(), port, exe: exe.into() }
}

#[test]
fn a_whole_app_verdict_flips_every_row_of_the_app_and_answers_what_is_held() {
    let mut flow = vec![
        row("/usr/bin/a", 443, None, FlowStatus::Pending, Some(7), 1),
        row("/usr/bin/b", 443, None, FlowStatus::Pending, Some(8), 2),
        row("/usr/bin/a", 80, None, FlowStatus::Denied, None, 3),
        row("/usr/bin/a", 53, None, FlowStatus::Pending, Some(9), 4),
    ];
    let held = cascade(&mut flow, &Scope::App { exe: "/usr/bin/a".into() }, Action::Allow);
    assert_eq!(held, vec![7, 9]);
    assert_eq!(flow[0].status, FlowStatus::Allowed);
    assert_eq!(flow[1].status, FlowStatus::Pending, "another app is left alone");
    assert_eq!(flow[2].status, FlowStatus::Allowed);
    assert_eq!(flow[3].status, FlowStatus::Allowed);
}

#[test]
fn a_row_verdict_covers_only_its_port_and_peer_name() {
    let mut flow = vec![
        row("/usr/bin/curl", 53, Some("ads.example.com"), FlowStatus::Allowed, None, 1),
        row("/usr/bin/curl", 53, Some("example.org"), FlowStatus::Allowed, None, 2),
        row("/usr/bin/curl", 443, Some("ads.example.com"), FlowStatus::Allowed, None, 3),
    ];
    let (msg, scope) = row_decision(&flow[0], Action::Deny).unwrap();
    match msg {
        ClientMsg::SetAppRule { exe, port, direction, action, expires, host } => {
            assert_eq!(exe, "/usr/bin/curl");
            assert_eq!(port, Some(53));
            assert_eq!(direction, Some(Direction::Out));
            assert_eq!(action, Action::Deny);
            assert_eq!(expires, None);
            assert_eq!(host.as_deref(), Some("ads.example.com"));
        }
        other => panic!("unexpected {other:?}"),
    }
    let held = cascade(&mut flow, &scope, Action::Deny);
    assert!(held.is_empty());
    assert_eq!(flow[0].status, FlowStatus::Denied);
    assert_eq!(flow[1].status, FlowStatus::Allowed, "another name on the same port");
    assert_eq!(flow[2].status, FlowStatus::Allowed, "the same name on another port");
}

#[test]
fn a_held_row_is_answered_and_one_without_an_id_is_left() {
    let held = row("/usr/bin/a", 22, None, FlowStatus::Pending, Some(41), 0);
    match row_decision(&held, Action::Allow) {
        Some((ClientMsg::Decide { req_id, verdict }, _)) => {
            assert_eq!(req_id, 41);
            assert_eq!(verdict, Action::Allow);
        }
        other => panic!("unexpected {other:?}"),
    }
    let lost = row("/usr/bin/a", 22, None, FlowStatus::Pending, None, 0);
    assert!(row_decision(&lost, Action::Allow).is_none());
}

#[test]
fn a_host_verdict_needs_a_name_and_covers_every_port() {
    let nameless = row("/usr/bin/a", 443, None, FlowStatus::Allowed, None, 0);
    assert!(host_decision(&nameless, Action::Deny).is_none());
    let mut flow = vec![
        row("/usr/bin/a", 443, Some("t.example"), FlowStatus::Allowed, None, 0),
        row("/usr/bin/a", 80, Some("t.example"), FlowStatus::Allowed, None, 1),
        row("/usr/bin/a", 80, Some("u.example"), FlowStatus::Allowed, None, 2),
    ];
    let (msg, scope) = host_decision(&flow[0], Action::Deny).unwrap();
    match msg {
        ClientMsg::SetAppRule { port, direction, host, .. } => {
            assert_eq!(port, None);
            assert_eq!(direction, None);
            assert_eq!(host.as_deref(), Some("t.example"));
        }
        other => panic!("unexpected {other:?}"),
    }
    cascade(&mut flow, &scope, Action::Deny);
    assert_eq!(flow[0].status, FlowStatus::Denied);
    assert_eq!(flow[1].status, FlowStatus::Denied);
    assert_eq!(flow[2].status, FlowStatus::Allowed);
}

#[test]
fn whole_app_and_listening_port_decisions_carry_their_scope() {
    match app_decision("/usr/bin/a", Action::Allow) {
        (ClientMsg::SetAppRule { exe, port: None, direction: None, host: None, .. }, Scope::App { exe: s }) => {
            assert_eq!(exe, "/usr/bin/a");
            assert_eq!(s, "/usr/bin/a");
        }
        other => panic!("unexpected {other:?}"),
    }
    match port_decision(&listen("tcp", "0.0.0.0", 8080, "/usr/bin/srv"), Action::Deny) {
        (ClientMsg::SetAppRule { port, direction, action, .. }, Scope::Port { dir, .. }) => {
            assert_eq!(port, Some(8080));
            assert_eq!(direction, Some(Direction::In));
            assert_eq!(action, Action::Deny);
            assert_eq!(dir, Direction::In);
        }
        other => panic!("unexpected {other:?}"),
    }
}

#[test]
fn an_apps_rows_are_listed_newest_first() {
    let flow = vec![
        row("/usr/bin/a", 1, None, FlowStatus::Allowed, None, 0),
        row("/usr/bin/b", 2, None, FlowStatus::Allowed, None, 0),
        row("/usr/bin/a", 3, None, FlowStatus::Allowed, None, 0),
    ];
    assert_eq!(flow_indices(&flow, "/usr/bin/a"), vec![2, 0]);
    assert!(flow_indices(&flow, "/usr/bin/c").is_empty());
}

#[test]
fn earlier_history_goes_in_front_without_doubling_up() {
    let mut flow = vec![
        row("/usr/bin/b", 1, None, FlowStatus::Allowed, None, 50),
        row("/usr/bin/a", 2, None, FlowStatus::Allowed, None, 100),
    ];
    let disk = vec![
        row("/usr/bin/a", 3, None, FlowStatus::Allowed, None, 90),
        row("/usr/bin/a", 4, None, FlowStatus::Allowed, None, 100),
    ];
    prepend_older(&mut flow, "/usr/bin/a", disk);
    let ports: Vec<Option<u16>> = flow.iter().map(|e| e.port).collect();
    assert_eq!(ports, vec![Some(3), Some(1), Some(2)]);
}

#[test]
fn apps_are_listed_by_name_each_with_its_whole_app_rule_and_narrower_ones_counted() {
    let mut host_rule = app_rule(4, "/usr/bin/zed", None, Action::Deny);
    host_rule.host = Some("t.example".into());
    let rules = vec![
        host_rule,
        app_rule(1, "/usr/bin/zed", None, Action::Allow),
        app_rule(2, "/usr/bin/curl", Some(443), Action::Deny),
        app_rule(3, "/usr/bin/curl", Some(80), Action::Deny),
    ];
    let flow = vec![
        row("/usr/bin/wget", 443, None, FlowStatus::Pending, Some(1), 0),
        row("/usr/bin/apt", 443, None, FlowStatus::Pending, Some(2), 0),
        row("/usr/bin/zed", 443, None, FlowStatus::Allowed, None, 0),
    ];
    let rows = app_rows(&rules, &flow, "");
    let names: Vec<&str> = rows.iter().map(|r| r.exe.as_str()).collect();
    assert_eq!(names, vec!["/usr/bin/apt", "/usr/bin/curl", "/usr/bin/wget", "/usr/bin/zed"]);
    assert!(rows[0].rule.is_none() && rows[0].port_overrides == 0);
    assert!(rows[1].rule.is_none());
    assert_eq!(rows[1].port_overrides, 2);
    assert_eq!(rows[3].rule.as_ref().map(|r| r.id), Some(1), "a host rule is not the whole app's");
    assert_eq!(rows[3].port_overrides, 1);
}

#[test]
fn the_apps_filter_ignores_case() {
    let flow = vec![
        row("/usr/bin/Firefox", 443, None, FlowStatus::Pending, Some(1), 0),
        row("/usr/bin/curl", 443, None, FlowStatus::Pending, Some(2), 0),
    ];
    let rows = app_rows(&[], &flow, "FIRE");
    assert_eq!(rows.len(), 1);
    assert_eq!(rows[0].exe, "/usr/bin/Firefox");
}

#[test]
fn listening_ports_sort_by_protocol_port_and_address_and_ties_keep_their_order() {
    let all = vec![
        listen("udp", "0.0.0.0", 53, "/usr/bin/resolved"),
        listen("tcp", "127.0.0.1", 631, "/usr/sbin/cupsd"),
        listen("tcp", "0.0.0.0", 22, "/usr/sbin/sshd-2"),
        listen("tcp", "0.0.0.0", 22, "/usr/sbin/sshd-1"),
        listen("tcp", "::", 22, "/usr/sbin/sshd"),
    ];
    let shown = shown_ports(&all, None, "");
    let order: Vec<(&str, u16, &str)> =
        shown.iter().map(|e| (e.proto.as_str(), e.port, e.exe.as_str())).collect();
    assert_eq!(
        order,
        vec![
            ("tcp", 22, "/usr/sbin/sshd-2"),
            ("tcp", 22, "/usr/sbin/sshd-1"),
            ("tcp", 22, "/usr/sbin/sshd"),
            ("tcp", 631, "/usr/sbin/cupsd"),
            ("udp", 53, "/usr/bin/resolved"),
        ]
    );
}

#[test]
fn a_numeric_listening_filter_is_a_whole_port_and_text_is_address_or_owner() {
    let all = vec![
        listen("tcp", "0.0.0.0", 22, "/usr/sbin/sshd"),
        listen("tcp", "0.0.0.0", 2222, "/usr/bin/other"),
        listen("udp", "127.0.0.53", 53, "/usr/lib/systemd/systemd-resolved"),
    ];
    assert_eq!(shown_ports(&all, None, "22").len(), 1);
    assert_eq!(shown_ports(&all, None, "127.0").len(), 1);
    assert_eq!(shown_ports(&all, None, "SSHD").len(), 1);
    assert_eq!(shown_ports(&all, Some("/usr/bin/other"), "").len(), 1);
    assert_eq!(shown_ports(&all, Some("/usr/bin/other"), "22").len(), 0);
}

const NET_DEV: &str = "Inter-|   Receive                                                |  Transmit
 face |bytes    packets errs drop fifo frame compressed multicast|bytes    packets errs drop fifo colls carrier compressed
    lo: 9000      10    0    0    0     0          0         0     9000      10    0    0    0     0       0          0
  eth0: 1000      20    0    0    0     0          0         0     2000      30    0    0    0     0       0          0
 wlan0: 500       5     0    0    0     0          0         0     700       7     0    0    0     0       0          0
";

#[test]
fn throughput_sums_every_interface_but_loopback() {
    assert_eq!(net_totals(NET_DEV), (1500, 2700));
    assert_eq!(net_interfaces(NET_DEV), vec!["eth0".to_string(), "wlan0".to_string()]);
    assert_eq!(net_totals(""), (0, 0));
    assert!(net_interfaces("only one header\n").is_empty());
}
