use guardit::tui::apply_preset_rules;
use guardit::address::{parse_spec, spec_peer_exec, src_address, IpFamily};
use guardit::config::{Action, AppRule, Direction, Proto};
use guardit::ipc::{Blocked, DeniedBy, FlowStatus, FlowWire};
use guardit::tui::{
    basename, bar_split, effective_status, follow_selection, group, in_tab, lists_label, log_row_matches,
    matching_presets, presets, selection_after_removal, share_tenths, step, trim_flow, Focus, Nav,
    FLOW_PER_APP,
};

fn demo_flow(port: u16, ip: &str, name: Option<&str>, exe: &str) -> FlowWire {
    FlowWire {
        req_id: None,
        exe: exe.into(),
        direction: Direction::Out,
        proto: "tcp".into(),
        port: Some(port),
        peer_ip: ip.into(),
        peer_name: name.map(|n| n.into()),
        status: FlowStatus::Allowed,
        denied_by: None,
        why: None,
        ts: 0,
    }
}

/// the address family of the few peers the catalogue uses
fn family_of(line: &str) -> Option<IpFamily> {
    let peer = spec_peer_exec(line)?;
    match src_address(&peer).as_str() {
        "192.168.0.0" | "10.0.0.0" | "172.16.0.0" | "169.254.0.0" => Some(IpFamily::V4),
        _ => None,
    }
}

#[test]
fn every_built_in_preset_parses() {
    for p in presets() {
        assert!(!p.specs.is_empty(), "preset {:?} does nothing", p.name);
        for spec in p.specs {
            let r = parse_spec(spec, family_of(spec));
            assert!(r.is_ok(), "preset {:?} spec {spec:?}: {:?}", p.name, r.unwrap_err());
        }
    }
}

#[test]
fn the_first_preset_allows_literally_everything() {
    let all = presets();
    let p = &all[0];
    assert_eq!(p.specs.len(), 1, "{}", p.name);
    let r = parse_spec(p.specs[0], None).expect("parses");
    assert_eq!(r.action, Action::Allow, "{}", p.name);
    assert_eq!(r.proto, Proto::Any, "{}", p.name);
    assert_eq!(r.src, "any", "{}", p.name);
    assert_eq!(r.port, None, "{}", p.name);
    assert_eq!(r.direction, None, "{}", p.name);
}

#[test]
fn every_preset_is_findable_by_its_own_group_and_name() {
    for p in presets() {
        assert!(
            ["off", "lan", "in", "out", "harden", "bundle"].contains(&p.group),
            "unknown group {:?} on {:?}",
            p.group,
            p.name
        );
        assert!(
            matching_presets(p.group).iter().any(|m| m.name == p.name),
            "{:?} is not reachable by typing its group",
            p.name
        );
        let word = p.name.split_whitespace().next().unwrap();
        assert!(
            matching_presets(word).iter().any(|m| m.name == p.name),
            "{:?} is not reachable by typing {word:?}",
            p.name
        );
    }
}

#[test]
fn filtering_is_case_insensitive_and_matches_the_note_too() {
    assert!(!matching_presets("SSH").is_empty());
    assert!(!matching_presets("ssh").is_empty());
    assert!(!matching_presets("spam").is_empty(), "a word only the notes use");
    assert!(matching_presets("zzzz").is_empty());
    assert_eq!(matching_presets("").len(), presets().len(), "no filter, no narrowing");
}

#[test]
fn a_bad_spec_says_what_is_wrong_first() {
    assert!(parse_spec("allow tcp any", None).unwrap_err().starts_with("format:"));
    assert_eq!(parse_spec("permit tcp any 22", None).unwrap_err(), "action must be allow|deny");
    assert_eq!(parse_spec("allow sctp any 22", None).unwrap_err(), "proto must be tcp|udp|any");
    assert_eq!(
        parse_spec("allow tcp lan 22", None).unwrap_err(),
        "bad source \"lan\": want any, an ip, or ip/prefix"
    );
    assert_eq!(parse_spec("allow tcp any 99999", None).unwrap_err(), "bad port");
    assert_eq!(
        parse_spec("allow tcp any 22 sideways", None).unwrap_err(),
        "direction must be in|out, or left off for both"
    );
    let r = parse_spec("deny udp 10.0.0.0/8 53 out", Some(IpFamily::V4)).unwrap();
    assert_eq!((r.action, r.proto, r.port, r.direction), (Action::Deny, Proto::Udp, Some(53), Some(Direction::Out)));
    assert_eq!(r.src, "10.0.0.0/8");
}

#[test]
fn no_route_through_the_tabs_leaves_you_without_a_way_back() {
    let mut nav = Nav { focus: Focus::Flow, prev_focus: Focus::Rules };
    nav.enter_tab(Focus::Blocking);
    nav.enter_tab(Focus::AppLog);
    nav.leave_tab();
    assert!(!in_tab(nav.focus), "stranded in a tab: {:?}", nav.focus);
    assert_eq!(nav.focus, Focus::Flow, "and back where you started");

    for first in [Focus::Blocking, Focus::AppLog] {
        for second in [Focus::Blocking, Focus::AppLog, Focus::Conflicts] {
            nav.focus = Focus::Rules;
            nav.enter_tab(first);
            nav.enter_tab(second);
            nav.leave_tab();
            assert!(!in_tab(nav.focus), "{first:?} then {second:?}");
            nav.leave_tab();
            assert!(!in_tab(nav.focus), "{first:?} then {second:?}, twice out");
        }
    }

    nav.focus = Focus::Blocking;
    nav.prev_focus = Focus::AppLog;
    nav.leave_tab();
    assert!(!in_tab(nav.focus));
}

#[test]
fn the_focus_rings_walk_the_grid_and_toggle_inside_a_tab() {
    assert_eq!(Focus::Rules.next(), Focus::Apps);
    assert_eq!(Focus::Flow.next(), Focus::Rules);
    assert_eq!(Focus::Apps.right(), Focus::Flow);
    assert_eq!(Focus::Rules.left(), Focus::Flow);
    assert_eq!(Focus::AppLog.next(), Focus::Conflicts);
    assert_eq!(Focus::BlockedNames.prev(), Focus::Blocking);
    assert_eq!(step(None, 3, false), Some(0));
    assert_eq!(step(Some(2), 3, false), Some(0));
    assert_eq!(step(Some(0), 3, true), Some(2));
    assert_eq!(step(Some(1), 0, false), None);
}

#[test]
fn lists_that_do_not_fit_shorten_to_the_first_and_a_count() {
    let keys: Vec<String> = vec!["a:one".into(), "b:two".into(), "c:three".into()];
    assert_eq!(lists_label(&keys, 80), "a:one, b:two, c:three");
    assert_eq!(lists_label(&keys, 10), "a:one +2");
    assert_eq!(lists_label(&keys, 5), "a:on…");
    assert_eq!(lists_label(&keys[..1], 4), "a:o…");
    assert_eq!(lists_label(&[], 10), "no list");
}

#[test]
fn a_new_block_does_not_move_the_selection_off_its_name() {
    let b = |ts: u64, name: &str| Blocked { ts, name: name.into(), exe: None };
    let old = vec![b(1, "a.example.com"), b(2, "b.example.com"), b(3, "c.example.com")];
    // newest first: c, b, a — row 1 is b
    let mut new = old.clone();
    new.push(b(4, "new.example.com"));
    let i = follow_selection(&old, Some(1), &new).unwrap();
    assert_eq!(i, 2, "one row further down, where its name went");
    assert_eq!(new.iter().rev().nth(i).unwrap().name, "b.example.com");
    assert_eq!(follow_selection(&old, Some(1), &[]), Some(1), "gone: stays put");
    assert_eq!(follow_selection(&old, None, &new), None);
}

#[test]
fn a_policy_refusal_is_never_recomputed_back_to_allowed() {
    let allow_whole_app = AppRule {
        id: 1,
        exe: "/usr/bin/firefox".into(),
        port: None,
        direction: None,
        action: Action::Allow,
        enabled: true,
        expires: None,
        fingerprint: None,
        host: None,
    };
    let rules = vec![allow_whole_app];
    let mut row = demo_flow(443, "1.2.3.4", Some("ads.example.com"), "/usr/bin/firefox");
    row.status = FlowStatus::Denied;
    assert_eq!(effective_status(&row, &rules), FlowStatus::Allowed, "no reason recorded, so the rules decide");
    row.denied_by = Some(DeniedBy::Blocklist);
    assert_eq!(effective_status(&row, &rules), FlowStatus::Denied);
    row.denied_by = Some(DeniedBy::Unresolved);
    assert_eq!(effective_status(&row, &rules), FlowStatus::Denied);
    row.status = FlowStatus::Pending;
    assert_eq!(effective_status(&row, &rules), FlowStatus::Pending);
}

#[test]
fn trimming_the_flow_keeps_each_apps_own_history() {
    let mut flow: Vec<FlowWire> = Vec::new();
    for i in 0..(FLOW_PER_APP * 2) {
        let mut e = demo_flow(443, "1.1.1.1", None, "/usr/bin/chatty");
        e.ts = i as u64;
        flow.push(e);
        if i == 0 {
            let mut q = demo_flow(443, "2.2.2.2", None, "/usr/bin/quiet");
            q.ts = 0;
            flow.push(q);
        }
    }
    trim_flow(&mut flow);
    assert_eq!(flow.iter().filter(|e| e.exe.ends_with("quiet")).count(), 1);
    assert_eq!(flow.iter().filter(|e| e.exe.ends_with("chatty")).count(), FLOW_PER_APP);
    let newest = flow.iter().map(|e| e.ts).max().unwrap();
    assert_eq!(newest, (FLOW_PER_APP * 2 - 1) as u64);
    let oldest_chatty = flow.iter().filter(|e| e.exe.ends_with("chatty")).map(|e| e.ts).min().unwrap();
    assert_eq!(oldest_chatty, FLOW_PER_APP as u64, "the oldest ones went");
}

#[test]
fn a_numeric_log_filter_is_a_port_not_a_substring() {
    let e = demo_flow(443, "140.82.121.4", Some("github.com"), "/usr/bin/curl");
    assert!(log_row_matches(&e, "443"));
    assert!(!log_row_matches(&e, "44"), "not a prefix of the port");
    assert!(!log_row_matches(&e, "4"), "nor a digit inside the address");
    assert!(!log_row_matches(&e, "80"));
}

#[test]
fn a_text_log_filter_matches_address_name_or_app() {
    let e = demo_flow(443, "140.82.121.4", Some("github.com"), "/usr/bin/curl");
    assert!(log_row_matches(&e, "140.82"));
    assert!(log_row_matches(&e, "github"));
    assert!(log_row_matches(&e, "GitHub.COM"), "case-insensitive");
    assert!(log_row_matches(&e, "curl"));
    assert!(!log_row_matches(&e, "gitlab"));
    let bare = demo_flow(443, "140.82.121.4", None, "/usr/bin/curl");
    assert!(log_row_matches(&bare, "140.82"));
    assert!(!log_row_matches(&bare, "github"));
}

#[test]
fn totals_are_grouped() {
    assert_eq!(group(0), "0");
    assert_eq!(group(999), "999");
    assert_eq!(group(1_234), "1 234");
    assert_eq!(group(1_234_567), "1 234 567");
    assert_eq!(group(u64::MAX), "18 446 744 073 709 551 615");
}

#[test]
fn a_preset_adds_only_the_rules_that_are_not_already_there() {
    let all = presets();
    let bundle = all.iter().find(|p| p.specs.len() > 2).expect("the catalogue has multi-rule presets");
    let parsed = || -> Vec<guardit::config::Rule> {
        bundle.specs.iter().map(|s| parse_spec(s, family_of(s)).unwrap()).collect()
    };
    let mut rules = Vec::new();
    let added = apply_preset_rules(&mut rules, parsed());
    assert_eq!(added, bundle.specs.len());
    assert_eq!(rules.len(), bundle.specs.len());
    let ids: Vec<u32> = rules.iter().map(|r| r.id).collect();
    assert_eq!(ids, (1..=bundle.specs.len() as u32).collect::<Vec<_>>(), "numbered on");
    let again = apply_preset_rules(&mut rules, parsed());
    assert_eq!(again, 0, "every rule reads as already present");
    assert_eq!(rules.len(), bundle.specs.len());
}

#[test]
fn the_blocked_bar_rounds_its_share_and_never_hides_a_side() {
    assert_eq!(bar_split(10, 3, 7), 3);
    assert_eq!(bar_split(10, 25, 75), 3, "2.5 cells round up");
    assert_eq!(bar_split(20, 1, 1_000_000), 1, "a tiny share still gets a cell");
    assert_eq!(bar_split(20, 1_000_000, 1), 19, "and so does a tiny remainder");
    assert_eq!(bar_split(20, 5, 0), 20);
    assert_eq!(bar_split(20, 0, 5), 0);
    assert_eq!(bar_split(20, 0, 0), 0);
    assert_eq!(bar_split(0, 5, 5), 0);
    assert_eq!(bar_split(u16::MAX, u64::MAX / 2, u64::MAX / 2), u16::MAX / 2 + 1);
}

#[test]
fn the_blocked_share_is_in_tenths_of_a_percent() {
    assert_eq!(share_tenths(0, 0), 0);
    assert_eq!(share_tenths(1, 3), 333);
    assert_eq!(share_tenths(2, 3), 667);
    assert_eq!(share_tenths(5, 5), 1000);
    assert_eq!(share_tenths(1, 2000), 0, "an exact half goes to the even tenth");
    assert_eq!(share_tenths(1, 400), 2, "0.25% prints as 0.2%");
    assert_eq!(share_tenths(3, 400), 8, "0.75% prints as 0.8%");
    assert_eq!(share_tenths(u64::MAX, u64::MAX), 1000);
}

#[test]
fn removing_a_row_keeps_the_cursor_in_the_list() {
    assert_eq!(selection_after_removal(2, 5), Some(2));
    assert_eq!(selection_after_removal(4, 4), Some(3), "the last row went");
    assert_eq!(selection_after_removal(0, 0), None, "nothing left");
}

#[test]
fn a_grouped_number_reads_back_as_its_digits() {
    for n in [0u64, 7, 10, 999, 1_000, 65_536, 1_234_567, 10_000_000, u64::MAX] {
        let g = group(n);
        let digits = n.to_string();
        assert_eq!(g.replace(' ', ""), digits);
        // a space before digit i exactly when the digits from i on are a multiple of three
        let chars: Vec<char> = g.chars().collect();
        let mut at = 0;
        for (i, d) in digits.chars().enumerate() {
            if i > 0 && (digits.len() - i) % 3 == 0 {
                assert_eq!(chars[at], ' ');
                at += 1;
            }
            assert_eq!(chars[at], d);
            at += 1;
        }
        assert_eq!(at, chars.len());
    }
}

#[test]
fn a_program_is_named_by_its_last_path_part_as_std_reads_it() {
    assert_eq!(basename("/usr/bin/firefox"), "firefox");
    assert_eq!(basename("/usr/lib/firefox/"), "firefox");
    assert_eq!(basename("/usr/bin/./curl"), "curl");
    assert_eq!(basename("/usr/bin/curl/."), "curl");
    assert_eq!(basename("curl"), "curl");
    for odd in ["/", "", ".", "..", "/usr/..", "//", "./"] {
        assert_eq!(basename(odd), odd, "no last part: the whole text");
    }
    for p in [
        "/usr/bin/firefox", "a//b", "a/./b/.", "./a", ".a", "a/.b", "...", "a/...", "/a/b/..", "..a",
        "/.", "a/", "a///", "/proc/1/exe (deleted)", "x/y/./..", "./.", "/./a/./",
    ] {
        let std_name = std::path::Path::new(p).file_name().and_then(|n| n.to_str()).unwrap_or(p);
        assert_eq!(basename(p), std_name, "{p:?}");
    }
}
