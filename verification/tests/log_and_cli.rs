use guardit::cli::update_due;
use guardit::cli::toggle_category_key;
use guardit::cli::{
    allow_domain, disable_keys, enable_keys, needs_reapply, parse_duration, turn_on,
    unallow_domain,
};
use guardit::config::BlocklistConfig;
use guardit::log::{parse_line, recent_from_text, Dir};
use guardit::state::ago;

#[test]
fn parses_incoming_attempt() {
    let line = "[12345.6789] guardit-in: IN=eth0 OUT= MAC=aa:bb SRC=192.168.1.42 DST=10.0.0.1 LEN=60 PROTO=TCP SPT=51234 DPT=22 SYN URGP=0";
    let e = parse_line(line).unwrap();
    assert_eq!(e.dir, Dir::In);
    assert_eq!(e.src, "192.168.1.42");
    assert_eq!(e.proto, "TCP");
    assert_eq!(e.dport, Some(22));
}

#[test]
fn parses_outgoing_attempt_uses_dst_as_peer() {
    let line = "[12345.6789] guardit-out: IN= OUT=eth0 SRC=10.0.0.1 DST=1.2.3.4 LEN=60 PROTO=TCP SPT=51234 DPT=443 SYN URGP=0";
    let e = parse_line(line).unwrap();
    assert_eq!(e.dir, Dir::Out);
    assert_eq!(e.src, "1.2.3.4");
    assert_eq!(e.dport, Some(443));
}

#[test]
fn ignores_unrelated_lines() {
    assert!(parse_line("[1.0] some other kernel message SRC=1.2.3.4").is_none());
}

#[test]
fn a_line_without_protocol_or_port_still_counts() {
    let e = parse_line("guardit-in: SRC=10.1.1.1 DPT=notaport").unwrap();
    assert_eq!(e.proto, "?");
    assert_eq!(e.dport, None);
    assert!(parse_line("guardit-in: DST=10.1.1.1").is_none(), "inbound needs SRC=");
}

#[test]
fn the_recent_attempts_are_deduped_and_the_newest_kept() {
    let text = "guardit-in: SRC=1.1.1.1 PROTO=TCP DPT=22\n\
                guardit-in: SRC=1.1.1.1 PROTO=TCP DPT=22\n\
                noise\n\
                guardit-out: DST=2.2.2.2 PROTO=UDP DPT=53\n\
                guardit-in: SRC=3.3.3.3 PROTO=TCP DPT=80\n";
    let all = recent_from_text(text, 10);
    assert_eq!(all.len(), 3, "the repeat collapsed, the noise dropped");
    let last_two = recent_from_text(text, 2);
    assert_eq!(last_two.len(), 2);
    assert_eq!(last_two[0].src, "2.2.2.2");
    assert_eq!(last_two[1].src, "3.3.3.3");
}

#[test]
fn parses_durations() {
    assert_eq!(parse_duration("30s"), Ok(30));
    assert_eq!(parse_duration("1h30m"), Ok(5400));
    assert_eq!(parse_duration("2d"), Ok(172800));
    assert!(parse_duration("").is_err());
    assert!(parse_duration("10").is_err());
    assert!(parse_duration("0s").is_err());
    assert!(parse_duration("1x").is_err());
}

#[test]
fn a_bad_duration_says_what_it_wanted() {
    assert_eq!(
        parse_duration("1x").unwrap_err(),
        "bad duration \"1x\" (want e.g. 30s, 10m, 1h30m, 2d)"
    );
    assert!(parse_duration("s").is_err(), "a unit needs a number");
    assert!(parse_duration("99999999999999999999s").is_err(), "too large");
    assert_eq!(parse_duration("1d1s"), Ok(86401));
}

#[test]
fn ages_read_in_the_largest_whole_unit() {
    assert_eq!(ago(0), "0s");
    assert_eq!(ago(59), "59s");
    assert_eq!(ago(60), "1m");
    assert_eq!(ago(3599), "59m");
    assert_eq!(ago(3600), "1h");
    assert_eq!(ago(86399), "23h");
    assert_eq!(ago(86400), "1d");
    assert_eq!(ago(864000), "10d");
}

#[test]
fn enabling_checks_every_key_before_applying_any() {
    let mut b = BlocklistConfig::default();
    let keys = vec!["ads".to_string(), "nope".to_string()];
    let e = enable_keys(&mut b, &keys).unwrap_err();
    assert!(e.starts_with("unknown \"nope\""), "{e}");
    assert!(b.categories.is_empty(), "nothing half-applied");

    let keys = vec!["ads".to_string(), "oisd:small".to_string(), "ads".to_string()];
    let (added, already) = enable_keys(&mut b, &keys).unwrap();
    assert_eq!(added, vec!["ads", "oisd:small"]);
    assert_eq!(already, vec!["ads"]);
    assert_eq!(b.categories, vec!["ads"]);
    assert_eq!(b.sources, vec!["oisd:small"]);
}

#[test]
fn disabling_needs_every_key_to_be_on() {
    let mut b = BlocklistConfig {
        categories: vec!["ads".into(), "porn".into()],
        sources: vec!["oisd:small".into()],
        ..Default::default()
    };
    assert_eq!(
        disable_keys(&mut b, &vec!["tracking".to_string()]).unwrap_err(),
        "tracking is not on"
    );
    assert_eq!(b.categories.len(), 2);
    disable_keys(&mut b, &vec!["ads".to_string(), "oisd:small".to_string()]).unwrap();
    assert_eq!(b.categories, vec!["porn"]);
    assert!(b.sources.is_empty());
}

#[test]
fn turning_on_with_nothing_chosen_picks_the_recommended_categories() {
    let mut b = BlocklistConfig::default();
    assert!(turn_on(&mut b));
    assert!(b.enabled);
    assert_eq!(b.categories, vec!["ads", "phishing"]);
    let before = b.clone();
    b.enabled = false;
    assert!(!turn_on(&mut b), "something is chosen now");
    assert_eq!(b.categories, before.categories);
    assert!(needs_reapply(&BlocklistConfig::default(), &b));
    assert!(!needs_reapply(&b, &b.clone()));
}

#[test]
fn the_allowlist_takes_hostnames_once_and_gives_them_back() {
    let mut b = BlocklistConfig::default();
    assert!(allow_domain(&mut b, "not a host").is_err());
    assert_eq!(allow_domain(&mut b, "good.example.com"), Ok(true));
    assert_eq!(allow_domain(&mut b, "good.example.com"), Ok(false), "already there");
    assert_eq!(b.allow, vec!["good.example.com"]);
    assert_eq!(
        unallow_domain(&mut b, "other.example.com").unwrap_err(),
        "other.example.com is not in the allowlist"
    );
    unallow_domain(&mut b, "good.example.com").unwrap();
    assert!(b.allow.is_empty());
}

#[test]
fn ticking_a_category_switches_blocking_on() {
    let mut b = BlocklistConfig::default();
    assert!(toggle_category_key(&mut b, "porn"));
    assert!(b.enabled);
    assert_eq!(b.categories, vec!["porn"]);
    assert!(!toggle_category_key(&mut b, "porn"));
    assert!(b.categories.is_empty());
    assert!(b.enabled, "unticking leaves blocking as it was");
}

#[test]
fn the_updater_is_due_for_a_missing_or_old_list() {
    let mut b = BlocklistConfig { enabled: true, ..Default::default() };
    assert!(update_due(&b, &[None], 1000));
    assert!(!update_due(&b, &[Some(1000)], 1000 + 24 * 3600 - 1));
    assert!(update_due(&b, &[Some(1000), Some(0)], 1000 + 24 * 3600 - 1));
    b.update_hours = 0;
    assert!(!update_due(&b, &[None], 1000), "updates off");
    b.update_hours = 24;
    b.enabled = false;
    assert!(!update_due(&b, &[None], 1000), "blocking off");
}
