use guardit::blocklist::{
    category, category_sources, default_categories, effective_sources,
    explain, fill_category_sources, next_choice, set_category_sources, source_choices, parse_line,
    source, Blocklist,
};
use guardit::catalogue::{categories, sources};
use guardit::config::BlocklistConfig;
use std::collections::HashSet;

fn list(blocked: &[&str], allow: &[&str]) -> Blocklist {
    Blocklist::from_names(blocked, allow)
}

#[test]
fn parses_every_format_in_the_catalogue() {
    assert_eq!(parse_line("0.0.0.0 ads.example.com"), Some("ads.example.com"));
    assert_eq!(parse_line("127.0.0.1\tads.example.com # why"), Some("ads.example.com"));
    assert_eq!(parse_line("ads.example.com"), Some("ads.example.com"));
    assert_eq!(parse_line("ads.example.com."), Some("ads.example.com"));
    assert_eq!(parse_line("||ads.example.com^"), Some("ads.example.com"));
    assert_eq!(parse_line("||ads.example.com^$third-party"), Some("ads.example.com"));
}

#[test]
fn skips_everything_that_is_not_a_domain() {
    for line in [
        "",
        "   ",
        "# a comment",
        "! adblock comment",
        "/regex.*rule/",
        "0.0.0.0 localhost",
        "::1 ip6-localhost",
        "255.255.255.255 broadcasthost",
        "0.0.0.0",
        "127.0.0.1",
        "example.com##.ad-banner",
        "||example.com/path^",
        "||*.example.com^",
        "notadomain",
    ] {
        assert_eq!(parse_line(line), None, "{line:?}");
    }
}

#[test]
fn a_listed_name_blocks_its_subdomains() {
    let l = list(&["ads.example.com"], &[]);
    assert!(l.blocked("ads.example.com"));
    assert!(l.blocked("deep.cdn.ads.example.com"));
    assert!(l.blocked("ADS.EXAMPLE.COM."), "case and trailing dot");
    assert!(!l.blocked("example.com"), "the parent is not implied");
    assert!(!l.blocked("notads.example.com"));
}

#[test]
fn the_allowlist_rescues_a_subdomain_of_a_blocked_parent() {
    let l = list(&["example.com"], &["good.example.com"]);
    assert!(l.blocked("example.com"));
    assert!(l.blocked("bad.example.com"));
    assert!(!l.blocked("good.example.com"));
    assert!(!l.blocked("sub.good.example.com"), "allow covers its subtree too");
}

#[test]
fn never_blocks_on_a_bare_tld() {
    let l = list(&["com"], &[]);
    assert!(!l.blocked("example.com"));
}

#[test]
fn an_empty_list_blocks_nothing() {
    assert!(!Blocklist::default().blocked("ads.example.com"));
    assert_eq!(Blocklist::default().len(), 0);
}

#[test]
fn catalogue_keys_are_unique_and_well_formed() {
    let mut seen = HashSet::new();
    for s in sources() {
        assert!(seen.insert(s.key()), "duplicate {}", s.key());
        assert!(s.url.starts_with("https://"), "{} is not https", s.key());
        assert!(!s.about.is_empty());
        assert!(
            category(s.category).is_some(),
            "{} is in category {:?}, which is not one",
            s.key(),
            s.category
        );
    }
}

#[test]
fn every_category_points_at_lists_that_exist() {
    let mut seen = HashSet::new();
    for c in categories() {
        assert!(seen.insert(c.key), "duplicate category {}", c.key);
        assert!(!c.about.is_empty());
        assert!(!c.sources.is_empty(), "{} enables nothing", c.key);
        for key in c.sources {
            let s = source(key)
                .unwrap_or_else(|| panic!("{} enables {key}, which is not a list", c.key));
            assert_eq!(
                s.category, c.key,
                "{} enables {key}, which is filed under {}",
                c.key, s.category
            );
        }
    }
    for d in default_categories() {
        assert!(category(d).is_some(), "default {d} is not a category");
    }
}

#[test]
fn overlapping_categories_do_not_download_a_list_twice() {
    let cfg = BlocklistConfig {
        categories: vec!["ads".into(), "phishing".into()],
        sources: vec!["hagezi:pro".into(), "oisd:small".into()],
        ..Default::default()
    };
    let got = effective_sources(&cfg);
    let mut uniq = got.clone();
    uniq.sort();
    uniq.dedup();
    assert_eq!(got.len(), uniq.len(), "{got:?}");
    assert!(got.contains(&"hagezi:pro".to_string()));
    assert!(got.contains(&"hagezi:tif".to_string()));
    assert!(got.contains(&"oisd:small".to_string()));
    assert_eq!(got, vec!["hagezi:pro", "hagezi:tif", "oisd:small"]);
}

#[test]
fn loading_reads_every_list_and_only_when_blocking_is_on() {
    let mut cfg = BlocklistConfig {
        enabled: true,
        block_encrypted_dns: false,
        allow: vec!["ok.ads.example".into()],
        ..Default::default()
    };
    let texts = vec![
        "0.0.0.0 ads.example\n# comment\n".to_string(),
        "||tracker.example^\n".to_string(),
    ];
    let l = Blocklist::load(&cfg, &texts);
    assert_eq!(l.len(), 2);
    assert!(l.blocked("x.ads.example"));
    assert!(l.blocked("tracker.example"));
    assert!(!l.blocked("ok.ads.example"), "the allowlist comes along");
    cfg.enabled = false;
    assert_eq!(Blocklist::load(&cfg, &texts).len(), 0, "off loads nothing");
}

#[test]
fn a_category_without_an_entry_uses_the_catalogue_lists() {
    let cfg = BlocklistConfig::default();
    assert_eq!(category_sources(&cfg, "phishing"), vec!["hagezi:tif"]);
    assert_eq!(category_sources(&cfg, "tracking"), vec!["frogeye:multiparty", "frogeye:firstparty"]);
    assert!(category_sources(&cfg, "no-such-category").is_empty());
}

#[test]
fn a_chosen_list_replaces_the_catalogue_choice_and_nothing_else() {
    let mut cfg = BlocklistConfig {
        enabled: true,
        categories: vec!["ads".into(), "phishing".into()],
        ..Default::default()
    };
    set_category_sources(&mut cfg, "phishing", vec!["hagezi:tif.medium".into()]);
    assert_eq!(category_sources(&cfg, "phishing"), vec!["hagezi:tif.medium"]);
    assert_eq!(category_sources(&cfg, "ads"), vec!["hagezi:pro"]);
    assert_eq!(effective_sources(&cfg), vec!["hagezi:pro", "hagezi:tif.medium"]);
    // setting it again replaces the entry rather than adding a second one
    set_category_sources(&mut cfg, "phishing", vec!["urlhaus:hosts".into(), "hagezi:tif.mini".into()]);
    assert_eq!(cfg.category_sources.len(), 1);
    assert_eq!(category_sources(&cfg, "phishing"), vec!["urlhaus:hosts", "hagezi:tif.mini"]);
    assert_eq!(cfg.categories, vec!["ads", "phishing"]);
    assert!(cfg.enabled);
}

#[test]
fn a_category_steps_through_every_list_filed_under_it() {
    let phishing = category("phishing").unwrap();
    let choices = source_choices(&phishing);
    assert_eq!(choices[0], vec!["hagezi:tif"]);
    // the catalogue's own choice is not offered a second time on its own
    assert_eq!(choices.iter().filter(|c| **c == vec!["hagezi:tif".to_string()]).count(), 1);
    assert!(choices.contains(&vec!["hagezi:tif.medium".to_string()]));
    assert!(choices.contains(&vec!["urlhaus:hosts".to_string()]));
    assert_eq!(choices.len(), 11);
    assert!(choices[1..].iter().all(|c| c.len() == 1));

    let telemetry = category("telemetry").unwrap();
    let choices = source_choices(&telemetry);
    assert_eq!(choices[0].len(), 6);
    assert_eq!(choices.len(), 12);

    let crypto = category("crypto").unwrap();
    assert_eq!(source_choices(&crypto), vec![vec!["blocklistproject:crypto".to_string()]]);
}

#[test]
fn stepping_a_category_wraps_round_to_the_catalogue_choice() {
    let phishing = category("phishing").unwrap();
    let choices = source_choices(&phishing);
    let mut cfg = BlocklistConfig::default();
    // from the catalogue's choice to the next one
    assert_eq!(next_choice(&cfg, &phishing), choices[1]);
    // every step moves one on, and the last wraps round
    for i in 0..choices.len() {
        set_category_sources(&mut cfg, "phishing", choices[i].clone());
        assert_eq!(next_choice(&cfg, &phishing), choices[(i + 1) % choices.len()]);
    }
    // lists put together by hand step off to the catalogue's choice
    set_category_sources(&mut cfg, "phishing", vec!["oisd:small".into(), "hagezi:tif".into()]);
    assert_eq!(next_choice(&cfg, &phishing), vec!["hagezi:tif"]);
    // a category with one choice stays on it
    let crypto = category("crypto").unwrap();
    assert_eq!(next_choice(&cfg, &crypto), vec!["blocklistproject:crypto"]);
}

#[test]
fn writing_out_the_choices_changes_no_list_in_force() {
    let mut cfg = BlocklistConfig {
        categories: vec!["ads".into(), "telemetry".into()],
        sources: vec!["oisd:small".into()],
        ..Default::default()
    };
    set_category_sources(&mut cfg, "ads", vec!["oisd:big".into()]);
    let before = effective_sources(&cfg);
    fill_category_sources(&mut cfg);
    assert_eq!(effective_sources(&cfg), before);
    assert_eq!(cfg.category_sources.len(), categories().len());
    // the entry that was there stays first and as it was
    assert_eq!(cfg.category_sources[0], ("ads".to_string(), vec!["oisd:big".to_string()]));
    assert_eq!(category_sources(&cfg, "tracking"), vec!["frogeye:multiparty", "frogeye:firstparty"]);
    // a second time adds nothing
    fill_category_sources(&mut cfg);
    assert_eq!(cfg.category_sources.len(), categories().len());
}

fn lists_for_explain() -> Vec<(String, String)> {
    vec![
        ("first:list".to_string(), "ads.example.com\n".to_string()),
        ("second:list".to_string(), "0.0.0.0 example.com\nother.org\n".to_string()),
        ("third:list".to_string(), "unrelated.net\n".to_string()),
    ]
}

#[test]
fn check_names_each_list_and_the_entry_that_matched() {
    let cfg = BlocklistConfig { enabled: true, ..Default::default() };
    let why = explain(&cfg, "Tracker.Ads.Example.com.", &lists_for_explain());
    assert_eq!(why.allowed_by, None);
    assert_eq!(
        why.blocked_by,
        vec![
            ("first:list".to_string(), "ads.example.com".to_string()),
            ("second:list".to_string(), "example.com".to_string()),
        ]
    );
    let clean = explain(&cfg, "www.unrelated.org", &lists_for_explain());
    assert_eq!(clean.allowed_by, None);
    assert!(clean.blocked_by.is_empty());
}

#[test]
fn check_names_the_allowlist_entry_that_lets_a_name_through() {
    let cfg = BlocklistConfig { enabled: true, allow: vec!["ads.example.com".into()], ..Default::default() };
    let why = explain(&cfg, "tracker.ads.example.com", &lists_for_explain());
    assert_eq!(why.allowed_by, Some("ads.example.com".to_string()));
    assert_eq!(why.blocked_by.len(), 2, "still on both lists otherwise");
    // an allowlist entry covers everything under it, a name listed there too
    let cfg = BlocklistConfig { enabled: true, allow: vec!["example.com".into()], ..Default::default() };
    let why = explain(&cfg, "tracker.ads.example.com", &lists_for_explain());
    assert_eq!(why.allowed_by, Some("example.com".to_string()));
    let texts: Vec<String> = lists_for_explain().into_iter().map(|(_, t)| t).collect();
    let merged = Blocklist::load(&BlocklistConfig { block_encrypted_dns: false, ..cfg.clone() }, &texts);
    assert!(!merged.blocked("tracker.ads.example.com"));
    assert!(merged.blocked("other.org"));
    assert!(!merged.blocked("www.example.com"));
    assert_eq!(explain(&cfg, "www.example.com", &lists_for_explain()).allowed_by, Some("example.com".to_string()));
}

#[test]
fn the_deciding_entry_is_the_most_specific_level_on_either_list() {
    let b = list(&["example.com", "ads.example.com"], &["safe.ads.example.com"]);
    assert_eq!(b.decided_by("x.ads.example.com"), Some(("ads.example.com".to_string(), true)));
    assert_eq!(b.decided_by("Safe.Ads.Example.Com."), Some(("safe.ads.example.com".to_string(), false)));
    assert_eq!(b.decided_by("www.example.com"), Some(("example.com".to_string(), true)));
    assert_eq!(b.decided_by("example.org"), None);
}

#[test]
fn an_allow_entry_covers_a_listed_name_under_it() {
    assert!(!list(&["ads.cdn.example.com"], &["cdn.example.com"]).blocked("ads.cdn.example.com"));
    assert!(!list(&["ads.cdn.example.com"], &["cdn.example.com"]).blocked("x.ads.cdn.example.com"));
    assert!(list(&["ads.cdn.example.com"], &["cdn.example.com"]).blocked("ads.cdn.example.org") == false);
    assert!(!list(&["com"], &[]).blocked("example.com"), "a bare top-level domain is never consulted");
    assert!(list(&["example.com"], &["other.example.com"]).blocked("ads.example.com"));
    let b = list(&["ads.cdn.example.com"], &["cdn.example.com"]);
    assert_eq!(b.decided_by("ads.cdn.example.com"), Some(("cdn.example.com".to_string(), false)));
}

#[test]
fn an_accepted_name_is_a_piece_of_its_line() {
    for line in [
        "0.0.0.0 ads.example.com",
        "  127.0.0.1\ttrack.example.org   # why",
        "||cdn.ads.example.net^$third-party",
        "bare.example.com...",
        "\u{a0}spaced.example.com\u{2003}",
    ] {
        let d = parse_line(line).unwrap();
        assert!(line.contains(d), "{line:?} -> {d:?}");
        assert!(!d.is_empty() && d.contains('.') && !d.ends_with('.'));
    }
}

#[test]
fn every_list_is_found_by_its_own_key() {
    for s in sources() {
        let found = source(&s.key()).unwrap();
        assert_eq!((found.id, found.level, found.url), (s.id, s.level, s.url));
        assert_eq!(s.key(), format!("{}:{}", s.id, s.level));
    }
    assert!(source("hagezi:nonesuch").is_none());
    assert!(source("hagezi").is_none());
    assert!(source("").is_none());
}
