use guardit::config::Action;
use guardit::keys::{on_key, Key, Mode, UiAct, UiState};
use guardit::tui::{Focus, Nav};

fn at(focus: Focus) -> UiState {
    UiState { nav: Nav { focus, prev_focus: Focus::Apps }, mode: Mode::Browse, confirm_flush: false, filter_empty: true }
}

#[test]
fn tab_and_h_l_move_between_panes_unless_typing() {
    let (s, a) = on_key(&at(Focus::Rules), Key::Tab);
    assert_eq!((s.nav.focus, a), (Focus::Apps, UiAct::Focused));
    assert_eq!(on_key(&at(Focus::Apps), Key::Char('l')).0.nav.focus, Focus::Flow);
    assert_eq!(on_key(&at(Focus::Apps), Key::Char('h')).0.nav.focus, Focus::Rules);
    assert_eq!(on_key(&at(Focus::Flow), Key::BackTab).0.nav.focus, Focus::Apps);
    // typing into a filter: `l` is a letter
    let filtering = UiState { mode: Mode::Filter, ..at(Focus::Apps) };
    let (s, a) = on_key(&filtering, Key::Char('l'));
    assert_eq!((s.nav.focus, a), (Focus::Apps, UiAct::FilterChar('l')));
    // confirming a flush holds the focus
    let confirming = UiState { confirm_flush: true, ..at(Focus::AppLog) };
    assert_eq!(on_key(&confirming, Key::Tab).0.nav.focus, Focus::AppLog);
}

#[test]
fn verdict_keys_act_on_the_focused_pane() {
    assert_eq!(on_key(&at(Focus::Apps), Key::Char('y')).1, UiAct::Verdict(Action::Allow));
    assert_eq!(on_key(&at(Focus::Flow), Key::Char('n')).1, UiAct::Verdict(Action::Deny));
    assert_eq!(on_key(&at(Focus::Flow), Key::Char('Y')).1, UiAct::HostVerdict(Action::Allow));
    assert_eq!(on_key(&at(Focus::Apps), Key::Char('Y')).1, UiAct::Nothing, "host verdicts are the flow pane's");
    assert_eq!(on_key(&at(Focus::Conflicts), Key::Char('y')).1, UiAct::Verdict(Action::Allow));
    assert_eq!(on_key(&at(Focus::BlockedNames), Key::Char('y')).1, UiAct::AllowName);
    assert_eq!(on_key(&at(Focus::Rules), Key::Char(' ')).1, UiAct::Toggle);
    assert_eq!(on_key(&at(Focus::Blocking), Key::Char(' ')).1, UiAct::Toggle);
    assert_eq!(on_key(&at(Focus::Apps), Key::Char('d')).1, UiAct::Delete);
    assert_eq!(on_key(&at(Focus::Flow), Key::Char('a')).1, UiAct::Audit);
    assert_eq!(on_key(&at(Focus::Blocking), Key::Char('s')).1, UiAct::CycleSource);
    assert_eq!(on_key(&at(Focus::Apps), Key::Char('j')).1, UiAct::Move(false));
    assert_eq!(on_key(&at(Focus::Apps), Key::Up).1, UiAct::Move(true));
    let (s, a) = on_key(&at(Focus::Apps), Key::Enter);
    assert_eq!((s.nav.focus, a), (Focus::Flow, UiAct::EnterFlow));
}

#[test]
fn the_tabs_open_and_close() {
    let (s, a) = on_key(&at(Focus::Flow), Key::Char('B'));
    assert_eq!((s.nav.focus, s.nav.prev_focus, a), (Focus::Blocking, Focus::Flow, UiAct::Nothing));
    assert_eq!(on_key(&s, Key::Char('B')).0.nav.focus, Focus::Flow, "B again goes back");
    assert_eq!(on_key(&s, Key::Char('q')).0.nav.focus, Focus::Flow, "and so does q");
    assert_eq!(on_key(&at(Focus::Apps), Key::Char('A')).1, UiAct::OpenLog);
    assert_eq!(on_key(&at(Focus::AppLog), Key::Char('A')).1, UiAct::CloseLog);
    assert_eq!(on_key(&at(Focus::Conflicts), Key::Char('q')).1, UiAct::CloseLog);
    assert_eq!(on_key(&at(Focus::Apps), Key::Char('q')).1, UiAct::Quit);
    assert_eq!(on_key(&at(Focus::Apps), Key::Char('m')).1, UiAct::ToggleAuto);
    assert_eq!(on_key(&at(Focus::Rules), Key::Char('t')).1, UiAct::NextTheme);
}

#[test]
fn typing_a_rule_a_preset_or_a_filter() {
    let (s, a) = on_key(&at(Focus::Rules), Key::Char('a'));
    assert_eq!((s.mode, a), (Mode::Add, UiAct::StartAdd));
    assert_eq!(on_key(&s, Key::Char('t')).1, UiAct::AddChar('t'), "t is text while adding");
    assert_eq!(on_key(&s, Key::Char('q')).1, UiAct::AddChar('q'));
    let (s2, a) = on_key(&s, Key::Enter);
    assert_eq!((s2.mode, a), (Mode::Browse, UiAct::AddSubmit));
    assert_eq!(on_key(&s, Key::Esc), (at(Focus::Rules), UiAct::Nothing));
    let (p, a) = on_key(&at(Focus::Rules), Key::Char('p'));
    assert_eq!((p.mode, a), (Mode::Preset, UiAct::StartPreset));
    assert_eq!(on_key(&p, Key::Down).1, UiAct::PresetMove(false));
    assert_eq!(on_key(&p, Key::Char('x')).1, UiAct::PresetChar('x'));
    assert_eq!(on_key(&p, Key::Enter), (at(Focus::Rules), UiAct::PresetPick));
    let (f, _) = on_key(&at(Focus::AppLog), Key::Char('/'));
    assert_eq!(f.mode, Mode::Filter);
    assert_eq!(on_key(&f, Key::Backspace).1, UiAct::FilterBackspace);
    assert_eq!(on_key(&f, Key::Esc), (at(Focus::AppLog), UiAct::ClearFilter));
    assert_eq!(on_key(&f, Key::Enter), (at(Focus::AppLog), UiAct::Refilter));
    // Esc clears a filter that holds something, and only then
    let narrowed = UiState { filter_empty: false, ..at(Focus::Apps) };
    assert_eq!(on_key(&narrowed, Key::Esc).1, UiAct::ClearFilter);
    assert_eq!(on_key(&at(Focus::Apps), Key::Esc).1, UiAct::Nothing);
}

#[test]
fn a_flush_of_the_audit_trail_is_confirmed_first() {
    let (s, a) = on_key(&at(Focus::AppLog), Key::Char('f'));
    assert!(s.confirm_flush);
    assert_eq!(a, UiAct::Nothing);
    assert_eq!(on_key(&s, Key::Char('y')), (at(Focus::AppLog), UiAct::Flush));
    assert_eq!(on_key(&s, Key::Esc), (at(Focus::AppLog), UiAct::Nothing));
    assert_eq!(on_key(&s, Key::Char('q')), (s, UiAct::Nothing), "nothing else while asking");
}
