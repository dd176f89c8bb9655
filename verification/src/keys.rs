//! What a key does in the dashboard: from where the focus is and which
//! mode the keyboard is in, the next such state and the one thing the
//! program is to do. Drawing, the lists and their selections stay with the
//! program; this decides which of them a key is about.
use vstd::prelude::*;
use crate::config::Action;
use crate::tui::{Focus, Nav, entered, in_blocking_tab, in_blocking_tab_spec, in_log_tab, in_log_tab_spec, left_tab};

verus! {

/// A key as the dashboard reads it.
#[derive(Debug, Clone, Copy, PartialEq, Eq, Structural)]
pub enum Key {
    Char(char),
    Tab,
    BackTab,
    Left,
    Right,
    Up,
    Down,
    Enter,
    Esc,
    Backspace,
    /// any key the dashboard has no use for
    Other,
}

/// Where keystrokes go.
#[derive(Debug, Clone, Copy, PartialEq, Eq, Structural)]
pub enum Mode {
    /// keys are commands
    Browse,
    /// typing a rule spec in the system rules pane
    Add,
    /// the preset picker: typing filters it, arrows move in it
    Preset,
    /// typing into the focused pane's filter
    Filter,
}

/// What a key decision depends on.
#[derive(Debug, Clone, Copy, PartialEq, Eq, Structural)]
pub struct UiState {
    pub nav: Nav,
    pub mode: Mode,
    /// the audit tab is asking whether to empty the audit trail
    pub confirm_flush: bool,
    /// the focused pane's filter is empty
    pub filter_empty: bool,
}

/// What the program does after a key.
#[derive(Debug, Clone, Copy, PartialEq, Eq, Structural)]
pub enum UiAct {
    Nothing,
    Quit,
    /// the focus moved between panes
    Focused,
    /// the next colour theme
    NextTheme,
    /// auto mode on or off
    ToggleAuto,
    /// open the log tab on the whole audit trail (the program moves the
    /// focus, since it loads the tab as it opens it)
    OpenLog,
    /// close the log tab (the program moves the focus back)
    CloseLog,
    /// open the log tab on the selected row's app
    Audit,
    /// one row down (`false`) or up (`true`) in the focused list
    Move(bool),
    /// a verdict on the focused pane's row: the app, the flow row, the port
    Verdict(Action),
    /// a verdict on every row of the app that reached the selected row's host
    HostVerdict(Action),
    /// the selected rule, app or category switched
    Toggle,
    /// the selected rule or app forgotten
    Delete,
    /// the apps pane handed the focus to the app's flow
    EnterFlow,
    /// the selected category's next lists
    CycleSource,
    /// refetch the lists
    UpdateLists,
    /// never block the selected recently blocked name
    AllowName,
    /// the focused pane's filter cleared
    ClearFilter,
    /// the filter grew by a character
    FilterChar(char),
    /// the filter lost its last character
    FilterBackspace,
    /// the filter is done: narrow the pane by it
    Refilter,
    /// empty the audit trail
    Flush,
    /// start typing a rule spec
    StartAdd,
    AddChar(char),
    AddBackspace,
    /// add the rule typed
    AddSubmit,
    /// open the preset picker
    StartPreset,
    /// down (`false`) or up (`true`) in the picker
    PresetMove(bool),
    PresetChar(char),
    PresetBackspace,
    /// add the preset picked
    PresetPick,
}

pub open spec fn next_of(f: Focus) -> Focus {
    match f {
        Focus::Rules => Focus::Apps,
        Focus::Apps | Focus::Flow => Focus::Rules,
        Focus::AppLog => Focus::Conflicts,
        Focus::Conflicts => Focus::AppLog,
        Focus::Blocking => Focus::BlockedNames,
        Focus::BlockedNames => Focus::Blocking,
    }
}

pub open spec fn prev_of(f: Focus) -> Focus {
    match f {
        Focus::Rules => Focus::Apps,
        Focus::Apps => Focus::Rules,
        Focus::Flow => Focus::Apps,
        Focus::AppLog => Focus::Conflicts,
        Focus::Conflicts => Focus::AppLog,
        Focus::Blocking => Focus::BlockedNames,
        Focus::BlockedNames => Focus::Blocking,
    }
}

pub open spec fn right_of(f: Focus) -> Focus {
    match f {
        Focus::Rules => Focus::Apps,
        Focus::Apps => Focus::Flow,
        Focus::Flow => Focus::Rules,
        Focus::AppLog => Focus::Conflicts,
        Focus::Conflicts => Focus::AppLog,
        Focus::Blocking => Focus::BlockedNames,
        Focus::BlockedNames => Focus::Blocking,
    }
}

pub open spec fn left_of(f: Focus) -> Focus {
    match f {
        Focus::Rules => Focus::Flow,
        Focus::Apps => Focus::Rules,
        Focus::Flow => Focus::Apps,
        Focus::AppLog => Focus::Conflicts,
        Focus::Conflicts => Focus::AppLog,
        Focus::Blocking => Focus::BlockedNames,
        Focus::BlockedNames => Focus::Blocking,
    }
}

/// where Tab, Shift-Tab, `l`/→ and `h`/← move the focus; none for any other key
pub open spec fn focus_move(f: Focus, k: Key) -> Option<Focus> {
    if k == Key::Tab {
        Some(next_of(f))
    } else if k == Key::BackTab {
        Some(prev_of(f))
    } else if k == Key::Char('l') || k == Key::Right {
        Some(right_of(f))
    } else if k == Key::Char('h') || k == Key::Left {
        Some(left_of(f))
    } else {
        None
    }
}

/// keystrokes are text, not commands
pub open spec fn typing(m: Mode) -> bool {
    m == Mode::Add || m == Mode::Preset || m == Mode::Filter
}

pub open spec fn down_key(k: Key) -> bool {
    k == Key::Char('j') || k == Key::Down
}

pub open spec fn up_key(k: Key) -> bool {
    k == Key::Char('k') || k == Key::Up
}

pub open spec fn with_mode(s: UiState, m: Mode) -> UiState {
    UiState { mode: m, ..s }
}

pub open spec fn with_nav(s: UiState, n: Nav) -> UiState {
    UiState { nav: n, ..s }
}

/// a key while typing into a pane's filter: Enter keeps the filter and
/// stops typing, Esc clears it and stops; a pane without a filter just
/// leaves the mode
pub open spec fn filter_key(s: UiState, k: Key) -> (UiState, UiAct) {
    let f = s.nav.focus;
    if f == Focus::Apps || f == Focus::AppLog || f == Focus::Conflicts {
        match k {
            Key::Enter => (with_mode(s, Mode::Browse), UiAct::Refilter),
            Key::Esc => (with_mode(s, Mode::Browse), UiAct::ClearFilter),
            Key::Backspace => (s, UiAct::FilterBackspace),
            Key::Char(c) => (s, UiAct::FilterChar(c)),
            _ => (s, UiAct::Nothing),
        }
    } else {
        (with_mode(s, Mode::Browse), UiAct::Nothing)
    }
}

/// a key in the system rules pane, by mode
pub open spec fn rules_key(s: UiState, k: Key) -> (UiState, UiAct) {
    match s.mode {
        Mode::Browse => if k == Key::Char('q') {
            (s, UiAct::Quit)
        } else if down_key(k) {
            (s, UiAct::Move(false))
        } else if up_key(k) {
            (s, UiAct::Move(true))
        } else if k == Key::Char(' ') {
            (s, UiAct::Toggle)
        } else if k == Key::Char('d') {
            (s, UiAct::Delete)
        } else if k == Key::Char('a') {
            (with_mode(s, Mode::Add), UiAct::StartAdd)
        } else if k == Key::Char('p') {
            (with_mode(s, Mode::Preset), UiAct::StartPreset)
        } else {
            (s, UiAct::Nothing)
        },
        Mode::Preset => match k {
            Key::Esc => (with_mode(s, Mode::Browse), UiAct::Nothing),
            Key::Down => (s, UiAct::PresetMove(false)),
            Key::Up => (s, UiAct::PresetMove(true)),
            Key::Backspace => (s, UiAct::PresetBackspace),
            Key::Char(c) => (s, UiAct::PresetChar(c)),
            Key::Enter => (with_mode(s, Mode::Browse), UiAct::PresetPick),
            _ => (s, UiAct::Nothing),
        },
        Mode::Filter => (with_mode(s, Mode::Browse), UiAct::Nothing),
        Mode::Add => match k {
            Key::Esc => (with_mode(s, Mode::Browse), UiAct::Nothing),
            Key::Enter => (with_mode(s, Mode::Browse), UiAct::AddSubmit),
            Key::Backspace => (s, UiAct::AddBackspace),
            Key::Char(c) => (s, UiAct::AddChar(c)),
            _ => (s, UiAct::Nothing),
        },
    }
}

/// a key in a pane or tab other than the system rules, keys being commands
pub open spec fn pane_key(s: UiState, k: Key) -> (UiState, UiAct) {
    match s.nav.focus {
        Focus::Rules => rules_key(s, k),
        Focus::Apps => if k == Key::Char('q') {
            (s, UiAct::Quit)
        } else if k == Key::Char('/') {
            (with_mode(s, Mode::Filter), UiAct::Nothing)
        } else if k == Key::Esc && !s.filter_empty {
            (s, UiAct::ClearFilter)
        } else if down_key(k) {
            (s, UiAct::Move(false))
        } else if up_key(k) {
            (s, UiAct::Move(true))
        } else if k == Key::Char('y') {
            (s, UiAct::Verdict(Action::Allow))
        } else if k == Key::Char('n') {
            (s, UiAct::Verdict(Action::Deny))
        } else if k == Key::Char(' ') {
            (s, UiAct::Toggle)
        } else if k == Key::Char('d') {
            (s, UiAct::Delete)
        } else if k == Key::Enter {
            (with_nav(s, Nav { focus: Focus::Flow, ..s.nav }), UiAct::EnterFlow)
        } else if k == Key::Char('a') {
            (s, UiAct::Audit)
        } else {
            (s, UiAct::Nothing)
        },
        Focus::Flow => if k == Key::Char('q') {
            (s, UiAct::Quit)
        } else if down_key(k) {
            (s, UiAct::Move(false))
        } else if up_key(k) {
            (s, UiAct::Move(true))
        } else if k == Key::Char('y') {
            (s, UiAct::Verdict(Action::Allow))
        } else if k == Key::Char('n') {
            (s, UiAct::Verdict(Action::Deny))
        } else if k == Key::Char('Y') {
            (s, UiAct::HostVerdict(Action::Allow))
        } else if k == Key::Char('N') {
            (s, UiAct::HostVerdict(Action::Deny))
        } else if k == Key::Char('a') {
            (s, UiAct::Audit)
        } else {
            (s, UiAct::Nothing)
        },
        Focus::Blocking => if k == Key::Char('q') {
            (with_nav(s, left_tab(s.nav)), UiAct::Nothing)
        } else if down_key(k) {
            (s, UiAct::Move(false))
        } else if up_key(k) {
            (s, UiAct::Move(true))
        } else if k == Key::Char(' ') {
            (s, UiAct::Toggle)
        } else if k == Key::Char('s') {
            (s, UiAct::CycleSource)
        } else if k == Key::Char('u') {
            (s, UiAct::UpdateLists)
        } else {
            (s, UiAct::Nothing)
        },
        Focus::BlockedNames => if k == Key::Char('q') {
            (with_nav(s, left_tab(s.nav)), UiAct::Nothing)
        } else if down_key(k) {
            (s, UiAct::Move(false))
        } else if up_key(k) {
            (s, UiAct::Move(true))
        } else if k == Key::Char('y') {
            (s, UiAct::AllowName)
        } else {
            (s, UiAct::Nothing)
        },
        Focus::Conflicts => if k == Key::Char('q') {
            (s, UiAct::CloseLog)
        } else if k == Key::Char('/') {
            (with_mode(s, Mode::Filter), UiAct::Nothing)
        } else if k == Key::Esc && !s.filter_empty {
            (s, UiAct::ClearFilter)
        } else if down_key(k) {
            (s, UiAct::Move(false))
        } else if up_key(k) {
            (s, UiAct::Move(true))
        } else if k == Key::Char('y') {
            (s, UiAct::Verdict(Action::Allow))
        } else if k == Key::Char('n') {
            (s, UiAct::Verdict(Action::Deny))
        } else if k == Key::Char('a') {
            (s, UiAct::Audit)
        } else {
            (s, UiAct::Nothing)
        },
        Focus::AppLog => if s.confirm_flush {
            if k == Key::Char('y') {
                (UiState { confirm_flush: false, ..s }, UiAct::Flush)
            } else if k == Key::Char('n') || k == Key::Esc {
                (UiState { confirm_flush: false, ..s }, UiAct::Nothing)
            } else {
                (s, UiAct::Nothing)
            }
        } else if k == Key::Char('q') {
            (s, UiAct::CloseLog)
        } else if k == Key::Char('/') {
            (with_mode(s, Mode::Filter), UiAct::Nothing)
        } else if k == Key::Esc && !s.filter_empty {
            (s, UiAct::ClearFilter)
        } else if k == Key::Char('f') {
            (UiState { confirm_flush: true, ..s }, UiAct::Nothing)
        } else if down_key(k) {
            (s, UiAct::Move(false))
        } else if up_key(k) {
            (s, UiAct::Move(true))
        } else {
            (s, UiAct::Nothing)
        },
    }
}

/// What a key does. In this order: Tab, Shift-Tab, `h`/`l` and the arrows
/// move the focus unless keystrokes are text or a flush is being
/// confirmed; outside a text field `t` changes the theme, `B` opens or
/// closes the blocking tab, `m` switches auto mode, `A` opens or closes the
/// log tab (the preset picker counts as outside one, its typing being a
/// search); typing into a filter goes to the filter; anything else is up
/// to the focused pane (`pane_key`).
pub open spec fn key_spec(s: UiState, k: Key) -> (UiState, UiAct) {
    let free = !(s.mode == Mode::Add || s.mode == Mode::Filter);
    if focus_move(s.nav.focus, k) is Some && !typing(s.mode) && !s.confirm_flush {
        (with_nav(s, Nav { focus: focus_move(s.nav.focus, k).unwrap(), ..s.nav }), UiAct::Focused)
    } else if free && k == Key::Char('t') {
        (s, UiAct::NextTheme)
    } else if free && k == Key::Char('B') {
        (
            with_nav(
                s,
                if in_blocking_tab_spec(s.nav.focus) {
                    left_tab(s.nav)
                } else {
                    entered(s.nav, seq![Focus::Blocking])
                },
            ),
            UiAct::Nothing,
        )
    } else if free && k == Key::Char('m') {
        (s, UiAct::ToggleAuto)
    } else if free && k == Key::Char('A') {
        (
            s,
            if in_log_tab_spec(s.nav.focus) {
                UiAct::CloseLog
            } else {
                UiAct::OpenLog
            },
        )
    } else if s.mode == Mode::Filter && s.nav.focus != Focus::Rules {
        filter_key(s, k)
    } else {
        pane_key(s, k)
    }
}

// ------------------------------------------------------------ exec

fn focus_move_exec(f: Focus, k: Key) -> (r: Option<Focus>)
    ensures
        r == focus_move(f, k),
{
    if k == Key::Tab {
        Some(f.next())
    } else if k == Key::BackTab {
        Some(f.prev())
    } else if k == Key::Char('l') || k == Key::Right {
        Some(f.right())
    } else if k == Key::Char('h') || k == Key::Left {
        Some(f.left())
    } else {
        None
    }
}

fn filter_key_exec(s: &UiState, k: Key) -> (r: (UiState, UiAct))
    ensures
        r == filter_key(*s, k),
{
    let f = s.nav.focus;
    if f == Focus::Apps || f == Focus::AppLog || f == Focus::Conflicts {
        match k {
            Key::Enter => (UiState { mode: Mode::Browse, ..*s }, UiAct::Refilter),
            Key::Esc => (UiState { mode: Mode::Browse, ..*s }, UiAct::ClearFilter),
            Key::Backspace => (*s, UiAct::FilterBackspace),
            Key::Char(c) => (*s, UiAct::FilterChar(c)),
            _ => (*s, UiAct::Nothing),
        }
    } else {
        (UiState { mode: Mode::Browse, ..*s }, UiAct::Nothing)
    }
}

fn rules_key_exec(s: &UiState, k: Key) -> (r: (UiState, UiAct))
    ensures
        r == rules_key(*s, k),
{
    match s.mode {
        Mode::Browse => if k == Key::Char('q') {
            (*s, UiAct::Quit)
        } else if k == Key::Char('j') || k == Key::Down {
            (*s, UiAct::Move(false))
        } else if k == Key::Char('k') || k == Key::Up {
            (*s, UiAct::Move(true))
        } else if k == Key::Char(' ') {
            (*s, UiAct::Toggle)
        } else if k == Key::Char('d') {
            (*s, UiAct::Delete)
        } else if k == Key::Char('a') {
            (UiState { mode: Mode::Add, ..*s }, UiAct::StartAdd)
        } else if k == Key::Char('p') {
            (UiState { mode: Mode::Preset, ..*s }, UiAct::StartPreset)
        } else {
            (*s, UiAct::Nothing)
        },
        Mode::Preset => match k {
            Key::Esc => (UiState { mode: Mode::Browse, ..*s }, UiAct::Nothing),
            Key::Down => (*s, UiAct::PresetMove(false)),
            Key::Up => (*s, UiAct::PresetMove(true)),
            Key::Backspace => (*s, UiAct::PresetBackspace),
            Key::Char(c) => (*s, UiAct::PresetChar(c)),
            Key::Enter => (UiState { mode: Mode::Browse, ..*s }, UiAct::PresetPick),
            _ => (*s, UiAct::Nothing),
        },
        Mode::Filter => (UiState { mode: Mode::Browse, ..*s }, UiAct::Nothing),
        Mode::Add => match k {
            Key::Esc => (UiState { mode: Mode::Browse, ..*s }, UiAct::Nothing),
            Key::Enter => (UiState { mode: Mode::Browse, ..*s }, UiAct::AddSubmit),
            Key::Backspace => (*s, UiAct::AddBackspace),
            Key::Char(c) => (*s, UiAct::AddChar(c)),
            _ => (*s, UiAct::Nothing),
        },
    }
}

fn pane_key_exec(s: &UiState, k: Key) -> (r: (UiState, UiAct))
    ensures
        r == pane_key(*s, k),
{
    let down = k == Key::Char('j') || k == Key::Down;
    let up = k == Key::Char('k') || k == Key::Up;
    match s.nav.focus {
        Focus::Rules => rules_key_exec(s, k),
        Focus::Apps => if k == Key::Char('q') {
            (*s, UiAct::Quit)
        } else if k == Key::Char('/') {
            (UiState { mode: Mode::Filter, ..*s }, UiAct::Nothing)
        } else if k == Key::Esc && !s.filter_empty {
            (*s, UiAct::ClearFilter)
        } else if down {
            (*s, UiAct::Move(false))
        } else if up {
            (*s, UiAct::Move(true))
        } else if k == Key::Char('y') {
            (*s, UiAct::Verdict(Action::Allow))
        } else if k == Key::Char('n') {
            (*s, UiAct::Verdict(Action::Deny))
        } else if k == Key::Char(' ') {
            (*s, UiAct::Toggle)
        } else if k == Key::Char('d') {
            (*s, UiAct::Delete)
        } else if k == Key::Enter {
            (UiState { nav: Nav { focus: Focus::Flow, ..s.nav }, ..*s }, UiAct::EnterFlow)
        } else if k == Key::Char('a') {
            (*s, UiAct::Audit)
        } else {
            (*s, UiAct::Nothing)
        },
        Focus::Flow => if k == Key::Char('q') {
            (*s, UiAct::Quit)
        } else if down {
            (*s, UiAct::Move(false))
        } else if up {
            (*s, UiAct::Move(true))
        } else if k == Key::Char('y') {
            (*s, UiAct::Verdict(Action::Allow))
        } else if k == Key::Char('n') {
            (*s, UiAct::Verdict(Action::Deny))
        } else if k == Key::Char('Y') {
            (*s, UiAct::HostVerdict(Action::Allow))
        } else if k == Key::Char('N') {
            (*s, UiAct::HostVerdict(Action::Deny))
        } else if k == Key::Char('a') {
            (*s, UiAct::Audit)
        } else {
            (*s, UiAct::Nothing)
        },
        Focus::Blocking => if k == Key::Char('q') {
            let mut n = s.nav;
            n.leave_tab();
            (UiState { nav: n, ..*s }, UiAct::Nothing)
        } else if down {
            (*s, UiAct::Move(false))
        } else if up {
            (*s, UiAct::Move(true))
        } else if k == Key::Char(' ') {
            (*s, UiAct::Toggle)
        } else if k == Key::Char('s') {
            (*s, UiAct::CycleSource)
        } else if k == Key::Char('u') {
            (*s, UiAct::UpdateLists)
        } else {
            (*s, UiAct::Nothing)
        },
        Focus::BlockedNames => if k == Key::Char('q') {
            let mut n = s.nav;
            n.leave_tab();
            (UiState { nav: n, ..*s }, UiAct::Nothing)
        } else if down {
            (*s, UiAct::Move(false))
        } else if up {
            (*s, UiAct::Move(true))
        } else if k == Key::Char('y') {
            (*s, UiAct::AllowName)
        } else {
            (*s, UiAct::Nothing)
        },
        Focus::Conflicts => if k == Key::Char('q') {
            (*s, UiAct::CloseLog)
        } else if k == Key::Char('/') {
            (UiState { mode: Mode::Filter, ..*s }, UiAct::Nothing)
        } else if k == Key::Esc && !s.filter_empty {
            (*s, UiAct::ClearFilter)
        } else if down {
            (*s, UiAct::Move(false))
        } else if up {
            (*s, UiAct::Move(true))
        } else if k == Key::Char('y') {
            (*s, UiAct::Verdict(Action::Allow))
        } else if k == Key::Char('n') {
            (*s, UiAct::Verdict(Action::Deny))
        } else if k == Key::Char('a') {
            (*s, UiAct::Audit)
        } else {
            (*s, UiAct::Nothing)
        },
        Focus::AppLog => if s.confirm_flush {
            if k == Key::Char('y') {
                (UiState { confirm_flush: false, ..*s }, UiAct::Flush)
            } else if k == Key::Char('n') || k == Key::Esc {
                (UiState { confirm_flush: false, ..*s }, UiAct::Nothing)
            } else {
                (*s, UiAct::Nothing)
            }
        } else if k == Key::Char('q') {
            (*s, UiAct::CloseLog)
        } else if k == Key::Char('/') {
            (UiState { mode: Mode::Filter, ..*s }, UiAct::Nothing)
        } else if k == Key::Esc && !s.filter_empty {
            (*s, UiAct::ClearFilter)
        } else if k == Key::Char('f') {
            (UiState { confirm_flush: true, ..*s }, UiAct::Nothing)
        } else if down {
            (*s, UiAct::Move(false))
        } else if up {
            (*s, UiAct::Move(true))
        } else {
            (*s, UiAct::Nothing)
        },
    }
}

/// What a key does (`key_spec`): the next state, and the one thing the
/// program is to do about it.
pub fn on_key(s: &UiState, k: Key) -> (r: (UiState, UiAct))
    ensures
        r == key_spec(*s, k),
{
    let free = !(s.mode == Mode::Add || s.mode == Mode::Filter);
    let typing_now = s.mode == Mode::Add || s.mode == Mode::Preset || s.mode == Mode::Filter;
    let mv = focus_move_exec(s.nav.focus, k);
    if mv.is_some() && !typing_now && !s.confirm_flush {
        let f = mv.unwrap();
        (UiState { nav: Nav { focus: f, ..s.nav }, ..*s }, UiAct::Focused)
    } else if free && k == Key::Char('t') {
        (*s, UiAct::NextTheme)
    } else if free && k == Key::Char('B') {
        let mut n = s.nav;
        if in_blocking_tab(s.nav.focus) {
            n.leave_tab();
        } else {
            n.enter_tab(Focus::Blocking);
        }
        (UiState { nav: n, ..*s }, UiAct::Nothing)
    } else if free && k == Key::Char('m') {
        (*s, UiAct::ToggleAuto)
    } else if free && k == Key::Char('A') {
        (*s, if in_log_tab(s.nav.focus) {
            UiAct::CloseLog
        } else {
            UiAct::OpenLog
        })
    } else if s.mode == Mode::Filter && s.nav.focus != Focus::Rules {
        filter_key_exec(s, k)
    } else {
        pane_key_exec(s, k)
    }
}

} // verus!
