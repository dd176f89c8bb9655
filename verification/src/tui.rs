//! What the terminal dashboard decides, apart from drawing it: which pane
//! has the focus and where each key takes it, the preset catalogue and its
//! filter, the log filter, how a flow row's status reads, and the few
//! figures and labels it computes.
use vstd::prelude::*;
use crate::config::{Action, AppRule, Direction, Rule, best_rule, match_rule_at, max_rule_id, now_ts, opt_str_view, opt_view};
use crate::ipc::{Blocked, DeniedBy, FlowStatus, FlowWire, status_of};
use crate::num::{decimal, decimal_exec, lemma_decimal_digits};
use crate::text::{
    chars_of, contains, contains_exec, first_char_in, lemma_split_step, lower, lower_exec, seq_eq,
    skip_ws_in, slice_of, split_on, string_of, trim_range, trim_ws,
};

verus! {

broadcast use vstd::string::group_string_axioms;

// ------------------------------------------------------------ focus

#[derive(Debug, Clone, Copy, PartialEq, Eq, Structural)]
pub enum Focus {
    Apps,
    Flow,
    Rules,
    /// what the blocklists block: its own tab, not a pane in the grid
    Blocking,
    /// listening ports, the other half of the log tab
    Conflicts,
    /// the full audit trail, its own tab
    AppLog,
    /// the names most recently blocked, the other half of the blocking tab
    BlockedNames,
}

/// the log tab: the audit trail and the listening ports
pub open spec fn in_log_tab_spec(f: Focus) -> bool {
    f == Focus::AppLog || f == Focus::Conflicts
}

/// the blocking tab: the category switches and the names recently blocked
pub open spec fn in_blocking_tab_spec(f: Focus) -> bool {
    f == Focus::Blocking || f == Focus::BlockedNames
}

/// anything drawn over the whole grid rather than inside it
pub open spec fn in_tab_spec(f: Focus) -> bool {
    in_log_tab_spec(f) || in_blocking_tab_spec(f)
}

pub fn in_log_tab(f: Focus) -> (r: bool)
    ensures
        r == in_log_tab_spec(f),
{
    f == Focus::AppLog || f == Focus::Conflicts
}

pub fn in_blocking_tab(f: Focus) -> (r: bool)
    ensures
        r == in_blocking_tab_spec(f),
{
    f == Focus::Blocking || f == Focus::BlockedNames
}

pub fn in_tab(f: Focus) -> (r: bool)
    ensures
        r == in_tab_spec(f),
{
    in_log_tab(f) || in_blocking_tab(f)
}

impl Focus {
    /// Tab: the grid's stops as a user thinks of them (system rules,
    /// application blocking), and inside a tab its two halves in turn
    pub fn next(self) -> (r: Focus)
        ensures
            r == match self {
                Focus::Rules => Focus::Apps,
                Focus::Apps | Focus::Flow => Focus::Rules,
                Focus::AppLog => Focus::Conflicts,
                Focus::Conflicts => Focus::AppLog,
                Focus::Blocking => Focus::BlockedNames,
                Focus::BlockedNames => Focus::Blocking,
            },
    {
        match self {
            Focus::Rules => Focus::Apps,
            Focus::Apps | Focus::Flow => Focus::Rules,
            Focus::AppLog => Focus::Conflicts,
            Focus::Conflicts => Focus::AppLog,
            Focus::Blocking => Focus::BlockedNames,
            Focus::BlockedNames => Focus::Blocking,
        }
    }

    /// Shift-Tab
    pub fn prev(self) -> (r: Focus)
        ensures
            r == match self {
                Focus::Rules => Focus::Apps,
                Focus::Apps => Focus::Rules,
                Focus::Flow => Focus::Apps,
                Focus::AppLog => Focus::Conflicts,
                Focus::Conflicts => Focus::AppLog,
                Focus::Blocking => Focus::BlockedNames,
                Focus::BlockedNames => Focus::Blocking,
            },
    {
        match self {
            Focus::Rules => Focus::Apps,
            Focus::Apps => Focus::Rules,
            Focus::Flow => Focus::Apps,
            Focus::AppLog => Focus::Conflicts,
            Focus::Conflicts => Focus::AppLog,
            Focus::Blocking => Focus::BlockedNames,
            Focus::BlockedNames => Focus::Blocking,
        }
    }

    /// `l`: the next stop to the right, the two halves of application
    /// blocking counted separately
    pub fn right(self) -> (r: Focus)
        ensures
            r == match self {
                Focus::Rules => Focus::Apps,
                Focus::Apps => Focus::Flow,
                Focus::Flow => Focus::Rules,
                Focus::AppLog => Focus::Conflicts,
                Focus::Conflicts => Focus::AppLog,
                Focus::Blocking => Focus::BlockedNames,
                Focus::BlockedNames => Focus::Blocking,
            },
    {
        match self {
            Focus::Rules => Focus::Apps,
            Focus::Apps => Focus::Flow,
            Focus::Flow => Focus::Rules,
            Focus::AppLog => Focus::Conflicts,
            Focus::Conflicts => Focus::AppLog,
            Focus::Blocking => Focus::BlockedNames,
            Focus::BlockedNames => Focus::Blocking,
        }
    }

    /// `h`: the same, the other way
    pub fn left(self) -> (r: Focus)
        ensures
            r == match self {
                Focus::Rules => Focus::Flow,
                Focus::Apps => Focus::Rules,
                Focus::Flow => Focus::Apps,
                Focus::AppLog => Focus::Conflicts,
                Focus::Conflicts => Focus::AppLog,
                Focus::Blocking => Focus::BlockedNames,
                Focus::BlockedNames => Focus::Blocking,
            },
    {
        match self {
            Focus::Rules => Focus::Flow,
            Focus::Apps => Focus::Rules,
            Focus::Flow => Focus::Apps,
            Focus::AppLog => Focus::Conflicts,
            Focus::Conflicts => Focus::AppLog,
            Focus::Blocking => Focus::BlockedNames,
            Focus::BlockedNames => Focus::Blocking,
        }
    }
}

/// Where the focus is, and the grid pane a tab returns to.
#[derive(Debug, Clone, Copy, PartialEq, Eq, Structural)]
pub struct Nav {
    pub focus: Focus,
    pub prev_focus: Focus,
}

/// `enter_tab` with each of `tabs` in turn
pub open spec fn entered(n: Nav, tabs: Seq<Focus>) -> Nav
    decreases tabs.len(),
{
    if tabs.len() == 0 {
        n
    } else {
        let m = entered(n, tabs.drop_last());
        Nav {
            focus: tabs.last(),
            prev_focus: if in_tab_spec(m.focus) {
                m.prev_focus
            } else {
                m.focus
            },
        }
    }
}

/// what `leave_tab` makes of a position
pub open spec fn left_tab(n: Nav) -> Nav {
    Nav {
        focus: if in_tab_spec(n.prev_focus) {
            Focus::Apps
        } else {
            n.prev_focus
        },
        prev_focus: n.prev_focus,
    }
}

impl Nav {
    /// Opens a tab, remembering where you were — and only ever a place in
    /// the grid, never another tab.
    pub fn enter_tab(&mut self, tab: Focus)
        ensures
            *final(self) == entered(*old(self), seq![tab]),
    {
        if !in_tab(self.focus) {
            self.prev_focus = self.focus;
        }
        self.focus = tab;
        proof {
            assert(seq![tab].drop_last() =~= Seq::<Focus>::empty());
            reveal_with_fuel(entered, 2);
        }
    }

    /// Back to the grid, from any tab: to where you came from, or to the
    /// apps pane when that was somehow a tab itself.
    pub fn leave_tab(&mut self)
        ensures
            *final(self) == left_tab(*old(self)),
    {
        self.focus = if in_tab(self.prev_focus) {
            Focus::Apps
        } else {
            self.prev_focus
        };
    }
}

proof fn lemma_entered_prev(n: Nav, tabs: Seq<Focus>)
    requires
        forall|i: int| 0 <= i < tabs.len() ==> in_tab_spec(#[trigger] tabs[i]),
    ensures
        tabs.len() > 0 ==> entered(n, tabs).focus == tabs.last(),
        !in_tab_spec(n.focus) && tabs.len() > 0 ==> entered(n, tabs).prev_focus == n.focus,
        in_tab_spec(n.focus) ==> entered(n, tabs).prev_focus == n.prev_focus,
    decreases tabs.len(),
{
    if tabs.len() > 0 {
        let t = tabs.drop_last();
        assert forall|i: int| 0 <= i < t.len() implies in_tab_spec(#[trigger] t[i]) by {
            assert(t[i] == tabs[i]);
        }
        lemma_entered_prev(n, t);
        if t.len() > 0 {
            assert(in_tab_spec(tabs[t.len() - 1]));
        }
    }
}

/// No way into or between the tabs leaves you stranded: leaving a tab
/// always lands in the grid, and entering any number of tabs one after
/// another from a grid pane and then leaving once lands back on that pane.
pub proof fn lemma_never_stranded_in_a_tab(n: Nav, tabs: Seq<Focus>)
    requires
        forall|i: int| 0 <= i < tabs.len() ==> in_tab_spec(#[trigger] tabs[i]),
    ensures
        !in_tab_spec(left_tab(n).focus),
        !in_tab_spec(n.focus) && tabs.len() > 0 ==> left_tab(entered(n, tabs)).focus == n.focus,
{
    lemma_entered_prev(n, tabs);
}

/// Where the cursor goes once row `i` of a list is removed, the list now
/// `len` long: the same place, or the last row when it was the last; nowhere
/// in a list left empty.
pub fn selection_after_removal(i: usize, len: usize) -> (r: Option<usize>)
    ensures
        len == 0 ==> r is None,
        len > 0 ==> r == Some(if i < len { i } else { (len - 1) as usize }),
{
    if len == 0 {
        None
    } else if i < len {
        Some(i)
    } else {
        Some(len - 1)
    }
}

/// `a / b` rounded to the nearest whole number, halves up
pub open spec fn round_div(a: nat, b: nat) -> nat
    recommends
        b > 0,
{
    (2 * a + b) / (2 * b)
}

/// How many of `width` cells a bar gives the blocked side, the allowed side
/// taking the rest: the blocked share of the width, rounded, but at least
/// one cell for a side that is not zero — a rate too small to round up to a
/// cell still shows. An empty bar when nothing was counted.
pub open spec fn bar_split_spec(width: nat, blocked: nat, allowed: nat) -> nat {
    if width == 0 || blocked + allowed == 0 {
        0
    } else {
        let n = round_div(blocked * width, blocked + allowed);
        let lo: nat = if blocked > 0 { 1 } else { 0 };
        let hi: nat = if allowed > 0 { (width - 1) as nat } else { width };
        if n < lo {
            lo
        } else if n > hi {
            hi
        } else {
            n
        }
    }
}

/// The blocked side's cells of a `width`-cell bar (`bar_split_spec`). A
/// bar one cell wide has no room for two non-zero sides.
pub fn bar_split(width: u16, blocked: u64, allowed: u64) -> (n: u16)
    requires
        blocked + allowed <= u64::MAX,
        !(width == 1 && blocked > 0 && allowed > 0),
    ensures
        n == bar_split_spec(width as nat, blocked as nat, allowed as nat),
        n <= width,
{
    let total: u64 = blocked + allowed;
    if width == 0 || total == 0 {
        return 0;
    }
    let w = width as u128;
    let b2: u128 = 2 * (blocked as u128);
    assert(b2 * w <= 2 * 0xffff_ffff_ffff_ffffu128 * 0xffff) by (nonlinear_arith)
        requires
            b2 <= 2 * 0xffff_ffff_ffff_ffffu128,
            w <= 0xffff,
    ;
    let num: u128 = b2 * w + total as u128;
    let den: u128 = 2 * (total as u128);
    proof {
        assert(blocked * width <= total * width) by (nonlinear_arith)
            requires
                blocked <= total,
        ;
        assert(num / den <= w + 1) by (nonlinear_arith)
            requires
                num == 2 * blocked * w + total,
                den == 2 * total,
                blocked * w <= total * w,
                total > 0,
        ;
        assert(b2 * w == 2 * (blocked * width)) by (nonlinear_arith)
            requires
                b2 == 2 * blocked,
                w == width,
        ;
    }
    let n = num / den;
    assert(n == round_div((blocked * width) as nat, (blocked + allowed) as nat));
    let lo: u128 = if blocked > 0 { 1 } else { 0 };
    let hi: u128 = if allowed > 0 { w - 1 } else { w };
    let r = if n < lo {
        lo
    } else if n > hi {
        hi
    } else {
        n
    };
    r as u16
}

/// `a / b` rounded to the nearest whole number, an exact half to the even
/// one — as a number is rounded when it is printed to a given precision
pub open spec fn round_half_even(a: nat, b: nat) -> nat
    recommends
        b > 0,
{
    let q = a / b;
    let r = a % b;
    if 2 * r > b || (2 * r == b && q % 2 == 1) {
        q + 1
    } else {
        q
    }
}

/// `part` of `whole` in tenths of a percent, as the dashboard prints it:
/// rounded to the nearest tenth, an exact half to the even one; nothing of
/// nothing is 0
pub fn share_tenths(part: u64, whole: u64) -> (t: u64)
    requires
        part <= whole,
    ensures
        whole == 0 ==> t == 0,
        whole > 0 ==> t == round_half_even(1000 * part as nat, whole as nat),
        t <= 1000,
{
    if whole == 0 {
        return 0;
    }
    let a: u128 = 1000 * (part as u128);
    let b: u128 = whole as u128;
    let q = a / b;
    let r = a % b;
    proof {
        assert(q <= 1000) by (nonlinear_arith)
            requires
                a == 1000 * part,
                b == whole,
                part <= whole,
                whole > 0,
                q == a / b,
        ;
        assert(q == 1000 ==> r == 0) by (nonlinear_arith)
            requires
                a == 1000 * part,
                b == whole,
                part <= whole,
                whole > 0,
                q == a / b,
                r == a % b,
        ;
    }
    let up = 2 * r > b || (2 * r == b && q % 2 == 1);
    if up {
        (q + 1) as u64
    } else {
        q as u64
    }
}

/// Wrap-around cursor move shared by every list: forward or back one, from
/// nowhere to the first row, and nothing in an empty list.
pub fn step(sel: Option<usize>, len: usize, back: bool) -> (r: Option<usize>)
    ensures
        len == 0 ==> r is None,
        len > 0 ==> r == Some(
            match sel {
                None => 0usize,
                Some(i) => ((i + if back {
                    len - 1
                } else {
                    1
                }) % (len as int)) as usize,
            },
        ),
{
    if len == 0 {
        return None;
    }
    let delta: usize = if back {
        len - 1
    } else {
        1
    };
    match sel {
        None => Some(0),
        Some(i) => Some(((i as u128 + delta as u128) % (len as u128)) as usize),
    }
}

// ------------------------------------------------------------ presets

/// A catalogue entry: what the picker filters and groups on, what it does
/// to your traffic (the part nobody guesses included — an `allow` preset is
/// a kernel-level accept, so per-app rules stop applying to that traffic),
/// and its rules in the add-rule spec format.
#[derive(Debug, Clone, Copy)]
pub struct Preset {
    pub group: &'static str,
    pub name: &'static str,
    pub note: &'static str,
    pub specs: &'static [&'static str],
}

/// The catalogue, grouped by what you are trying to do: `off` when guardit
/// is in the way, `lan` for your own network, `in` for what this machine
/// offers, `out` for what it may reach, `harden` for ports worth shutting on
/// principle, `bundle` for a whole posture in one keystroke.
pub open spec fn preset_table() -> Seq<Preset> {
    seq![
        Preset { group: "off", name: "Allow everything (pause filtering)", note: "one unqualified accept above both queues — no per-app matching, no prompts, no blocking", specs: &["allow any any -"] },
        Preset { group: "off", name: "Pause outbound filtering only", note: "stops the asking about outgoing connections; inbound stays fully filtered", specs: &["allow any any - out"] },
        Preset { group: "lan", name: "Allow my LAN (all private ranges)", note: "192.168/16, 10/8 and 172.16/12, both ways — printers, NAS, phones, other machines you own", specs: &["allow any 192.168.0.0/16 -", "allow any 10.0.0.0/8 -", "allow any 172.16.0.0/12 -"] },
        Preset { group: "lan", name: "Allow my LAN (192.168.0.0/16)", note: "the home-router range only", specs: &["allow any 192.168.0.0/16 -"] },
        Preset { group: "lan", name: "Allow my LAN (10.0.0.0/8)", note: "the corporate/VPN range only", specs: &["allow any 10.0.0.0/8 -"] },
        Preset { group: "lan", name: "Allow link-local (169.254.0.0/16)", note: "self-assigned addresses: a directly cabled machine, a camera, a printer with no DHCP", specs: &["allow any 169.254.0.0/16 -"] },
        Preset { group: "lan", name: "Allow local service discovery", note: "mDNS/Bonjour and SSDP — how printers, casts and NAS boxes announce themselves", specs: &["allow udp any 5353", "allow udp any 1900"] },
        Preset { group: "lan", name: "Block everything outside my LAN", note: "adds nothing: inbound already defaults to drop. Here to say so out loud", specs: &["deny any any - in"] },
        Preset { group: "in", name: "Allow SSH in (22)", note: "from anywhere. Pair it with fail2ban or keys-only if this machine faces the internet", specs: &["allow tcp any 22 in"] },
        Preset { group: "in", name: "Allow SSH in from my LAN only (22)", note: "the same, but nothing off your own network can reach it", specs: &["allow tcp 192.168.0.0/16 22 in", "allow tcp 10.0.0.0/8 22 in"] },
        Preset { group: "in", name: "Allow web serving in (80, 443)", note: "this machine answering HTTP and HTTPS from anywhere", specs: &["allow tcp any 80 in", "allow tcp any 443 in"] },
        Preset { group: "in", name: "Allow a dev server from my LAN (3000, 5173, 8000, 8080)", note: "the usual node/vite/python/tomcat ports, reachable from your own network only", specs: &["allow tcp 192.168.0.0/16 3000 in", "allow tcp 192.168.0.0/16 5173 in", "allow tcp 192.168.0.0/16 8000 in", "allow tcp 192.168.0.0/16 8080 in"] },
        Preset { group: "in", name: "Allow file sharing from my LAN (SMB 139, 445)", note: "Windows/Samba shares — from your own network only, which is the only place SMB belongs", specs: &["allow tcp 192.168.0.0/16 445 in", "allow tcp 192.168.0.0/16 139 in"] },
        Preset { group: "in", name: "Allow printing in (631)", note: "CUPS/IPP, so other machines can print to this one", specs: &["allow tcp any 631 in"] },
        Preset { group: "in", name: "Allow remote desktop from my LAN (VNC 5900, RDP 3389)", note: "screen sharing from your own network. Never open these to the internet", specs: &["allow tcp 192.168.0.0/16 5900 in", "allow tcp 192.168.0.0/16 3389 in"] },
        Preset { group: "in", name: "Allow Syncthing in (22000)", note: "peer-to-peer sync, which needs to be reachable to work at all", specs: &["allow tcp any 22000 in", "allow udp any 22000 in"] },
        Preset { group: "in", name: "Allow BitTorrent in (6881)", note: "incoming peers. Expect a lot of them", specs: &["allow tcp any 6881 in", "allow udp any 6881 in"] },
        Preset { group: "in", name: "Allow WireGuard in (51820)", note: "so a VPN client elsewhere can reach this machine", specs: &["allow udp any 51820 in"] },
        Preset { group: "out", name: "Stop asking about DNS and NTP (53, 123)", note: "the two every program needs. Kernel-level accept, so per-app rules no longer apply to them", specs: &["allow any any 53 out", "allow udp any 123 out"] },
        Preset { group: "out", name: "Stop asking about the web (80, 443)", note: "quietest single change there is — and it takes per-app control off ALL web traffic", specs: &["allow tcp any 80 out", "allow tcp any 443 out"] },
        Preset { group: "out", name: "Stop asking about mail (465, 587, 993, 995)", note: "submission and IMAP/POP over TLS; per-app control stops applying to them", specs: &["allow tcp any 465 out", "allow tcp any 587 out", "allow tcp any 993 out", "allow tcp any 995 out"] },
        Preset { group: "out", name: "Stop asking about SSH and git (22, 9418)", note: "for a machine you push from all day", specs: &["allow tcp any 22 out", "allow tcp any 9418 out"] },
        Preset { group: "out", name: "Block plain HTTP out (80)", note: "HTTPS only. Breaks captive portals and a few updaters, and says so loudly when it does", specs: &["deny tcp any 80 out"] },
        Preset { group: "out", name: "Block SMTP out (25)", note: "port 25 from a machine like this one is a spam bot; real mail submits on 465 or 587", specs: &["deny tcp any 25 out"] },
        Preset { group: "harden", name: "Block remote-control ports out (telnet, SMB, RDP, VNC)", note: "23, 139, 445, 3389, 5900 outbound — plaintext or LAN-only protocols with no business leaving", specs: &["deny tcp any 23 out", "deny tcp any 139 out", "deny tcp any 445 out", "deny tcp any 3389 out", "deny tcp any 5900 out"] },
        Preset { group: "harden", name: "Block known implant ports out (4444, 5555, 6667)", note: "metasploit's default, adb over the network, and IRC — a shortlist, not a shield", specs: &["deny tcp any 4444 out", "deny tcp any 5555 out", "deny tcp any 6667 out"] },
        Preset { group: "harden", name: "Block encrypted DNS out (853)", note: "DoT/DoQ, so name lookups stay where the blocklists can see them. The blocklist setting covers DoH too", specs: &["deny tcp any 853 out", "deny udp any 853 out"] },
        Preset { group: "harden", name: "Block NetBIOS and mDNS leaving the LAN (137, 138, 5353)", note: "chatty discovery protocols that leak machine and user names", specs: &["deny udp any 137 out", "deny udp any 138 out", "deny udp any 5353 out"] },
        Preset { group: "bundle", name: "Laptop on untrusted wifi", note: "nothing in, the essentials out, no LAN trust: DNS/NTP/web out, everything inbound dropped", specs: &["deny any any - in", "allow any any 53 out", "allow udp any 123 out", "allow tcp any 80 out", "allow tcp any 443 out"] },
        Preset { group: "bundle", name: "Web server", note: "80, 443 and SSH in; DNS, NTP and web out for updates. Per-app control stays on everything else", specs: &["allow tcp any 80 in", "allow tcp any 443 in", "allow tcp any 22 in", "allow any any 53 out", "allow udp any 123 out", "allow tcp any 80 out", "allow tcp any 443 out"] },
        Preset { group: "bundle", name: "Home desktop", note: "the whole LAN trusted both ways, DNS/NTP/web out, and the remote-control ports shut outbound", specs: &["allow any 192.168.0.0/16 -", "allow any 10.0.0.0/8 -", "allow any any 53 out", "allow udp any 123 out", "allow tcp any 80 out", "allow tcp any 443 out", "deny tcp any 23 out", "deny tcp any 445 out", "deny tcp any 3389 out"] },
        Preset { group: "bundle", name: "Paranoid", note: "no LAN trust, no kernel-level allows at all — every single connection goes to the daemon and its rules", specs: &["deny any any - in", "deny tcp any 23 out", "deny tcp any 25 out", "deny tcp any 139 out", "deny tcp any 445 out", "deny tcp any 3389 out", "deny tcp any 5900 out", "deny tcp any 853 out", "deny udp any 853 out"] },
    ]
}

/// The preset catalogue (`preset_table`).
pub fn presets() -> (v: Vec<Preset>)
    ensures
        v@ == preset_table(),
{
    let v = vec![
        Preset { group: "off", name: "Allow everything (pause filtering)", note: "one unqualified accept above both queues — no per-app matching, no prompts, no blocking", specs: &["allow any any -"] },
        Preset { group: "off", name: "Pause outbound filtering only", note: "stops the asking about outgoing connections; inbound stays fully filtered", specs: &["allow any any - out"] },
        Preset { group: "lan", name: "Allow my LAN (all private ranges)", note: "192.168/16, 10/8 and 172.16/12, both ways — printers, NAS, phones, other machines you own", specs: &["allow any 192.168.0.0/16 -", "allow any 10.0.0.0/8 -", "allow any 172.16.0.0/12 -"] },
        Preset { group: "lan", name: "Allow my LAN (192.168.0.0/16)", note: "the home-router range only", specs: &["allow any 192.168.0.0/16 -"] },
        Preset { group: "lan", name: "Allow my LAN (10.0.0.0/8)", note: "the corporate/VPN range only", specs: &["allow any 10.0.0.0/8 -"] },
        Preset { group: "lan", name: "Allow link-local (169.254.0.0/16)", note: "self-assigned addresses: a directly cabled machine, a camera, a printer with no DHCP", specs: &["allow any 169.254.0.0/16 -"] },
        Preset { group: "lan", name: "Allow local service discovery", note: "mDNS/Bonjour and SSDP — how printers, casts and NAS boxes announce themselves", specs: &["allow udp any 5353", "allow udp any 1900"] },
        Preset { group: "lan", name: "Block everything outside my LAN", note: "adds nothing: inbound already defaults to drop. Here to say so out loud", specs: &["deny any any - in"] },
        Preset { group: "in", name: "Allow SSH in (22)", note: "from anywhere. Pair it with fail2ban or keys-only if this machine faces the internet", specs: &["allow tcp any 22 in"] },
        Preset { group: "in", name: "Allow SSH in from my LAN only (22)", note: "the same, but nothing off your own network can reach it", specs: &["allow tcp 192.168.0.0/16 22 in", "allow tcp 10.0.0.0/8 22 in"] },
        Preset { group: "in", name: "Allow web serving in (80, 443)", note: "this machine answering HTTP and HTTPS from anywhere", specs: &["allow tcp any 80 in", "allow tcp any 443 in"] },
        Preset { group: "in", name: "Allow a dev server from my LAN (3000, 5173, 8000, 8080)", note: "the usual node/vite/python/tomcat ports, reachable from your own network only", specs: &["allow tcp 192.168.0.0/16 3000 in", "allow tcp 192.168.0.0/16 5173 in", "allow tcp 192.168.0.0/16 8000 in", "allow tcp 192.168.0.0/16 8080 in"] },
        Preset { group: "in", name: "Allow file sharing from my LAN (SMB 139, 445)", note: "Windows/Samba shares — from your own network only, which is the only place SMB belongs", specs: &["allow tcp 192.168.0.0/16 445 in", "allow tcp 192.168.0.0/16 139 in"] },
        Preset { group: "in", name: "Allow printing in (631)", note: "CUPS/IPP, so other machines can print to this one", specs: &["allow tcp any 631 in"] },
        Preset { group: "in", name: "Allow remote desktop from my LAN (VNC 5900, RDP 3389)", note: "screen sharing from your own network. Never open these to the internet", specs: &["allow tcp 192.168.0.0/16 5900 in", "allow tcp 192.168.0.0/16 3389 in"] },
        Preset { group: "in", name: "Allow Syncthing in (22000)", note: "peer-to-peer sync, which needs to be reachable to work at all", specs: &["allow tcp any 22000 in", "allow udp any 22000 in"] },
        Preset { group: "in", name: "Allow BitTorrent in (6881)", note: "incoming peers. Expect a lot of them", specs: &["allow tcp any 6881 in", "allow udp any 6881 in"] },
        Preset { group: "in", name: "Allow WireGuard in (51820)", note: "so a VPN client elsewhere can reach this machine", specs: &["allow udp any 51820 in"] },
        Preset { group: "out", name: "Stop asking about DNS and NTP (53, 123)", note: "the two every program needs. Kernel-level accept, so per-app rules no longer apply to them", specs: &["allow any any 53 out", "allow udp any 123 out"] },
        Preset { group: "out", name: "Stop asking about the web (80, 443)", note: "quietest single change there is — and it takes per-app control off ALL web traffic", specs: &["allow tcp any 80 out", "allow tcp any 443 out"] },
        Preset { group: "out", name: "Stop asking about mail (465, 587, 993, 995)", note: "submission and IMAP/POP over TLS; per-app control stops applying to them", specs: &["allow tcp any 465 out", "allow tcp any 587 out", "allow tcp any 993 out", "allow tcp any 995 out"] },
        Preset { group: "out", name: "Stop asking about SSH and git (22, 9418)", note: "for a machine you push from all day", specs: &["allow tcp any 22 out", "allow tcp any 9418 out"] },
        Preset { group: "out", name: "Block plain HTTP out (80)", note: "HTTPS only. Breaks captive portals and a few updaters, and says so loudly when it does", specs: &["deny tcp any 80 out"] },
        Preset { group: "out", name: "Block SMTP out (25)", note: "port 25 from a machine like this one is a spam bot; real mail submits on 465 or 587", specs: &["deny tcp any 25 out"] },
        Preset { group: "harden", name: "Block remote-control ports out (telnet, SMB, RDP, VNC)", note: "23, 139, 445, 3389, 5900 outbound — plaintext or LAN-only protocols with no business leaving", specs: &["deny tcp any 23 out", "deny tcp any 139 out", "deny tcp any 445 out", "deny tcp any 3389 out", "deny tcp any 5900 out"] },
        Preset { group: "harden", name: "Block known implant ports out (4444, 5555, 6667)", note: "metasploit's default, adb over the network, and IRC — a shortlist, not a shield", specs: &["deny tcp any 4444 out", "deny tcp any 5555 out", "deny tcp any 6667 out"] },
        Preset { group: "harden", name: "Block encrypted DNS out (853)", note: "DoT/DoQ, so name lookups stay where the blocklists can see them. The blocklist setting covers DoH too", specs: &["deny tcp any 853 out", "deny udp any 853 out"] },
        Preset { group: "harden", name: "Block NetBIOS and mDNS leaving the LAN (137, 138, 5353)", note: "chatty discovery protocols that leak machine and user names", specs: &["deny udp any 137 out", "deny udp any 138 out", "deny udp any 5353 out"] },
        Preset { group: "bundle", name: "Laptop on untrusted wifi", note: "nothing in, the essentials out, no LAN trust: DNS/NTP/web out, everything inbound dropped", specs: &["deny any any - in", "allow any any 53 out", "allow udp any 123 out", "allow tcp any 80 out", "allow tcp any 443 out"] },
        Preset { group: "bundle", name: "Web server", note: "80, 443 and SSH in; DNS, NTP and web out for updates. Per-app control stays on everything else", specs: &["allow tcp any 80 in", "allow tcp any 443 in", "allow tcp any 22 in", "allow any any 53 out", "allow udp any 123 out", "allow tcp any 80 out", "allow tcp any 443 out"] },
        Preset { group: "bundle", name: "Home desktop", note: "the whole LAN trusted both ways, DNS/NTP/web out, and the remote-control ports shut outbound", specs: &["allow any 192.168.0.0/16 -", "allow any 10.0.0.0/8 -", "allow any any 53 out", "allow udp any 123 out", "allow tcp any 80 out", "allow tcp any 443 out", "deny tcp any 23 out", "deny tcp any 445 out", "deny tcp any 3389 out"] },
        Preset { group: "bundle", name: "Paranoid", note: "no LAN trust, no kernel-level allows at all — every single connection goes to the daemon and its rules", specs: &["deny any any - in", "deny tcp any 23 out", "deny tcp any 25 out", "deny tcp any 139 out", "deny tcp any 445 out", "deny tcp any 3389 out", "deny tcp any 5900 out", "deny tcp any 853 out", "deny udp any 853 out"] },
    ];
    assert(v@ =~= preset_table());
    v
}

/// a preset the filter `f` (trimmed and ASCII-lowercased already) keeps:
/// everything for no filter, else those whose group, name or note contains
/// it, case-insensitively
pub open spec fn preset_matches(p: Preset, f: Seq<char>) -> bool {
    f.len() == 0 || contains(p.group@, f) || contains(lower(p.name@), f) || contains(lower(p.note@), f)
}

/// the presets of `ps` the filter keeps, in order
pub open spec fn keep_presets(ps: Seq<Preset>, f: Seq<char>) -> Seq<Preset>
    decreases ps.len(),
{
    if ps.len() == 0 {
        seq![]
    } else {
        let r = keep_presets(ps.drop_last(), f);
        if preset_matches(ps.last(), f) {
            r.push(ps.last())
        } else {
            r
        }
    }
}

/// The presets whose group, name or note contains `filter`,
/// case-insensitively — with a catalogue this long, "type three letters" is
/// the navigation.
pub fn matching_presets(filter: &str) -> (v: Vec<Preset>)
    ensures
        v@ == keep_presets(preset_table(), lower(trim_ws(filter@))),
{
    let fv = chars_of(filter);
    let (a, b) = trim_range(&fv, 0, fv.len());
    assert(fv@.subrange(0, fv@.len() as int) =~= fv@);
    let f = lower_exec(&slice_of(&fv, a, b));
    let all = presets();
    let mut out: Vec<Preset> = Vec::new();
    let mut i: usize = 0;
    assert(all@.take(0) =~= Seq::<Preset>::empty());
    while i < all.len()
        invariant
            all@ == preset_table(),
            f@ == lower(trim_ws(filter@)),
            i <= all@.len(),
            out@ == keep_presets(all@.take(i as int), f@),
        decreases all@.len() - i,
    {
        assert(all@.take(i + 1).drop_last() =~= all@.take(i as int));
        assert(all@.take(i + 1).last() == all@[i as int]);
        let p = all[i];
        let keep = f.len() == 0 || contains_exec(&chars_of(p.group), &f) || contains_exec(
            &lower_exec(&chars_of(p.name)),
            &f,
        ) || contains_exec(&lower_exec(&chars_of(p.note)), &f);
        if keep {
            out.push(p);
        }
        i = i + 1;
    }
    assert(all@.take(i as int) =~= all@);
    out
}

// ------------------------------------------------------------ the log tab

/// What `str::to_lowercase` makes of a text: the Unicode lowercase mapping
/// of each character.
pub uninterp spec fn unicode_lower(s: Seq<char>) -> Seq<char>;

pub open spec fn all_ascii_chars(s: Seq<char>) -> bool {
    forall|i: int| 0 <= i < s.len() ==> (#[trigger] s[i] as u32) < 128
}

/// `str::to_lowercase`. Claimed: the result is `unicode_lower` of the text,
/// a function of the text alone, and on ASCII text it lowercases exactly the
/// letters A–Z.
#[verifier::external_body]
pub(crate) fn lowercase(s: &str) -> (r: String)
    ensures
        r@ == unicode_lower(s@),
        all_ascii_chars(s@) ==> r@ == lower(s@),
{
    s.to_lowercase()
}

pub open spec fn all_ascii_digits(s: Seq<char>) -> bool {
    forall|i: int| 0 <= i < s.len() ==> '0' <= #[trigger] s[i] && s[i] <= '9'
}

/// Does a log row match the filter? A digits-only needle is a port, matched
/// as a whole number (`443` is port 443, not every port or address holding
/// those digits); anything else is a case-insensitive piece of the peer
/// address, the resolved name or the app path.
pub open spec fn row_matches(e: FlowWire, needle: Seq<char>) -> bool {
    if all_ascii_digits(needle) {
        match e.port {
            Some(p) => decimal(p as nat) == needle,
            None => false,
        }
    } else {
        let n = unicode_lower(needle);
        contains(unicode_lower(e.peer_ip@), n) || (match e.peer_name {
            Some(x) => contains(unicode_lower(x@), n),
            None => false,
        }) || contains(unicode_lower(e.exe@), n)
    }
}

pub(crate) fn digits_only(s: &[char]) -> (r: bool)
    ensures
        r == all_ascii_digits(s@),
{
    let mut i: usize = 0;
    while i < s.len()
        invariant
            i <= s@.len(),
            forall|j: int| 0 <= j < i ==> '0' <= #[trigger] s@[j] && s@[j] <= '9',
        decreases s@.len() - i,
    {
        if !('0' <= s[i] && s[i] <= '9') {
            return false;
        }
        i = i + 1;
    }
    true
}

pub fn log_row_matches(e: &FlowWire, needle: &str) -> (r: bool)
    ensures
        r == row_matches(*e, needle@),
{
    let nv = chars_of(needle);
    if digits_only(&nv) {
        return match e.port {
            Some(p) => seq_eq(&decimal_exec(p as u64), &nv),
            None => false,
        };
    }
    let n = chars_of(lowercase(needle).as_str());
    contains_exec(&chars_of(lowercase(e.peer_ip.as_str()).as_str()), &n) || (match &e.peer_name {
        Some(x) => contains_exec(&chars_of(lowercase(x.as_str()).as_str()), &n),
        None => false,
    }) || contains_exec(&chars_of(lowercase(e.exe.as_str()).as_str()), &n)
}

// ------------------------------------------------------------ flow rows

/// How a flow row reads now: a pending row is pending; a row a policy
/// refused (blocklist, unresolved address) stays refused, since no reading
/// of the app rules reaches that decision; otherwise the rule that decides
/// it at `now`, and the stored status when none does.
pub open spec fn effective_status_spec(e: FlowWire, rules: Seq<AppRule>, now: u64) -> FlowStatus {
    if e.status == FlowStatus::Pending {
        FlowStatus::Pending
    } else if e.denied_by is Some {
        FlowStatus::Denied
    } else {
        match best_rule(rules, e.exe@, e.port, Some(e.direction), opt_view(e.peer_name), now) {
            Some(i) => status_of(rules[i].action),
            None => e.status,
        }
    }
}

pub fn effective_status_at(e: &FlowWire, rules: &[AppRule], now: u64) -> (s: FlowStatus)
    ensures
        s == effective_status_spec(*e, rules@, now),
{
    if e.status == FlowStatus::Pending {
        return FlowStatus::Pending;
    }
    if e.denied_by.is_some() {
        return FlowStatus::Denied;
    }
    let host: Option<&str> = match &e.peer_name {
        Some(n) => Some(n.as_str()),
        None => None,
    };
    assert(opt_str_view(host) == opt_view(e.peer_name));
    match match_rule_at(rules, e.exe.as_str(), e.port, Some(e.direction), host, now) {
        Some(r) => FlowStatus::from(r.action),
        None => e.status,
    }
}

/// `effective_status_at` the current time
pub fn effective_status(e: &FlowWire, rules: &[AppRule]) -> (s: FlowStatus)
    ensures
        exists|now: u64| s == #[trigger] effective_status_spec(*e, rules@, now),
{
    let now = now_ts();
    effective_status_at(e, rules, now)
}

/// how much of each app's history the flow pane holds
pub const FLOW_PER_APP: usize = 300;

/// how many of `es[i..]` are `x`
pub open spec fn count_from(es: Seq<Seq<char>>, i: int, x: Seq<char>) -> nat
    decreases es.len() - i,
{
    if i < 0 || i >= es.len() {
        0
    } else {
        (if es[i] == x {
            1nat
        } else {
            0nat
        }) + count_from(es, i + 1, x)
    }
}

pub open spec fn exes(flow: Seq<FlowWire>) -> Seq<Seq<char>> {
    flow.map_values(|e: FlowWire| e.exe@)
}

/// row `i` is among the newest `FLOW_PER_APP` of its app
pub open spec fn recent_enough(flow: Seq<FlowWire>, i: int) -> bool {
    count_from(exes(flow), i + 1, exes(flow)[i]) < FLOW_PER_APP
}

/// the rows from `i` on that are among the newest of their app, in order
pub open spec fn kept_from(flow: Seq<FlowWire>, i: int) -> Seq<FlowWire>
    decreases flow.len() - i,
{
    if i < 0 || i >= flow.len() {
        seq![]
    } else {
        (if recent_enough(flow, i) {
            seq![flow[i]]
        } else {
            seq![]
        }) + kept_from(flow, i + 1)
    }
}

/// Keeps the newest `FLOW_PER_APP` rows of every app rather than the newest
/// rows overall, so that one chatty program does not evict every other
/// app's history; nothing changes while there are no more rows than that.
pub fn trim_flow(flow: &mut Vec<FlowWire>)
    ensures
        old(flow)@.len() <= FLOW_PER_APP ==> final(flow)@ == old(flow)@,
        old(flow)@.len() > FLOW_PER_APP ==> final(flow)@ == kept_from(old(flow)@, 0),
{
    let n = flow.len();
    if n <= FLOW_PER_APP {
        return;
    }
    let ghost f = flow@;
    let ghost es = exes(f);
    let mut counts: vstd::hash_map::StringHashMap<usize> = vstd::hash_map::StringHashMap::new();
    let mut keep_rev: Vec<bool> = Vec::new();
    let mut i: usize = n;
    while i > 0
        invariant
            f == flow@,
            es == exes(f),
            n == f.len(),
            i <= n,
            keep_rev@.len() == n - i,
            forall|k: int|
                0 <= k < n - i ==> #[trigger] keep_rev@[k] == recent_enough(f, n - 1 - k),
            forall|x: Seq<char>|
                #![trigger counts@.contains_key(x)]
                counts@.contains_key(x) ==> counts@[x] == count_from(es, i as int, x),
            forall|x: Seq<char>|
                #![trigger counts@.contains_key(x)]
                !counts@.contains_key(x) ==> count_from(es, i as int, x) == 0,
            forall|x: Seq<char>| #![trigger count_from(es, i as int, x)] count_from(es, i as int, x) <= n - i,
        decreases i,
    {
        let j = i - 1;
        let exe = flow[j].exe.as_str();
        assert(es[j as int] == exe@);
        let c: usize = match counts.get(exe) {
            Some(v) => *v,
            None => 0,
        };
        assert(c == count_from(es, i as int, exe@));
        keep_rev.push(c < FLOW_PER_APP);
        assert(count_from(es, j as int, exe@) == c + 1);
        assert forall|x: Seq<char>| x != exe@ implies count_from(es, j as int, x) == count_from(
            es,
            i as int,
            x,
        ) by {}
        counts.insert(string_of(&chars_of(exe)), c + 1);
        i = j;
    }
    let mut out: Vec<FlowWire> = Vec::new();
    let mut k: usize = n;
    assert(kept_from(f, n as int) =~= Seq::<FlowWire>::empty());
    while k > 0
        invariant
            f == flow@,
            n == f.len(),
            k <= n,
            keep_rev@.len() == n,
            forall|m: int| 0 <= m < n ==> #[trigger] keep_rev@[m] == recent_enough(f, n - 1 - m),
            out@ == kept_from(f, k as int).reverse(),
        decreases k,
    {
        let j = k - 1;
        assert(keep_rev@[(n - 1 - j) as int] == recent_enough(f, j as int));
        if keep_rev[n - 1 - j] {
            out.push(flow[j].clone());
            assert(out@ =~= kept_from(f, j as int).reverse());
        } else {
            assert(out@ =~= kept_from(f, j as int).reverse());
        }
        k = j;
    }
    let mut res: Vec<FlowWire> = Vec::new();
    let mut m: usize = out.len();
    let ghost kf = kept_from(f, 0);
    assert(out@ == kf.reverse());
    while m > 0
        invariant
            m <= out@.len(),
            out@ == kf.reverse(),
            res@ == kf.take(out@.len() - m),
        decreases m,
    {
        res.push(out[m - 1].clone());
        assert(res@ =~= kf.take(out@.len() - m + 1));
        m = m - 1;
    }
    assert(res@ =~= kf);
    *flow = res;
}

// ------------------------------------------------------------ figures

/// `d` with a space before every group of three digits counted from the
/// right, up to `i`
pub open spec fn grouped(d: Seq<char>, i: int) -> Seq<char>
    decreases i,
{
    if i <= 0 {
        seq![]
    } else {
        grouped(d, i - 1) + (if i - 1 > 0 && (d.len() - (i - 1)) % 3 == 0 {
            seq![' ']
        } else {
            seq![]
        }) + seq![d[i - 1]]
    }
}

proof fn lemma_grouped_len(d: Seq<char>, i: int)
    requires
        1 <= i <= d.len(),
    ensures
        grouped(d, i).len() == i + (d.len() - 1) / 3 - (d.len() - i) / 3,
        grouped(d, i).last() == d[i - 1],
    decreases i,
{
    if i > 1 {
        lemma_grouped_len(d, i - 1);
    } else {
        assert(grouped(d, 0).len() == 0);
    }
}

/// A number's digits are grouped in threes from the right: `L` digits get
/// `(L - 1) / 3` spaces, and the text ends in the last digit.
pub proof fn lemma_group_spacing(d: Seq<char>)
    requires
        d.len() > 0,
    ensures
        grouped(d, d.len() as int).len() == d.len() + (d.len() - 1) / 3,
        grouped(d, d.len() as int).last() == d.last(),
{
    lemma_grouped_len(d, d.len() as int);
}

/// `s` with its spaces taken out
pub open spec fn unspaced(s: Seq<char>) -> Seq<char> {
    s.filter(|c: char| c != ' ')
}

proof fn lemma_unspaced_upto(d: Seq<char>, i: int)
    requires
        0 <= i <= d.len(),
        forall|j: int| 0 <= j < d.len() ==> d[j] != ' ',
    ensures
        unspaced(grouped(d, i)) == d.take(i),
    decreases i,
{
    let keep = |c: char| c != ' ';
    if i <= 0 {
        assert(grouped(d, i) =~= seq![]);
        assert(d.take(i) =~= seq![]);
    } else {
        lemma_unspaced_upto(d, i - 1);
        let sp: Seq<char> = if i - 1 > 0 && (d.len() - (i - 1)) % 3 == 0 {
            seq![' ']
        } else {
            seq![]
        };
        let a = grouped(d, i - 1);
        let last: Seq<char> = seq![d[i - 1]];
        Seq::filter_distributes_over_add(a + sp, last, keep);
        Seq::filter_distributes_over_add(a, sp, keep);
        reveal_with_fuel(Seq::filter, 2);
        assert(sp.filter(keep) =~= seq![]);
        assert(last.drop_last() =~= seq![]);
        assert(last.filter(keep) =~= last);
        assert(d.take(i - 1) + last =~= d.take(i));
    }
}

/// the text `grouped(d, j)` is the start of `grouped(d, k)`
proof fn lemma_grouped_prefix(d: Seq<char>, j: int, k: int)
    requires
        0 <= j <= k,
    ensures
        grouped(d, j).len() <= grouped(d, k).len(),
        grouped(d, k).take(grouped(d, j).len() as int) == grouped(d, j),
    decreases k,
{
    if j < k {
        lemma_grouped_prefix(d, j, k - 1);
        let a = grouped(d, k - 1);
        assert(grouped(d, k).take(a.len() as int) =~= a);
        assert(grouped(d, k).take(grouped(d, j).len() as int) =~= a.take(grouped(d, j).len() as int));
    } else {
        assert(grouped(d, k).take(grouped(d, k).len() as int) =~= grouped(d, k));
    }
}

/// where the digit `i` of `len` stands once they are grouped: after the
/// `i` digits before it and the spaces among those
pub open spec fn digit_at(len: int, i: int) -> int {
    i + (len - 1) / 3 - (len - 1 - i) / 3
}

/// A grouped number reads back as the number: take the spaces out and its
/// decimal digits are left, each digit where it was counted from the
/// right; and a space stands before a digit other than the first exactly
/// when the digits from it to the end are a multiple of three.
pub proof fn lemma_group_reads_back(n: nat)
    ensures
        unspaced(grouped(decimal(n), decimal(n).len() as int)) == decimal(n),
        forall|i: int|
            #![trigger digit_at(decimal(n).len() as int, i)]
            0 <= i < decimal(n).len() ==> grouped(decimal(n), decimal(n).len() as int)[digit_at(
                decimal(n).len() as int,
                i,
            )] == decimal(n)[i],
        forall|i: int|
            #![trigger digit_at(decimal(n).len() as int, i)]
            0 < i < decimal(n).len() ==> (grouped(decimal(n), decimal(n).len() as int)[digit_at(
                decimal(n).len() as int,
                i,
            ) - 1] == ' ' <==> (decimal(n).len() - i) % 3 == 0),
{
    let d = decimal(n);
    let len = d.len() as int;
    lemma_decimal_digits(n);
    lemma_unspaced_upto(d, len);
    assert(d.take(len) =~= d);
    assert forall|i: int|
        #![trigger digit_at(len, i)]
        0 <= i < len implies grouped(d, len)[digit_at(len, i)] == decimal(n)[i] && (i > 0 ==> (grouped(
        d,
        len,
    )[digit_at(len, i) - 1] == ' ' <==> (len - i) % 3 == 0)) by {
        lemma_digit_in_place(d, i);
    }
}

proof fn lemma_digit_in_place(d: Seq<char>, i: int)
    requires
        0 <= i < d.len(),
        forall|j: int| 0 <= j < d.len() ==> '0' <= #[trigger] d[j] <= '9',
    ensures
        grouped(d, d.len() as int)[digit_at(d.len() as int, i)] == d[i],
        i > 0 ==> (grouped(d, d.len() as int)[digit_at(d.len() as int, i) - 1] == ' ' <==> (d.len() - i) % 3
            == 0),
{
    let len = d.len() as int;
    let g = grouped(d, len);
    let at = digit_at(len, i);
    lemma_grouped_len(d, i + 1);
    lemma_grouped_prefix(d, i + 1, len);
    let h = grouped(d, i + 1);
    assert(h.len() == at + 1);
    assert(g[at] == h[at]);
    if i > 0 {
        assert(g[at - 1] == h[at - 1]);
        lemma_grouped_len(d, i);
        if (len - i) % 3 != 0 {
            assert(h[at - 1] == grouped(d, i).last());
            assert('0' <= d[i - 1] <= '9');
        }
    }
}

/// 1234567 -> "1 234 567": a raw run of digits is the one number on the
/// dashboard you have to read off, so it gets separators
pub fn group(n: u64) -> (s: String)
    ensures
        s@ == grouped(decimal(n as nat), decimal(n as nat).len() as int),
{
    let d = decimal_exec(n);
    let mut out: Vec<char> = Vec::new();
    let mut i: usize = 0;
    while i < d.len()
        invariant
            i <= d@.len(),
            out@ == grouped(d@, i as int),
        decreases d@.len() - i,
    {
        if i > 0 && (d.len() - i) % 3 == 0 {
            out.push(' ');
        }
        out.push(d[i]);
        assert(out@ =~= grouped(d@, i + 1));
        i = i + 1;
    }
    string_of(&out)
}

/// `v` joined with ", "
pub open spec fn comma_join(v: Seq<Seq<char>>) -> Seq<char>
    decreases v.len(),
{
    if v.len() == 0 {
        seq![]
    } else if v.len() == 1 {
        v[0]
    } else {
        comma_join(v.drop_last()) + ", "@ + v.last()
    }
}

/// A category's lists in `room` columns: all of them when they fit, else
/// the first and how many more (cut mid-name, a list key reads as another
/// list); and, when even that does not fit, cut with an ellipsis.
pub open spec fn lists_label_spec(keys: Seq<Seq<char>>, room: nat) -> Seq<char> {
    let all = comma_join(keys);
    let label = if keys.len() == 0 {
        "no list"@
    } else if keys.len() > 1 && all.len() > room {
        keys[0] + " +"@ + decimal((keys.len() - 1) as nat)
    } else {
        all
    };
    if label.len() <= room {
        label
    } else {
        label.take(if room >= 1 { room - 1 } else { 0 }) + seq!['…']
    }
}

pub fn lists_label(keys: &[String], room: usize) -> (s: String)
    ensures
        s@ == lists_label_spec(keys@.map_values(|k: String| k@), room as nat),
{
    let ghost ks = keys@.map_values(|k: String| k@);
    let mut all: Vec<char> = Vec::new();
    let mut i: usize = 0;
    assert(ks.take(0) =~= Seq::<Seq<char>>::empty());
    while i < keys.len()
        invariant
            ks == keys@.map_values(|k: String| k@),
            i <= ks.len(),
            all@ == comma_join(ks.take(i as int)),
        decreases ks.len() - i,
    {
        assert(ks.take(i + 1).drop_last() =~= ks.take(i as int));
        assert(ks.take(i + 1).last() == keys@[i as int]@);
        if i > 0 {
            all = crate::text::concat(&all, &chars_of(", "));
        }
        all = crate::text::concat(&all, &chars_of(keys[i].as_str()));
        assert(all@ =~= comma_join(ks.take(i + 1)));
        i = i + 1;
    }
    assert(ks.take(i as int) =~= ks);
    let label: Vec<char> = if keys.len() == 0 {
        chars_of("no list")
    } else if keys.len() > 1 && all.len() > room {
        assert(ks[0] == keys@[0]@);
        let more = decimal_exec((keys.len() - 1) as u64);
        crate::text::concat(&crate::text::concat(&chars_of(keys[0].as_str()), &chars_of(" +")), &more)
    } else {
        all
    };
    if label.len() <= room {
        return string_of(&label);
    }
    let keep = if room >= 1 {
        room - 1
    } else {
        0
    };
    let mut cut = slice_of(&label, 0, keep);
    cut.push('…');
    assert(label@.subrange(0, keep as int) =~= label@.take(keep as int));
    string_of(&cut)
}

// ------------------------------------------------------------ recent names

/// the position, counted newest first, of the first refusal with this
/// time and name
pub open spec fn position_rev(v: Seq<Blocked>, ts: u64, name: Seq<char>, k: int) -> Option<int>
    decreases v.len() - k,
{
    if k < 0 || k >= v.len() {
        None
    } else if v[v.len() - 1 - k].ts == ts && v[v.len() - 1 - k].name@ == name {
        Some(k)
    } else {
        position_rev(v, ts, name, k + 1)
    }
}

/// The recent names are drawn newest first, so every new refusal pushes
/// the rest down a row: the selection follows the name it was on (the
/// same time and name), or stays where it was when that is gone.
pub open spec fn follow_spec(old: Seq<Blocked>, sel: Option<usize>, new: Seq<Blocked>) -> Option<usize> {
    match sel {
        Some(i) => if i < old.len() {
            let e = old[old.len() - 1 - i];
            match position_rev(new, e.ts, e.name@, 0) {
                Some(k) => Some(k as usize),
                None => sel,
            }
        } else {
            sel
        },
        None => None,
    }
}

pub fn follow_selection(old: &[Blocked], sel: Option<usize>, new: &[Blocked]) -> (r: Option<usize>)
    ensures
        r == follow_spec(old@, sel, new@),
{
    let i = match sel {
        Some(i) => i,
        None => return None,
    };
    if i >= old.len() {
        return sel;
    }
    let e = &old[old.len() - 1 - i];
    let name = chars_of(e.name.as_str());
    let mut k: usize = 0;
    while k < new.len()
        invariant
            k <= new@.len(),
            name@ == e.name@,
            sel == Some(i),
            i < old@.len(),
            *e == old@[old@.len() - 1 - i],
            position_rev(new@, e.ts, name@, 0) == position_rev(new@, e.ts, name@, k as int),
        decreases new@.len() - k,
    {
        let c = &new[new.len() - 1 - k];
        assert(new@[new@.len() - 1 - k] == *c);
        if c.ts == e.ts && seq_eq(&chars_of(c.name.as_str()), &name) {
            assert(position_rev(new@, e.ts, name@, k as int) == Some(k as int));
            return Some(k);
        }
        k = k + 1;
    }
    sel
}

// ------------------------------------------------------------ names

/// a part of a path that names something: not empty, and not `.`, which
/// names where one already is
pub open spec fn names_something(part: Seq<char>) -> bool {
    part.len() > 0 && part != seq!['.']
}

/// the parts that name something, in order
pub open spec fn named_parts(parts: Seq<Seq<char>>) -> Seq<Seq<char>> {
    parts.filter(|part: Seq<char>| names_something(part))
}

proof fn lemma_named_parts_push(parts: Seq<Seq<char>>, part: Seq<char>)
    ensures
        named_parts(parts.push(part)) == if names_something(part) {
            named_parts(parts).push(part)
        } else {
            named_parts(parts)
        },
{
    reveal(Seq::filter);
    assert(parts.push(part).drop_last() =~= parts);
}

/// What `Path::file_name` makes of a path: the last of its `/`-separated
/// parts that names something, `None` when there is none (the path is
/// empty, or only roots and `.`s) or that part is `..`.
pub open spec fn file_name_of(p: Seq<char>) -> Option<Seq<char>> {
    let parts = named_parts(split_on(p, '/'));
    if parts.len() == 0 || parts.last() == seq!['.', '.'] {
        None
    } else {
        Some(parts.last())
    }
}

/// `Path::new(p).file_name()`, as text (`file_name_of`)
fn file_name(p: &str) -> (r: Option<String>)
    ensures
        match r {
            Some(s) => file_name_of(p@) == Some(s@),
            None => file_name_of(p@) is None,
        },
{
    let v = chars_of(p);
    let ghost mut done: Seq<Seq<char>> = seq![];
    let mut last: Option<(usize, usize)> = None;
    let mut pos: usize = 0;
    assert(v@.subrange(0, v@.len() as int) =~= v@);
    loop
        invariant_except_break
            pos <= v@.len(),
            split_on(v@, '/') == done + split_on(v@.subrange(pos as int, v@.len() as int), '/'),
        invariant
            v@ == p@,
            match last {
                None => named_parts(done).len() == 0,
                Some((a, b)) => a <= b <= v@.len() && named_parts(done).len() > 0 && named_parts(done).last()
                    == v@.subrange(a as int, b as int),
            },
        ensures
            split_on(v@, '/') == done,
        decreases v@.len() - pos,
    {
        let k = first_char_in(&v, pos, v.len(), '/');
        proof {
            lemma_split_step(v@, pos as int, k as int, v@.len() as int, '/');
        }
        let ghost part = v@.subrange(pos as int, k as int);
        let named = k > pos && !(k - pos == 1 && v[pos] == '.');
        proof {
            assert(part.len() == k - pos);
            if k > pos {
                assert(part[0] == v@[pos as int]);
            }
            assert(named == names_something(part)) by {
                if part == seq!['.'] {
                    assert(part.len() == 1 && part[0] == '.');
                }
                if k - pos == 1 && v@[pos as int] == '.' {
                    assert(part =~= seq!['.']);
                }
            }
            lemma_named_parts_push(done, part);
            if k < v.len() {
                assert(done + split_on(v@.subrange(pos as int, v@.len() as int), '/') =~= done.push(part)
                    + split_on(v@.subrange(k + 1, v@.len() as int), '/'));
            } else {
                assert(done + split_on(v@.subrange(pos as int, v@.len() as int), '/') =~= done.push(part));
            }
            done = done.push(part);
        }
        if named {
            last = Some((pos, k));
        }
        if k == v.len() {
            break;
        }
        pos = k + 1;
    }
    match last {
        None => None,
        Some((a, b)) => {
            let name = slice_of(&v, a, b);
            if name.len() == 2 && name[0] == '.' && name[1] == '.' {
                assert(name@ =~= seq!['.', '.']);
                None
            } else {
                proof {
                    if name@ =~= seq!['.', '.'] {
                        assert(name@[0] == '.' && name@[1] == '.');
                    }
                }
                Some(string_of(&name))
            }
        },
    }
}

/// the program's name without its directory, for the narrow columns; the
/// whole path when it has no last component
pub fn basename(exe: &str) -> (s: String)
    ensures
        s@ == match file_name_of(exe@) {
            Some(n) => n,
            None => exe@,
        },
{
    match file_name(exe) {
        Some(n) => n,
        None => string_of(&chars_of(exe)),
    }
}

// ------------------------------------------------------------ preset rules

/// two IP/port rules that do the same thing: same verdict, protocol, peer,
/// port and direction
pub open spec fn same_effect(a: Rule, b: Rule) -> bool {
    a.action == b.action && a.proto == b.proto && a.src@ == b.src@ && a.port == b.port
        && a.direction == b.direction
}

/// a rule with the same effect is already among `rules`
pub open spec fn already_there(rules: Seq<Rule>, r: Rule) -> bool {
    exists|i: int| 0 <= i < rules.len() && same_effect(#[trigger] rules[i], r)
}

/// Adding `new` one by one, each skipped when a rule with the same effect
/// is there (one added just before included), the others numbered on from
/// the largest id.
pub open spec fn with_preset(rules: Seq<Rule>, new: Seq<Rule>) -> Seq<Rule>
    decreases new.len(),
{
    if new.len() == 0 {
        rules
    } else {
        let r = new[0];
        if already_there(rules, r) {
            with_preset(rules, new.drop_first())
        } else {
            with_preset(rules.push(Rule { id: (max_rule_id(rules) + 1) as u32, ..r }), new.drop_first())
        }
    }
}

fn same_effect_exec(a: &Rule, b: &Rule) -> (r: bool)
    ensures
        r == same_effect(*a, *b),
{
    a.action == b.action && a.proto == b.proto && seq_eq(&chars_of(a.src.as_str()), &chars_of(b.src.as_str()))
        && a.port == b.port && a.direction == b.direction
}

fn already_there_exec(rules: &Vec<Rule>, r: &Rule) -> (b: bool)
    ensures
        b == already_there(rules@, *r),
{
    let mut i: usize = 0;
    while i < rules.len()
        invariant
            i <= rules@.len(),
            forall|j: int| 0 <= j < i ==> !same_effect(#[trigger] rules@[j], *r),
        decreases rules@.len() - i,
    {
        if same_effect_exec(&rules[i], r) {
            return true;
        }
        i = i + 1;
    }
    false
}

/// Adds a preset's rules, skipping any this config already has — picking
/// the same preset twice, or two that overlap, must not leave duplicates to
/// delete by hand (see `with_preset`). How many were added.
pub fn apply_preset_rules(rules: &mut Vec<Rule>, new: Vec<Rule>) -> (added: usize)
    requires
        old(rules)@.len() + new@.len() < u32::MAX,
        forall|i: int| 0 <= i < old(rules)@.len() ==> (#[trigger] old(rules)@[i]).id < u32::MAX - new@.len(),
    ensures
        final(rules)@ == with_preset(old(rules)@, new@),
        added == final(rules)@.len() - old(rules)@.len(),
{
    let ghost start = rules@;
    let mut added: usize = 0;
    let mut k: usize = 0;
    assert(new@.skip(0) =~= new@);
    while k < new.len()
        invariant
            k <= new@.len(),
            added <= k,
            rules@.len() == start.len() + added,
            with_preset(start, new@) == with_preset(rules@, new@.skip(k as int)),
            forall|i: int| 0 <= i < rules@.len() ==> (#[trigger] rules@[i]).id < u32::MAX - (new@.len() - k),
            start.len() + new@.len() < u32::MAX,
        decreases new@.len() - k,
    {
        let r = &new[k];
        assert(new@.skip(k as int)[0] == *r);
        assert(new@.skip(k as int).drop_first() =~= new@.skip(k + 1));
        if !already_there_exec(rules, r) {
            proof {
                lemma_max_rule_id_bound(rules@, (u32::MAX - (new@.len() - k)) as int);
            }
            let id = next_rule_id(rules);
            let mut c = r.clone();
            c.id = id;
            rules.push(c);
            added = added + 1;
        }
        k = k + 1;
    }
    assert(new@.skip(k as int) =~= Seq::<Rule>::empty());
    added
}

proof fn lemma_max_rule_id_bound(rules: Seq<Rule>, bound: int)
    requires
        forall|i: int| 0 <= i < rules.len() ==> (#[trigger] rules[i]).id < bound,
        bound > 0,
    ensures
        max_rule_id(rules) < bound,
    decreases rules.len(),
{
    if rules.len() > 0 {
        assert forall|i: int| 0 <= i < rules.drop_last().len() implies (#[trigger] rules.drop_last()[i]).id < bound by {
            assert(rules.drop_last()[i] == rules[i]);
        }
        lemma_max_rule_id_bound(rules.drop_last(), bound);
        assert(rules[rules.len() - 1].id < bound);
    }
}

/// one more than the largest IP/port rule id (1 for none)
fn next_rule_id(rules: &Vec<Rule>) -> (n: u32)
    requires
        max_rule_id(rules@) < u32::MAX,
    ensures
        n == max_rule_id(rules@) + 1,
{
    let mut m: u32 = 0;
    let mut i: usize = 0;
    while i < rules.len()
        invariant
            i <= rules@.len(),
            m == max_rule_id(rules@.take(i as int)),
        decreases rules@.len() - i,
    {
        assert(rules@.take(i + 1).drop_last() =~= rules@.take(i as int));
        if rules[i].id > m {
            m = rules[i].id;
        }
        i = i + 1;
    }
    assert(rules@.take(i as int) =~= rules@);
    m + 1
}

} // verus!
