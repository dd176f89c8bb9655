//! Automatic verdicts: what to do with a connection nobody has ruled on,
//! from facts about it a person would reach the same conclusion from.
//! Anything there is no such fact about is left undecided (`None`), for
//! `Fallback` to settle.
use vstd::prelude::*;
use crate::config::{Action, Direction};
use crate::net::{Ip, is_local_address, is_local_spec};
use crate::text::{chars_of, contains, contains_exec, ends_with, ends_with_exec, starts_with, starts_with_exec};

verus! {

broadcast use vstd::string::group_string_axioms;

/// What auto mode does with a connection it found no fact about.
#[derive(Debug, Clone, Copy, PartialEq, Eq, Structural)]
pub enum Fallback {
    /// hold the packet and ask, as without auto mode
    Ask,
    /// let it through — the default
    Allow,
    /// refuse it
    Deny,
}

impl Fallback {
    pub fn as_str(self) -> (s: &'static str)
        ensures
            s@ == (match self {
                Fallback::Ask => "ask"@,
                Fallback::Allow => "allow"@,
                Fallback::Deny => "deny"@,
            }),
    {
        match self {
            Fallback::Ask => "ask",
            Fallback::Allow => "allow",
            Fallback::Deny => "deny",
        }
    }
}

/// A verdict and the one fact it rests on.
#[derive(Debug, Clone, Copy, PartialEq, Eq)]
pub struct Decision {
    pub action: Action,
    pub why: &'static str,
}

/// Everything known about a connection when it has to be decided.
pub struct Facts<'a> {
    /// canonical executable path of the local process
    pub exe: &'a str,
    pub dir: Direction,
    /// the destination port: the service being reached
    pub port: u16,
    pub peer: Ip,
    /// the name the DNS tap saw this address answered for, if any
    pub peer_name: Option<&'a str>,
    /// is some local process listening on `port` right now (inbound only)
    pub listening: bool,
    /// is `exe` still a file on disk
    pub on_disk: bool,
}

/// Checks whether a path names something on disk: `Path::exists`. The
/// answer depends on the file system, so nothing is stated of it.
#[verifier::external_body]
fn path_exists(p: &str) -> bool {
    std::path::Path::new(p).exists()
}

/// Is an executable still there, given whether its path exists on disk?
/// /proc shows a replaced or unlinked binary with " (deleted)" appended, so
/// such a path is never on disk, whatever the path resolves to.
pub fn present(exe: &str, exists: bool) -> (r: bool)
    ensures
        r == (!ends_with(exe@, " (deleted)"@) && exists),
{
    let ev = chars_of(exe);
    let marker = chars_of(" (deleted)");
    !ends_with_exec(&ev, &marker) && exists
}

/// is this executable still there? (`present`, with the file system asked
/// whether the path exists — not asked for a " (deleted)" path)
pub fn on_disk(exe: &str) -> (r: bool)
    ensures
        ends_with(exe@, " (deleted)"@) ==> !r,
{
    let ev = chars_of(exe);
    let marker = chars_of(" (deleted)");
    if ends_with_exec(&ev, &marker) {
        return false;
    }
    present(exe, path_exists(exe))
}

/// directories anybody can write and nobody packages, at the start of the
/// path or (the per-user ones) anywhere in it
pub open spec fn volatile_path(exe: Seq<char>) -> bool {
    ||| starts_with(exe, "/tmp/"@)
    ||| starts_with(exe, "/var/tmp/"@)
    ||| starts_with(exe, "/dev/shm/"@)
    ||| starts_with(exe, "/run/shm/"@)
    ||| starts_with(exe, "/private/"@)
    ||| contains(exe, "/.cache/"@)
    ||| contains(exe, "/Downloads/"@)
    ||| contains(exe, "/.local/share/Trash/"@)
}

/// paths only root writes to, filled by a package manager
pub open spec fn packaged_path(exe: Seq<char>) -> bool {
    ||| starts_with(exe, "/usr/bin/"@)
    ||| starts_with(exe, "/usr/sbin/"@)
    ||| starts_with(exe, "/usr/lib/"@)
    ||| starts_with(exe, "/usr/libexec/"@)
    ||| starts_with(exe, "/usr/local/bin/"@)
    ||| starts_with(exe, "/usr/local/sbin/"@)
    ||| starts_with(exe, "/bin/"@)
    ||| starts_with(exe, "/sbin/"@)
    ||| starts_with(exe, "/opt/"@)
    ||| starts_with(exe, "/snap/"@)
    ||| starts_with(exe, "/var/lib/flatpak/"@)
    ||| starts_with(exe, "/nix/store/"@)
}

/// services with no business crossing the open internet, by name
pub open spec fn hostile_name(port: u16) -> Option<Seq<char>> {
    if port == 23 {
        Some("telnet"@)
    } else if port == 25 {
        Some("smtp"@)
    } else if port == 135 {
        Some("rpc"@)
    } else if port == 139 {
        Some("netbios"@)
    } else if port == 445 {
        Some("smb"@)
    } else if port == 3389 {
        Some("rdp"@)
    } else if port == 4444 {
        Some("shell"@)
    } else if port == 5555 {
        Some("adb"@)
    } else if port == 6667 {
        Some("irc"@)
    } else {
        None
    }
}

/// ports a packaged program using the network normally uses
pub open spec fn ordinary_port(port: u16) -> bool {
    port == 22 || port == 53 || port == 67 || port == 68 || port == 80 || port == 123 || port == 443
        || port == 465 || port == 587 || port == 993 || port == 995 || port == 5353 || port
        == 11371 || port == 9418
}

/// The verdict and its reason, in the order the facts are weighed: the
/// denials first, because a fact against a connection outranks every
/// reason for it.
pub open spec fn decide_spec(
    exe: Seq<char>,
    dir: Direction,
    port: u16,
    peer: Ip,
    has_name: bool,
    listening: bool,
    on_disk: bool,
) -> Option<(Action, Seq<char>)> {
    let remote = !is_local_spec(peer);
    if !on_disk {
        Some((Action::Deny, "gone from disk"@))
    } else if volatile_path(exe) {
        Some((Action::Deny, "volatile path"@))
    } else {
        match dir {
            Direction::Out => {
                if remote && hostile_name(port) is Some {
                    Some((Action::Deny, hostile_name(port)->0))
                } else if !remote {
                    Some((Action::Allow, "local network"@))
                } else if has_name {
                    Some((Action::Allow, "resolved name"@))
                } else if packaged_path(exe) && ordinary_port(port) {
                    Some((Action::Allow, "packaged program"@))
                } else {
                    None
                }
            },
            Direction::In => {
                if remote {
                    Some((Action::Deny, "inbound from internet"@))
                } else if listening {
                    Some((Action::Allow, "local network"@))
                } else {
                    Some((Action::Deny, "nothing listening"@))
                }
            },
        }
    }
}

pub open spec fn facts_decision(f: Facts) -> Option<(Action, Seq<char>)> {
    decide_spec(f.exe@, f.dir, f.port, f.peer, f.peer_name is Some, f.listening, f.on_disk)
}

fn starts_lit(s: &[char], lit: &str) -> (r: bool)
    ensures
        r == starts_with(s@, lit@),
{
    let l = chars_of(lit);
    starts_with_exec(s, &l)
}

fn contains_lit(s: &[char], lit: &str) -> (r: bool)
    ensures
        r == contains(s@, lit@),
{
    let l = chars_of(lit);
    contains_exec(s, &l)
}

fn volatile_exec(exe: &[char]) -> (r: bool)
    ensures
        r == volatile_path(exe@),
{
    starts_lit(exe, "/tmp/") || starts_lit(exe, "/var/tmp/") || starts_lit(exe, "/dev/shm/")
        || starts_lit(exe, "/run/shm/") || starts_lit(exe, "/private/") || contains_lit(
        exe,
        "/.cache/",
    ) || contains_lit(exe, "/Downloads/") || contains_lit(exe, "/.local/share/Trash/")
}

fn packaged_exec(exe: &[char]) -> (r: bool)
    ensures
        r == packaged_path(exe@),
{
    starts_lit(exe, "/usr/bin/") || starts_lit(exe, "/usr/sbin/") || starts_lit(exe, "/usr/lib/")
        || starts_lit(exe, "/usr/libexec/") || starts_lit(exe, "/usr/local/bin/") || starts_lit(
        exe,
        "/usr/local/sbin/",
    ) || starts_lit(exe, "/bin/") || starts_lit(exe, "/sbin/") || starts_lit(exe, "/opt/")
        || starts_lit(exe, "/snap/") || starts_lit(exe, "/var/lib/flatpak/") || starts_lit(
        exe,
        "/nix/store/",
    )
}

fn hostile_exec(port: u16) -> (r: Option<&'static str>)
    ensures
        match hostile_name(port) {
            Some(n) => r matches Some(s) && s@ == n,
            None => r is None,
        },
{
    match port {
        23 => Some("telnet"),
        25 => Some("smtp"),
        135 => Some("rpc"),
        139 => Some("netbios"),
        445 => Some("smb"),
        3389 => Some("rdp"),
        4444 => Some("shell"),
        5555 => Some("adb"),
        6667 => Some("irc"),
        _ => None,
    }
}

fn ordinary_exec(port: u16) -> (r: bool)
    ensures
        r == ordinary_port(port),
{
    port == 22 || port == 53 || port == 67 || port == 68 || port == 80 || port == 123 || port == 443
        || port == 465 || port == 587 || port == 993 || port == 995 || port == 5353 || port
        == 11371 || port == 9418
}

fn verdict(action: Action, why: &'static str) -> (d: Option<Decision>)
    ensures
        d == Some(Decision { action, why }),
{
    Some(Decision { action, why })
}

/// The one verdict auto mode reaches on its own, or `None` when it has no
/// fact to reach one from (see `decide_spec`).
pub fn decide(f: &Facts) -> (r: Option<Decision>)
    ensures
        match facts_decision(*f) {
            Some((a, w)) => r matches Some(d) && d.action == a && d.why@ == w,
            None => r is None,
        },
{
    if !f.on_disk {
        return verdict(Action::Deny, "gone from disk");
    }
    let exe = chars_of(f.exe);
    if volatile_exec(&exe) {
        return verdict(Action::Deny, "volatile path");
    }
    let remote = !is_local_address(&f.peer);
    match f.dir {
        Direction::Out => {
            if remote {
                if let Some(name) = hostile_exec(f.port) {
                    return verdict(Action::Deny, name);
                }
            }
            if !remote {
                return verdict(Action::Allow, "local network");
            }
            if f.peer_name.is_some() {
                return verdict(Action::Allow, "resolved name");
            }
            if packaged_exec(&exe) && ordinary_exec(f.port) {
                return verdict(Action::Allow, "packaged program");
            }
            None
        },
        Direction::In => {
            if remote {
                return verdict(Action::Deny, "inbound from internet");
            }
            if f.listening {
                return verdict(Action::Allow, "local network");
            }
            verdict(Action::Deny, "nothing listening")
        },
    }
}

/// A binary that is gone from disk, or that runs out of a directory anyone
/// can write, is refused — no reason to allow rescues it.
pub proof fn lemma_unplaced_binary_is_refused(
    exe: Seq<char>,
    dir: Direction,
    port: u16,
    peer: Ip,
    has_name: bool,
    listening: bool,
    on_disk: bool,
)
    requires
        !on_disk || volatile_path(exe),
    ensures
        decide_spec(exe, dir, port, peer, has_name, listening, on_disk) matches Some((a, _))
            && a == Action::Deny,
{
}

/// A hostile service across the internet is refused whatever the binary
/// and whatever name resolved for it; the same port on the local network
/// is allowed.
pub proof fn lemma_hostile_port_only_across_the_internet(
    exe: Seq<char>,
    port: u16,
    peer: Ip,
    has_name: bool,
    listening: bool,
)
    requires
        hostile_name(port) is Some,
        !volatile_path(exe),
    ensures
        !is_local_spec(peer) ==> (decide_spec(exe, Direction::Out, port, peer, has_name, listening, true)
            matches Some((a, _)) && a == Action::Deny),
        is_local_spec(peer) ==> (decide_spec(exe, Direction::Out, port, peer, has_name, listening, true)
            matches Some((a, _)) && a == Action::Allow),
{
}

/// Unsolicited inbound from the internet is refused even to a live
/// service; from the local network it follows whether anything listens.
pub proof fn lemma_inbound(
    exe: Seq<char>,
    port: u16,
    peer: Ip,
    has_name: bool,
    listening: bool,
)
    requires
        !volatile_path(exe),
    ensures
        decide_spec(exe, Direction::In, port, peer, has_name, listening, true) matches Some((a, _))
            && a == (if !is_local_spec(peer) || !listening { Action::Deny } else { Action::Allow }),
{
}

/// Auto mode leaves a connection undecided only when it is outbound, to a
/// remote peer on a port that is not hostile, with no resolved name, and
/// not a packaged program on an ordinary port — it never invents a verdict,
/// and it never withholds one it has a fact for.
pub proof fn lemma_undecided_exactly_without_evidence(
    exe: Seq<char>,
    dir: Direction,
    port: u16,
    peer: Ip,
    has_name: bool,
    listening: bool,
    on_disk: bool,
)
    ensures
        decide_spec(exe, dir, port, peer, has_name, listening, on_disk) is None <==> (on_disk
            && !volatile_path(exe) && dir == Direction::Out && !is_local_spec(peer) && hostile_name(
            port,
        ) is None && !has_name && !(packaged_path(exe) && ordinary_port(port))),
{
}


/// A packaged program going out to the internet with no name resolved is
/// let through exactly on the ports such a program normally uses — ssh,
/// DNS, DHCP, HTTP, NTP, HTTPS, SMTPS, submission, IMAPS, POP3S, mDNS, HKP
/// and git — and left undecided on any other port that is not hostile.
pub proof fn lemma_packaged_program_on_ordinary_ports(exe: Seq<char>, port: u16, peer: Ip, listening: bool)
    requires
        packaged_path(exe),
        !volatile_path(exe),
        !is_local_spec(peer),
    ensures
        (port == 22 || port == 53 || port == 67 || port == 68 || port == 80 || port == 123 || port == 443
            || port == 465 || port == 587 || port == 993 || port == 995 || port == 5353 || port == 11371
            || port == 9418) ==> decide_spec(exe, Direction::Out, port, peer, false, listening, true)
            == Some((Action::Allow, "packaged program"@)),
        !(port == 22 || port == 53 || port == 67 || port == 68 || port == 80 || port == 123 || port == 443
            || port == 465 || port == 587 || port == 993 || port == 995 || port == 5353 || port == 11371
            || port == 9418) && hostile_name(port) is None ==> decide_spec(
            exe,
            Direction::Out,
            port,
            peer,
            false,
            listening,
            true,
        ) is None,
{
}

/// Programs under the distribution's own directories count as packaged:
/// `/usr/bin/curl` is one.
pub proof fn lemma_usr_bin_is_packaged(exe: Seq<char>)
    requires
        starts_with(exe, "/usr/bin/"@),
    ensures
        packaged_path(exe),
{
}


/// The services refused across the internet are exactly telnet (23), SMTP
/// (25), RPC (135), NetBIOS (139), SMB (445), RDP (3389), the shell port
/// 4444, adb (5555) and IRC (6667): to a remote peer, from a binary in a
/// proper place, the connection is refused under the service's name.
pub proof fn lemma_hostile_services(exe: Seq<char>, port: u16, peer: Ip, has_name: bool, listening: bool)
    requires
        !volatile_path(exe),
        !is_local_spec(peer),
    ensures
        hostile_name(port) is Some <==> (port == 23 || port == 25 || port == 135 || port == 139 || port == 445
            || port == 3389 || port == 4444 || port == 5555 || port == 6667),
        port == 23 ==> decide_spec(exe, Direction::Out, port, peer, has_name, listening, true) == Some(
            (Action::Deny, "telnet"@),
        ),
        port == 445 ==> decide_spec(exe, Direction::Out, port, peer, has_name, listening, true) == Some(
            (Action::Deny, "smb"@),
        ),
        port == 3389 ==> decide_spec(exe, Direction::Out, port, peer, has_name, listening, true) == Some(
            (Action::Deny, "rdp"@),
        ),
{
}

} // verus!
