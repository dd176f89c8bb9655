use guardit::auto::{decide, on_disk, Decision, Facts};
use guardit::config::{Action, Direction};
use guardit::net::{is_local_address, Ip};

const PKG: &str = "/usr/bin/curl";
const OWN: &str = "/home/someone/bin/app";

fn v4(a: u8, b: u8, c: u8, d: u8) -> Ip {
    Ip::V4([a, b, c, d])
}

fn out(exe: &str, port: u16, peer: Ip, name: Option<&'static str>) -> Option<Decision> {
    decide(&Facts {
        exe,
        dir: Direction::Out,
        port,
        peer,
        peer_name: name,
        listening: false,
        on_disk: true,
    })
}

fn inbound(port: u16, peer: Ip, listening: bool) -> Option<Decision> {
    decide(&Facts {
        exe: PKG,
        dir: Direction::In,
        port,
        peer,
        peer_name: None,
        listening,
        on_disk: true,
    })
}

fn act(d: Option<Decision>) -> Option<Action> {
    d.map(|d| d.action)
}

#[test]
fn a_binary_that_is_no_longer_on_disk_is_refused() {
    let gone = decide(&Facts {
        exe: PKG,
        dir: Direction::Out,
        port: 443,
        peer: v4(1, 1, 1, 1),
        peer_name: Some("example.com"),
        listening: false,
        on_disk: false,
    });
    assert_eq!(act(gone), Some(Action::Deny), "and no reason to allow saves it");
}

#[test]
fn on_disk_covers_both_halves_of_a_vanished_binary() {
    assert!(on_disk("/proc/self/exe"), "a file that is there");
    assert!(!on_disk("/usr/bin/no-such-binary-here"), "unlinked");
    assert!(!on_disk("/proc/self/exe (deleted)"), "/proc's marker, whatever the path resolves to");
}

#[test]
fn a_volatile_path_outranks_every_reason_to_allow() {
    for exe in [
        "/tmp/payload",
        "/dev/shm/payload",
        "/home/someone/.cache/payload",
        "/home/someone/Downloads/payload",
    ] {
        assert_eq!(
            act(out(exe, 443, v4(1, 1, 1, 1), Some("example.com"))),
            Some(Action::Deny),
            "{exe} must not be allowed by anything"
        );
    }
}

#[test]
fn a_hostile_port_to_the_internet_is_refused_but_the_same_port_on_the_lan_is_not() {
    assert_eq!(
        act(out(PKG, 445, v4(93, 184, 216, 34), Some("files.example.com"))),
        Some(Action::Deny),
        "smb across the internet"
    );
    assert_eq!(
        act(out(PKG, 445, v4(192, 168, 1, 10), None)),
        Some(Action::Allow),
        "smb to the nas in the next room"
    );
}

#[test]
fn a_name_this_machine_resolved_is_enough_to_allow_the_address_that_answered() {
    assert_eq!(
        act(out(OWN, 8443, v4(93, 184, 216, 34), Some("api.example.com"))),
        Some(Action::Allow),
    );
}

#[test]
fn no_evidence_either_way_is_left_undecided() {
    assert_eq!(out(OWN, 8443, v4(93, 184, 216, 34), None), None);
}

#[test]
fn a_packaged_program_on_an_ordinary_port_needs_no_name() {
    assert_eq!(
        act(out(PKG, 123, v4(93, 184, 216, 34), None)),
        Some(Action::Allow),
        "ntp has no name to resolve"
    );
    assert_eq!(
        out(PKG, 31337, v4(93, 184, 216, 34), None),
        None,
        "packaged is not a blank cheque on any port"
    );
}

#[test]
fn unsolicited_inbound_from_the_internet_is_refused_even_to_a_live_service() {
    assert_eq!(
        act(inbound(22, v4(93, 184, 216, 34), true)),
        Some(Action::Deny),
        "a listening sshd is not consent to be reached from anywhere"
    );
}

#[test]
fn inbound_from_the_lan_follows_whether_anything_is_actually_serving() {
    assert_eq!(act(inbound(22, v4(192, 168, 1, 10), true)), Some(Action::Allow));
    assert_eq!(
        act(inbound(31337, v4(192, 168, 1, 10), false)),
        Some(Action::Deny),
        "a port nothing serves, swept from the lan"
    );
}

#[test]
fn carrier_grade_nat_and_unique_local_count_as_local() {
    assert!(is_local_address(&v4(100, 64, 0, 1)));
    assert!(is_local_address(&Ip::V6([0xfd00, 0, 0, 0, 0, 0, 0, 1])));
    assert!(!is_local_address(&v4(8, 8, 8, 8)));
    assert!(!is_local_address(&Ip::V6([0x2001, 0x4860, 0x4860, 0, 0, 0, 0, 0x8888])));
}
