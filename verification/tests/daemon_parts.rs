use guardit::auto::{on_disk, present};
use guardit::names::{NameMap, DNS_NAMES_CAP};
use guardit::dns::{dns_question, dns_read_name, parse_dns_answers};
use guardit::ipc::ListenEntry;
use guardit::net::Ip;
use guardit::packet::parse_packet;
use guardit::procnet::{
    find_conflicts, parse_hex_ipv4, parse_hex_ipv6, proc_net_rows, RecentOwners, RECENT_OWNERS_CAP,
};
use guardit::blocklist::Blocklist;
use guardit::reply::{local_answer, nxdomain_reply, tcp_message_at, tcp_nxdomain_reply, NXDOMAIN_TTL};
use guardit::tap::{dns_decide, DnsAct};
use guardit::sandbox::{flatpak_id, snap_id};

/// the RFC 1071 sum of `data`, folded and complemented
fn checksum(data: &[u8]) -> u16 {
    let mut sum: u32 = 0;
    let mut i = 0;
    while i + 1 < data.len() {
        sum += u16::from_be_bytes([data[i], data[i + 1]]) as u32;
        i += 2;
    }
    if i < data.len() {
        sum += (data[i] as u32) << 8;
    }
    while sum >> 16 != 0 {
        sum = (sum & 0xffff) + (sum >> 16);
    }
    !(sum as u16)
}

#[test]
fn sandbox_identities() {
    let info = "[Application]\nname=org.mozilla.firefox\nruntime=org.freedesktop.Platform/x86_64/23.08\n\n[Instance]\nname=ignored\n";
    assert_eq!(flatpak_id(info).as_deref(), Some("org.mozilla.firefox"));
    assert_eq!(flatpak_id("[Instance]\nname=x\n"), None);
    let cg = "0::/user.slice/user-1000.slice/user@1000.service/app.slice/snap.code-insiders.code-insiders-9f8a1c2e-3b4d-4e5f-8a9b-0c1d2e3f4a5b.scope\n";
    assert_eq!(snap_id(cg).as_deref(), Some("code-insiders.code-insiders"));
    assert_eq!(snap_id("0::/user.slice/app-ghostty-26675.scope\n"), None);
}

fn dns_reply_packet() -> Vec<u8> {
    let mut dns = vec![0x12, 0x34, 0x81, 0x80, 0, 1, 0, 1, 0, 0, 0, 0];
    for label in ["ads", "example", "com"] {
        dns.push(label.len() as u8);
        dns.extend_from_slice(label.as_bytes());
    }
    dns.push(0);
    dns.extend_from_slice(&[0, 1, 0, 1]);
    dns.extend_from_slice(&[0xC0, 0x0C, 0, 1, 0, 1, 0, 0, 0, 60, 0, 4, 93, 184, 216, 34]);

    let udp_len = (8 + dns.len()) as u16;
    let total = (20 + udp_len) as u16;
    let mut p = vec![0x45, 0];
    p.extend_from_slice(&total.to_be_bytes());
    p.extend_from_slice(&[0, 0, 0, 0, 64, 17, 0, 0]);
    p.extend_from_slice(&[1, 1, 1, 1]);
    p.extend_from_slice(&[10, 0, 0, 2]);
    p.extend_from_slice(&53u16.to_be_bytes());
    p.extend_from_slice(&40000u16.to_be_bytes());
    p.extend_from_slice(&udp_len.to_be_bytes());
    p.extend_from_slice(&[0, 0]);
    p.extend_from_slice(&dns);
    p
}

#[test]
fn reads_the_question_out_of_a_reply() {
    let p = dns_reply_packet();
    let dns = &p[28..];
    let (name, end) = dns_question(dns).unwrap();
    assert_eq!(name, "ads.example.com");
    assert_eq!(end, 12 + 17 + 4, "header + name + qtype/qclass");
}

#[test]
fn rewrites_a_reply_into_a_well_formed_nxdomain() {
    let p = dns_reply_packet();
    let (_, q_end) = dns_question(&p[28..]).unwrap();
    let out = nxdomain_reply(&p, 20, q_end).unwrap();

    let dns = &out[28..];
    assert_eq!(&dns[0..2], &[0x12, 0x34], "same transaction id");
    assert_eq!(dns[2] & 0x80, 0x80, "QR: it is an answer");
    assert_eq!(dns[3] & 0x0F, 3, "NXDOMAIN");
    assert_eq!(u16::from_be_bytes([dns[4], dns[5]]), 1, "question kept");
    assert_eq!(u16::from_be_bytes([dns[6], dns[7]]), 0, "no answer records");
    assert_eq!(u16::from_be_bytes([dns[8], dns[9]]), 1, "an SOA");
    assert_eq!(u16::from_be_bytes([dns[10], dns[11]]), 0, "no additionals");
    let soa = &dns[q_end..];
    assert_eq!(&soa[0..2], &[0xC0, 0x0C], "owner is the question name");
    assert_eq!(&soa[2..6], &[0, 6, 0, 1], "SOA IN");
    assert_eq!(u32::from_be_bytes(soa[6..10].try_into().unwrap()), NXDOMAIN_TTL);
    let rdlen = u16::from_be_bytes([soa[10], soa[11]]) as usize;
    assert_eq!(soa.len(), 12 + rdlen, "rdlength matches what follows it");
    let min = u32::from_be_bytes(soa[soa.len() - 4..].try_into().unwrap());
    assert_eq!(min, NXDOMAIN_TTL);
    assert_eq!(dns_question(dns).unwrap().0, "ads.example.com", "answers the question that was asked");
    assert!(dns.len() > q_end, "the answer records are gone but the SOA is there");

    assert_eq!(u16::from_be_bytes([out[2], out[3]]) as usize, out.len());
    assert_eq!(u16::from_be_bytes([out[24], out[25]]) as usize, out.len() - 20);
    assert_eq!(checksum(&out[..20]), 0, "ip header checksum");
    let udp_len = (out.len() - 20) as u16;
    let mut pseudo = out[12..20].to_vec();
    pseudo.extend_from_slice(&[0, 17]);
    pseudo.extend_from_slice(&udp_len.to_be_bytes());
    pseudo.extend_from_slice(&out[20..]);
    assert_eq!(checksum(&pseudo), 0, "udp checksum");
}

#[test]
fn leaves_a_packet_it_cannot_rewrite_alone() {
    assert!(nxdomain_reply(&[0u8; 8], 20, 20).is_none());
}

#[test]
fn parses_dns_response_with_cname_and_pointers() {
    let mut m = vec![0x12, 0x34, 0x81, 0x80, 0, 1, 0, 3, 0, 0, 0, 0];
    m.extend(b"\x07example\x03com\x00\x00\x01\x00\x01");
    m.extend([0xC0, 0x0C, 0, 5, 0, 1, 0, 0, 0, 60, 0, 6, 3, b'w', b'w', b'w', 0xC0, 0x0C]);
    m.extend([0xC0, 0x0C, 0, 1, 0, 1, 0, 0, 0, 60, 0, 4, 93, 184, 216, 34]);
    m.extend([0xC0, 0x0C, 0, 28, 0, 1, 0, 0, 0, 60, 0, 16]);
    m.extend([0x26, 0x06, 0x28, 0x00, 0x02, 0x20, 0x00, 0x01, 0x02, 0x48, 0x18, 0x93, 0x25, 0xc8, 0x19, 0x46]);
    let (name, ips) = parse_dns_answers(&m).unwrap();
    assert_eq!(name, "example.com");
    assert_eq!(
        ips,
        vec![
            Ip::V4([93, 184, 216, 34]),
            Ip::V6([0x2606, 0x2800, 0x220, 1, 0x248, 0x1893, 0x25c8, 0x1946]),
        ]
    );
    m[2] = 0x01;
    assert!(parse_dns_answers(&m).is_none());
    let looped = [0xC0, 0x00, 0, 0];
    assert!(dns_read_name(&looped, 0).is_none(), "pointer loop must not hang");
}

#[test]
fn parses_ipv4_tcp_header() {
    let mut payload = vec![0x45, 0, 0, 40, 0, 0, 0, 0, 64, 6, 0, 0, 0, 0, 0, 0, 0, 0, 0, 0];
    payload.extend_from_slice(&[0xC8, 0x22, 0x01, 0xBB]);
    payload.extend_from_slice(&[0; 16]);
    let info = parse_packet(&payload).unwrap();
    assert_eq!(info.proto, 6);
    assert_eq!(info.src_port, 51234);
    assert_eq!(info.dst_port, 443);
    assert_eq!(info.src_ip, Ip::V4([0, 0, 0, 0]));
}

#[test]
fn parses_ipv6_udp_header() {
    let mut payload = vec![0u8; 40];
    payload[0] = 0x60;
    payload[6] = 17;
    payload[8] = 0xfe;
    payload[23] = 1;
    payload.extend_from_slice(&[0x00, 0x35, 0x9C, 0x40]);
    let info = parse_packet(&payload).unwrap();
    assert_eq!(info.proto, 17);
    assert_eq!(info.src_port, 53);
    assert_eq!(info.dst_port, 40000);
    assert!(matches!(info.src_ip, Ip::V6(_)));
    assert_eq!(info.src_ip, Ip::V6([0xfe00, 0, 0, 0, 0, 0, 0, 1]));
}

#[test]
fn rejects_short_or_unknown_packet() {
    assert!(parse_packet(&[0x60, 0, 0, 0, 0, 0, 6, 64]).is_none());
    assert!(parse_packet(&[0x50, 0, 0, 0, 0, 0, 0, 0, 0]).is_none());
}

#[test]
fn parses_hex_ipv4_from_proc_net_tcp() {
    assert_eq!(parse_hex_ipv4("0100007F").unwrap(), Ip::V4([127, 0, 0, 1]));
    assert_eq!(parse_hex_ipv4("00000000").unwrap(), Ip::V4([0, 0, 0, 0]));
    assert!(parse_hex_ipv4("bad").is_none());
}

#[test]
fn parses_hex_ipv6_loopback() {
    let hex = "00000000".repeat(3) + "01000000";
    assert_eq!(hex.len(), 32);
    assert_eq!(parse_hex_ipv6(&hex).unwrap(), Ip::V6([0, 0, 0, 0, 0, 0, 0, 1]));
}

fn listen(proto: &str, addr: &str, port: u16, exe: &str) -> ListenEntry {
    ListenEntry { proto: proto.into(), addr: addr.into(), port, exe: exe.into() }
}

#[test]
fn flags_two_different_apps_on_the_same_wildcard_port() {
    let entries = vec![
        listen("tcp", "0.0.0.0", 8080, "/usr/bin/a"),
        listen("tcp", "0.0.0.0", 8080, "/usr/bin/b"),
    ];
    assert_eq!(find_conflicts(&entries).len(), 1);
}

#[test]
fn wildcard_overlaps_a_specific_address() {
    let entries = vec![
        listen("tcp", "0.0.0.0", 8080, "/usr/bin/a"),
        listen("tcp", "127.0.0.1", 8080, "/usr/bin/b"),
    ];
    assert_eq!(find_conflicts(&entries).len(), 1);
}

#[test]
fn distinct_specific_addresses_do_not_conflict() {
    let entries = vec![
        listen("tcp", "127.0.0.1", 8080, "/usr/bin/a"),
        listen("tcp", "192.168.1.50", 8080, "/usr/bin/b"),
    ];
    assert!(find_conflicts(&entries).is_empty());
}

#[test]
fn same_exe_on_same_port_is_not_a_conflict() {
    let entries = vec![
        listen("tcp", "0.0.0.0", 8080, "/usr/bin/a"),
        listen("tcp", "0.0.0.0", 8080, "/usr/bin/a"),
    ];
    assert!(find_conflicts(&entries).is_empty());
}

#[test]
fn different_protocols_on_the_same_port_do_not_conflict() {
    let entries = vec![
        listen("tcp", "0.0.0.0", 8080, "/usr/bin/a"),
        listen("udp", "0.0.0.0", 8080, "/usr/bin/b"),
    ];
    assert!(find_conflicts(&entries).is_empty());
}

#[test]
fn parses_proc_net_tcp_rows_and_skips_header_and_dead_sockets() {
    let text = "  sl  local_address rem_address   st tx_queue rx_queue tr tm->when retrnsmt   uid  timeout inode\n\
        1: 0100007F:1F90 00000000:0000 0A 00000000:00000000 00:00000000 00000000  1000        0 123456 1 0000000000000000 100 0 0 10 0\n\
        2: 00000000:0016 00000000:0000 0A 00000000:00000000 00:00000000 00000000     0        0 0 1 0000000000000000 100 0 0 10 0\n";
    let rows = proc_net_rows(text);
    assert_eq!(rows.len(), 1, "header and inode-0 rows dropped");
    assert_eq!(
        (rows[0].ip_hex.as_str(), rows[0].port, rows[0].state.as_str(), rows[0].inode),
        ("0100007F", 8080, "0A", 123456)
    );
}

#[test]
fn the_last_socket_owners_come_first_each_once() {
    let mut r = RecentOwners::new();
    assert!(r.candidates().is_empty());
    r.note(10);
    r.note(20);
    r.note(10);
    assert_eq!(r.candidates(), vec![10, 20], "a repeat moves to the front, not in twice");
    for pid in 100..120u32 {
        r.note(pid);
    }
    let c = r.candidates();
    assert_eq!(c.len(), RECENT_OWNERS_CAP);
    assert_eq!(c[0], 119);
    assert_eq!(c[RECENT_OWNERS_CAP - 1], 119 - (RECENT_OWNERS_CAP as u32 - 1), "the oldest dropped");
}

/// an IPv4 TCP segment from port 53 carrying `message` after its two-byte
/// length, with `tail` after it
fn tcp_dns_packet(answers: u8, tail: &[u8]) -> Vec<u8> {
    let mut dns = vec![0x12, 0x34, 0x81, 0x80, 0, 1, 0, answers, 0, 0, 0, 0];
    for label in ["ads", "example", "com"] {
        dns.push(label.len() as u8);
        dns.extend_from_slice(label.as_bytes());
    }
    dns.push(0);
    dns.extend_from_slice(&[0, 1, 0, 1]);
    for k in 0..answers {
        dns.extend_from_slice(&[0xC0, 0x0C, 0, 1, 0, 1, 0, 0, 0, 60, 0, 4, 93, 184, 216, 30 + k]);
    }
    let mut seg = vec![0, 53, 0x9c, 0x40, 0, 0, 0, 1, 0, 0, 0, 1, 0x50, 0x18, 0xff, 0xff, 0, 0, 0, 0];
    seg.extend_from_slice(&(dns.len() as u16).to_be_bytes());
    seg.extend_from_slice(&dns);
    seg.extend_from_slice(tail);
    let total = (20 + seg.len()) as u16;
    let mut p = vec![0x45, 0];
    p.extend_from_slice(&total.to_be_bytes());
    p.extend_from_slice(&[0, 0, 0, 0, 64, 6, 0, 0, 1, 1, 1, 1, 10, 0, 0, 2]);
    let ip_ck = checksum(&p[..20]);
    p[10..12].copy_from_slice(&ip_ck.to_be_bytes());
    p.extend_from_slice(&seg);
    p
}

fn tcp_checksum_holds(p: &[u8]) -> bool {
    let seg = &p[20..];
    let mut pseudo = Vec::new();
    pseudo.extend_from_slice(&p[12..20]);
    pseudo.extend_from_slice(&[0, 6]);
    pseudo.extend_from_slice(&(seg.len() as u16).to_be_bytes());
    pseudo.extend_from_slice(seg);
    checksum(&pseudo) == 0
}

#[test]
fn a_blocked_name_over_tcp_is_answered_in_place() {
    let bl = Blocklist::from_names(&["example.com"], &[]);
    let p = tcp_dns_packet(1, &[]);
    match dns_decide(&p, &bl) {
        DnsAct::Nxdomain { name, reply, port, ips } => {
            assert_eq!(name, "ads.example.com");
            assert_eq!(port, 40000);
            assert_eq!(ips, vec![Ip::V4([93, 184, 216, 30])]);
            assert_eq!(reply.len(), p.len(), "the segment keeps its length");
            assert_eq!(&reply[..20], &p[..20], "the IP header is untouched");
            let msg = &reply[42..];
            assert_eq!(&reply[40..42], &p[40..42], "and so is the length before the message");
            assert_eq!(&msg[..2], &[0x12, 0x34]);
            assert_eq!(msg[3] & 0x0F, 3, "NXDOMAIN");
            assert_eq!(&msg[4..12], &[0, 1, 0, 0, 0, 0, 0, 0], "no room for the SOA, so none counted");
            assert_eq!(&msg[12..33], &p[54..75], "the question is kept");
            assert!(msg[33..].iter().all(|b| *b == 0), "the rest is blank");
            assert!(tcp_checksum_holds(&reply));
        }
        other => panic!("{other:?}"),
    }
}

#[test]
fn a_tcp_reply_with_room_carries_the_soa() {
    let bl = Blocklist::from_names(&["ads.example.com"], &[]);
    let p = tcp_dns_packet(5, &[]);
    let q_end = 33;
    let out = tcp_nxdomain_reply(&p, 20, q_end).unwrap();
    assert_eq!(out.len(), p.len());
    let msg = &out[42..];
    assert_eq!(&msg[4..12], &[0, 1, 0, 0, 0, 1, 0, 0]);
    assert_eq!(&msg[q_end..q_end + 4], &[0xC0, 0x0C, 0, 6], "the SOA, owned by the question");
    assert!(msg[q_end + 65..].iter().all(|b| *b == 0));
    assert!(tcp_checksum_holds(&out));
    assert!(matches!(dns_decide(&p, &bl), DnsAct::Nxdomain { .. }));
}

#[test]
fn a_tcp_reply_not_whole_in_its_segment_is_left_alone() {
    let bl = Blocklist::from_names(&["example.com"], &[]);
    // more after the message: the next one has begun in the same segment
    assert!(matches!(dns_decide(&tcp_dns_packet(1, &[0, 12]), &bl), DnsAct::Nothing));
    // the message runs on into the next segment
    let mut cut = tcp_dns_packet(1, &[]);
    cut.truncate(cut.len() - 4);
    let total = cut.len() as u16;
    cut[2..4].copy_from_slice(&total.to_be_bytes());
    assert!(matches!(dns_decide(&cut, &bl), DnsAct::Nothing));
    assert!(tcp_message_at(&cut, 20).is_none());
    assert_eq!(tcp_message_at(&tcp_dns_packet(1, &[]), 20), Some(42));
}

#[test]
fn a_tcp_reply_for_an_unblocked_name_is_learned() {
    let bl = Blocklist::from_names(&["other.org"], &[]);
    match dns_decide(&tcp_dns_packet(2, &[]), &bl) {
        DnsAct::Learn(name, ips) => {
            assert_eq!(name, "ads.example.com");
            assert_eq!(ips.len(), 2);
        }
        other => panic!("{other:?}"),
    }
}

#[test]
fn a_binary_is_present_when_its_path_exists_and_is_not_marked_deleted() {
    assert!(present("/usr/bin/app", true));
    assert!(!present("/usr/bin/app", false));
    assert!(!present("/usr/bin/app (deleted)", true), "/proc's marker, whatever the path resolves to");
    assert!(!on_disk("/proc/self/exe (deleted)"));
    assert!(!on_disk("/usr/bin/no-such-binary-here"));
}

#[test]
fn the_name_map_reads_back_and_forgets_its_older_half_at_the_cap() {
    let mut m = NameMap::new();
    let a = Ip::V4([1, 2, 3, 4]);
    m.insert(a, "a.example".into());
    m.insert(Ip::V4([1, 2, 3, 5]), "b.example".into());
    m.insert(a, "c.example".into());
    assert_eq!(m.get(&a).as_deref(), Some("c.example"), "the last answer wins");
    assert_eq!(m.len(), 2);
    assert_eq!(m.get(&Ip::V6([0, 0, 0, 0, 0, 0, 0, 1])), None);
    for k in 0..(DNS_NAMES_CAP as u32) {
        let b = k.to_be_bytes();
        m.insert(Ip::V4([10, b[1], b[2], b[3]]), format!("n{k}.example"));
    }
    assert!(m.len() < DNS_NAMES_CAP);
    assert!(m.len() >= DNS_NAMES_CAP / 2 - 1, "half stays");
    assert_eq!(m.get(&a), None, "the oldest went");
    let last = (DNS_NAMES_CAP as u32 - 1).to_be_bytes();
    assert_eq!(m.get(&Ip::V4([10, last[1], last[2], last[3]])).as_deref(), Some(&*format!("n{}.example", DNS_NAMES_CAP - 1)));
}

/// an IPv4 UDP query from 10.0.0.2:40000 to 127.0.0.53:53 for `name`, with
/// the IP header checksum filled in
fn dns_query_packet(name: &str) -> Vec<u8> {
    let mut dns = vec![0xab, 0xcd, 0x01, 0x00, 0, 1, 0, 0, 0, 0, 0, 0];
    for label in name.split('.') {
        dns.push(label.len() as u8);
        dns.extend_from_slice(label.as_bytes());
    }
    dns.push(0);
    dns.extend_from_slice(&[0, 1, 0, 1]);
    let udp_len = (8 + dns.len()) as u16;
    let total = 20 + udp_len;
    let mut p = vec![0x45, 0];
    p.extend_from_slice(&total.to_be_bytes());
    p.extend_from_slice(&[0, 0, 0, 0, 64, 17, 0, 0]);
    p.extend_from_slice(&[10, 0, 0, 2]);
    p.extend_from_slice(&[127, 0, 0, 53]);
    let ip_ck = checksum(&p[..20]);
    p[10..12].copy_from_slice(&ip_ck.to_be_bytes());
    p.extend_from_slice(&40000u16.to_be_bytes());
    p.extend_from_slice(&53u16.to_be_bytes());
    p.extend_from_slice(&udp_len.to_be_bytes());
    p.extend_from_slice(&[0, 0]);
    p.extend_from_slice(&dns);
    p
}

#[test]
fn a_blocked_query_is_answered_from_here_back_to_the_asker() {
    let bl = Blocklist::from_names(&["example.com"], &[]);
    let p = dns_query_packet("ads.example.com");
    match dns_decide(&p, &bl) {
        DnsAct::Answer { name, answer, port } => {
            assert_eq!(name, "ads.example.com");
            assert_eq!(port, 40000, "the asking socket's port");
            assert_eq!(&answer[12..16], &[127, 0, 0, 53], "from where the query went");
            assert_eq!(&answer[16..20], &[10, 0, 0, 2], "to the asker");
            assert_eq!(u16::from_be_bytes([answer[20], answer[21]]), 53);
            assert_eq!(u16::from_be_bytes([answer[22], answer[23]]), 40000);
            let dns = &answer[28..];
            assert_eq!(&dns[..2], &[0xab, 0xcd], "same transaction id");
            assert_eq!(dns[2] & 0x80, 0x80, "an answer");
            assert_eq!(dns[2] & 0x01, 1, "RD copied");
            assert_eq!(dns[3] & 0x0F, 3, "NXDOMAIN");
            assert_eq!(dns_question(dns).unwrap().0, "ads.example.com");
            assert_eq!(u16::from_be_bytes([answer[2], answer[3]]) as usize, answer.len());
            assert_eq!(checksum(&answer[..20]), 0, "ip header checksum");
            let udp_len = (answer.len() - 20) as u16;
            assert_eq!(u16::from_be_bytes([answer[24], answer[25]]), udp_len);
            let mut pseudo = answer[12..20].to_vec();
            pseudo.extend_from_slice(&[0, 17]);
            pseudo.extend_from_slice(&udp_len.to_be_bytes());
            pseudo.extend_from_slice(&answer[20..]);
            assert_eq!(checksum(&pseudo), 0, "udp checksum");
        }
        other => panic!("{other:?}"),
    }
}

#[test]
fn an_unblocked_or_ipv6_query_goes_on_its_way() {
    let bl = Blocklist::from_names(&["example.com"], &[]);
    assert!(matches!(dns_decide(&dns_query_packet("good.org"), &bl), DnsAct::Nothing));
    // the same query over IPv6 is left to the reply rewrite
    let v4 = dns_query_packet("ads.example.com");
    let udp = &v4[20..];
    let mut v6 = vec![0x60, 0, 0, 0];
    v6.extend_from_slice(&(udp.len() as u16).to_be_bytes());
    v6.extend_from_slice(&[17, 64]);
    v6.extend_from_slice(&[0xfd, 0, 0, 0, 0, 0, 0, 0, 0, 0, 0, 0, 0, 0, 0, 2]);
    v6.extend_from_slice(&[0, 0, 0, 0, 0, 0, 0, 0, 0, 0, 0, 0, 0, 0, 0, 1]);
    v6.extend_from_slice(udp);
    assert!(matches!(dns_decide(&v6, &bl), DnsAct::Nothing));
}

#[test]
fn the_local_answer_needs_an_ipv4_packet_holding_the_question() {
    let p = dns_query_packet("ads.example.com");
    let (_, q_end) = dns_question(&p[28..]).unwrap();
    let out = local_answer(&p, 20, q_end).unwrap();
    assert_eq!(&out[16..20], &p[12..16]);
    assert!(out.len() > p.len(), "the SOA is added");
    assert!(local_answer(&p, 20, p.len()).is_none(), "question past the end");
    assert!(local_answer(&p, 12, q_end).is_none(), "UDP header inside the IP header");
    let mut v6 = p.clone();
    v6[0] = 0x60;
    assert!(local_answer(&v6, 20, q_end).is_none());
}
