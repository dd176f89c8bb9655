//! What the kernel's socket tables say: the hex addresses of
//! /proc/net/{tcp,udp}[6], their rows, and which listening sockets collide.
use vstd::prelude::*;
use crate::ipc::ListenEntry;
use crate::net::Ip;
use crate::packet::be16;
use crate::text::{
    chars_of, seq_eq, words, words_exec, lines_of, lines_exec, char_views, find_char, slice_of, string_of,
    trim_range, trim_ws,
};
use crate::num::{parse_uint, parse_uint_exec};
use vstd::string::StringSliceAdditionalSpecFns;

verus! {

broadcast use vstd::string::group_string_axioms;

// ------------------------------------------------------------ conflicts

/// a wildcard bind covers every address
pub open spec fn wildcard(a: Seq<char>) -> bool {
    a == "0.0.0.0"@ || a == "::"@
}

/// the EADDRINUSE rule: a wildcard bind overlaps any other bind on the same
/// port; two specific addresses only when they are the same one
pub open spec fn overlap(a: Seq<char>, b: Seq<char>) -> bool {
    a == b || wildcard(a) || wildcard(b)
}

/// same protocol and port, overlapping addresses, different programs
pub open spec fn conflicting(a: ListenEntry, b: ListenEntry) -> bool {
    &&& a.proto@ == b.proto@
    &&& a.port == b.port
    &&& a.exe@ != b.exe@
    &&& overlap(a.addr@, b.addr@)
}

/// the conflicts of `es[i]` with each of `es[j..]`, in order
pub open spec fn row_from(es: Seq<ListenEntry>, i: int, j: int) -> Seq<(ListenEntry, ListenEntry)>
    decreases es.len() - j,
{
    if j >= es.len() || j < 0 {
        seq![]
    } else {
        (if conflicting(es[i], es[j]) {
            seq![(es[i], es[j])]
        } else {
            seq![]
        }) + row_from(es, i, j + 1)
    }
}

/// every conflicting pair `(es[i], es[j])` with `i < j` from `i` on, in
/// order of `i` then `j`
pub open spec fn conflicts_from(es: Seq<ListenEntry>, i: int) -> Seq<(ListenEntry, ListenEntry)>
    decreases es.len() - i,
{
    if i >= es.len() || i < 0 {
        seq![]
    } else {
        row_from(es, i, i + 1) + conflicts_from(es, i + 1)
    }
}

proof fn lemma_row(es: Seq<ListenEntry>, i: int, j: int, p: (ListenEntry, ListenEntry))
    requires
        0 <= i < es.len(),
        0 <= j,
    ensures
        row_from(es, i, j).contains(p) <==> exists|k: int|
            j <= k < es.len() && p == (es[i], #[trigger] es[k]) && conflicting(es[i], es[k]),
    decreases es.len() - j,
{
    if j < es.len() {
        lemma_row(es, i, j + 1, p);
        let head: Seq<(ListenEntry, ListenEntry)> = if conflicting(es[i], es[j]) {
            seq![(es[i], es[j])]
        } else {
            seq![]
        };
        let rest = row_from(es, i, j + 1);
        assert(row_from(es, i, j) == head + rest);
        if (head + rest).contains(p) {
            let x = choose|x: int| 0 <= x < (head + rest).len() && (head + rest)[x] == p;
            if x >= head.len() {
                assert(rest[x - head.len()] == p);
            }
        }
        if exists|k: int| j <= k < es.len() && p == (es[i], #[trigger] es[k]) && conflicting(es[i], es[k]) {
            let k = choose|k: int| j <= k < es.len() && p == (es[i], #[trigger] es[k]) && conflicting(es[i], es[k]);
            if k == j {
                assert((head + rest)[0] == p);
            } else {
                let x = choose|x: int| 0 <= x < rest.len() && rest[x] == p;
                assert((head + rest)[x + head.len()] == p);
            }
        }
    }
}

/// The conflicts found are exactly the pairs of entries, the earlier one
/// first, that clash: the same protocol and port, different programs, and
/// addresses that overlap.
pub proof fn lemma_conflicts_are_the_clashing_pairs(es: Seq<ListenEntry>, i: int, p: (ListenEntry, ListenEntry))
    requires
        0 <= i,
    ensures
        conflicts_from(es, i).contains(p) <==> exists|a: int, b: int|
            i <= a < b < es.len() && p == (#[trigger] es[a], #[trigger] es[b]) && conflicting(es[a], es[b]),
    decreases es.len() - i,
{
    if i < es.len() {
        lemma_conflicts_are_the_clashing_pairs(es, i + 1, p);
        lemma_row(es, i, i + 1, p);
        let row = row_from(es, i, i + 1);
        let rest = conflicts_from(es, i + 1);
        assert(conflicts_from(es, i) == row + rest);
        if (row + rest).contains(p) {
            let x = choose|x: int| 0 <= x < (row + rest).len() && (row + rest)[x] == p;
            if x < row.len() {
                assert(row[x] == p);
                assert(row.contains(p));
                let k = choose|k: int| i + 1 <= k < es.len() && p == (es[i], #[trigger] es[k]) && conflicting(es[i], es[k]);
                assert(i <= i < k < es.len() && p == (es[i], es[k]));
            } else {
                assert(rest[x - row.len()] == p);
                assert(rest.contains(p));
            }
        }
        if exists|a: int, b: int| i <= a < b < es.len() && p == (#[trigger] es[a], #[trigger] es[b]) && conflicting(es[a], es[b]) {
            let (a, b) = choose|a: int, b: int| i <= a < b < es.len() && p == (#[trigger] es[a], #[trigger] es[b]) && conflicting(es[a], es[b]);
            if a == i {
                assert(i + 1 <= b < es.len() && p == (es[i], es[b]) && conflicting(es[i], es[b]));
                assert(row.contains(p));
                let x = choose|x: int| 0 <= x < row.len() && row[x] == p;
                assert((row + rest)[x] == p);
            } else {
                assert(i + 1 <= a < b < es.len() && p == (es[a], es[b]));
                assert(rest.contains(p));
                let x = choose|x: int| 0 <= x < rest.len() && rest[x] == p;
                assert((row + rest)[x + row.len()] == p);
            }
        }
    }
}

fn is_wildcard(a: &str) -> (r: bool)
    ensures
        r == wildcard(a@),
{
    let v = chars_of(a);
    seq_eq(&v, &chars_of("0.0.0.0")) || seq_eq(&v, &chars_of("::"))
}

/// the EADDRINUSE rule: a wildcard bind (0.0.0.0 / ::) covers every
/// address, so it overlaps any other bind on the same port; two specific,
/// different addresses never overlap even on the same port
pub fn addrs_overlap(a: &str, b: &str) -> (r: bool)
    ensures
        r == overlap(a@, b@),
{
    seq_eq(&chars_of(a), &chars_of(b)) || is_wildcard(a) || is_wildcard(b)
}

fn same(a: &str, b: &str) -> (r: bool)
    ensures
        r == (a@ == b@),
{
    seq_eq(&chars_of(a), &chars_of(b))
}

/// True port conflicts: same protocol and port, overlapping address scope,
/// and a *different* exe — the same exe on several entries is
/// SO_REUSEPORT-style worker sharing, not a conflict. Every such pair
/// `(entries[i], entries[j])` with `i < j`, in order.
pub fn find_conflicts(entries: &[ListenEntry]) -> (out: Vec<(ListenEntry, ListenEntry)>)
    ensures
        out@ == conflicts_from(entries@, 0),
{
    let ghost es = entries@;
    let mut out: Vec<(ListenEntry, ListenEntry)> = Vec::new();
    let mut i: usize = 0;
    assert(out@ + conflicts_from(es, 0) =~= conflicts_from(es, 0));
    while i < entries.len()
        invariant
            es == entries@,
            i <= es.len(),
            out@ + conflicts_from(es, i as int) == conflicts_from(es, 0),
        decreases es.len() - i,
    {
        let mut j: usize = i + 1;
        assert(out@ + row_from(es, i as int, j as int) + conflicts_from(es, i + 1) =~= conflicts_from(
            es,
            0,
        ));
        while j < entries.len()
            invariant
                es == entries@,
                i < es.len(),
                i < j <= es.len(),
                out@ + row_from(es, i as int, j as int) + conflicts_from(es, i + 1) == conflicts_from(
                    es,
                    0,
                ),
            decreases es.len() - j,
        {
            let a = &entries[i];
            let b = &entries[j];
            let ghost before = out@;
            if same(&a.proto, &b.proto) && a.port == b.port && !same(&a.exe, &b.exe)
                && addrs_overlap(&a.addr, &b.addr) {
                out.push((a.clone(), b.clone()));
            }
            assert(out@ + row_from(es, i as int, j + 1) =~= before + row_from(es, i as int, j as int));
            j = j + 1;
        }
        assert(row_from(es, i as int, j as int) =~= Seq::<(ListenEntry, ListenEntry)>::empty());
        assert(out@ + conflicts_from(es, i + 1) =~= out@ + row_from(es, i as int, j as int)
            + conflicts_from(es, i + 1));
        i = i + 1;
    }
    assert(conflicts_from(es, i as int) =~= Seq::<(ListenEntry, ListenEntry)>::empty());
    assert(out@ =~= out@ + conflicts_from(es, i as int));
    out
}

// ------------------------------------------------------- hex addresses

/// the value of an ASCII hex digit byte
pub open spec fn hex_val(b: u8) -> Option<int> {
    if 48 <= b <= 57 {
        Some(b - 48)
    } else if 97 <= b <= 102 {
        Some(b - 87)
    } else if 65 <= b <= 70 {
        Some(b - 55)
    } else {
        None
    }
}

/// What `u8::from_str_radix(.., 16).unwrap_or(0)` makes of a two-byte
/// piece: two hex digits, or `+` and one, else 0.
pub open spec fn hex_pair(b0: u8, b1: u8) -> int {
    if b0 == 43 {
        match hex_val(b1) {
            Some(v) => v,
            None => 0,
        }
    } else {
        match (hex_val(b0), hex_val(b1)) {
            (Some(x), Some(y)) => 16 * x + y,
            _ => 0,
        }
    }
}

/// a byte that continues a UTF-8 sequence, so no `str` slice starts there
pub open spec fn continuation(b: u8) -> bool {
    128 <= b < 192
}

/// the byte offsets `2, 4, .., n - 2` all start a character, so that
/// cutting the text into two-byte pieces cuts between characters
pub open spec fn even_boundaries(b: Seq<u8>) -> bool {
    forall|k: int| 0 < k && 2 * k < b.len() ==> !continuation(#[trigger] b[2 * k])
}

fn hex_val_exec(b: u8) -> (r: Option<u8>)
    ensures
        match r {
            Some(v) => hex_val(b) == Some(v as int),
            None => hex_val(b) is None,
        },
{
    if 48 <= b && b <= 57 {
        Some(b - 48)
    } else if 97 <= b && b <= 102 {
        Some(b - 87)
    } else if 65 <= b && b <= 70 {
        Some(b - 55)
    } else {
        None
    }
}

fn hex_pair_exec(b0: u8, b1: u8) -> (r: u8)
    ensures
        r == hex_pair(b0, b1),
{
    if b0 == 43 {
        match hex_val_exec(b1) {
            Some(v) => v,
            None => 0,
        }
    } else {
        match (hex_val_exec(b0), hex_val_exec(b1)) {
            (Some(x), Some(y)) => 16 * x + y,
            _ => 0,
        }
    }
}

/// the four bytes of `hex`'s eight, taken as two-digit hex numbers, in
/// reverse order
pub open spec fn hex_ipv4_bytes(b: Seq<u8>) -> Seq<int> {
    seq![hex_pair(b[6], b[7]), hex_pair(b[4], b[5]), hex_pair(b[2], b[3]), hex_pair(b[0], b[1])]
}

/// /proc/net/{tcp,udp} encode an IPv4 address as 4 hex bytes in the
/// kernel's little-endian word order: read them and reverse. `None` unless
/// the text is 8 bytes long; a piece that is not hex reads as 0.
pub fn parse_hex_ipv4(hex: &str) -> (r: Option<Ip>)
    requires
        even_boundaries(hex.spec_bytes()),
    ensures
        r is Some <==> hex.spec_bytes().len() == 8,
        r matches Some(ip) ==> ip matches Ip::V4(o) && forall|k: int|
            0 <= k < 4 ==> #[trigger] o@[k] == hex_ipv4_bytes(hex.spec_bytes())[k],
{
    let b = hex.as_bytes_vec();
    if b.len() != 8 {
        return None;
    }
    let o: [u8; 4] = [
        hex_pair_exec(b[6], b[7]),
        hex_pair_exec(b[4], b[5]),
        hex_pair_exec(b[2], b[3]),
        hex_pair_exec(b[0], b[1]),
    ];
    assert forall|k: int| 0 <= k < 4 implies #[trigger] o@[k] == hex_ipv4_bytes(
        hex.spec_bytes(),
    )[k] by {
        assert(k == 0 || k == 1 || k == 2 || k == 3);
    }
    Some(Ip::V4(o))
}

/// the sixteen address bytes of `hex`'s 32: four 32-bit words, each
/// byte-reversed on its own
pub open spec fn hex_ipv6_byte(b: Seq<u8>, k: int) -> int {
    let word = k / 4;
    let i = k % 4;
    hex_pair(b[word * 8 + (3 - i) * 2], b[word * 8 + (3 - i) * 2 + 1])
}

/// The same for IPv6 in /proc/net/{tcp,udp}6: the 32 hex digits of four
/// 32-bit words, each word byte-reversed. `None` unless 32 bytes long.
pub fn parse_hex_ipv6(hex: &str) -> (r: Option<Ip>)
    requires
        even_boundaries(hex.spec_bytes()),
    ensures
        r is Some <==> hex.spec_bytes().len() == 32,
        r matches Some(ip) ==> ip matches Ip::V6(g) && forall|k: int|
            0 <= k < 8 ==> #[trigger] g@[k] == be16(
                hex_ipv6_byte(hex.spec_bytes(), 2 * k) as u8,
                hex_ipv6_byte(hex.spec_bytes(), 2 * k + 1) as u8,
            ),
{
    let b = hex.as_bytes_vec();
    if b.len() != 32 {
        return None;
    }
    let mut bytes: Vec<u8> = Vec::new();
    let mut k: usize = 0;
    while k < 16
        invariant
            b@ == hex.spec_bytes(),
            b@.len() == 32,
            k <= 16,
            bytes@.len() == k,
            forall|j: int| 0 <= j < k ==> #[trigger] bytes@[j] == hex_ipv6_byte(b@, j),
        decreases 16 - k,
    {
        let word = k / 4;
        let i = k % 4;
        let at = word * 8 + (3 - i) * 2;
        bytes.push(hex_pair_exec(b[at], b[at + 1]));
        k = k + 1;
    }
    let g: [u16; 8] = [
        crate::packet::be16_exec(bytes[0], bytes[1]),
        crate::packet::be16_exec(bytes[2], bytes[3]),
        crate::packet::be16_exec(bytes[4], bytes[5]),
        crate::packet::be16_exec(bytes[6], bytes[7]),
        crate::packet::be16_exec(bytes[8], bytes[9]),
        crate::packet::be16_exec(bytes[10], bytes[11]),
        crate::packet::be16_exec(bytes[12], bytes[13]),
        crate::packet::be16_exec(bytes[14], bytes[15]),
    ];
    assert forall|k: int| 0 <= k < 8 implies #[trigger] g@[k] == be16(
        hex_ipv6_byte(hex.spec_bytes(), 2 * k) as u8,
        hex_ipv6_byte(hex.spec_bytes(), 2 * k + 1) as u8,
    ) by {
        assert(bytes@[2 * k] == hex_ipv6_byte(b@, 2 * k));
        assert(bytes@[2 * k + 1] == hex_ipv6_byte(b@, 2 * k + 1));
        assert(k == 0 || k == 1 || k == 2 || k == 3 || k == 4 || k == 5 || k == 6 || k == 7);
    }
    Some(Ip::V6(g))
}


// ------------------------------------------------------------ table rows

/// One row of /proc/net/{tcp,udp}[6]: the local address as the raw hex
/// text, the local port, the connection state (hex, "0A" = LISTEN) and the
/// socket inode.
#[derive(Debug)]
pub struct ProcNetRow {
    pub ip_hex: String,
    pub port: u16,
    pub state: String,
    pub inode: u64,
}

/// a row as the contracts see it: address text, port, state, inode
pub open spec fn row_view(r: ProcNetRow) -> (Seq<char>, int, Seq<char>, int) {
    (r.ip_hex@, r.port as int, r.state@, r.inode as int)
}

/// what one line of the table says, when it describes a live socket: at
/// least ten columns, `addr:port` in the second with the port in hex, the
/// state in the fourth, and a nonzero decimal inode in the tenth
pub open spec fn row_of(line: Seq<char>) -> Option<(Seq<char>, int, Seq<char>, int)> {
    let cols = words(line);
    if cols.len() < 10 {
        None
    } else {
        match find_char(cols[1], ':') {
            None => None,
            Some(i) => match parse_uint(cols[1].skip(i + 1), 16, 65535) {
                None => None,
                Some(port) => match parse_uint(cols[9], 10, 0xffff_ffff_ffff_ffff) {
                    None => None,
                    Some(inode) => if inode == 0 {
                        None
                    } else {
                        Some((cols[1].take(i), port, cols[3], inode))
                    },
                },
            },
        }
    }
}

/// the rows the lines describe, in order, those that describe none dropped
pub open spec fn rows_of(lines: Seq<Seq<char>>) -> Seq<(Seq<char>, int, Seq<char>, int)>
    decreases lines.len(),
{
    if lines.len() == 0 {
        seq![]
    } else {
        (match row_of(lines[0]) {
            Some(r) => seq![r],
            None => seq![],
        }) + rows_of(lines.drop_first())
    }
}

/// every line but the header
pub open spec fn body_lines(text: Seq<char>) -> Seq<Seq<char>> {
    let ls = lines_of(text);
    if ls.len() == 0 {
        ls
    } else {
        ls.drop_first()
    }
}

fn row_exec(line: &[char]) -> (r: Option<ProcNetRow>)
    ensures
        match r {
            Some(row) => row_of(line@) == Some(row_view(row)),
            None => row_of(line@) is None,
        },
{
    let cols = words_exec(line);
    if cols.len() < 10 {
        return None;
    }
    assert(char_views(cols@)[1] == cols@[1]@);
    assert(char_views(cols@)[3] == cols@[3]@);
    assert(char_views(cols@)[9] == cols@[9]@);
    let addr = &cols[1];
    let i = crate::text::first_char_in(addr, 0, addr.len(), ':');
    proof {
        crate::text::lemma_find_char(addr@, ':');
        assert(addr@.subrange(0, addr@.len() as int) =~= addr@);
        if i < addr.len() {
            crate::text::lemma_find_char_at(addr@, ':', i as int);
        }
    }
    if i == addr.len() {
        return None;
    }
    let port_hex = slice_of(addr, i + 1, addr.len());
    assert(port_hex@ =~= addr@.skip(i + 1));
    let port = match parse_uint_exec(&port_hex, 16, 65535) {
        Some(p) => p,
        None => return None,
    };
    let inode = match parse_uint_exec(&cols[9], 10, 0xffff_ffff_ffff_ffff) {
        Some(n) => n,
        None => return None,
    };
    if inode == 0 {
        return None;
    }
    let ip = slice_of(addr, 0, i);
    assert(ip@ =~= addr@.take(i as int));
    Some(
        ProcNetRow {
            ip_hex: string_of(&ip),
            port: port as u16,
            state: string_of(&cols[3]),
            inode,
        },
    )
}

/// The rows of a /proc/net table with a live socket (inode != 0), the
/// header line skipped.
pub fn proc_net_rows(text: &str) -> (rows: Vec<ProcNetRow>)
    ensures
        rows@.map_values(|r: ProcNetRow| row_view(r)) == rows_of(body_lines(text@)),
{
    let lines = lines_exec(text);
    let ghost ls = body_lines(text@);
    let mut rows: Vec<ProcNetRow> = Vec::new();
    if lines.len() == 0 {
        assert(rows@.map_values(|r: ProcNetRow| row_view(r)) =~= rows_of(ls));
        return rows;
    }
    let mut k: usize = 1;
    assert(ls =~= char_views(lines@).skip(1));
    assert(ls.skip(0) =~= ls);
    while k < lines.len()
        invariant
            1 <= k <= lines@.len(),
            ls == char_views(lines@).skip(1),
            rows@.map_values(|r: ProcNetRow| row_view(r)) + rows_of(ls.skip(k - 1)) == rows_of(ls),
        decreases lines@.len() - k,
    {
        let ghost before = rows@.map_values(|r: ProcNetRow| row_view(r));
        let ghost rest = ls.skip(k - 1);
        assert(rest[0] == lines@[k as int]@);
        assert(rest.drop_first() =~= ls.skip(k as int));
        match row_exec(&lines[k]) {
            Some(r) => {
                rows.push(r);
                assert(rows@.map_values(|r: ProcNetRow| row_view(r)) =~= before + seq![
                    row_view(r),
                ]);
            },
            None => {},
        }
        k = k + 1;
        assert(rows@.map_values(|r: ProcNetRow| row_view(r)) + rows_of(ls.skip(k - 1)) =~= rows_of(
            ls,
        ));
    }
    assert(ls.skip(k - 1) =~= Seq::<Seq<char>>::empty());
    assert(rows@.map_values(|r: ProcNetRow| row_view(r)) =~= rows_of(ls));
    rows
}


// ------------------------------------------------------------ /proc/net/dev

/// every line of /proc/net/dev but its two header lines
pub open spec fn dev_lines(text: Seq<char>) -> Seq<Seq<char>> {
    let ls = lines_of(text);
    if ls.len() <= 2 {
        seq![]
    } else {
        ls.skip(2)
    }
}

/// the interface a /proc/net/dev line is about: what stands before its
/// first `:`, trimmed; `None` for a line without one
pub open spec fn dev_name(line: Seq<char>) -> Option<Seq<char>> {
    match find_char(line, ':') {
        Some(i) => Some(trim_ws(line.take(i))),
        None => None,
    }
}

/// the interfaces the lines name, in order, loopback left out
pub open spec fn dev_names(lines: Seq<Seq<char>>) -> Seq<Seq<char>>
    decreases lines.len(),
{
    if lines.len() == 0 {
        seq![]
    } else {
        let rest = dev_names(lines.drop_last());
        match dev_name(lines.last()) {
            Some(n) => if n != "lo"@ {
                rest.push(n)
            } else {
                rest
            },
            None => rest,
        }
    }
}

/// a byte counter as it is read: 0 for one that is not a number
pub open spec fn counter(s: Seq<char>) -> int {
    match parse_uint(s, 10, 0xffff_ffff_ffff_ffff) {
        Some(n) => n,
        None => 0,
    }
}

/// the received and sent bytes a line adds to the totals: its first and
/// ninth counters after the `:`; nothing for loopback, for a line without a
/// `:`, or for one with fewer than nine counters
pub open spec fn dev_bytes(line: Seq<char>) -> (int, int) {
    match find_char(line, ':') {
        None => (0, 0),
        Some(i) => {
            let cols = words(line.skip(i + 1));
            if trim_ws(line.take(i)) == "lo"@ || cols.len() < 9 {
                (0, 0)
            } else {
                (counter(cols[0]), counter(cols[8]))
            }
        },
    }
}

pub open spec fn rx_total(lines: Seq<Seq<char>>) -> int
    decreases lines.len(),
{
    if lines.len() == 0 {
        0
    } else {
        rx_total(lines.drop_last()) + dev_bytes(lines.last()).0
    }
}

pub open spec fn tx_total(lines: Seq<Seq<char>>) -> int
    decreases lines.len(),
{
    if lines.len() == 0 {
        0
    } else {
        tx_total(lines.drop_last()) + dev_bytes(lines.last()).1
    }
}

proof fn lemma_totals_nonneg(lines: Seq<Seq<char>>)
    ensures
        rx_total(lines) >= 0,
        tx_total(lines) >= 0,
    decreases lines.len(),
{
    if lines.len() > 0 {
        lemma_totals_nonneg(lines.drop_last());
        let line = lines.last();
        match find_char(line, ':') {
            None => {},
            Some(i) => {
                let cols = words(line.skip(i + 1));
                if !(trim_ws(line.take(i)) == "lo"@ || cols.len() < 9) {
                    crate::num::lemma_parse_uint_nonneg(cols[0], 10, 0xffff_ffff_ffff_ffff);
                    crate::num::lemma_parse_uint_nonneg(cols[8], 10, 0xffff_ffff_ffff_ffff);
                }
            },
        }
    }
}

pub open spec fn wrap64(x: int) -> int {
    x % 0x1_0000_0000_0000_0000
}

proof fn lemma_wrap_add(a: int, c: int)
    requires
        a >= 0,
        0 <= c < 0x1_0000_0000_0000_0000,
    ensures
        wrap64(a + c) == (if wrap64(a) + c >= 0x1_0000_0000_0000_0000 {
            wrap64(a) + c - 0x1_0000_0000_0000_0000
        } else {
            wrap64(a) + c
        }),
{
    let m: int = 0x1_0000_0000_0000_0000;
    vstd::arithmetic::div_mod::lemma_fundamental_div_mod(a, m);
    let q = a / m;
    let r = a % m;
    if r + c >= m {
        assert(a + c == (q + 1) * m + (r + c - m)) by (nonlinear_arith)
            requires
                a == m * q + r,
        ;
        vstd::arithmetic::div_mod::lemma_fundamental_div_mod_converse_mod(a + c, m, q + 1, r + c - m);
    } else {
        assert(a + c == q * m + (r + c)) by (nonlinear_arith)
            requires
                a == m * q + r,
        ;
        vstd::arithmetic::div_mod::lemma_fundamental_div_mod_converse_mod(a + c, m, q, r + c);
    }
}

fn add_wrapping(x: u64, c: u64) -> (r: u64)
    ensures
        r == (if x + c > u64::MAX {
            x + c - 0x1_0000_0000_0000_0000
        } else {
            x + c
        }),
{
    if c > u64::MAX - x {
        c - (u64::MAX - x) - 1
    } else {
        x + c
    }
}

fn counter_exec(s: &Vec<char>) -> (n: u64)
    ensures
        n == counter(s@),
{
    match parse_uint_exec(s, 10, 0xffff_ffff_ffff_ffff) {
        Some(v) => v,
        None => 0,
    }
}

/// the line's name bounds and counters, when it has a `:`
fn dev_line(line: &Vec<char>) -> (r: Option<(usize, usize, Vec<Vec<char>>)>)
    ensures
        match r {
            None => find_char(line@, ':') is None,
            Some((a, b, cols)) => find_char(line@, ':') matches Some(i) && a <= b <= line@.len()
                && line@.subrange(a as int, b as int) == trim_ws(line@.take(i)) && char_views(cols@)
                == words(line@.skip(i + 1)),
        },
{
    let i = crate::text::first_char_in(line, 0, line.len(), ':');
    proof {
        crate::text::lemma_find_char(line@, ':');
        assert(line@.subrange(0, line@.len() as int) =~= line@);
        if i < line.len() {
            crate::text::lemma_find_char_at(line@, ':', i as int);
        }
    }
    if i == line.len() {
        return None;
    }
    let (a, b) = trim_range(line, 0, i);
    assert(line@.subrange(0, i as int) =~= line@.take(i as int));
    let rest = slice_of(line, i + 1, line.len());
    assert(rest@ =~= line@.skip(i + 1));
    Some((a, b, words_exec(&rest)))
}

/// Every interface's received and sent bytes together, loopback left out,
/// from the text of /proc/net/dev — the machine's throughput, not any one
/// app's. Each total wraps at 2^64, as the kernel's own counters do.
pub fn net_totals(text: &str) -> (r: (u64, u64))
    ensures
        r.0 == wrap64(rx_total(dev_lines(text@))),
        r.1 == wrap64(tx_total(dev_lines(text@))),
{
    let lines = lines_exec(text);
    let ghost ls = dev_lines(text@);
    let lo: Vec<char> = chars_of("lo");
    let mut rx: u64 = 0;
    let mut tx: u64 = 0;
    if lines.len() <= 2 {
        return (0, 0);
    }
    assert(ls =~= char_views(lines@).skip(2));
    let mut k: usize = 2;
    while k < lines.len()
        invariant
            2 <= k <= lines@.len(),
            ls == char_views(lines@).skip(2),
            lo@ == "lo"@,
            rx == wrap64(rx_total(ls.take(k - 2))),
            tx == wrap64(tx_total(ls.take(k - 2))),
        decreases lines@.len() - k,
    {
        let ghost pre = ls.take(k - 2);
        assert(ls.take(k - 1).drop_last() =~= pre);
        assert(ls.take(k - 1).last() == lines@[k as int]@);
        proof {
            lemma_totals_nonneg(pre);
        }
        let line = &lines[k];
        let (c0, c8): (u64, u64) = match dev_line(line) {
            None => (0, 0),
            Some((a, b, cols)) => {
                let name = slice_of(line, a, b);
                if seq_eq(&name, &lo) || cols.len() < 9 {
                    (0, 0)
                } else {
                    assert(char_views(cols@)[0] == cols@[0]@);
                    assert(char_views(cols@)[8] == cols@[8]@);
                    proof {
                        crate::num::lemma_parse_uint_nonneg(cols@[0]@, 10, 0xffff_ffff_ffff_ffff);
                        crate::num::lemma_parse_uint_nonneg(cols@[8]@, 10, 0xffff_ffff_ffff_ffff);
                    }
                    (counter_exec(&cols[0]), counter_exec(&cols[8]))
                }
            },
        };
        assert(c0 == dev_bytes(lines@[k as int]@).0 && c8 == dev_bytes(lines@[k as int]@).1);
        proof {
            lemma_wrap_add(rx_total(pre), c0 as int);
            lemma_wrap_add(tx_total(pre), c8 as int);
        }
        rx = add_wrapping(rx, c0);
        tx = add_wrapping(tx, c8);
        k = k + 1;
    }
    assert(ls.take(ls.len() as int) =~= ls);
    (rx, tx)
}

/// The interfaces /proc/net/dev lists, in its order, loopback left out:
/// what the throughput totals are the sum over.
pub fn net_interfaces(text: &str) -> (out: Vec<String>)
    ensures
        out@.map_values(|s: String| s@) == dev_names(dev_lines(text@)),
{
    let lines = lines_exec(text);
    let ghost ls = dev_lines(text@);
    let lo: Vec<char> = chars_of("lo");
    let mut out: Vec<String> = Vec::new();
    if lines.len() <= 2 {
        assert(out@.map_values(|s: String| s@) =~= Seq::<Seq<char>>::empty());
        return out;
    }
    assert(ls =~= char_views(lines@).skip(2));
    let mut k: usize = 2;
    while k < lines.len()
        invariant
            2 <= k <= lines@.len(),
            ls == char_views(lines@).skip(2),
            lo@ == "lo"@,
            out@.map_values(|s: String| s@) == dev_names(ls.take(k - 2)),
        decreases lines@.len() - k,
    {
        let ghost pre = ls.take(k - 2);
        let ghost before = out@.map_values(|s: String| s@);
        assert(ls.take(k - 1).drop_last() =~= pre);
        assert(ls.take(k - 1).last() == lines@[k as int]@);
        let line = &lines[k];
        match dev_line(line) {
            None => {},
            Some((a, b, _cols)) => {
                let name = slice_of(line, a, b);
                if !seq_eq(&name, &lo) {
                    out.push(string_of(&name));
                    assert(out@.map_values(|s: String| s@) =~= before.push(name@));
                }
            },
        }
        k = k + 1;
    }
    assert(ls.take(ls.len() as int) =~= ls);
    out
}

// ------------------------------------------------------------ recent owners

/// how many recent socket owners are kept
pub const RECENT_OWNERS_CAP: usize = 8;

/// `s` with every `x` taken out, order kept
pub open spec fn without(s: Seq<u32>, x: u32) -> Seq<u32>
    decreases s.len(),
{
    if s.len() == 0 {
        seq![]
    } else {
        let w = without(s.drop_last(), x);
        if s.last() == x {
            w
        } else {
            w.push(s.last())
        }
    }
}

/// the owners after `pid` owned a socket: it first, then the others as they
/// were, the oldest dropped past the cap
pub open spec fn noted(s: Seq<u32>, pid: u32) -> Seq<u32> {
    let all = seq![pid] + without(s, pid);
    if all.len() > RECENT_OWNERS_CAP {
        all.take(RECENT_OWNERS_CAP as int)
    } else {
        all
    }
}

/// What `without` keeps: every element but `x`, each as often as before.
pub proof fn lemma_without(s: Seq<u32>, x: u32)
    ensures
        forall|y: u32|
            #![trigger without(s, x).contains(y)]
            #![trigger s.contains(y)]
            without(s, x).contains(y) <==> (s.contains(y) && y != x),
        s.no_duplicates() ==> without(s, x).no_duplicates(),
        without(s, x).len() <= s.len(),
    decreases s.len(),
{
    if s.len() > 0 {
        let init = s.drop_last();
        lemma_without(init, x);
        let w = without(init, x);
        assert forall|y: u32| without(s, x).contains(y) <==> (s.contains(y) && y != x) by {
            if s.contains(y) && y != x {
                let i = choose|i: int| 0 <= i < s.len() && s[i] == y;
                if i < s.len() - 1 {
                    assert(init[i] == y);
                    assert(init.contains(y));
                    assert(w.contains(y));
                    let k = choose|k: int| 0 <= k < w.len() && w[k] == y;
                    if s.last() != x {
                        assert(w.push(s.last())[k] == y);
                    }
                } else if s.last() != x {
                    assert(w.push(s.last())[w.len() as int] == y);
                }
            }
            if without(s, x).contains(y) {
                let i = choose|i: int| 0 <= i < without(s, x).len() && without(s, x)[i] == y;
                if s.last() != x && i == w.len() {
                    assert(s[s.len() - 1] == y);
                } else {
                    if s.last() != x {
                        assert(w.push(s.last())[i] == w[i]);
                    }
                    assert(w[i] == y);
                    assert(w.contains(y));
                    let k = choose|k: int| 0 <= k < init.len() && init[k] == y;
                    assert(s[k] == y);
                }
            }
        }
        if s.no_duplicates() && s.last() != x {
            assert(init.no_duplicates()) by {
                assert forall|i: int, j: int| 0 <= i < j < init.len() implies init[i] != init[j] by {
                    assert(s[i] == init[i] && s[j] == init[j]);
                }
            }
            if w.contains(s.last()) {
                let k = choose|k: int| 0 <= k < init.len() && init[k] == s.last();
                assert(s[k] == s[s.len() - 1]);
            }
            assert forall|i: int, j: int| 0 <= i < j < w.push(s.last()).len() implies w.push(s.last())[i] != w.push(
                s.last(),
            )[j] by {
                if j == w.len() {
                    assert(w.contains(w[i]));
                }
            }
        } else if s.no_duplicates() {
            assert forall|i: int, j: int| 0 <= i < j < init.len() implies init[i] != init[j] by {
                assert(s[i] == init[i] && s[j] == init[j]);
            }
        }
    }
}

/// The processes that owned the last few sockets, most recent first: where
/// the owner of the next one is looked for before every process is walked.
/// Each is listed once.
pub struct RecentOwners {
    pids: Vec<u32>,
}

impl RecentOwners {
    pub closed spec fn view(&self) -> Seq<u32> {
        self.pids@
    }

    /// at most the cap, each once
    pub closed spec fn wf(&self) -> bool {
        self.pids@.len() <= RECENT_OWNERS_CAP && self.pids@.no_duplicates()
    }

    /// nobody yet
    pub fn new() -> (r: RecentOwners)
        ensures
            r.wf(),
            r.view().len() == 0,
    {
        RecentOwners { pids: Vec::new() }
    }

    /// `pid` owned a socket: it moves to the front (`noted`).
    pub fn note(&mut self, pid: u32)
        requires
            old(self).wf(),
        ensures
            final(self).wf(),
            final(self).view() == noted(old(self).view(), pid),
            final(self).view()[0] == pid,
    {
        let ghost s = self.pids@;
        let mut out: Vec<u32> = Vec::new();
        out.push(pid);
        let mut i: usize = 0;
        assert(s.take(0) =~= Seq::<u32>::empty());
        assert(out@ =~= seq![pid] + without(s.take(0), pid));
        while i < self.pids.len()
            invariant
                i <= self.pids.len(),
                s == self.pids@,
                out@ == seq![pid] + without(s.take(i as int), pid),
            decreases self.pids.len() - i,
        {
            let p = self.pids[i];
            assert(s.take(i + 1).drop_last() =~= s.take(i as int));
            assert(s.take(i + 1).last() == p);
            if p != pid {
                out.push(p);
                assert(out@ =~= seq![pid] + without(s.take(i as int), pid).push(p));
            }
            i += 1;
        }
        assert(s.take(s.len() as int) == s);
        proof {
            lemma_without(s, pid);
            let all = seq![pid] + without(s, pid);
            assert(all.no_duplicates()) by {
                assert forall|a: int, b: int| 0 <= a < b < all.len() implies all[a] != all[b] by {
                    if a == 0 {
                        assert(all[b] == without(s, pid)[b - 1]);
                        assert(without(s, pid).contains(all[b]));
                    } else {
                        assert(all[a] == without(s, pid)[a - 1] && all[b] == without(s, pid)[b - 1]);
                    }
                }
            }
            assert(all.len() <= RECENT_OWNERS_CAP + 1);
        }
        if out.len() > RECENT_OWNERS_CAP {
            out.truncate(RECENT_OWNERS_CAP);
            proof {
                let all = seq![pid] + without(s, pid);
                assert(out@ =~= all.take(RECENT_OWNERS_CAP as int));
                assert forall|a: int, b: int| 0 <= a < b < out@.len() implies out@[a] != out@[b] by {
                    assert(out@[a] == all[a] && out@[b] == all[b]);
                }
            }
        }
        self.pids = out;
    }

    /// the owners, most recent first
    pub fn candidates(&self) -> (v: Vec<u32>)
        ensures
            v@ == self.view(),
    {
        self.pids.clone()
    }
}


/// A bind to either wildcard address, `0.0.0.0` or `::`, overlaps every
/// other bind, so two different programs on the same protocol and port, one
/// of them on a wildcard, are always found in conflict; two specific
/// addresses that differ never are.
pub proof fn lemma_wildcard_binds_conflict(es: Seq<ListenEntry>, a: int, b: int)
    requires
        0 <= a < b < es.len(),
        es[a].proto@ == es[b].proto@,
        es[a].port == es[b].port,
        es[a].exe@ != es[b].exe@,
    ensures
        es[a].addr@ == "0.0.0.0"@ || es[a].addr@ == "::"@ || es[b].addr@ == "0.0.0.0"@ || es[b].addr@
            == "::"@ ==> conflicts_from(es, 0).contains((es[a], es[b])),
        es[a].addr@ != es[b].addr@ && es[a].addr@ != "0.0.0.0"@ && es[a].addr@ != "::"@ && es[b].addr@
            != "0.0.0.0"@ && es[b].addr@ != "::"@ ==> !conflicts_from(es, 0).contains((es[a], es[b])),
{
    lemma_conflicts_are_the_clashing_pairs(es, 0, (es[a], es[b]));
    if conflicts_from(es, 0).contains((es[a], es[b])) {
        let (x, y) = choose|x: int, y: int|
            0 <= x < y < es.len() && (es[a], es[b]) == (#[trigger] es[x], #[trigger] es[y]) && conflicting(
                es[x],
                es[y],
            );
        assert(es[x].addr@ == es[a].addr@ && es[y].addr@ == es[b].addr@);
    }
}


/// Binds of one program never conflict with each other (worker processes
/// sharing a port), nor do binds on different protocols or ports.
pub proof fn lemma_only_other_programs_on_the_same_port_conflict(es: Seq<ListenEntry>, a: int, b: int)
    requires
        0 <= a < b < es.len(),
        es[a].exe@ == es[b].exe@ || es[a].proto@ != es[b].proto@ || es[a].port != es[b].port,
    ensures
        !conflicts_from(es, 0).contains((es[a], es[b])),
{
    lemma_conflicts_are_the_clashing_pairs(es, 0, (es[a], es[b]));
    if conflicts_from(es, 0).contains((es[a], es[b])) {
        let (x, y) = choose|x: int, y: int|
            0 <= x < y < es.len() && (es[a], es[b]) == (#[trigger] es[x], #[trigger] es[y]) && conflicting(
                es[x],
                es[y],
            );
        assert(es[x] == es[a] && es[y] == es[b]);
    }
}

} // verus!
