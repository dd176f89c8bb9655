//! The peer of an IP/port rule: `any`, an address, or address/prefix. It
//! goes verbatim into the nft ruleset, so nothing else may get in. Reading
//! the address itself is `IpAddr`'s parse, which the caller makes and hands
//! in as the family it found (or none).
use vstd::prelude::*;
use crate::config::{Action, Direction, Proto, Rule};
use crate::num::{decimal, decimal_exec, parse_uint, parse_uint_exec};
use crate::text::{
    before_char, char_views, chars_of, concat, debug_str, debug_string, find_char, seq_eq,
    slice_of, string_of, words, words_exec,
};

verus! {

broadcast use vstd::string::group_string_axioms;

/// The address family `str::parse::<IpAddr>` finds in a text.
#[derive(Debug, Clone, Copy, PartialEq, Eq, Structural)]
pub enum IpFamily {
    V4,
    V6,
}

/// the address part of a rule's peer: everything before the first `/`
pub open spec fn addr_part(src: Seq<char>) -> Seq<char> {
    before_char(src, '/')
}

/// the prefix length text after the first `/`, if there is one
pub open spec fn prefix_part(src: Seq<char>) -> Option<Seq<char>> {
    match find_char(src, '/') {
        Some(i) => Some(src.skip(i + 1)),
        None => None,
    }
}

pub open spec fn src_error(src: Seq<char>) -> Seq<char> {
    "bad source "@ + debug_str(src) + ": want any, an ip, or ip/prefix"@
}

pub open spec fn prefix_error(src: Seq<char>, max: nat) -> Seq<char> {
    "bad prefix in "@ + debug_str(src) + ": want /0../"@ + decimal(max)
}

/// The verdict on a rule's peer, given `family`, what parsing its address
/// part as an IP address gave: `any` passes; an address that does not parse
/// is refused; a prefix must be a number up to 32 for IPv4 and 128 for IPv6.
pub open spec fn check_src_spec(src: Seq<char>, family: Option<IpFamily>) -> Result<(), Seq<char>> {
    if src == "any"@ {
        Ok(())
    } else {
        match family {
            None => Err(src_error(src)),
            Some(f) => {
                let max: nat = if f == IpFamily::V4 {
                    32
                } else {
                    128
                };
                match prefix_part(src) {
                    None => Ok(()),
                    Some(p) => match parse_uint(p, 10, 255) {
                        Some(n) => if n <= max {
                            Ok(())
                        } else {
                            Err(prefix_error(src, max))
                        },
                        None => Err(prefix_error(src, max)),
                    },
                }
            },
        }
    }
}

/// the address part of `src`, the text the caller parses as an IP address
pub fn src_address(src: &str) -> (a: String)
    ensures
        a@ == addr_part(src@),
{
    let v = chars_of(src);
    let i = crate::text::first_char_in(&v, 0, v.len(), '/');
    assert(v@.subrange(0, v@.len() as int) =~= v@);
    string_of(&slice_of(&v, 0, i))
}

/// Checks a rule's peer: `family` is what `str::parse::<IpAddr>` made of
/// `src_address(src)` (`None` when it did not parse).
pub fn check_src(src: &str, family: Option<IpFamily>) -> (r: Result<(), String>)
    ensures
        match check_src_spec(src@, family) {
            Ok(()) => r is Ok,
            Err(e) => r matches Err(m) && m@ == e,
        },
{
    let v = chars_of(src);
    if seq_eq(&v, &chars_of("any")) {
        return Ok(());
    }
    let f = match family {
        None => {
            let e = concat(
                &concat(&chars_of("bad source "), &chars_of(debug_string(src).as_str())),
                &chars_of(": want any, an ip, or ip/prefix"),
            );
            return Err(string_of(&e));
        },
        Some(f) => f,
    };
    let max: u64 = match f {
        IpFamily::V4 => 32,
        IpFamily::V6 => 128,
    };
    let i = crate::text::first_char_in(&v, 0, v.len(), '/');
    proof {
        crate::text::lemma_find_char(v@, '/');
        assert(v@.subrange(0, v@.len() as int) =~= v@);
        if i < v.len() {
            crate::text::lemma_find_char_at(v@, '/', i as int);
        }
    }
    if i == v.len() {
        return Ok(());
    }
    let p = slice_of(&v, i + 1, v.len());
    assert(p@ =~= v@.skip(i + 1));
    let ok = match parse_uint_exec(&p, 10, 255) {
        Some(n) => n <= max,
        None => false,
    };
    if ok {
        Ok(())
    } else {
        let e = concat(
            &concat(
                &concat(&chars_of("bad prefix in "), &chars_of(debug_string(src).as_str())),
                &chars_of(": want /0../"),
            ),
            &decimal_exec(max),
        );
        Err(string_of(&e))
    }
}

// ------------------------------------------------------------ rule specs

/// the add-rule spec format, as its own error
pub open spec fn spec_format() -> Seq<char> {
    "format: <allow|deny> <tcp|udp|any> <peer|any> <port|-> [in|out]"@
}

/// the peer word of an add-rule spec, when it has one
pub open spec fn spec_peer(line: Seq<char>) -> Option<Seq<char>> {
    let parts = words(line);
    if parts.len() >= 3 {
        Some(parts[2])
    } else {
        None
    }
}

/// What an add-rule spec "<allow|deny> <tcp|udp|any> <peer|any> <port|->
/// [in|out]" says, `family` being what the peer's address parses as: a
/// rule (id 0, enabled), or the first thing wrong with it, checked in that
/// order. A missing direction means both.
pub open spec fn parse_spec_spec(line: Seq<char>, family: Option<IpFamily>) -> Result<
    (Action, Proto, Seq<char>, Option<u16>, Option<Direction>),
    Seq<char>,
> {
    let parts = words(line);
    if !(4 <= parts.len() <= 5) {
        Err(spec_format())
    } else if parts[0] != "allow"@ && parts[0] != "deny"@ {
        Err("action must be allow|deny"@)
    } else if parts[1] != "tcp"@ && parts[1] != "udp"@ && parts[1] != "any"@ {
        Err("proto must be tcp|udp|any"@)
    } else {
        match check_src_spec(parts[2], family) {
            Err(e) => Err(e),
            Ok(()) => {
                let port_ok = parts[3] == "-"@ || parse_uint(parts[3], 10, 65535) is Some;
                if !port_ok {
                    Err("bad port"@)
                } else if parts.len() == 5 && parts[4] != "in"@ && parts[4] != "out"@ {
                    Err("direction must be in|out, or left off for both"@)
                } else {
                    Ok(
                        (
                            if parts[0] == "allow"@ {
                                Action::Allow
                            } else {
                                Action::Deny
                            },
                            if parts[1] == "tcp"@ {
                                Proto::Tcp
                            } else if parts[1] == "udp"@ {
                                Proto::Udp
                            } else {
                                Proto::Any
                            },
                            parts[2],
                            if parts[3] == "-"@ {
                                None
                            } else {
                                Some(parse_uint(parts[3], 10, 65535).unwrap() as u16)
                            },
                            if parts.len() == 5 {
                                if parts[4] == "in"@ {
                                    Some(Direction::In)
                                } else {
                                    Some(Direction::Out)
                                }
                            } else {
                                None
                            },
                        ),
                    )
                }
            },
        }
    }
}

/// the peer word of an add-rule spec, for the caller to parse the address
/// of (see `src_address`)
pub fn spec_peer_exec(line: &str) -> (r: Option<String>)
    ensures
        match r {
            Some(s) => spec_peer(line@) == Some(s@),
            None => spec_peer(line@) is None,
        },
{
    let parts = words_exec(&chars_of(line));
    if parts.len() >= 3 {
        assert(char_views(parts@)[2] == parts@[2]@);
        Some(string_of(&parts[2]))
    } else {
        None
    }
}

fn is_word(w: &Vec<char>, lit: &str) -> (r: bool)
    ensures
        r == (w@ == lit@),
{
    seq_eq(w, &chars_of(lit))
}

/// Reads an add-rule spec into a rule (see `parse_spec_spec`); `family` is
/// what parsing the address part of its peer word gave.
pub fn parse_spec(line: &str, family: Option<IpFamily>) -> (r: Result<Rule, String>)
    ensures
        match parse_spec_spec(line@, family) {
            Ok((action, proto, src, port, direction)) => r matches Ok(rule) && rule.id == 0
                && rule.action == action && rule.proto == proto && rule.src@ == src && rule.port
                == port && rule.direction == direction && rule.enabled,
            Err(e) => r matches Err(m) && m@ == e,
        },
{
    let parts = words_exec(&chars_of(line));
    let ghost ps = char_views(parts@);
    if !(4 <= parts.len() && parts.len() <= 5) {
        return Err(string_of(&chars_of("format: <allow|deny> <tcp|udp|any> <peer|any> <port|-> [in|out]")));
    }
    assert(ps[0] == parts@[0]@);
    assert(ps[1] == parts@[1]@);
    assert(ps[2] == parts@[2]@);
    assert(ps[3] == parts@[3]@);
    let action = if is_word(&parts[0], "allow") {
        Action::Allow
    } else if is_word(&parts[0], "deny") {
        Action::Deny
    } else {
        return Err(string_of(&chars_of("action must be allow|deny")));
    };
    let proto = if is_word(&parts[1], "tcp") {
        Proto::Tcp
    } else if is_word(&parts[1], "udp") {
        Proto::Udp
    } else if is_word(&parts[1], "any") {
        Proto::Any
    } else {
        return Err(string_of(&chars_of("proto must be tcp|udp|any")));
    };
    let src = string_of(&parts[2]);
    match check_src(src.as_str(), family) {
        Err(e) => return Err(e),
        Ok(()) => {},
    }
    let port = if is_word(&parts[3], "-") {
        None
    } else {
        match parse_uint_exec(&parts[3], 10, 65535) {
            Some(n) => Some(n as u16),
            None => return Err(string_of(&chars_of("bad port"))),
        }
    };
    let direction = if parts.len() == 5 {
        assert(ps[4] == parts@[4]@);
        if is_word(&parts[4], "in") {
            Some(Direction::In)
        } else if is_word(&parts[4], "out") {
            Some(Direction::Out)
        } else {
            return Err(string_of(&chars_of("direction must be in|out, or left off for both")));
        }
    } else {
        None
    };
    Ok(Rule { id: 0, action, proto, src, port, direction, enabled: true })
}

} // verus!
