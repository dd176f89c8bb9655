//! What the command line decides before it prints anything: durations like
//! `1h30m`, and the changes the `blocklist` subcommands make to the
//! blocklist section of the configuration.
use vstd::prelude::*;
use crate::blocklist::{category, category_spec, default_categories, source, source_spec, str_views, views};
use crate::config::{BlocklistConfig, host_error, valid_host_spec, validate_host};
use crate::num::{parse_uint, parse_uint_exec};
use crate::text::{chars_of, concat, debug_str, debug_string, is_ascii_digit, seq_eq, string_of};

verus! {

broadcast use vstd::string::group_string_axioms;

/// the seconds in one of a duration's units
pub open spec fn unit_secs(c: char) -> Option<int> {
    if c == 's' {
        Some(1)
    } else if c == 'm' {
        Some(60)
    } else if c == 'h' {
        Some(3600)
    } else if c == 'd' {
        Some(86400)
    } else {
        None
    }
}

/// A duration read from here on: `num` the digits since the last unit,
/// `total` the seconds so far. Each unit must follow at least one digit,
/// nothing may follow the last unit, the total must be above zero, and
/// nothing may overflow 64 bits.
pub open spec fn duration_from(s: Seq<char>, num: Seq<char>, total: int) -> Option<int>
    decreases s.len(),
{
    if s.len() == 0 {
        if num.len() > 0 || total == 0 {
            None
        } else {
            Some(total)
        }
    } else if is_ascii_digit(s[0]) {
        duration_from(s.drop_first(), num.push(s[0]), total)
    } else {
        match parse_uint(num, 10, 0xffff_ffff_ffff_ffff) {
            None => None,
            Some(n) => match unit_secs(s[0]) {
                None => None,
                Some(m) => if n * m > 0xffff_ffff_ffff_ffff || total + n * m > 0xffff_ffff_ffff_ffff {
                    None
                } else {
                    duration_from(s.drop_first(), seq![], total + n * m)
                },
            },
        }
    }
}

/// "1h30m", "45s", "2d" in seconds: units s/m/h/d, any order, no spaces
pub open spec fn duration_spec(s: Seq<char>) -> Option<int> {
    duration_from(s, seq![], 0)
}

pub open spec fn duration_error(s: Seq<char>) -> Seq<char> {
    "bad duration "@ + debug_str(s) + " (want e.g. 30s, 10m, 1h30m, 2d)"@
}

fn bad_duration(s: &str) -> (e: String)
    ensures
        e@ == duration_error(s@),
{
    let a = chars_of("bad duration ");
    let b = chars_of(debug_string(s).as_str());
    let c = chars_of(" (want e.g. 30s, 10m, 1h30m, 2d)");
    string_of(&concat(&concat(&a, &b), &c))
}

/// "1h30m", "45s", "2d" → seconds. Units s/m/h/d, any order, no spaces.
pub fn parse_duration(s: &str) -> (r: Result<u64, String>)
    ensures
        match r {
            Ok(n) => duration_spec(s@) == Some(n as int),
            Err(e) => duration_spec(s@) is None && e@ == duration_error(s@),
        },
{
    let v = chars_of(s);
    let mut total: u64 = 0;
    let mut num: Vec<char> = Vec::new();
    let mut i: usize = 0;
    assert(v@.skip(0) =~= v@);
    assert(num@ =~= Seq::<char>::empty());
    while i < v.len()
        invariant
            v@ == s@,
            i <= v@.len(),
            duration_spec(s@) == duration_from(v@.skip(i as int), num@, total as int),
        decreases v@.len() - i,
    {
        let c = v[i];
        assert(v@.skip(i as int)[0] == c);
        assert(v@.skip(i as int).drop_first() =~= v@.skip(i + 1));
        if '0' <= c && c <= '9' {
            num.push(c);
        } else {
            let n = match parse_uint_exec(&num, 10, 0xffff_ffff_ffff_ffff) {
                Some(n) => n,
                None => return Err(bad_duration(s)),
            };
            let mult: u64 = if c == 's' {
                1
            } else if c == 'm' {
                60
            } else if c == 'h' {
                3600
            } else if c == 'd' {
                86400
            } else {
                return Err(bad_duration(s));
            };
            let step = match n.checked_mul(mult) {
                Some(x) => x,
                None => return Err(bad_duration(s)),
            };
            total = match total.checked_add(step) {
                Some(x) => x,
                None => return Err(bad_duration(s)),
            };
            num = Vec::new();
            assert(num@ =~= Seq::<char>::empty());
        }
        i = i + 1;
    }
    assert(v@.skip(i as int) =~= Seq::<char>::empty());
    if num.len() > 0 || total == 0 {
        return Err(bad_duration(s));
    }
    Ok(total)
}

// ------------------------------------------------------- blocklist edits

/// a key names a category or a list
pub open spec fn known_key(k: Seq<char>) -> bool {
    category_spec(k) is Some || source_spec(k) is Some
}

/// Enabling `keys` one after another: a category key goes to the
/// categories, any other to the lists, unless it is already there. Gives the
/// two lists after, and the keys added and those already on, in order.
pub open spec fn enable_from(
    cats: Seq<Seq<char>>,
    srcs: Seq<Seq<char>>,
    keys: Seq<Seq<char>>,
    added: Seq<Seq<char>>,
    already: Seq<Seq<char>>,
) -> (Seq<Seq<char>>, Seq<Seq<char>>, Seq<Seq<char>>, Seq<Seq<char>>)
    decreases keys.len(),
{
    if keys.len() == 0 {
        (cats, srcs, added, already)
    } else {
        let k = keys[0];
        let rest = keys.drop_first();
        if category_spec(k) is Some {
            if cats.contains(k) {
                enable_from(cats, srcs, rest, added, already.push(k))
            } else {
                enable_from(cats.push(k), srcs, rest, added.push(k), already)
            }
        } else {
            if srcs.contains(k) {
                enable_from(cats, srcs, rest, added, already.push(k))
            } else {
                enable_from(cats, srcs.push(k), rest, added.push(k), already)
            }
        }
    }
}

/// the error for the first key that names nothing
pub open spec fn unknown_key_error(k: Seq<char>) -> Seq<char> {
    "unknown "@ + debug_str(k) + " — see `guardit blocklist categories` or `... sources`"@
}

/// the first key in `keys` that names neither a category nor a list
pub open spec fn first_unknown(keys: Seq<Seq<char>>) -> Option<int>
    decreases keys.len(),
{
    if keys.len() == 0 {
        None
    } else if !known_key(keys[0]) {
        Some(0)
    } else {
        match first_unknown(keys.drop_first()) {
            Some(i) => Some(i + 1),
            None => None,
        }
    }
}

fn contains_str(v: &Vec<String>, k: &str) -> (r: bool)
    ensures
        r == views(v@).contains(k@),
{
    let kv = chars_of(k);
    let mut i: usize = 0;
    while i < v.len()
        invariant
            i <= v@.len(),
            kv@ == k@,
            forall|j: int| 0 <= j < i ==> views(v@)[j] != k@,
        decreases v@.len() - i,
    {
        if seq_eq(&chars_of(v[i].as_str()), &kv) {
            assert(views(v@)[i as int] == k@);
            return true;
        }
        i = i + 1;
    }
    false
}

fn known_exec(k: &str) -> (r: bool)
    ensures
        r == known_key(k@),
{
    category(k).is_some() || source(k).is_some()
}

fn first_unknown_exec(keys: &[String]) -> (r: Option<usize>)
    ensures
        r matches Some(i) ==> i < keys@.len(),
        match first_unknown(views(keys@)) {
            Some(i) => r == Some(i as usize) && 0 <= i < keys@.len(),
            None => r is None,
        },
{
    let ghost ks = views(keys@);
    let mut i: usize = 0;
    assert(ks.skip(0) =~= ks);
    while i < keys.len()
        invariant
            ks == views(keys@),
            i <= ks.len(),
            first_unknown(ks) == match first_unknown(ks.skip(i as int)) {
                Some(j) => Some(j + i),
                None => None,
            },
        decreases ks.len() - i,
    {
        assert(ks.skip(i as int)[0] == keys@[i as int]@);
        assert(ks.skip(i as int).drop_first() =~= ks.skip(i + 1));
        if !known_exec(keys[i].as_str()) {
            return Some(i);
        }
        i = i + 1;
    }
    assert(ks.skip(i as int) =~= Seq::<Seq<char>>::empty());
    None
}

/// What `blocklist enable` does to the section: every key is checked before
/// any is applied, so a typo in the third key leaves the first two
/// unapplied; then each category key joins the categories and any other key
/// the lists, unless already there. `Ok` with the keys added and the keys
/// already on, in order.
pub fn enable_keys(b: &mut BlocklistConfig, keys: &[String]) -> (r: Result<
    (Vec<String>, Vec<String>),
    String,
>)
    ensures
        match first_unknown(views(keys@)) {
            Some(i) => r matches Err(e) && e@ == unknown_key_error(views(keys@)[i]) && final(b).same(
                *old(b),
            ),
            None => r matches Ok((added, already)) && {
                let (c, s, a, al) = enable_from(
                    views(old(b).categories@),
                    views(old(b).sources@),
                    views(keys@),
                    seq![],
                    seq![],
                );
                &&& views(final(b).categories@) == c
                &&& views(final(b).sources@) == s
                &&& views(added@) == a
                &&& views(already@) == al
                &&& final(b).enabled == old(b).enabled
                &&& final(b).allow@ == old(b).allow@
                &&& final(b).block_encrypted_dns == old(b).block_encrypted_dns
                &&& final(b).require_resolved == old(b).require_resolved
                &&& final(b).update_hours == old(b).update_hours
                &&& final(b).category_sources@ == old(b).category_sources@
            },
        },
{
    match first_unknown_exec(keys) {
        Some(i) => {
            assert(views(keys@)[i as int] == keys@[i as int]@);
            let e = string_of(
                &concat(
                    &concat(&chars_of("unknown "), &chars_of(debug_string(keys[i].as_str()).as_str())),
                    &chars_of(" — see `guardit blocklist categories` or `... sources`"),
                ),
            );
            return Err(e);
        },
        None => {},
    }
    let ghost ks = views(keys@);
    let mut added: Vec<String> = Vec::new();
    let mut already: Vec<String> = Vec::new();
    let mut i: usize = 0;
    assert(ks.skip(0) =~= ks);
    assert(views(added@) =~= Seq::<Seq<char>>::empty());
    assert(views(already@) =~= Seq::<Seq<char>>::empty());
    while i < keys.len()
        invariant
            ks == views(keys@),
            i <= ks.len(),
            enable_from(views(old(b).categories@), views(old(b).sources@), ks, seq![], seq![])
                == enable_from(
                views(b.categories@),
                views(b.sources@),
                ks.skip(i as int),
                views(added@),
                views(already@),
            ),
            b.enabled == old(b).enabled,
            b.allow@ == old(b).allow@,
            b.block_encrypted_dns == old(b).block_encrypted_dns,
            b.require_resolved == old(b).require_resolved,
            b.update_hours == old(b).update_hours,
            b.category_sources@ == old(b).category_sources@,
        decreases ks.len() - i,
    {
        let k = &keys[i];
        assert(ks.skip(i as int)[0] == k@);
        assert(ks.skip(i as int).drop_first() =~= ks.skip(i + 1));
        let ghost (c0, s0, a0, al0) = (
            views(b.categories@),
            views(b.sources@),
            views(added@),
            views(already@),
        );
        if category(k.as_str()).is_some() {
            if contains_str(&b.categories, k.as_str()) {
                already.push(k.clone());
                assert(views(already@) =~= al0.push(k@));
            } else {
                b.categories.push(k.clone());
                added.push(k.clone());
                assert(views(b.categories@) =~= c0.push(k@));
                assert(views(added@) =~= a0.push(k@));
            }
        } else {
            if contains_str(&b.sources, k.as_str()) {
                already.push(k.clone());
                assert(views(already@) =~= al0.push(k@));
            } else {
                b.sources.push(k.clone());
                added.push(k.clone());
                assert(views(b.sources@) =~= s0.push(k@));
                assert(views(added@) =~= a0.push(k@));
            }
        }
        i = i + 1;
    }
    assert(ks.skip(i as int) =~= Seq::<Seq<char>>::empty());
    Ok((added, already))
}

/// the first key that is neither a category nor a list in force
pub open spec fn first_off(cats: Seq<Seq<char>>, srcs: Seq<Seq<char>>, keys: Seq<Seq<char>>) -> Option<int>
    decreases keys.len(),
{
    if keys.len() == 0 {
        None
    } else if !cats.contains(keys[0]) && !srcs.contains(keys[0]) {
        Some(0)
    } else {
        match first_off(cats, srcs, keys.drop_first()) {
            Some(i) => Some(i + 1),
            None => None,
        }
    }
}

/// the entries of `v` that are not among `keys`, in order
pub open spec fn without_keys(v: Seq<Seq<char>>, keys: Seq<Seq<char>>) -> Seq<Seq<char>>
    decreases v.len(),
{
    if v.len() == 0 {
        seq![]
    } else {
        let r = without_keys(v.drop_last(), keys);
        if keys.contains(v.last()) {
            r
        } else {
            r.push(v.last())
        }
    }
}

fn without_keys_exec(v: &Vec<String>, keys: &Vec<String>) -> (r: Vec<String>)
    ensures
        views(r@) == without_keys(views(v@), views(keys@)),
{
    let mut out: Vec<String> = Vec::new();
    let mut i: usize = 0;
    let ghost vs = views(v@);
    while i < v.len()
        invariant
            vs == views(v@),
            i <= vs.len(),
            views(out@) == without_keys(vs.take(i as int), views(keys@)),
        decreases vs.len() - i,
    {
        assert(vs.take(i + 1).drop_last() =~= vs.take(i as int));
        assert(vs.take(i + 1).last() == v@[i as int]@);
        let ghost before = views(out@);
        if !contains_str(keys, v[i].as_str()) {
            out.push(v[i].clone());
            assert(views(out@) =~= before.push(v@[i as int]@));
        }
        i = i + 1;
    }
    assert(vs.take(i as int) =~= vs);
    out
}

pub open spec fn not_on_error(k: Seq<char>) -> Seq<char> {
    k + " is not on"@
}

/// What `blocklist disable` does to the section: every key must be on, as
/// a category or as a list, else nothing changes; then every one of them
/// leaves both.
pub fn disable_keys(b: &mut BlocklistConfig, keys: &Vec<String>) -> (r: Result<(), String>)
    ensures
        match first_off(views(old(b).categories@), views(old(b).sources@), views(keys@)) {
            Some(i) => r matches Err(e) && e@ == not_on_error(views(keys@)[i]) && final(b).same(*old(b)),
            None => {
                &&& r is Ok
                &&& views(final(b).categories@) == without_keys(views(old(b).categories@), views(keys@))
                &&& views(final(b).sources@) == without_keys(views(old(b).sources@), views(keys@))
                &&& final(b).enabled == old(b).enabled
                &&& final(b).allow@ == old(b).allow@
                &&& final(b).block_encrypted_dns == old(b).block_encrypted_dns
                &&& final(b).require_resolved == old(b).require_resolved
                &&& final(b).update_hours == old(b).update_hours
                &&& final(b).category_sources@ == old(b).category_sources@
            },
        },
{
    let ghost ks = views(keys@);
    let ghost cs = views(b.categories@);
    let ghost ss = views(b.sources@);
    let mut i: usize = 0;
    assert(ks.skip(0) =~= ks);
    while i < keys.len()
        invariant
            ks == views(keys@),
            cs == views(b.categories@),
            ss == views(b.sources@),
            i <= ks.len(),
            first_off(cs, ss, ks) == match first_off(cs, ss, ks.skip(i as int)) {
                Some(j) => Some(j + i),
                None => None,
            },
        decreases ks.len() - i,
    {
        assert(ks.skip(i as int)[0] == keys@[i as int]@);
        assert(ks.skip(i as int).drop_first() =~= ks.skip(i + 1));
        if !contains_str(&b.categories, keys[i].as_str()) && !contains_str(&b.sources, keys[i].as_str()) {
            let e = string_of(&concat(&chars_of(keys[i].as_str()), &chars_of(" is not on")));
            return Err(e);
        }
        i = i + 1;
    }
    assert(ks.skip(i as int) =~= Seq::<Seq<char>>::empty());
    b.categories = without_keys_exec(&b.categories, keys);
    b.sources = without_keys_exec(&b.sources, keys);
    Ok(())
}

/// What `blocklist on` does: blocking enabled, and the recommended
/// categories chosen when nothing at all was; whether it chose them.
pub fn turn_on(b: &mut BlocklistConfig) -> (seeded: bool)
    ensures
        seeded == (old(b).categories@.len() == 0 && old(b).sources@.len() == 0),
        final(b).enabled,
        seeded ==> views(final(b).categories@) == seq!["ads"@, "phishing"@],
        !seeded ==> final(b).categories@ == old(b).categories@,
        final(b).sources@ == old(b).sources@,
        final(b).allow@ == old(b).allow@,
        final(b).block_encrypted_dns == old(b).block_encrypted_dns,
        final(b).require_resolved == old(b).require_resolved,
        final(b).update_hours == old(b).update_hours,
        final(b).category_sources@ == old(b).category_sources@,
{
    let seed = b.categories.len() == 0 && b.sources.len() == 0;
    b.enabled = true;
    if seed {
        let d = default_categories();
        let mut cats: Vec<String> = Vec::new();
        let mut i: usize = 0;
        while i < d.len()
            invariant
                i <= d@.len(),
                views(cats@) == str_views(d@).take(i as int),
            decreases d@.len() - i,
        {
            let ghost before = views(cats@);
            cats.push(string_of(&chars_of(d[i])));
            assert(views(cats@) =~= before.push(d@[i as int]@));
            assert(str_views(d@).take(i + 1) =~= str_views(d@).take(i as int).push(d@[i as int]@));
            i = i + 1;
        }
        assert(str_views(d@).take(i as int) =~= str_views(d@));
        assert(str_views(d@) =~= seq!["ads"@, "phishing"@]);
        b.categories = cats;
    }
    seed
}

/// What `blocklist allow` does: a name that is not a hostname (or `*.`
/// wildcard) is refused; one already allowed changes nothing (`Ok(false)`);
/// otherwise it joins the allowlist (`Ok(true)`).
pub fn allow_domain(b: &mut BlocklistConfig, domain: &str) -> (r: Result<bool, String>)
    ensures
        !valid_host_spec(domain@) ==> (r matches Err(e) && e@ == host_error(domain@) && final(b).same(
            *old(b),
        )),
        valid_host_spec(domain@) && views(old(b).allow@).contains(domain@) ==> r == Ok::<
            bool,
            String,
        >(false) && final(b).same(*old(b)),
        valid_host_spec(domain@) && !views(old(b).allow@).contains(domain@) ==> r == Ok::<
            bool,
            String,
        >(true) && views(final(b).allow@) == views(old(b).allow@).push(domain@)
            && final(b).categories@ == old(b).categories@ && final(b).sources@ == old(b).sources@
            && final(b).enabled == old(b).enabled && final(b).block_encrypted_dns
            == old(b).block_encrypted_dns && final(b).require_resolved == old(b).require_resolved
            && final(b).update_hours == old(b).update_hours
            && final(b).category_sources@ == old(b).category_sources@,
{
    match validate_host(domain) {
        Err(e) => return Err(e),
        Ok(()) => {},
    }
    if contains_str(&b.allow, domain) {
        return Ok(false);
    }
    let ghost before = views(b.allow@);
    b.allow.push(string_of(&chars_of(domain)));
    assert(views(b.allow@) =~= before.push(domain@));
    Ok(true)
}

/// What `blocklist unallow` does: a name not on the allowlist is refused;
/// otherwise every copy of it leaves.
pub fn unallow_domain(b: &mut BlocklistConfig, domain: &str) -> (r: Result<(), String>)
    ensures
        !views(old(b).allow@).contains(domain@) ==> (r matches Err(e) && e@ == domain@
            + " is not in the allowlist"@ && final(b).same(*old(b))),
        views(old(b).allow@).contains(domain@) ==> r is Ok && views(final(b).allow@) == without_keys(
            views(old(b).allow@),
            seq![domain@],
        ) && final(b).categories@ == old(b).categories@ && final(b).sources@ == old(b).sources@
            && final(b).enabled == old(b).enabled && final(b).block_encrypted_dns
            == old(b).block_encrypted_dns && final(b).require_resolved == old(b).require_resolved
            && final(b).update_hours == old(b).update_hours
            && final(b).category_sources@ == old(b).category_sources@,
{
    if !contains_str(&b.allow, domain) {
        return Err(string_of(&concat(&chars_of(domain), &chars_of(" is not in the allowlist"))));
    }
    let one: Vec<String> = vec![string_of(&chars_of(domain))];
    assert(views(one@) =~= seq![domain@]);
    b.allow = without_keys_exec(&b.allow, &one);
    Ok(())
}

/// a change to the section that moves the kernel ruleset: blocking switched
/// on or off, or the encrypted-DNS refusal
pub fn needs_reapply(before: &BlocklistConfig, after: &BlocklistConfig) -> (r: bool)
    ensures
        r == (before.enabled != after.enabled || before.block_encrypted_dns != after.block_encrypted_dns),
{
    before.enabled != after.enabled || before.block_encrypted_dns != after.block_encrypted_dns
}

/// What ticking a category in the dashboard does: off when it was on,
/// otherwise on — and blocking switched on with it, since a category ticked
/// with blocking off would look like nothing happened. Whether it is on now.
pub fn toggle_category_key(b: &mut BlocklistConfig, key: &str) -> (on: bool)
    ensures
        on == !views(old(b).categories@).contains(key@),
        on ==> views(final(b).categories@) == views(old(b).categories@).push(key@) && final(b).enabled,
        !on ==> views(final(b).categories@) == without_first(views(old(b).categories@), key@)
            && final(b).enabled == old(b).enabled,
        final(b).sources@ == old(b).sources@,
        final(b).allow@ == old(b).allow@,
        final(b).block_encrypted_dns == old(b).block_encrypted_dns,
        final(b).require_resolved == old(b).require_resolved,
        final(b).update_hours == old(b).update_hours,
        final(b).category_sources@ == old(b).category_sources@,
{
    let kv = chars_of(key);
    let ghost cs = views(b.categories@);
    let mut i: usize = 0;
    while i < b.categories.len()
        invariant
            cs == views(b.categories@),
            *b == *old(b),
            kv@ == key@,
            i <= cs.len(),
            forall|j: int| 0 <= j < i ==> cs[j] != key@,
        decreases cs.len() - i,
    {
        if seq_eq(&chars_of(b.categories[i].as_str()), &kv) {
            proof {
                lemma_without_first_at(cs, key@, i as int);
            }
            b.categories.remove(i);
            assert(views(b.categories@) =~= cs.remove(i as int));
            return false;
        }
        i = i + 1;
    }
    b.categories.push(string_of(&kv));
    assert(views(b.categories@) =~= cs.push(key@));
    b.enabled = true;
    true
}

/// `v` without its first `k`
pub open spec fn without_first(v: Seq<Seq<char>>, k: Seq<char>) -> Seq<Seq<char>>
    decreases v.len(),
{
    if v.len() == 0 {
        v
    } else if v[0] == k {
        v.drop_first()
    } else {
        seq![v[0]] + without_first(v.drop_first(), k)
    }
}

proof fn lemma_without_first_at(v: Seq<Seq<char>>, k: Seq<char>, i: int)
    requires
        0 <= i < v.len(),
        v[i] == k,
        forall|j: int| 0 <= j < i ==> v[j] != k,
    ensures
        without_first(v, k) == v.remove(i),
        v.contains(k),
    decreases i,
{
    if i > 0 {
        assert forall|j: int| 0 <= j < i - 1 implies v.drop_first()[j] != k by {
            assert(v.drop_first()[j] == v[j + 1]);
        }
        lemma_without_first_at(v.drop_first(), k, i - 1);
        assert(seq![v[0]] + v.drop_first().remove(i - 1) =~= v.remove(i));
    } else {
        assert(v.drop_first() =~= v.remove(0));
    }
}

/// a list is due for a refetch when it was never fetched or is `max_age`
/// seconds old or older
pub open spec fn is_due(stamp: Option<u64>, now: u64, max_age: u64) -> bool {
    match stamp {
        None => true,
        Some(t) => (if now >= t { now - t } else { 0 }) >= max_age,
    }
}

/// Whether the updater has anything to do: `stamps` are the download times
/// of the lists it looks after. Nothing when blocking is off or updates are
/// (every 0 hours); otherwise when any of them is due.
pub fn update_due(b: &BlocklistConfig, stamps: &[Option<u64>], now: u64) -> (r: bool)
    ensures
        r == (b.enabled && b.update_hours > 0 && exists|i: int|
            0 <= i < stamps@.len() && #[trigger] is_due(stamps@[i], now, (b.update_hours * 3600) as u64)),
{
    if !b.enabled || b.update_hours == 0 {
        return false;
    }
    let max_age: u64 = (b.update_hours as u64) * 3600;
    let mut i: usize = 0;
    while i < stamps.len()
        invariant
            i <= stamps@.len(),
            b.enabled,
            b.update_hours > 0,
            max_age == (b.update_hours * 3600) as u64,
            forall|j: int| 0 <= j < i ==> !#[trigger] is_due(stamps@[j], now, max_age),
        decreases stamps@.len() - i,
    {
        let due = match stamps[i] {
            None => true,
            Some(t) => now.saturating_sub(t) >= max_age,
        };
        if due {
            assert(is_due(stamps@[i as int], now, max_age));
            return true;
        }
        i = i + 1;
    }
    false
}

} // verus!
