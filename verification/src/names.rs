//! The names the DNS tap saw addresses answered for: which name an address
//! a connection reaches was looked up as. Connections are refused on the
//! strength of it, so past its cap it forgets its older half, never all of
//! it.
use vstd::prelude::*;
use crate::net::Ip;

verus! {

/// how many addresses the map holds before it forgets its older half
pub const DNS_NAMES_CAP: usize = 8192;

/// Two addresses are the same address.
pub fn same_ip(a: &Ip, b: &Ip) -> (r: bool)
    ensures
        r == (*a == *b),
{
    match *a {
        Ip::V4(x) => match *b {
            Ip::V4(y) => {
                let r = x[0] == y[0] && x[1] == y[1] && x[2] == y[2] && x[3] == y[3];
                proof {
                    if r {
                        assert(x@ =~= y@);
                        assert(x == y) by {
                            broadcast use vstd::array::axiom_array_ext_equal;
                        }
                    }
                }
                r
            },
            Ip::V6(_) => false,
        },
        Ip::V6(x) => match *b {
            Ip::V6(y) => {
                let mut i: usize = 0;
                while i < 8
                    invariant
                        i <= 8,
                        *a == Ip::V6(x),
                        *b == Ip::V6(y),
                        forall|j: int| 0 <= j < i ==> x@[j] == y@[j],
                    decreases 8 - i,
                {
                    if x[i] != y[i] {
                        assert(x@[i as int] != y@[i as int]);
                        assert(x@ != y@);
                        return false;
                    }
                    i += 1;
                }
                assert(x@ =~= y@);
                assert(x == y) by {
                    broadcast use vstd::array::axiom_array_ext_equal;
                }
                true
            },
            Ip::V4(_) => false,
        },
    }
}

pub open spec fn entry_views(v: Seq<(Ip, String)>) -> Seq<(Ip, Seq<char>)> {
    v.map_values(|e: (Ip, String)| (e.0, e.1@))
}

/// the name `ip` has among `entries`, its first entry's
pub open spec fn name_of(entries: Seq<(Ip, Seq<char>)>, ip: Ip) -> Option<Seq<char>>
    decreases entries.len(),
{
    if entries.len() == 0 {
        None
    } else if entries[0].0 == ip {
        Some(entries[0].1)
    } else {
        name_of(entries.drop_first(), ip)
    }
}

/// where `ip`'s entry is, if it has one
pub open spec fn index_of(entries: Seq<(Ip, Seq<char>)>, ip: Ip) -> Option<int>
    decreases entries.len(),
{
    if entries.len() == 0 {
        None
    } else if entries[0].0 == ip {
        Some(0)
    } else {
        match index_of(entries.drop_first(), ip) {
            Some(i) => Some(i + 1),
            None => None,
        }
    }
}

/// the entries after `ip` was answered as `name`: its entry renamed where it
/// has one, else a new entry at the end; then, at the cap, the older half
/// forgotten
pub open spec fn learned(entries: Seq<(Ip, Seq<char>)>, ip: Ip, name: Seq<char>) -> Seq<(Ip, Seq<char>)> {
    let e = match index_of(entries, ip) {
        Some(i) => entries.update(i, (ip, name)),
        None => entries.push((ip, name)),
    };
    if e.len() >= DNS_NAMES_CAP {
        e.skip((DNS_NAMES_CAP / 2) as int)
    } else {
        e
    }
}

/// each address once
pub open spec fn distinct_ips(entries: Seq<(Ip, Seq<char>)>) -> bool {
    forall|i: int, j: int| 0 <= i < j < entries.len() ==> entries[i].0 != entries[j].0
}

proof fn lemma_index_of(entries: Seq<(Ip, Seq<char>)>, ip: Ip)
    ensures
        match index_of(entries, ip) {
            Some(i) => 0 <= i < entries.len() && entries[i].0 == ip && name_of(entries, ip) == Some(entries[i].1)
                && forall|j: int| 0 <= j < i ==> #[trigger] entries[j].0 != ip,
            None => name_of(entries, ip) is None && forall|j: int| 0 <= j < entries.len() ==> #[trigger] entries[j].0 != ip,
        },
    decreases entries.len(),
{
    if entries.len() > 0 && entries[0].0 != ip {
        let rest = entries.drop_first();
        lemma_index_of(rest, ip);
        assert forall|j: int| 0 < j < entries.len() implies entries[j] == rest[j - 1] by {}
    }
}

/// in distinct entries, the one entry holding `ip` is the one found
proof fn lemma_found_at(entries: Seq<(Ip, Seq<char>)>, ip: Ip, k: int)
    requires
        distinct_ips(entries),
        0 <= k < entries.len(),
        entries[k].0 == ip,
    ensures
        index_of(entries, ip) == Some(k),
        name_of(entries, ip) == Some(entries[k].1),
{
    lemma_index_of(entries, ip);
    if let Some(i) = index_of(entries, ip) {
        if i != k {
            if i < k {
                assert(entries[i].0 != entries[k].0);
            } else {
                assert(entries[k].0 != ip);
            }
        }
    }
}

/// What was learned last for an address is what it reads as, and the
/// entries stay each address once.
pub proof fn lemma_learned_reads_back(entries: Seq<(Ip, Seq<char>)>, ip: Ip, name: Seq<char>)
    requires
        distinct_ips(entries),
        entries.len() < DNS_NAMES_CAP,
    ensures
        distinct_ips(learned(entries, ip, name)),
        name_of(learned(entries, ip, name), ip) == Some(name),
        learned(entries, ip, name).len() < DNS_NAMES_CAP,
{
    lemma_index_of(entries, ip);
    let e = match index_of(entries, ip) {
        Some(i) => entries.update(i, (ip, name)),
        None => entries.push((ip, name)),
    };
    let k: int = match index_of(entries, ip) {
        Some(i) => i,
        None => entries.len() as int,
    };
    assert(e[k] == (ip, name));
    assert(distinct_ips(e)) by {
        assert forall|a: int, b: int| 0 <= a < b < e.len() implies e[a].0 != e[b].0 by {
            if a != k && b != k {
                assert(e[a] == entries[a] && e[b] == entries[b]);
            } else if a == k {
                assert(e[b] == entries[b]);
            } else {
                assert(e[a] == entries[a]);
            }
        }
    }
    let out = learned(entries, ip, name);
    if e.len() >= DNS_NAMES_CAP {
        let h = (DNS_NAMES_CAP / 2) as int;
        assert(k == e.len() - 1 || k < e.len());
        assert(k >= h);
        assert(out[k - h] == e[k]);
        assert(distinct_ips(out)) by {
            assert forall|a: int, b: int| 0 <= a < b < out.len() implies out[a].0 != out[b].0 by {
                assert(out[a] == e[a + h] && out[b] == e[b + h]);
            }
        }
        lemma_found_at(out, ip, k - h);
    } else {
        lemma_found_at(e, ip, k);
    }
}

/// Which name the DNS tap last saw each address answered for.
pub struct NameMap {
    /// oldest first, each address once
    entries: Vec<(Ip, String)>,
}

impl NameMap {
    pub closed spec fn view(&self) -> Seq<(Ip, Seq<char>)> {
        entry_views(self.entries@)
    }

    /// each address once, under the cap
    pub closed spec fn wf(&self) -> bool {
        distinct_ips(self.view()) && self.entries@.len() < DNS_NAMES_CAP
    }

    /// nothing learned yet
    pub fn new() -> (m: NameMap)
        ensures
            m.wf(),
            m.view().len() == 0,
    {
        let m = NameMap { entries: Vec::new() };
        assert(m.view() =~= Seq::<(Ip, Seq<char>)>::empty());
        m
    }

    /// how many addresses it holds
    pub fn len(&self) -> (n: usize)
        ensures
            n == self.view().len(),
    {
        self.entries.len()
    }

    /// the name `ip` was answered as, if it is known
    pub fn get(&self, ip: &Ip) -> (r: Option<String>)
        ensures
            match r {
                Some(n) => name_of(self.view(), *ip) == Some(n@),
                None => name_of(self.view(), *ip) is None,
            },
    {
        let ghost es = self.view();
        let mut i: usize = 0;
        proof {
            lemma_index_of(es, *ip);
        }
        while i < self.entries.len()
            invariant
                i <= self.entries.len(),
                es == self.view(),
                es.len() == self.entries.len(),
                forall|j: int| 0 <= j < i ==> #[trigger] es[j].0 != *ip,
            decreases self.entries.len() - i,
        {
            assert(es[i as int] == (self.entries@[i as int].0, self.entries@[i as int].1@));
            if same_ip(&self.entries[i].0, ip) {
                assert(es[i as int].0 == *ip);
                proof {
                    lemma_index_of(es, *ip);
                    if let Some(k) = index_of(es, *ip) {
                        if k < i {
                            assert(es[k].0 != *ip);
                        } else if k > i {
                            assert(es[i as int].0 != *ip);
                        }
                    }
                }
                assert(index_of(es, *ip) == Some(i as int));
                let n = self.entries[i].1.clone();
                assert(n@ == es[i as int].1);
                return Some(n);
            }
            i += 1;
        }
        proof {
            lemma_index_of(es, *ip);
            if let Some(k) = index_of(es, *ip) {
                assert(es[k].0 != *ip);
            }
        }
        None
    }

    /// `ip` was answered as `name` (`learned`): its entry renamed, or a new
    /// one at the end, and at the cap the older half forgotten.
    pub fn insert(&mut self, ip: Ip, name: String)
        requires
            old(self).wf(),
        ensures
            final(self).wf(),
            final(self).view() == learned(old(self).view(), ip, name@),
    {
        let ghost es = self.view();
        proof {
            lemma_index_of(es, ip);
            lemma_learned_reads_back(es, ip, name@);
        }
        let mut i: usize = 0;
        let mut found = false;
        while i < self.entries.len() && !found
            invariant
                i <= self.entries.len(),
                es == self.view(),
                es.len() == self.entries.len(),
                old(self).wf(),
                es == old(self).view(),
                found ==> i < es.len() && es[i as int].0 == ip,
                forall|j: int| 0 <= j < i ==> #[trigger] es[j].0 != ip,
            decreases self.entries.len() - i + (if found { 0int } else { 1int }),
        {
            assert(es[i as int] == (self.entries@[i as int].0, self.entries@[i as int].1@));
            if same_ip(&self.entries[i].0, &ip) {
                found = true;
            } else {
                i += 1;
            }
        }
        let ghost nm = name@;
        match if found { Some(i) } else { None } {
            Some(k) => {
                proof {
                    if let Some(j) = index_of(es, ip) {
                        if j != k {
                            assert(es[j].0 == ip);
                        }
                    }
                }
                self.entries.set(k, (ip, name));
                assert(self.view() =~= es.update(k as int, (ip, nm)));
            },
            None => {
                self.entries.push((ip, name));
                assert(self.view() =~= es.push((ip, nm)));
            },
        }
        if self.entries.len() >= DNS_NAMES_CAP {
            let ghost e = self.view();
            let mut kept: Vec<(Ip, String)> = Vec::new();
            let mut j: usize = DNS_NAMES_CAP / 2;
            while j < self.entries.len()
                invariant
                    DNS_NAMES_CAP / 2 <= j <= self.entries.len(),
                    e == self.view(),
                    entry_views(kept@) == e.subrange((DNS_NAMES_CAP / 2) as int, j as int),
                decreases self.entries.len() - j,
            {
                let ghost before = kept@;
                kept.push((self.entries[j].0, self.entries[j].1.clone()));
                assert(entry_views(kept@) =~= entry_views(before).push(e[j as int]));
                assert(e.subrange((DNS_NAMES_CAP / 2) as int, j + 1) =~= e.subrange((DNS_NAMES_CAP / 2) as int, j as int).push(e[j as int]));
                j += 1;
            }
            self.entries = kept;
            assert(self.view() =~= e.skip((DNS_NAMES_CAP / 2) as int));
        }
    }
}

} // verus!
