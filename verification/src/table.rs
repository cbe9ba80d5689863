//! The hostname table: a mapping from hostname bytes to IPv4 addresses,
//! keys unique, last write wins.

use vstd::prelude::*;
use crate::addr::Ipv4;
use crate::bytes::bytes_eq;

verus! {

/// One stored fact: a hostname and the address that currently owns it.
pub struct HostEntry {
    pub name: Vec<u8>,
    pub ip: Ipv4,
}

/// Maps hostname bytes to IPv4 addresses. Entries are never evicted;
/// inserting an existing hostname overwrites its address.
pub struct HostnameTable {
    entries: Vec<HostEntry>,
}

/// The mapping that a sequence of entries denotes, later entries winning.
pub open spec fn map_of(s: Seq<HostEntry>) -> Map<Seq<u8>, Ipv4>
    decreases s.len(),
{
    if s.len() == 0 {
        Map::empty()
    } else {
        map_of(s.drop_last()).insert(s.last().name@, s.last().ip)
    }
}

/// No two entries share a hostname.
pub open spec fn names_unique(s: Seq<HostEntry>) -> bool {
    forall|i: int, j: int| 0 <= i < j < s.len() ==> s[i].name@ != s[j].name@
}

/// No entry has an empty hostname.
pub open spec fn names_nonempty(s: Seq<HostEntry>) -> bool {
    forall|i: int| 0 <= i < s.len() ==> s[i].name@.len() > 0
}

/// Every key of the mapping names some entry.
proof fn lemma_key_has_entry(s: Seq<HostEntry>, n: Seq<u8>)
    requires
        map_of(s).contains_key(n),
    ensures
        exists|i: int| 0 <= i < s.len() && s[i].name@ == n,
    decreases s.len(),
{
    if s.len() == 0 {
    } else if s.last().name@ == n {
        assert(s[s.len() - 1].name@ == n);
    } else {
        lemma_key_has_entry(s.drop_last(), n);
        let i = choose|i: int| 0 <= i < s.drop_last().len() && s.drop_last()[i].name@ == n;
        assert(s[i].name@ == n);
    }
}

proof fn lemma_map_of_found(s: Seq<HostEntry>, i: int)
    requires
        names_unique(s),
        0 <= i < s.len(),
    ensures
        map_of(s).contains_key(s[i].name@),
        map_of(s)[s[i].name@] == s[i].ip,
    decreases s.len(),
{
    if i == s.len() - 1 {
    } else {
        assert(s.drop_last()[i] == s[i]);
        assert(names_unique(s.drop_last())) by {
            assert(forall|x: int, y: int|
                0 <= x < y < s.drop_last().len() ==> s.drop_last()[x] == s[x]
                    && s.drop_last()[y] == s[y]);
        }
        lemma_map_of_found(s.drop_last(), i);
        assert(s[i].name@ != s.last().name@);
    }
}

proof fn lemma_map_of_absent(s: Seq<HostEntry>, n: Seq<u8>)
    requires
        forall|i: int| 0 <= i < s.len() ==> s[i].name@ != n,
    ensures
        !map_of(s).contains_key(n),
    decreases s.len(),
{
    if s.len() > 0 {
        assert(forall|i: int|
            0 <= i < s.drop_last().len() ==> s.drop_last()[i] == s[i]);
        lemma_map_of_absent(s.drop_last(), n);
    }
}

proof fn lemma_map_of_update(s: Seq<HostEntry>, i: int, e: HostEntry)
    requires
        names_unique(s),
        0 <= i < s.len(),
        e.name@ == s[i].name@,
    ensures
        map_of(s.update(i, e)) == map_of(s).insert(e.name@, e.ip),
    decreases s.len(),
{
    let t = s.update(i, e);
    if i == s.len() - 1 {
        assert(t.drop_last() =~= s.drop_last());
        assert(t.last() == e);
        assert(map_of(t) == map_of(s.drop_last()).insert(e.name@, e.ip));
        assert(map_of(s).insert(e.name@, e.ip)
            =~= map_of(s.drop_last()).insert(e.name@, e.ip));
    } else {
        assert(t.last() == s.last());
        assert(t.drop_last() =~= s.drop_last().update(i, e));
        assert(names_unique(s.drop_last())) by {
            assert(forall|x: int, y: int|
                0 <= x < y < s.drop_last().len() ==> s.drop_last()[x] == s[x]
                    && s.drop_last()[y] == s[y]);
        }
        assert(s.drop_last()[i] == s[i]);
        lemma_map_of_update(s.drop_last(), i, e);
        assert(e.name@ != s.last().name@);
        assert(map_of(t)
            == map_of(s.drop_last()).insert(e.name@, e.ip).insert(s.last().name@, s.last().ip));
        assert(map_of(s.drop_last()).insert(e.name@, e.ip).insert(s.last().name@, s.last().ip)
            =~= map_of(s.drop_last()).insert(s.last().name@, s.last().ip).insert(e.name@, e.ip));
    }
}

impl HostnameTable {
    /// The mapping this table holds.
    pub closed spec fn view(&self) -> Map<Seq<u8>, Ipv4> {
        map_of(self.entries@)
    }

    pub closed spec fn wf(&self) -> bool {
        names_unique(self.entries@) && names_nonempty(self.entries@)
    }

    /// A well-formed table never holds an empty hostname key.
    pub proof fn lemma_no_empty_key(&self)
        requires
            self.wf(),
        ensures
            !self@.contains_key(Seq::<u8>::empty()),
    {
        if self@.contains_key(Seq::<u8>::empty()) {
            lemma_key_has_entry(self.entries@, Seq::<u8>::empty());
        }
    }

    /// An empty table.
    pub fn new() -> (r: HostnameTable)
        ensures
            r.wf(),
            r@ == Map::<Seq<u8>, Ipv4>::empty(),
    {
        HostnameTable { entries: Vec::new() }
    }

    /// Upserts the mapping `name -> ip`; an existing entry for `name` is
    /// overwritten, so the most recent insert for a hostname wins.
    pub fn insert(&mut self, name: Vec<u8>, ip: Ipv4)
        requires
            old(self).wf(),
            name@.len() > 0,
        ensures
            final(self).wf(),
            final(self)@ == old(self)@.insert(name@, ip),
    {
        let n = self.entries.len();
        let mut i: usize = 0;
        while i < n
            invariant
                old(self).wf(),
                name@.len() > 0,
                n == self.entries@.len(),
                i <= n,
                self == old(self),
                forall|j: int| 0 <= j < i ==> self.entries@[j].name@ != name@,
            decreases n - i,
        {
            if bytes_eq(self.entries[i].name.as_slice(), name.as_slice()) {
                proof {
                    lemma_map_of_update(self.entries@, i as int, HostEntry { name: name, ip });
                }
                self.entries.set(i, HostEntry { name, ip });
                proof {
                    assert(names_unique(self.entries@) && names_nonempty(self.entries@)) by {
                        assert(forall|x: int| 0 <= x < self.entries@.len()
                            ==> self.entries@[x].name@ == old(self).entries@[x].name@);
                    }
                }
                return;
            }
            i += 1;
        }
        proof {
            lemma_map_of_absent(self.entries@, name@);
        }
        self.entries.push(HostEntry { name, ip });
        proof {
            let s = self.entries@;
            assert(s.drop_last() =~= old(self).entries@);
            assert(self@ == old(self)@.insert(s.last().name@, s.last().ip));
            assert(names_unique(s) && names_nonempty(s)) by {
                assert(forall|x: int| 0 <= x < s.len() - 1 ==> s[x] == old(self).entries@[x]);
            }
        }
    }

    /// Returns the address stored for `name`, or `None` if the table has
    /// no entry for it.
    pub fn lookup(&self, name: &[u8]) -> (r: Option<Ipv4>)
        requires
            self.wf(),
        ensures
            r == if self@.contains_key(name@) {
                Some(self@[name@])
            } else {
                None::<Ipv4>
            },
    {
        let n = self.entries.len();
        let mut i: usize = 0;
        while i < n
            invariant
                self.wf(),
                n == self.entries@.len(),
                i <= n,
                forall|j: int| 0 <= j < i ==> self.entries@[j].name@ != name@,
            decreases n - i,
        {
            if bytes_eq(self.entries[i].name.as_slice(), name) {
                proof {
                    lemma_map_of_found(self.entries@, i as int);
                }
                return Some(self.entries[i].ip);
            }
            i += 1;
        }
        proof {
            lemma_map_of_absent(self.entries@, name@);
        }
        None
    }

    /// How many hostnames the table holds.
    pub fn len(&self) -> (r: usize)
        requires
            self.wf(),
        ensures
            r == self@.dom().len(),
    {
        proof {
            lemma_dom_len(self.entries@);
        }
        self.entries.len()
    }
}

proof fn lemma_dom_len(s: Seq<HostEntry>)
    requires
        names_unique(s),
    ensures
        map_of(s).dom().len() == s.len(),
        map_of(s).dom().finite(),
    decreases s.len(),
{
    if s.len() > 0 {
        assert(names_unique(s.drop_last())) by {
            assert(forall|x: int, y: int|
                0 <= x < y < s.drop_last().len() ==> s.drop_last()[x] == s[x]
                    && s.drop_last()[y] == s[y]);
        }
        lemma_dom_len(s.drop_last());
        assert(forall|i: int|
            0 <= i < s.drop_last().len() ==> s.drop_last()[i] == s[i]);
        lemma_map_of_absent(s.drop_last(), s.last().name@);
        assert(map_of(s).dom() =~= map_of(s.drop_last()).dom().insert(s.last().name@));
    }
}

/// After `insert(name, ip)`, a lookup of `name` sees exactly `ip`:
/// writes are immediately visible to every subsequent read.
pub proof fn lemma_insert_then_lookup(m: Map<Seq<u8>, Ipv4>, name: Seq<u8>, ip: Ipv4)
    ensures
        m.insert(name, ip).contains_key(name),
        m.insert(name, ip)[name] == ip,
{
}

/// Inserting the same `(name, ip)` fact twice in a row leaves the table in
/// the same state as inserting it once.
pub proof fn lemma_insert_idempotent(m: Map<Seq<u8>, Ipv4>, name: Seq<u8>, ip: Ipv4)
    ensures
        m.insert(name, ip).insert(name, ip) == m.insert(name, ip),
{
    assert(m.insert(name, ip).insert(name, ip) =~= m.insert(name, ip));
}

/// Of two inserts for the same hostname, the later one wins, whatever the
/// earlier address was.
pub proof fn lemma_last_insert_wins(m: Map<Seq<u8>, Ipv4>, name: Seq<u8>, ip1: Ipv4, ip2: Ipv4)
    ensures
        m.insert(name, ip1).insert(name, ip2) == m.insert(name, ip2),
{
    assert(m.insert(name, ip1).insert(name, ip2) =~= m.insert(name, ip2));
}

} // verus!
