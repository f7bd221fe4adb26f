//! The table of known devices: each device's IP address and its nickname.
//!
//! A table maps IP addresses to names, with at most one entry per address; its
//! abstract view is a `Map` from address to name. The table also keeps the order in
//! which addresses were first entered, which is the order in which it lists them.

use vstd::prelude::*;

use crate::scan::{lemma_new_ips, new_ips};
use crate::text::same_text;

verus! {

/// The map that a list of `(address, name)` pairs gives when the pairs are
/// entered one after another, a later pair replacing an earlier one of the same address.
pub open spec fn map_of(es: Seq<(Seq<char>, Seq<char>)>) -> Map<Seq<char>, Seq<char>>
    decreases es.len(),
{
    if es.len() == 0 {
        Map::empty()
    } else {
        map_of(es.drop_last()).insert(es.last().0, es.last().1)
    }
}

/// The addresses of a list of pairs.
pub open spec fn keys_of(es: Seq<(Seq<char>, Seq<char>)>) -> Seq<Seq<char>> {
    es.map_values(|e: (Seq<char>, Seq<char>)| e.0)
}

/// The pairs of `es` whose address is in `keep`, in order.
pub open spec fn kept(es: Seq<(Seq<char>, Seq<char>)>, keep: Set<Seq<char>>) -> Seq<(Seq<char>, Seq<char>)>
    decreases es.len(),
{
    if es.len() == 0 {
        Seq::empty()
    } else if keep.contains(es.last().0) {
        kept(es.drop_last(), keep).push(es.last())
    } else {
        kept(es.drop_last(), keep)
    }
}

/// The addresses of `ks` that are in `keep`, in order.
pub open spec fn kept_ips(ks: Seq<Seq<char>>, keep: Set<Seq<char>>) -> Seq<Seq<char>>
    decreases ks.len(),
{
    if ks.len() == 0 {
        Seq::empty()
    } else if keep.contains(ks.last()) {
        kept_ips(ks.drop_last(), keep).push(ks.last())
    } else {
        kept_ips(ks.drop_last(), keep)
    }
}

/// The views of a list of pairs of strings.
pub open spec fn pair_views(v: Seq<(String, String)>) -> Seq<(Seq<char>, Seq<char>)> {
    v.map_values(|e: (String, String)| (e.0@, e.1@))
}

/// The views of a list of strings.
pub open spec fn string_views(v: Seq<String>) -> Seq<Seq<char>> {
    v.map_values(|s: String| s@)
}

// ---------------------------------------------------------------------------
// Lemmas on `map_of`
// ---------------------------------------------------------------------------

/// The addresses that `map_of` maps are those of the list.
pub proof fn lemma_map_of_dom(es: Seq<(Seq<char>, Seq<char>)>)
    ensures
        map_of(es).dom() == keys_of(es).to_set(),
        map_of(es).dom().finite(),
    decreases es.len(),
{
    if es.len() > 0 {
        lemma_map_of_dom(es.drop_last());
        assert(keys_of(es) =~= keys_of(es.drop_last()).push(es.last().0));
        assert(map_of(es).dom() =~= keys_of(es).to_set()) by {
            assert forall|k: Seq<char>| keys_of(es).to_set().contains(k) implies map_of(es).dom().contains(k) by {
                let i = choose|i: int| 0 <= i < keys_of(es).len() && keys_of(es)[i] == k;
                if i < es.len() - 1 {
                    assert(keys_of(es.drop_last())[i] == k);
                }
            }
            assert forall|k: Seq<char>| map_of(es).dom().contains(k) implies keys_of(es).to_set().contains(k) by {
                if k != es.last().0 {
                    assert(keys_of(es.drop_last()).to_set().contains(k));
                    let i = choose|i: int| 0 <= i < keys_of(es.drop_last()).len() && keys_of(es.drop_last())[i] == k;
                    assert(keys_of(es)[i] == k);
                } else {
                    assert(keys_of(es)[es.len() - 1] == k);
                }
            }
        }
    } else {
        assert(keys_of(es).to_set() =~= Set::empty());
    }
}

/// With distinct addresses, `map_of` maps each address to the name paired with it.
pub proof fn lemma_map_of_index(es: Seq<(Seq<char>, Seq<char>)>, i: int)
    requires
        keys_of(es).no_duplicates(),
        0 <= i < es.len(),
    ensures
        map_of(es).contains_key(es[i].0),
        map_of(es)[es[i].0] == es[i].1,
    decreases es.len(),
{
    if i < es.len() - 1 {
        let d = es.drop_last();
        assert(keys_of(d).no_duplicates()) by {
            assert forall|a: int, b: int| 0 <= a < keys_of(d).len() && 0 <= b < keys_of(d).len() && a != b implies keys_of(d)[a] != keys_of(d)[b] by {
                assert(keys_of(d)[a] == keys_of(es)[a]);
                assert(keys_of(d)[b] == keys_of(es)[b]);
            }
        }
        lemma_map_of_index(d, i);
        assert(keys_of(es)[i] != keys_of(es)[es.len() - 1]);
    }
}

/// The number of entries of `map_of` is the number of pairs, when addresses are distinct.
pub proof fn lemma_map_of_len(es: Seq<(Seq<char>, Seq<char>)>)
    requires
        keys_of(es).no_duplicates(),
    ensures
        map_of(es).len() == es.len(),
{
    lemma_map_of_dom(es);
    keys_of(es).unique_seq_to_set();
}

/// Replacing the name of an entry is inserting into the map.
pub proof fn lemma_map_of_update(es: Seq<(Seq<char>, Seq<char>)>, j: int, name: Seq<char>)
    requires
        keys_of(es).no_duplicates(),
        0 <= j < es.len(),
    ensures
        map_of(es.update(j, (es[j].0, name))) == map_of(es).insert(es[j].0, name),
    decreases es.len(),
{
    let k = es[j].0;
    let u = es.update(j, (k, name));
    if j == es.len() - 1 {
        assert(u.drop_last() =~= es.drop_last());
        assert(map_of(u) =~= map_of(es).insert(k, name));
    } else {
        let d = es.drop_last();
        assert(keys_of(d).no_duplicates()) by {
            assert forall|a: int, b: int| 0 <= a < keys_of(d).len() && 0 <= b < keys_of(d).len() && a != b implies keys_of(d)[a] != keys_of(d)[b] by {
                assert(keys_of(d)[a] == keys_of(es)[a]);
                assert(keys_of(d)[b] == keys_of(es)[b]);
            }
        }
        lemma_map_of_update(d, j, name);
        assert(u.drop_last() =~= d.update(j, (k, name)));
        assert(keys_of(es)[j] != keys_of(es)[es.len() - 1]);
        assert(map_of(u) =~= map_of(es).insert(k, name));
    }
}

/// Keeping the pairs whose address is in `keep` restricts the map to `keep`.
pub proof fn lemma_map_of_kept(es: Seq<(Seq<char>, Seq<char>)>, keep: Set<Seq<char>>)
    ensures
        map_of(kept(es, keep)) == map_of(es).restrict(keep),
    decreases es.len(),
{
    if es.len() == 0 {
        assert(map_of(es).restrict(keep) =~= Map::empty());
    } else {
        lemma_map_of_kept(es.drop_last(), keep);
        let e = es.last();
        if keep.contains(e.0) {
            assert(kept(es, keep).drop_last() =~= kept(es.drop_last(), keep));
            assert(map_of(es).restrict(keep) =~= map_of(es.drop_last()).restrict(keep).insert(e.0, e.1));
        } else {
            assert(map_of(es).restrict(keep) =~= map_of(es.drop_last()).restrict(keep));
        }
    }
}

/// The addresses of the kept pairs are the kept addresses.
pub proof fn lemma_kept_keys_of(es: Seq<(Seq<char>, Seq<char>)>, keep: Set<Seq<char>>)
    ensures
        keys_of(kept(es, keep)) == kept_ips(keys_of(es), keep),
    decreases es.len(),
{
    if es.len() > 0 {
        lemma_kept_keys_of(es.drop_last(), keep);
        assert(keys_of(es).drop_last() =~= keys_of(es.drop_last()));
        assert(keys_of(es).last() == es.last().0);
        if keep.contains(es.last().0) {
            assert(keys_of(kept(es, keep)) =~= keys_of(kept(es.drop_last(), keep)).push(es.last().0));
        }
    } else {
        assert(keys_of(kept(es, keep)) =~= Seq::empty());
    }
}

/// The pairs that `kept` keeps come from the list, in the same order.
pub proof fn lemma_kept_keys(es: Seq<(Seq<char>, Seq<char>)>, keep: Set<Seq<char>>)
    requires
        keys_of(es).no_duplicates(),
    ensures
        keys_of(kept(es, keep)).no_duplicates(),
        forall|k: Seq<char>| keys_of(kept(es, keep)).contains(k) ==> keys_of(es).contains(k),
    decreases es.len(),
{
    if es.len() > 0 {
        let d = es.drop_last();
        assert(keys_of(d).no_duplicates()) by {
            assert forall|a: int, b: int| 0 <= a < keys_of(d).len() && 0 <= b < keys_of(d).len() && a != b implies keys_of(d)[a] != keys_of(d)[b] by {
                assert(keys_of(d)[a] == keys_of(es)[a]);
                assert(keys_of(d)[b] == keys_of(es)[b]);
            }
        }
        lemma_kept_keys(d, keep);
        let kd = keys_of(kept(d, keep));
        assert forall|k: Seq<char>| kd.contains(k) implies keys_of(es).contains(k) by {
            assert(keys_of(d).contains(k));
            let i = choose|i: int| 0 <= i < keys_of(d).len() && keys_of(d)[i] == k;
            assert(keys_of(es)[i] == k);
        }
        if keep.contains(es.last().0) {
            assert(keys_of(kept(es, keep)) =~= kd.push(es.last().0));
            assert(!kd.contains(es.last().0)) by {
                if kd.contains(es.last().0) {
                    assert(keys_of(d).contains(es.last().0));
                    let i = choose|i: int| 0 <= i < keys_of(d).len() && keys_of(d)[i] == es.last().0;
                    assert(keys_of(es)[i] == keys_of(es)[es.len() - 1]);
                }
            }
            assert forall|k: Seq<char>| keys_of(kept(es, keep)).contains(k) implies keys_of(es).contains(k) by {
                if k == es.last().0 {
                    assert(keys_of(es)[es.len() - 1] == k);
                } else {
                    let i = choose|i: int| 0 <= i < keys_of(kept(es, keep)).len() && keys_of(kept(es, keep))[i] == k;
                    assert(i < kd.len());
                    assert(kd[i] == k);
                    assert(kd.contains(k));
                }
            }
        }
    }
}

/// Reading rows into a table: a later row for an address replaces what earlier
/// rows said of it, and leaves every other address as it was.
pub proof fn lemma_later_row_wins(rows: Seq<(Seq<char>, Seq<char>)>, ip: Seq<char>, name: Seq<char>)
    ensures
        map_of(rows.push((ip, name))) == map_of(rows).insert(ip, name),
        map_of(rows.push((ip, name)))[ip] == name,
{
    assert(rows.push((ip, name)).drop_last() =~= rows);
}

/// Reading the same rows again gives the same table: the same map, and the
/// same addresses in the same order.
pub proof fn lemma_same_rows_same_table(rows: Seq<(Seq<char>, Seq<char>)>, again: Seq<(Seq<char>, Seq<char>)>)
    requires
        again == rows,
    ensures
        map_of(again) == map_of(rows),
        new_ips(keys_of(again), Set::empty()) == new_ips(keys_of(rows), Set::empty()),
{
}

// ---------------------------------------------------------------------------
// The table
// ---------------------------------------------------------------------------

/// Known devices: IP address and nickname of each, one entry per address.
pub struct DeviceTable {
    entries: Vec<(String, String)>,
}

impl View for DeviceTable {
    type V = Map<Seq<char>, Seq<char>>;

    closed spec fn view(&self) -> Map<Seq<char>, Seq<char>> {
        map_of(self.entries())
    }
}

impl DeviceTable {
    /// The entries of the table, in the order in which it lists them.
    pub closed spec fn entries(&self) -> Seq<(Seq<char>, Seq<char>)> {
        pair_views(self.entries@)
    }

    /// The addresses of the table, in the order in which it lists them.
    pub open spec fn ips(&self) -> Seq<Seq<char>> {
        keys_of(self.entries())
    }

    /// The table holds each address once.
    pub open spec fn wf(&self) -> bool {
        self.ips().no_duplicates()
    }

    /// What the table says of its entries: its view maps each listed address to
    /// the name listed with it, and nothing else.
    pub proof fn lemma_view(&self)
        requires
            self.wf(),
        ensures
            self@.dom() == self.ips().to_set(),
            self@.len() == self.ips().len(),
            forall|i: int| 0 <= i < self.entries().len() ==> #[trigger] self@[self.entries()[i].0] == self.entries()[i].1,
            self.ips().len() == self.entries().len(),
    {
        lemma_map_of_dom(self.entries());
        lemma_map_of_len(self.entries());
        assert forall|i: int| 0 <= i < self.entries().len() implies #[trigger] self@[self.entries()[i].0] == self.entries()[i].1 by {
            lemma_map_of_index(self.entries(), i);
        }
    }

    /// An empty table.
    pub fn new() -> (t: Self)
        ensures
            t.wf(),
            t@ == Map::<Seq<char>, Seq<char>>::empty(),
            t.ips() == Seq::<Seq<char>>::empty(),
    {
        let t = DeviceTable { entries: Vec::new() };
        assert(t.entries() =~= Seq::empty());
        assert(t.ips() =~= Seq::empty());
        t
    }

    /// The number of devices in the table.
    pub fn len(&self) -> (n: usize)
        requires
            self.wf(),
        ensures
            n == self@.len(),
            n == self.ips().len(),
    {
        proof {
            self.lemma_view();
        }
        self.entries.len()
    }

    /// Whether the table has no device.
    pub fn is_empty(&self) -> (b: bool)
        requires
            self.wf(),
        ensures
            b == (self@.len() == 0),
            b == (self.ips().len() == 0),
    {
        proof {
            self.lemma_view();
        }
        self.entries.len() == 0
    }

    /// The position of `ip` in the table, if it is there.
    fn find(&self, ip: &str) -> (r: Option<usize>)
        ensures
            match r {
                Some(j) => j < self.entries().len() && self.entries()[j as int].0 == ip@,
                None => !self.ips().contains(ip@),
            },
    {
        let mut j: usize = 0;
        while j < self.entries.len()
            invariant
                j <= self.entries.len(),
                self.entries().len() == self.entries@.len(),
                forall|k: int| 0 <= k < j ==> self.ips()[k] != ip@,
            decreases self.entries.len() - j,
        {
            if same_text(self.entries[j].0.as_str(), ip) {
                return Some(j);
            }
            j = j + 1;
        }
        None
    }

    /// Whether the table has a device at `ip`.
    pub fn contains_key(&self, ip: &str) -> (b: bool)
        requires
            self.wf(),
        ensures
            b == self@.contains_key(ip@),
    {
        proof {
            self.lemma_view();
        }
        let r = self.find(ip);
        if let Some(j) = r {
            assert(self.ips()[j as int] == ip@);
        }
        r.is_some()
    }

    /// The name of the device at `ip`, if the table has one.
    pub fn get(&self, ip: &str) -> (r: Option<String>)
        requires
            self.wf(),
        ensures
            r is Some == self@.contains_key(ip@),
            r matches Some(name) ==> name@ == self@[ip@],
    {
        proof {
            self.lemma_view();
        }
        match self.find(ip) {
            Some(j) => {
                assert(self.ips()[j as int] == ip@);
                assert(self@[self.entries()[j as int].0] == self.entries()[j as int].1);
                Some(self.entries[j].1.clone())
            },
            None => None,
        }
    }

    /// The addresses of the table, in the order in which it lists them.
    pub fn ip_list(&self) -> (r: Vec<String>)
        ensures
            string_views(r@) == self.ips(),
    {
        let mut r: Vec<String> = Vec::new();
        let mut j: usize = 0;
        while j < self.entries.len()
            invariant
                j <= self.entries.len(),
                self.entries().len() == self.entries@.len(),
                string_views(r@) == self.ips().take(j as int),
            decreases self.entries.len() - j,
        {
            assert(self.ips()[j as int] == self.entries@[j as int].0@);
            let ghost before = r@;
            let s = self.entries[j].0.clone();
            r.push(s);
            assert(string_views(r@) =~= string_views(before).push(s@));
            assert(self.ips().take(j + 1) =~= self.ips().take(j as int).push(self.ips()[j as int]));
            j = j + 1;
        }
        assert(self.ips().take(j as int) =~= self.ips());
        r
    }

    /// The entry at position `j`: its address and name.
    pub fn entry(&self, j: usize) -> (r: (String, String))
        requires
            j < self.entries().len(),
        ensures
            (r.0@, r.1@) == self.entries()[j as int],
    {
        (self.entries[j].0.clone(), self.entries[j].1.clone())
    }

    /// The number of entries, as `entry` indexes them.
    pub fn entry_count(&self) -> (n: usize)
        ensures
            n == self.entries().len(),
    {
        self.entries.len()
    }

    /// Records `name` as the name of the device at `ip`: a known address keeps its
    /// place in the table, a new one is added at the end.
    pub fn insert(&mut self, ip: String, name: String)
        requires
            old(self).wf(),
        ensures
            final(self).wf(),
            final(self)@ == old(self)@.insert(ip@, name@),
            final(self).ips() == if old(self).ips().contains(ip@) {
                old(self).ips()
            } else {
                old(self).ips().push(ip@)
            },
    {
        let ghost es = self.entries();
        match self.find(ip.as_str()) {
            Some(j) => {
                proof {
                    lemma_map_of_update(es, j as int, name@);
                }
                self.entries.set(j, (ip, name));
                assert(self.entries() =~= es.update(j as int, (es[j as int].0, name@)));
                assert(self.ips() =~= keys_of(es));
                assert(old(self).ips().contains(ip@)) by {
                    assert(old(self).ips()[j as int] == ip@);
                }
            },
            None => {
                self.entries.push((ip, name));
                assert(self.entries() =~= es.push((ip@, name@)));
                assert(self.entries().drop_last() =~= es);
                assert(self.ips() =~= keys_of(es).push(ip@));
                assert(self.ips().no_duplicates()) by {
                    assert forall|a: int, b: int| 0 <= a < self.ips().len() && 0 <= b < self.ips().len() && a != b implies self.ips()[a] != self.ips()[b] by {
                        if a == self.ips().len() - 1 {
                            assert(self.ips()[a] == ip@);
                            assert(self.ips()[b] == keys_of(es)[b]);
                        } else if b == self.ips().len() - 1 {
                            assert(self.ips()[b] == ip@);
                            assert(keys_of(es)[a] == self.ips()[a]);
                        } else {
                            assert(keys_of(es)[a] == self.ips()[a]);
                            assert(keys_of(es)[b] == self.ips()[b]);
                        }
                    }
                }
            },
        }
    }

    /// Keeps only the devices whose address is in `ips`, in their order.
    pub fn retain_ips(&mut self, ips: &Vec<String>)
        requires
            old(self).wf(),
        ensures
            final(self).wf(),
            final(self)@ == old(self)@.restrict(string_views(ips@).to_set()),
            final(self).entries() == kept(old(self).entries(), string_views(ips@).to_set()),
            final(self).ips() == kept_ips(old(self).ips(), string_views(ips@).to_set()),
    {
        let ghost keep = string_views(ips@).to_set();
        let ghost es = self.entries();
        let mut out: Vec<(String, String)> = Vec::new();
        let mut j: usize = 0;
        assert(es.take(0) =~= Seq::<(Seq<char>, Seq<char>)>::empty());
        assert(pair_views(out@) =~= Seq::empty());
        while j < self.entries.len()
            invariant
                j <= self.entries.len(),
                es == self.entries(),
                es.len() == self.entries@.len(),
                keep == string_views(ips@).to_set(),
                pair_views(out@) == kept(es.take(j as int), keep),
            decreases self.entries.len() - j,
        {
            let listed = contains_string(ips, self.entries[j].0.as_str());
            assert(es.take(j + 1).drop_last() =~= es.take(j as int));
            assert(es.take(j + 1).last() == es[j as int]);
            if listed {
                out.push((self.entries[j].0.clone(), self.entries[j].1.clone()));
                assert(pair_views(out@) =~= kept(es.take(j as int), keep).push(es[j as int]));
            }
            j = j + 1;
        }
        assert(es.take(j as int) =~= es);
        proof {
            lemma_map_of_kept(es, keep);
            lemma_kept_keys(es, keep);
            lemma_kept_keys_of(es, keep);
        }
        self.entries = out;
    }

    /// A table made from rows read in order, a later row for an address replacing
    /// an earlier one (as collecting pairs into a map does).
    pub fn from_rows(rows: Vec<(String, String)>) -> (t: Self)
        ensures
            t.wf(),
            t@ == map_of(pair_views(rows@)),
            t.ips() == new_ips(keys_of(pair_views(rows@)), Set::empty()),
    {
        let mut t = DeviceTable::new();
        let ghost rs = pair_views(rows@);
        let mut j: usize = 0;
        assert(rs.take(0) =~= Seq::empty());
        for row in it: rows
            invariant
                it.seq() == rows@,
                rs == pair_views(rows@),
                t.wf(),
                t@ == map_of(rs.take(it.index() as int)),
                t.ips() == new_ips(keys_of(rs.take(it.index() as int)), Set::empty()),
        {
            let ghost i = it.index();
            assert(rs.take(i + 1).drop_last() =~= rs.take(i as int));
            assert(rs[i as int] == (row.0@, row.1@));
            proof {
                let ks = keys_of(rs.take(i + 1));
                assert(ks.drop_last() =~= keys_of(rs.take(i as int)));
                assert(ks.last() == row.0@);
                lemma_new_ips(keys_of(rs.take(i as int)), Set::empty());
            }
            t.insert(row.0, row.1);
        }
        assert(rs.take(rows@.len() as int) =~= rs);
        t
    }
}

/// Whether one of `v` is the string `s`.
pub fn contains_string(v: &Vec<String>, s: &str) -> (b: bool)
    ensures
        b == string_views(v@).contains(s@),
{
    let mut j: usize = 0;
    while j < v.len()
        invariant
            j <= v.len(),
            forall|k: int| 0 <= k < j ==> string_views(v@)[k] != s@,
        decreases v.len() - j,
    {
        if same_text(v[j].as_str(), s) {
            assert(string_views(v@)[j as int] == s@);
            return true;
        }
        j = j + 1;
    }
    false
}

} // verus!
