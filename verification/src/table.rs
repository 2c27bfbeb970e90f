//! Small maps from string keys (and from positions) to values, kept as lists of entries
//! whose keys are pairwise distinct.  Lookups compare keys character by character; the
//! entries keep the order in which their keys were first inserted.
use crate::text::str_equal;
use vstd::prelude::*;

verus! {

/// The map that a list of entries describes: a later entry for a key wins.
pub open spec fn entries_map<K, V>(s: Seq<(K, V)>) -> Map<K, V>
    decreases s.len(),
{
    if s.len() == 0 {
        Map::empty()
    } else {
        entries_map(s.drop_last()).insert(s.last().0, s.last().1)
    }
}

/// No key occurs twice in the entries.
pub open spec fn keys_distinct<K, V>(s: Seq<(K, V)>) -> bool {
    forall|i: int, j: int| 0 <= i < j < s.len() ==> #[trigger] s[i].0 != #[trigger] s[j].0
}

/// The position of the first entry with key `k` at or after `i` (-1 if none).
pub open spec fn key_index<K, V>(s: Seq<(K, V)>, k: K, i: int) -> int
    decreases s.len() - i,
{
    if i < 0 || i >= s.len() {
        -1
    } else if s[i].0 == k {
        i
    } else {
        key_index(s, k, i + 1)
    }
}

/// The entries after storing `v` under `k`: the entry with that key takes the new value
/// in place, or a new entry goes last.
pub open spec fn seq_insert<K, V>(s: Seq<(K, V)>, k: K, v: V) -> Seq<(K, V)> {
    let i = key_index(s, k, 0);
    if i >= 0 {
        s.update(i, (k, v))
    } else {
        s.push((k, v))
    }
}

/// The first entry with key `k` from `i` on is the one at `j` when none before it has that key.
pub proof fn lemma_key_index<K, V>(s: Seq<(K, V)>, k: K, i: int, j: int)
    requires
        0 <= i <= j < s.len(),
        s[j].0 == k,
        forall|m: int| i <= m < j ==> #[trigger] s[m].0 != k,
    ensures
        key_index(s, k, i) == j,
    decreases j - i,
{
    if i < j {
        lemma_key_index(s, k, i + 1, j);
    }
}

/// No entry from `i` on has key `k`: there is no first one.
pub proof fn lemma_key_index_none<K, V>(s: Seq<(K, V)>, k: K, i: int)
    requires
        0 <= i,
        forall|m: int| i <= m < s.len() ==> #[trigger] s[m].0 != k,
    ensures
        key_index(s, k, i) == -1,
    decreases s.len() - i,
{
    if i < s.len() {
        lemma_key_index_none(s, k, i + 1);
    }
}

/// Where keys are distinct, the entry that has a key is the first with it.
pub proof fn lemma_key_index_distinct<K, V>(s: Seq<(K, V)>, k: K, i: int)
    requires
        keys_distinct(s),
        0 <= i < s.len(),
        s[i].0 == k,
    ensures
        key_index(s, k, 0) == i,
{
    assert forall|m: int| 0 <= m < i implies #[trigger] s[m].0 != k by {
        assert(s[m].0 != s[i].0);
    }
    lemma_key_index(s, k, 0, i);
}

/// The keys of `entries_map(s)` are the keys of the entries.
pub proof fn lemma_entries_map_dom<K, V>(s: Seq<(K, V)>, k: K)
    ensures
        entries_map(s).dom().contains(k) <==> exists|i: int| 0 <= i < s.len() && #[trigger] s[i].0
            == k,
        entries_map(s).dom().finite(),
    decreases s.len(),
{
    if s.len() > 0 {
        lemma_entries_map_dom(s.drop_last(), k);
        if entries_map(s.drop_last()).dom().contains(k) {
            let i = choose|i: int| 0 <= i < s.drop_last().len() && #[trigger] s.drop_last()[i].0 == k;
            assert(s[i].0 == k);
        }
        if exists|i: int| 0 <= i < s.len() && #[trigger] s[i].0 == k {
            let i = choose|i: int| 0 <= i < s.len() && #[trigger] s[i].0 == k;
            if i < s.len() - 1 {
                assert(s.drop_last()[i].0 == k);
            }
        }
    }
}

/// With distinct keys, each entry's value is the map's value at its key.
pub proof fn lemma_entries_map_value<K, V>(s: Seq<(K, V)>, i: int)
    requires
        keys_distinct(s),
        0 <= i < s.len(),
    ensures
        entries_map(s).dom().contains(s[i].0),
        entries_map(s)[s[i].0] == s[i].1,
    decreases s.len(),
{
    if i < s.len() - 1 {
        assert(keys_distinct(s.drop_last()));
        lemma_entries_map_value(s.drop_last(), i);
        assert(s.drop_last()[i] == s[i]);
        assert(s[i].0 != s.last().0);
    }
}

/// With distinct keys, the map has as many keys as there are entries.
pub proof fn lemma_entries_map_len<K, V>(s: Seq<(K, V)>)
    requires
        keys_distinct(s),
    ensures
        entries_map(s).dom().len() == s.len(),
    decreases s.len(),
{
    if s.len() > 0 {
        assert(keys_distinct(s.drop_last()));
        lemma_entries_map_len(s.drop_last());
        lemma_entries_map_dom(s.drop_last(), s.last().0);
        if entries_map(s.drop_last()).dom().contains(s.last().0) {
            let i = choose|i: int|
                0 <= i < s.drop_last().len() && #[trigger] s.drop_last()[i].0 == s.last().0;
            assert(s[i].0 == s[s.len() - 1].0);
        }
    }
}

/// A table from string keys to values.
#[derive(Debug)]
pub struct Table<V> {
    entries: Vec<(String, V)>,
}

impl<V> Table<V> {
    /// The entries, keys taken by their characters, in insertion order.
    pub closed spec fn seq(&self) -> Seq<(Seq<char>, V)> {
        Seq::new(self.entries@.len(), |i: int| (self.entries@[i].0@, self.entries@[i].1))
    }

    /// The table's contents as a map.
    pub open spec fn map(&self) -> Map<Seq<char>, V> {
        entries_map(self.seq())
    }

    /// The entries' keys are pairwise distinct.
    pub open spec fn wf(&self) -> bool {
        keys_distinct(self.seq())
    }

    /// An empty table.
    pub fn new() -> (t: Self)
        ensures
            t.wf(),
            t.seq() == Seq::<(Seq<char>, V)>::empty(),
            t.map() == Map::<Seq<char>, V>::empty(),
    {
        let t = Table { entries: Vec::new() };
        assert(t.seq() =~= Seq::<(Seq<char>, V)>::empty());
        t
    }

    /// The number of keys in the table.
    pub fn len(&self) -> (n: usize)
        requires
            self.wf(),
        ensures
            n == self.map().dom().len(),
            n == self.seq().len(),
    {
        proof {
            lemma_entries_map_len(self.seq());
        }
        self.entries.len()
    }

    /// The position of the entry with key `k`, if there is one.
    fn find(&self, k: &str) -> (r: Option<usize>)
        ensures
            match r {
                Some(i) => i < self.seq().len() && self.seq()[i as int].0 == k@,
                None => forall|i: int| 0 <= i < self.seq().len() ==> #[trigger] self.seq()[i].0 != k@,
            },
    {
        let mut i: usize = 0;
        while i < self.entries.len()
            invariant
                i <= self.entries@.len(),
                forall|j: int| 0 <= j < i ==> #[trigger] self.seq()[j].0 != k@,
            decreases self.entries@.len() - i,
        {
            if str_equal(self.entries[i].0.as_str(), k) {
                return Some(i);
            }
            i += 1;
        }
        None
    }

    /// Whether `k` is a key of the table.
    pub fn contains_key(&self, k: &str) -> (r: bool)
        ensures
            r == self.map().dom().contains(k@),
    {
        proof {
            lemma_entries_map_dom(self.seq(), k@);
        }
        self.find(k).is_some()
    }

    /// The value stored under `k`, if any.
    pub fn get(&self, k: &str) -> (r: Option<&V>)
        requires
            self.wf(),
        ensures
            match r {
                Some(v) => self.map().dom().contains(k@) && *v == self.map()[k@],
                None => !self.map().dom().contains(k@),
            },
    {
        proof {
            lemma_entries_map_dom(self.seq(), k@);
        }
        match self.find(k) {
            Some(i) => {
                proof {
                    lemma_entries_map_value(self.seq(), i as int);
                }
                Some(&self.entries[i].1)
            },
            None => None,
        }
    }

    /// The number of entries.
    pub fn count(&self) -> (n: usize)
        ensures
            n == self.seq().len(),
    {
        self.entries.len()
    }

    /// The key and value of the entry at position `i`.
    pub fn entry(&self, i: usize) -> (r: (&String, &V))
        requires
            i < self.seq().len(),
        ensures
            r.0@ == self.seq()[i as int].0,
            *r.1 == self.seq()[i as int].1,
    {
        (&self.entries[i].0, &self.entries[i].1)
    }

    /// Stores `v` under `k`, replacing the value already stored there; a new key goes
    /// after the others.
    pub fn insert(&mut self, k: String, v: V)
        requires
            old(self).wf(),
        ensures
            final(self).wf(),
            final(self).map() == old(self).map().insert(k@, v),
            old(self).map().dom().contains(k@) ==> final(self).seq().len() == old(self).seq().len(),
            !old(self).map().dom().contains(k@) ==> final(self).seq() == old(self).seq().push((k@, v)),
            final(self).seq() == seq_insert(old(self).seq(), k@, v),
    {
        proof {
            lemma_entries_map_dom(self.seq(), k@);
        }
        match self.find(k.as_str()) {
            Some(i) => {
                let ghost s = self.seq();
                proof {
                    assert forall|m: int| 0 <= m < i implies #[trigger] s[m].0 != k@ by {
                        assert(s[m].0 != s[i as int].0);
                    }
                    lemma_key_index(s, k@, 0, i as int);
                }
                self.entries.set(i, (k, v));
                proof {
                    let t = self.seq();
                    assert(t =~= s.update(i as int, (k@, v)));
                    assert(keys_distinct(t)) by {
                        assert forall|a: int, b: int| 0 <= a < b < t.len() implies #[trigger] t[a].0
                            != #[trigger] t[b].0 by {
                            assert(t[a].0 == s[a].0);
                            assert(t[b].0 == s[b].0);
                        }
                    }
                    lemma_update_map(s, i as int, v);
                }
            },
            None => {
                let ghost s = self.seq();
                proof {
                    lemma_key_index_none(s, k@, 0);
                }
                self.entries.push((k, v));
                proof {
                    let t = self.seq();
                    assert(t =~= s.push((k@, v)));
                    assert(t.drop_last() =~= s);
                }
            },
        }
    }

    /// The position of the entry with key `k`, if there is one.
    pub fn position(&self, k: &str) -> (r: Option<usize>)
        ensures
            match r {
                Some(i) => i < self.seq().len() && self.seq()[i as int].0 == k@,
                None => !self.map().dom().contains(k@),
            },
    {
        proof {
            lemma_entries_map_dom(self.seq(), k@);
        }
        self.find(k)
    }

    /// Puts `v` in place of the value of the entry at position `i`, and gives back the
    /// value that was there.
    pub fn swap_value(&mut self, i: usize, v: V) -> (r: V)
        requires
            old(self).wf(),
            i < old(self).seq().len(),
        ensures
            final(self).wf(),
            final(self).seq() == old(self).seq().update(i as int, (old(self).seq()[i as int].0, v)),
            r == old(self).seq()[i as int].1,
    {
        let ghost s = self.seq();
        let mut tmp: Vec<(String, V)> = Vec::new();
        std::mem::swap(&mut tmp, &mut self.entries);
        let old_e = tmp.remove(i);
        let (k, old_v) = old_e;
        tmp.insert(i, (k, v));
        std::mem::swap(&mut tmp, &mut self.entries);
        proof {
            let t = self.seq();
            assert(t =~= s.update(i as int, (s[i as int].0, v)));
            assert(keys_distinct(t)) by {
                assert forall|a: int, b: int| 0 <= a < b < t.len() implies #[trigger] t[a].0
                    != #[trigger] t[b].0 by {
                    assert(t[a].0 == s[a].0);
                    assert(t[b].0 == s[b].0);
                }
            }
        }
        old_v
    }

    /// Removes every entry.
    pub fn clear(&mut self)
        ensures
            final(self).wf(),
            final(self).map() == Map::<Seq<char>, V>::empty(),
            final(self).seq() == Seq::<(Seq<char>, V)>::empty(),
    {
        self.entries = Vec::new();
        assert(self.seq() =~= Seq::<(Seq<char>, V)>::empty());
    }
}

/// Replacing the value of an entry (keys distinct) replaces the map's value at its key.
proof fn lemma_update_map<K, V>(s: Seq<(K, V)>, i: int, v: V)
    requires
        keys_distinct(s),
        0 <= i < s.len(),
    ensures
        entries_map(s.update(i, (s[i].0, v))) == entries_map(s).insert(s[i].0, v),
    decreases s.len(),
{
    let t = s.update(i, (s[i].0, v));
    if i == s.len() - 1 {
        assert(t.drop_last() =~= s.drop_last());
        lemma_entries_map_dom(s.drop_last(), s[i].0);
        assert(entries_map(t) =~= entries_map(s).insert(s[i].0, v));
    } else {
        assert(keys_distinct(s.drop_last()));
        assert(t.drop_last() =~= s.drop_last().update(i, (s[i].0, v)));
        lemma_update_map(s.drop_last(), i, v);
        assert(s[i].0 != s.last().0);
        assert(entries_map(t) =~= entries_map(s).insert(s[i].0, v));
    }
}

impl<V: Copy> Table<V> {
    /// A copy of the table, entry for entry.
    pub fn copy(&self) -> (r: Self)
        ensures
            r.seq() == self.seq(),
    {
        let mut entries: Vec<(String, V)> = Vec::new();
        let mut i: usize = 0;
        while i < self.entries.len()
            invariant
                i <= self.entries@.len(),
                entries@.len() == i,
                forall|j: int| 0 <= j < i ==> (#[trigger] entries@[j]).0@ == self.entries@[j].0@
                    && entries@[j].1 == self.entries@[j].1,
            decreases self.entries@.len() - i,
        {
            entries.push((self.entries[i].0.clone(), self.entries[i].1));
            i += 1;
        }
        let r = Table { entries };
        assert(r.seq() =~= self.seq());
        r
    }
}

/// A table from positions to values.
#[derive(Debug)]
pub struct NumTable<V> {
    entries: Vec<(usize, V)>,
}

impl<V> NumTable<V> {
    /// The entries, in insertion order.
    pub closed spec fn seq(&self) -> Seq<(usize, V)> {
        self.entries@
    }

    /// The table's contents as a map.
    pub open spec fn map(&self) -> Map<usize, V> {
        entries_map(self.seq())
    }

    /// The entries' keys are pairwise distinct.
    pub open spec fn wf(&self) -> bool {
        keys_distinct(self.seq())
    }

    /// An empty table.
    pub fn new() -> (t: Self)
        ensures
            t.wf(),
            t.map() == Map::<usize, V>::empty(),
    {
        NumTable { entries: Vec::new() }
    }

    fn find(&self, k: usize) -> (r: Option<usize>)
        ensures
            match r {
                Some(i) => i < self.seq().len() && self.seq()[i as int].0 == k,
                None => forall|i: int| 0 <= i < self.seq().len() ==> #[trigger] self.seq()[i].0 != k,
            },
    {
        let mut i: usize = 0;
        while i < self.entries.len()
            invariant
                i <= self.entries@.len(),
                forall|j: int| 0 <= j < i ==> #[trigger] self.seq()[j].0 != k,
            decreases self.entries@.len() - i,
        {
            if self.entries[i].0 == k {
                return Some(i);
            }
            i += 1;
        }
        None
    }

    /// The value stored under `k`, if any.
    pub fn get(&self, k: usize) -> (r: Option<&V>)
        requires
            self.wf(),
        ensures
            match r {
                Some(v) => self.map().dom().contains(k) && *v == self.map()[k],
                None => !self.map().dom().contains(k),
            },
    {
        proof {
            lemma_entries_map_dom(self.seq(), k);
        }
        match self.find(k) {
            Some(i) => {
                proof {
                    lemma_entries_map_value(self.seq(), i as int);
                }
                Some(&self.entries[i].1)
            },
            None => None,
        }
    }

    /// Stores `v` under `k`, replacing the value already stored there.
    pub fn insert(&mut self, k: usize, v: V)
        requires
            old(self).wf(),
        ensures
            final(self).wf(),
            final(self).map() == old(self).map().insert(k, v),
    {
        proof {
            lemma_entries_map_dom(self.seq(), k);
        }
        match self.find(k) {
            Some(i) => {
                let ghost s = self.seq();
                self.entries.set(i, (k, v));
                proof {
                    let t = self.seq();
                    assert(t =~= s.update(i as int, (k, v)));
                    assert(keys_distinct(t)) by {
                        assert forall|a: int, b: int| 0 <= a < b < t.len() implies #[trigger] t[a].0
                            != #[trigger] t[b].0 by {
                            assert(t[a].0 == s[a].0);
                            assert(t[b].0 == s[b].0);
                        }
                    }
                    lemma_update_map(s, i as int, v);
                }
            },
            None => {
                let ghost s = self.seq();
                self.entries.push((k, v));
                proof {
                    let t = self.seq();
                    assert(t.drop_last() =~= s);
                }
            },
        }
    }
}

} // verus!
