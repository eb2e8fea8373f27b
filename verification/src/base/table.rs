//! An ordered table: entries held in the order of their keys, each key once.
//!
//! This is the library's map and set. Iterating it visits the entries in key
//! order, which is what keeps every listing the library produces stable.

use vstd::prelude::*;

use crate::base::order::{lemma_lt_irreflexive, lemma_lt_total, lemma_lt_transitive, seq_lt};

verus! {

broadcast use vstd::std_specs::vec::group_vec_axioms;

/// A value that can key a table.
pub trait Keyed: Sized {
    /// The value's position in the order, as a key.
    spec fn key(&self) -> Seq<int>;

    /// Whether two values occupy the same position.
    fn same_key(&self, other: &Self) -> (r: bool)
        ensures
            r == (self.key() == other.key()),
    ;

    /// Whether this value comes before the other.
    fn key_before(&self, other: &Self) -> (r: bool)
        ensures
            r == seq_lt(self.key(), other.key()),
    ;
}

/// Entries in strictly increasing key order.
pub open spec fn sorted<K: Keyed, V>(s: Seq<(K, V)>) -> bool {
    forall|i: int, j: int|
        #![trigger s[i], s[j]]
        0 <= i < j < s.len() ==> seq_lt(s[i].0.key(), s[j].0.key())
}

/// Whether some entry has key `k`.
pub open spec fn seq_has<K: Keyed, V>(s: Seq<(K, V)>, k: Seq<int>) -> bool {
    exists|i: int| 0 <= i < s.len() && #[trigger] s[i].0.key() == k
}

/// Where the entry with key `k` is.
pub open spec fn seq_pos<K: Keyed, V>(s: Seq<(K, V)>, k: Seq<int>) -> int {
    choose|i: int| 0 <= i < s.len() && #[trigger] s[i].0.key() == k
}

/// Entries as a map from keys to values.
pub open spec fn seq_map<K: Keyed, V>(s: Seq<(K, V)>) -> Map<Seq<int>, V> {
    Map::new(|k: Seq<int>| seq_has(s, k), |k: Seq<int>| s[seq_pos(s, k)].1)
}

/// In sorted entries, the entry at index `i` is the one its key finds.
pub proof fn lemma_seq_pos<K: Keyed, V>(s: Seq<(K, V)>, i: int)
    requires
        sorted(s),
        0 <= i < s.len(),
    ensures
        seq_has(s, s[i].0.key()),
        seq_pos(s, s[i].0.key()) == i,
        seq_map(s).contains_key(s[i].0.key()),
        seq_map(s)[s[i].0.key()] == s[i].1,
{
    let k = s[i].0.key();
    assert(seq_has(s, k));
    let p = seq_pos(s, k);
    if p != i {
        if p < i {
            assert(seq_lt(s[p].0.key(), s[i].0.key()));
        } else {
            assert(seq_lt(s[i].0.key(), s[p].0.key()));
        }
        lemma_lt_irreflexive(k);
    }
}

/// Replacing the value at an index keeps the keys and changes that one value.
pub proof fn lemma_seq_map_update<K: Keyed, V>(s: Seq<(K, V)>, i: int, e: (K, V))
    requires
        sorted(s),
        0 <= i < s.len(),
        e.0.key() == s[i].0.key(),
    ensures
        sorted(s.update(i, e)),
        seq_map(s.update(i, e)) == seq_map(s).insert(e.0.key(), e.1),
{
    let t = s.update(i, e);
    assert forall|a: int, b: int| 0 <= a < b < t.len() implies seq_lt(
        #[trigger] t[a].0.key(),
        #[trigger] t[b].0.key(),
    ) by {
        assert(t[a].0.key() == s[a].0.key());
        assert(t[b].0.key() == s[b].0.key());
    }
    assert forall|k: Seq<int>| #[trigger] seq_map(t).contains_key(k) == seq_map(s).insert(
        e.0.key(),
        e.1,
    ).contains_key(k) by {
        if seq_has(s, k) {
            let j = seq_pos(s, k);
            assert(t[j].0.key() == k);
        }
        if seq_has(t, k) {
            let j = seq_pos(t, k);
            assert(s[j].0.key() == k);
        }
    }
    assert forall|k: Seq<int>| #[trigger] seq_map(t).contains_key(k) implies seq_map(t)[k] == seq_map(
        s,
    ).insert(e.0.key(), e.1)[k] by {
        let j = seq_pos(t, k);
        lemma_seq_pos(t, j);
        if j != i {
            assert(s[j] == t[j]);
            lemma_seq_pos(s, j);
            lemma_seq_pos(t, i);
            assert(k != e.0.key());
        } else {
            assert(t[i] == e);
        }
    }
    assert(seq_map(t) =~= seq_map(s).insert(e.0.key(), e.1));
}

/// Inserting an entry whose key is new, in its place, adds it to the map.
pub proof fn lemma_seq_map_insert<K: Keyed, V>(s: Seq<(K, V)>, i: int, e: (K, V))
    requires
        sorted(s.insert(i, e)),
        0 <= i <= s.len(),
    ensures
        sorted(s),
        seq_map(s.insert(i, e)) == seq_map(s).insert(e.0.key(), e.1),
        !seq_has(s, e.0.key()),
{
    let t = s.insert(i, e);
    assert forall|a: int, b: int| 0 <= a < b < s.len() implies seq_lt(
        #[trigger] s[a].0.key(),
        #[trigger] s[b].0.key(),
    ) by {
        let a2 = if a < i { a } else { a + 1 };
        let b2 = if b < i { b } else { b + 1 };
        assert(t[a2] == s[a]);
        assert(t[b2] == s[b]);
    }
    assert forall|j: int| 0 <= j < s.len() implies #[trigger] s[j].0.key() != e.0.key() by {
        let j2 = if j < i { j } else { j + 1 };
        assert(t[j2] == s[j]);
        assert(t[i] == e);
        if j2 < i {
            assert(seq_lt(t[j2].0.key(), t[i].0.key()));
        } else {
            assert(seq_lt(t[i].0.key(), t[j2].0.key()));
        }
        lemma_lt_irreflexive(e.0.key());
    }
    assert forall|k: Seq<int>| #[trigger] seq_map(t).contains_key(k) == seq_map(s).insert(
        e.0.key(),
        e.1,
    ).contains_key(k) by {
        if seq_has(s, k) {
            let j = seq_pos(s, k);
            let j2 = if j < i { j } else { j + 1 };
            assert(t[j2] == s[j]);
        }
        if seq_has(t, k) && k != e.0.key() {
            let j = seq_pos(t, k);
            if j < i {
                assert(t[j] == s[j]);
            } else {
                assert(j != i);
                assert(t[j] == s[j - 1]);
            }
        }
        assert(t[i] == e);
    }
    assert forall|k: Seq<int>| #[trigger] seq_map(t).contains_key(k) implies seq_map(t)[k] == seq_map(
        s,
    ).insert(e.0.key(), e.1)[k] by {
        let j = seq_pos(t, k);
        lemma_seq_pos(t, j);
        if j < i {
            assert(t[j] == s[j]);
            lemma_seq_pos(s, j);
        } else if j > i {
            assert(t[j] == s[j - 1]);
            lemma_seq_pos(s, j - 1);
        }
    }
    assert(seq_map(t) =~= seq_map(s).insert(e.0.key(), e.1));
}

/// Sorted entries map one key per entry.
pub proof fn lemma_seq_map_len<K: Keyed, V>(s: Seq<(K, V)>)
    requires
        sorted(s),
    ensures
        seq_map(s).dom().finite(),
        seq_map(s).dom().len() == s.len(),
    decreases s.len(),
{
    if s.len() == 0 {
        assert(seq_map(s).dom() =~= Set::<Seq<int>>::empty());
    } else {
        let t = s.drop_last();
        let e = s.last();
        assert(s =~= t.insert(t.len() as int, e));
        lemma_seq_map_insert(t, t.len() as int, e);
        lemma_seq_map_len(t);
        assert(seq_map(s).dom() =~= seq_map(t).dom().insert(e.0.key()));
    }
}

/// Entries in strictly increasing key order.
#[derive(Debug)]
pub struct Table<K: Keyed, V> {
    entries: Vec<(K, V)>,
}

impl<K: Keyed, V> Table<K, V> {
    /// Every key comes strictly before the next; held of every table.
    #[verifier::type_invariant]
    pub open spec fn ordered(self) -> bool {
        sorted(self.entries())
    }

    /// The entries, in key order.
    pub closed spec fn entries(&self) -> Seq<(K, V)> {
        self.entries@
    }

    /// The keys, in order.
    pub open spec fn keys(&self) -> Seq<Seq<int>> {
        self.entries().map_values(|e: (K, V)| e.0.key())
    }

    /// Every key comes strictly before the next.
    pub open spec fn wf(&self) -> bool {
        sorted(self.entries())
    }

    /// The table as a map from keys to values.
    pub open spec fn view(&self) -> Map<Seq<int>, V> {
        seq_map(self.entries())
    }

    /// The entry at index `i` is found by its key.
    pub proof fn lemma_entry(&self, i: int)
        requires
            self.wf(),
            0 <= i < self.entries().len(),
        ensures
            self@.contains_key(self.entries()[i].0.key()),
            self@[self.entries()[i].0.key()] == self.entries()[i].1,
    {
        lemma_seq_pos(self.entries(), i);
    }

    /// Every key in the map is held at some index.
    pub proof fn lemma_key_held(&self, k: Seq<int>)
        requires
            self.wf(),
            self@.contains_key(k),
        ensures
            0 <= seq_pos(self.entries(), k) < self.entries().len(),
            self.entries()[seq_pos(self.entries(), k)].0.key() == k,
            self@[k] == self.entries()[seq_pos(self.entries(), k)].1,
    {
    }

    /// The map holds one key per entry.
    pub proof fn lemma_len(&self)
        requires
            self.wf(),
        ensures
            self@.dom().finite(),
            self@.dom().len() == self.entries().len(),
    {
        lemma_seq_map_len(self.entries());
    }

    /// Whatever the entries, the map holds finitely many keys.
    pub proof fn lemma_finite(&self)
        ensures
            self@.dom().finite(),
    {
        broadcast use vstd::seq_lib::seq_to_set_is_finite;

        let keys = self.keys().to_set();
        assert(self@.dom().subset_of(keys)) by {
            assert forall|k: Seq<int>| self@.dom().contains(k) implies keys.contains(k) by {
                let i = choose|i: int| 0 <= i < self.entries().len() && #[trigger] self.entries()[i].0.key() == k;
                assert(self.keys()[i] == k);
                assert(self.keys().contains(k));
            }
        }
        vstd::set_lib::lemma_set_subset_finite(keys, self@.dom());
    }

    /// Tables holding the same keys in the same order hold the same keys.
    pub proof fn lemma_same_keys(&self, other: &Self)
        requires
            self.keys() == other.keys(),
        ensures
            self@.dom() == other@.dom(),
    {
        assert(self.keys().len() == self.entries().len());
        assert(other.keys().len() == other.entries().len());
        assert forall|k: Seq<int>| self@.dom().contains(k) <==> other@.dom().contains(k) by {
            if self@.dom().contains(k) {
                let i = choose|i: int| 0 <= i < self.entries().len() && #[trigger] self.entries()[i].0.key() == k;
                assert(self.keys()[i] == k);
                assert(other.keys()[i] == other.entries()[i].0.key());
            }
            if other@.dom().contains(k) {
                let i = choose|i: int| 0 <= i < other.entries().len() && #[trigger] other.entries()[i].0.key() == k;
                assert(other.keys()[i] == k);
                assert(self.keys()[i] == self.entries()[i].0.key());
            }
        }
        assert(self@.dom() =~= other@.dom());
    }

    /// An empty table.
    pub fn new() -> (t: Self)
        ensures
            t.wf(),
            t@ == Map::<Seq<int>, V>::empty(),
            t.entries().len() == 0,
    {
        let t = Table { entries: Vec::new() };
        assert(t@ =~= Map::<Seq<int>, V>::empty());
        t
    }

    /// How many entries there are.
    pub fn len(&self) -> (n: usize)
        ensures
            n == self.entries().len(),
    {
        self.entries.len()
    }

    /// The entry at index `i`, in key order.
    pub fn entry(&self, i: usize) -> (e: &(K, V))
        requires
            i < self.entries().len(),
        ensures
            *e == self.entries()[i as int],
    {
        &self.entries[i]
    }

    /// The index of the entry keyed like `k`, if there is one.
    pub fn find(&self, k: &K) -> (r: Option<usize>)
        ensures
            r is None ==> !self@.contains_key(k.key()),
            r matches Some(i) ==> i < self.entries().len() && self.entries()[i as int].0.key()
                == k.key() && self@.contains_key(k.key()) && self@[k.key()] == self.entries()[i as int].1,
    {
        proof {
            use_type_invariant(self);
        }
        let mut i: usize = 0;
        while i < self.entries.len()
            invariant
                self.wf(),
                i <= self.entries().len(),
                forall|j: int| 0 <= j < i ==> #[trigger] self.entries()[j].0.key() != k.key(),
            decreases self.entries().len() - i,
        {
            if self.entries[i].0.same_key(k) {
                proof {
                    lemma_seq_pos(self.entries(), i as int);
                }
                return Some(i);
            }
            i = i + 1;
        }
        None
    }

    /// The value keyed like `k`, if there is one.
    pub fn get(&self, k: &K) -> (r: Option<&V>)
        ensures
            r is None <==> !self@.contains_key(k.key()),
            r matches Some(v) ==> self@.contains_key(k.key()) && *v == self@[k.key()],
    {
        match self.find(k) {
            Some(i) => Some(&self.entries[i].1),
            None => None,
        }
    }

    /// Whether some entry is keyed like `k`.
    pub fn contains(&self, k: &K) -> (r: bool)
        ensures
            r == self@.contains_key(k.key()),
    {
        self.find(k).is_some()
    }

    /// Keep `v` under `k`, returning what was there before.
    pub fn insert(&mut self, k: K, v: V) -> (r: Option<V>)
        ensures
            final(self)@ == old(self)@.insert(k.key(), v),
            r is Some <==> old(self)@.contains_key(k.key()),
            r matches Some(o) ==> o == old(self)@[k.key()],
    {
        proof {
            use_type_invariant(&*self);
        }
        let ghost old_entries = self.entries();
        let mut i: usize = 0;
        while i < self.entries.len() && self.entries[i].0.key_before(&k)
            invariant
                self.entries() == old_entries,
                sorted(old_entries),
                i <= old_entries.len(),
                forall|j: int| 0 <= j < i ==> seq_lt(#[trigger] old_entries[j].0.key(), k.key()),
            decreases old_entries.len() - i,
        {
            i = i + 1;
        }
        let ghost kk = k.key();
        if i < self.entries.len() && self.entries[i].0.same_key(&k) {
            proof {
                lemma_seq_pos(old_entries, i as int);
            }
            let mut entries: Vec<(K, V)> = Vec::new();
            std::mem::swap(&mut entries, &mut self.entries);
            let (_, previous) = entries.remove(i);
            entries.insert(i, (k, v));
            proof {
                let e = entries@[i as int];
                assert(entries@ =~= old_entries.update(i as int, e));
                assert forall|a: int, b: int| 0 <= a < b < entries@.len() implies seq_lt(
                    #[trigger] entries@[a].0.key(),
                    #[trigger] entries@[b].0.key(),
                ) by {
                    assert(a != i ==> entries@[a] == old_entries[a]);
                    assert(b != i ==> entries@[b] == old_entries[b]);
                }
                lemma_seq_map_update(old_entries, i as int, e);
            }
            self.entries = entries;
            Some(previous)
        } else {
            proof {
                if i < old_entries.len() {
                    lemma_lt_total(old_entries[i as int].0.key(), kk);
                }
            }
            let mut entries: Vec<(K, V)> = Vec::new();
            std::mem::swap(&mut entries, &mut self.entries);
            entries.insert(i, (k, v));
            let ghost t = entries@;
            proof {
                let e = t[i as int];
                assert(t =~= old_entries.insert(i as int, e));
                assert forall|a: int, b: int| 0 <= a < b < t.len() implies seq_lt(
                    #[trigger] t[a].0.key(),
                    #[trigger] t[b].0.key(),
                ) by {
                    if b < i {
                        assert(t[a] == old_entries[a]);
                        assert(t[b] == old_entries[b]);
                    } else if a < i && b == i {
                        assert(t[a] == old_entries[a]);
                    } else if a < i {
                        assert(t[a] == old_entries[a]);
                        assert(t[b] == old_entries[b - 1]);
                        if b - 1 > i {
                            assert(seq_lt(old_entries[i as int].0.key(), old_entries[b - 1].0.key()));
                            lemma_lt_transitive(kk, old_entries[i as int].0.key(), old_entries[b - 1].0.key());
                        }
                        lemma_lt_transitive(t[a].0.key(), kk, t[b].0.key());
                    } else if a == i {
                        assert(t[b] == old_entries[b - 1]);
                        if b - 1 > i {
                            assert(seq_lt(old_entries[i as int].0.key(), old_entries[b - 1].0.key()));
                            lemma_lt_transitive(kk, old_entries[i as int].0.key(), old_entries[b - 1].0.key());
                        }
                    } else {
                        assert(t[a] == old_entries[a - 1]);
                        assert(t[b] == old_entries[b - 1]);
                    }
                }
                lemma_seq_map_insert(old_entries, i as int, e);
            }
            self.entries = entries;
            None
        }
    }

    /// Take out the entry keyed like `k`, returning its value.
    pub fn remove(&mut self, k: &K) -> (r: Option<V>)
        ensures
            final(self)@ == old(self)@.remove(k.key()),
            r is Some <==> old(self)@.contains_key(k.key()),
            r matches Some(o) ==> o == old(self)@[k.key()],
    {
        proof {
            use_type_invariant(&*self);
        }
        let ghost old_entries = self.entries();
        match self.find(k) {
            None => {
                assert(self@ =~= old(self)@.remove(k.key()));
                None
            },
            Some(i) => {
                let mut entries: Vec<(K, V)> = Vec::new();
                std::mem::swap(&mut entries, &mut self.entries);
                let (key, value) = entries.remove(i);
                proof {
                    let t = entries@;
                    assert forall|a: int, b: int| 0 <= a < b < t.len() implies seq_lt(
                        #[trigger] t[a].0.key(),
                        #[trigger] t[b].0.key(),
                    ) by {
                        if a < i {
                            assert(t[a] == old_entries[a]);
                        } else {
                            assert(t[a] == old_entries[a + 1]);
                        }
                        if b < i {
                            assert(t[b] == old_entries[b]);
                        } else {
                            assert(t[b] == old_entries[b + 1]);
                        }
                    }
                    assert(old_entries =~= t.insert(i as int, (key, value)));
                    lemma_seq_map_insert(t, i as int, (key, value));
                    assert(seq_map(t) =~= seq_map(t).insert(key.key(), value).remove(key.key()));
                }
                self.entries = entries;
                Some(value)
            },
        }
    }
}

impl<K: Keyed, V> Table<K, V> {
    /// Whether two tables hold the same keys, in the same order.
    pub fn same_keys(&self, other: &Self) -> (r: bool)
        ensures
            r == (self.keys() == other.keys()),
    {
        if self.entries.len() != other.entries.len() {
            assert(self.keys().len() != other.keys().len());
            return false;
        }
        let mut i: usize = 0;
        while i < self.entries.len()
            invariant
                self.entries().len() == other.entries().len(),
                i <= self.entries().len(),
                forall|j: int| 0 <= j < i ==> self.keys()[j] == other.keys()[j],
            decreases self.entries().len() - i,
        {
            if !self.entries[i].0.same_key(&other.entries[i].0) {
                assert(self.keys()[i as int] != other.keys()[i as int]);
                return false;
            }
            i = i + 1;
        }
        assert(self.keys() =~= other.keys());
        true
    }
}

impl<K: Keyed + Copy, V: Copy> Table<K, V> {
    /// A copy of the table.
    pub fn copy(&self) -> (r: Self)
        ensures
            r.entries() == self.entries(),
    {
        proof {
            use_type_invariant(self);
        }
        let mut entries: Vec<(K, V)> = Vec::new();
        let mut i: usize = 0;
        while i < self.entries.len()
            invariant
                sorted(self.entries()),
                i <= self.entries().len(),
                entries@ == self.entries().take(i as int),
            decreases self.entries().len() - i,
        {
            entries.push(self.entries[i]);
            assert(self.entries().take(i + 1) =~= self.entries().take(i as int).push(self.entries()[i as int]));
            i = i + 1;
        }
        assert(self.entries().take(self.entries().len() as int) =~= self.entries());
        Table { entries }
    }
}

impl<K: Keyed, V> Table<K, V> {
    /// The entries, in key order, taking the table apart.
    pub fn into_entries(self) -> (r: Vec<(K, V)>)
        ensures
            r@ == self.entries(),
            sorted(r@),
    {
        proof {
            use_type_invariant(&self);
        }
        self.entries
    }

    /// A table of entries already in strictly increasing key order.
    pub fn from_sorted(entries: Vec<(K, V)>) -> (r: Self)
        requires
            sorted(entries@),
        ensures
            r.entries() == entries@,
    {
        Table { entries }
    }
}

} // verus!
