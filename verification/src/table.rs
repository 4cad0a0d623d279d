//! A key-value table that keeps its entries in insertion order, the way a contract's
//! map storage is walked: a new key goes to the end, an existing key keeps its place.
use vstd::prelude::*;
use crate::bignat::BigNat;
use crate::types::Address;

verus! {

/// Keys that can be compared and copied in executable code.
pub trait TableKey: Sized {
    fn same_key(&self, other: &Self) -> (b: bool)
        ensures
            b == (*self == *other);

    fn copy_key(&self) -> (r: Self)
        ensures
            r == *self;
}

impl TableKey for u64 {
    fn same_key(&self, other: &u64) -> (b: bool) {
        *self == *other
    }

    fn copy_key(&self) -> (r: u64) {
        *self
    }
}

impl TableKey for u128 {
    fn same_key(&self, other: &u128) -> (b: bool) {
        *self == *other
    }

    fn copy_key(&self) -> (r: u128) {
        *self
    }
}

impl TableKey for Address {
    fn same_key(&self, other: &Address) -> (b: bool) {
        self.same(other)
    }

    fn copy_key(&self) -> (r: Address) {
        *self
    }
}

impl TableKey for (u128, u128) {
    fn same_key(&self, other: &(u128, u128)) -> (b: bool) {
        self.0 == other.0 && self.1 == other.1
    }

    fn copy_key(&self) -> (r: (u128, u128)) {
        *self
    }
}

impl TableKey for (Address, u128) {
    fn same_key(&self, other: &(Address, u128)) -> (b: bool) {
        self.0.same(&other.0) && self.1 == other.1
    }

    fn copy_key(&self) -> (r: (Address, u128)) {
        *self
    }
}

impl TableKey for (Address, Address) {
    fn same_key(&self, other: &(Address, Address)) -> (b: bool) {
        self.0.same(&other.0) && self.1.same(&other.1)
    }

    fn copy_key(&self) -> (r: (Address, Address)) {
        *self
    }
}

impl TableKey for (u64, u64, usize) {
    fn same_key(&self, other: &(u64, u64, usize)) -> (b: bool) {
        self.0 == other.0 && self.1 == other.1 && self.2 == other.2
    }

    fn copy_key(&self) -> (r: (u64, u64, usize)) {
        *self
    }
}

/// No key occurs twice in `s`.
pub open spec fn keys_distinct<K, V>(s: Seq<(K, V)>) -> bool {
    forall|i: int, j: int|
        #![trigger s[i], s[j]]
        0 <= i < s.len() && 0 <= j < s.len() && i != j ==> s[i].0 != s[j].0
}

/// Some entry of `s` has key `k`.
pub open spec fn seq_has_key<K, V>(s: Seq<(K, V)>, k: K) -> bool {
    exists|i: int| #![trigger s[i]] 0 <= i < s.len() && s[i].0 == k
}

/// The position of key `k` in `s` (meaningful when `seq_has_key(s, k)`).
pub open spec fn seq_index_of<K, V>(s: Seq<(K, V)>, k: K) -> int {
    choose|i: int| #![trigger s[i]] 0 <= i < s.len() && s[i].0 == k
}

/// The map that an entry sequence with distinct keys stands for.
pub open spec fn seq_to_map<K, V>(s: Seq<(K, V)>) -> Map<K, V> {
    Map::new(|k: K| seq_has_key(s, k), |k: K| s[seq_index_of(s, k)].1)
}

/// In a sequence with distinct keys, the position of a key is the one it is found at.
pub proof fn lemma_index_of_unique<K, V>(s: Seq<(K, V)>, i: int)
    requires
        keys_distinct(s),
        0 <= i < s.len(),
    ensures
        seq_has_key(s, s[i].0),
        seq_index_of(s, s[i].0) == i,
{
    let k = s[i].0;
    assert(seq_has_key(s, k));
    let j = seq_index_of(s, k);
    assert(s[j].0 == k);
}

/// Appending an entry with a new key adds that key to the map.
pub proof fn lemma_push_view<K, V>(s: Seq<(K, V)>, k: K, v: V)
    requires
        keys_distinct(s),
        !seq_has_key(s, k),
    ensures
        keys_distinct(s.push((k, v))),
        seq_to_map(s.push((k, v))) == seq_to_map(s).insert(k, v),
{
    let t = s.push((k, v));
    assert forall|i: int, j: int|
        #![trigger t[i], t[j]]
        0 <= i < t.len() && 0 <= j < t.len() && i != j implies t[i].0 != t[j].0 by {
        if i < s.len() && j < s.len() {
            assert(s[i] == t[i] && s[j] == t[j]);
        } else if i < s.len() {
            assert(t[i] == s[i]);
        } else {
            assert(t[j] == s[j]);
        }
    }
    assert forall|x: K| #[trigger] seq_has_key(t, x) == (seq_has_key(s, x) || x == k) by {
        if seq_has_key(s, x) {
            let i = seq_index_of(s, x);
            assert(t[i] == s[i]);
        }
        if x == k {
            assert(t[s.len() as int].0 == k);
        }
        if seq_has_key(t, x) {
            let i = seq_index_of(t, x);
            if i < s.len() {
                assert(s[i] == t[i]);
            }
        }
    }
    assert forall|x: K| seq_has_key(t, x) implies #[trigger] t[seq_index_of(t, x)].1 == (
    if x == k {
        v
    } else {
        s[seq_index_of(s, x)].1
    }) by {
        if x == k {
            lemma_index_of_unique(t, s.len() as int);
        } else {
            let i = seq_index_of(s, x);
            assert(t[i] == s[i]);
            lemma_index_of_unique(t, i);
        }
    }
    assert(seq_to_map(t) =~= seq_to_map(s).insert(k, v));
}

/// Replacing the value of an entry updates that key in the map.
pub proof fn lemma_update_view<K, V>(s: Seq<(K, V)>, i: int, v: V)
    requires
        keys_distinct(s),
        0 <= i < s.len(),
    ensures
        keys_distinct(s.update(i, (s[i].0, v))),
        seq_to_map(s.update(i, (s[i].0, v))) == seq_to_map(s).insert(s[i].0, v),
{
    let k = s[i].0;
    let t = s.update(i, (k, v));
    assert forall|a: int, b: int|
        #![trigger t[a], t[b]]
        0 <= a < t.len() && 0 <= b < t.len() && a != b implies t[a].0 != t[b].0 by {
        assert(t[a].0 == s[a].0 && t[b].0 == s[b].0);
    }
    assert forall|x: K| #[trigger] seq_has_key(t, x) == seq_has_key(s, x) by {
        if seq_has_key(s, x) {
            let j = seq_index_of(s, x);
            assert(t[j].0 == s[j].0);
        }
        if seq_has_key(t, x) {
            let j = seq_index_of(t, x);
            assert(t[j].0 == s[j].0);
        }
    }
    lemma_index_of_unique(s, i);
    assert forall|x: K| seq_has_key(t, x) implies #[trigger] t[seq_index_of(t, x)].1 == (
    if x == k {
        v
    } else {
        s[seq_index_of(s, x)].1
    }) by {
        if x == k {
            lemma_index_of_unique(t, i);
        } else {
            let j = seq_index_of(s, x);
            assert(t[j] == s[j]);
            lemma_index_of_unique(t, j);
        }
    }
    assert(seq_to_map(t) =~= seq_to_map(s).insert(k, v));
}

/// Entries kept in insertion order, each key at most once.
pub struct Table<K, V> {
    entries: Vec<(K, V)>,
}

impl<K, V> Table<K, V> {
    /// The entries, in insertion order.
    pub closed spec fn entries(&self) -> Seq<(K, V)> {
        self.entries@
    }

    /// Well formed: no key occurs twice.
    pub open spec fn wf(&self) -> bool {
        keys_distinct(self.entries())
    }

    /// The table as a map from keys to values.
    pub open spec fn view(&self) -> Map<K, V> {
        seq_to_map(self.entries())
    }

    pub fn new() -> (t: Table<K, V>)
        ensures
            t.wf(),
            t.entries() == Seq::<(K, V)>::empty(),
            t@ == Map::<K, V>::empty(),
    {
        let t = Table { entries: Vec::new() };
        assert(t@ =~= Map::<K, V>::empty());
        t
    }

    pub fn len(&self) -> (n: usize)
        ensures
            n == self.entries().len(),
    {
        self.entries.len()
    }

    pub fn is_empty(&self) -> (b: bool)
        ensures
            b == (self.entries().len() == 0),
    {
        self.entries.len() == 0
    }

    /// The entry at position `i` in insertion order.
    pub fn entry_at(&self, i: usize) -> (e: &(K, V))
        requires
            i < self.entries().len(),
        ensures
            *e == self.entries()[i as int],
    {
        &self.entries[i]
    }

    /// Removes every entry.
    pub fn clear(&mut self)
        ensures
            final(self).wf(),
            final(self).entries() == Seq::<(K, V)>::empty(),
            final(self)@ == Map::<K, V>::empty(),
    {
        self.entries = Vec::new();
        assert(self@ =~= Map::<K, V>::empty());
    }
}

impl<K: TableKey, V> Table<K, V> {
    /// Appends an entry whose key is known to be absent.
    pub fn push_new(&mut self, k: K, v: V)
        requires
            old(self).wf(),
            !old(self)@.contains_key(k),
        ensures
            final(self).wf(),
            final(self)@ == old(self)@.insert(k, v),
            final(self).entries() == old(self).entries().push((k, v)),
    {
        proof {
            lemma_push_view(self.entries@, k, v);
        }
        self.entries.push((k, v));
    }

    /// The position of key `k`, if present.
    pub fn find(&self, k: &K) -> (r: Option<usize>)
        requires
            self.wf(),
        ensures
            r is None <==> !self@.contains_key(*k),
            r matches Some(i) ==> i < self.entries().len() && self.entries()[i as int].0 == *k
                && seq_index_of(self.entries(), *k) == i,
    {
        let mut i: usize = 0;
        while i < self.entries.len()
            invariant
                self.wf(),
                i <= self.entries@.len(),
                forall|j: int| 0 <= j < i ==> (#[trigger] self.entries@[j]).0 != *k,
            decreases self.entries@.len() - i,
        {
            if self.entries[i].0.same_key(k) {
                proof {
                    lemma_index_of_unique(self.entries@, i as int);
                }
                return Some(i);
            }
            i = i + 1;
        }
        proof {
            if seq_has_key(self.entries@, *k) {
                let j = seq_index_of(self.entries@, *k);
                assert(self.entries@[j].0 == *k);
            }
        }
        None
    }

    pub fn contains_key(&self, k: &K) -> (b: bool)
        requires
            self.wf(),
        ensures
            b == self@.contains_key(*k),
    {
        self.find(k).is_some()
    }

    /// The value stored under `k`, if any.
    pub fn get(&self, k: &K) -> (r: Option<&V>)
        requires
            self.wf(),
        ensures
            r is None <==> !self@.contains_key(*k),
            r matches Some(v) ==> self@.contains_key(*k) && *v == self@[*k],
    {
        match self.find(k) {
            Some(i) => Some(&self.entries[i].1),
            None => None,
        }
    }

    /// Sets the value of `k`: an existing entry keeps its place, a new key goes last.
    pub fn insert(&mut self, k: K, v: V)
        requires
            old(self).wf(),
        ensures
            final(self).wf(),
            final(self)@ == old(self)@.insert(k, v),
            final(self).entries() == (if old(self)@.contains_key(k) {
                old(self).entries().update(seq_index_of(old(self).entries(), k), (k, v))
            } else {
                old(self).entries().push((k, v))
            }),
    {
        match self.find(&k) {
            Some(i) => {
                proof {
                    lemma_update_view(self.entries@, i as int, v);
                }
                self.entries.set(i, (k, v));
            },
            None => {
                proof {
                    lemma_push_view(self.entries@, k, v);
                }
                self.entries.push((k, v));
            },
        }
    }
}

impl<K: Copy, V: Copy> Table<K, V> {
    /// A copy holding the same entries.
    pub fn duplicate(&self) -> (r: Table<K, V>)
        ensures
            r.entries() == self.entries(),
            r@ == self@,
    {
        let mut entries: Vec<(K, V)> = Vec::new();
        let mut i: usize = 0;
        while i < self.entries.len()
            invariant
                i <= self.entries@.len(),
                entries@ =~= self.entries@.subrange(0, i as int),
            decreases self.entries@.len() - i,
        {
            entries.push(self.entries[i]);
            i = i + 1;
        }
        assert(self.entries@.subrange(0, self.entries@.len() as int) =~= self.entries@);
        Table { entries }
    }
}

/// Two entry sequences with the same keys in the same places and amounts of the same
/// value stand for the same map of values.
proof fn lemma_same_amounts<K>(a: Seq<(K, BigNat)>, b: Seq<(K, BigNat)>)
    requires
        keys_distinct(a),
        a.len() == b.len(),
        forall|j: int| 0 <= j < a.len() ==> (#[trigger] a[j]).0 == b[j].0 && a[j].1@ == b[j].1@,
    ensures
        keys_distinct(b),
        seq_to_map(b).map_values(|v: BigNat| v@) == seq_to_map(a).map_values(|v: BigNat| v@),
{
    assert forall|i: int, j: int| #![trigger b[i], b[j]] 0 <= i < b.len() && 0 <= j < b.len() && i != j implies b[i].0
        != b[j].0 by {
        assert(a[i].0 != a[j].0);
    }
    let ma = seq_to_map(a).map_values(|v: BigNat| v@);
    let mb = seq_to_map(b).map_values(|v: BigNat| v@);
    assert forall|k: K| ma.contains_key(k) <==> mb.contains_key(k) by {
        if seq_has_key(a, k) {
            let i = choose|i: int| #![trigger a[i]] 0 <= i < a.len() && a[i].0 == k;
            assert(b[i].0 == k);
        }
        if seq_has_key(b, k) {
            let i = choose|i: int| #![trigger b[i]] 0 <= i < b.len() && b[i].0 == k;
            assert(a[i].0 == k);
        }
    }
    assert forall|k: K| #[trigger] ma.contains_key(k) implies ma[k] == mb[k] by {
        let i = choose|i: int| #![trigger a[i]] 0 <= i < a.len() && a[i].0 == k;
        lemma_index_of_unique(a, i);
        assert(b[i].0 == k);
        lemma_index_of_unique(b, i);
    }
    assert(ma =~= mb);
}

impl<K: Copy> Table<K, BigNat> {
    /// A copy holding the same keys, in the same order, with amounts of the same value.
    pub fn duplicate_amounts(&self) -> (r: Table<K, BigNat>)
        requires
            self.wf(),
        ensures
            r.wf(),
            r@.map_values(|v: BigNat| v@) == self@.map_values(|v: BigNat| v@),
    {
        let mut entries: Vec<(K, BigNat)> = Vec::new();
        let mut i: usize = 0;
        while i < self.entries.len()
            invariant
                i <= self.entries@.len(),
                entries@.len() == i,
                forall|j: int| 0 <= j < i ==> (#[trigger] entries@[j]).0 == self.entries@[j].0 && entries@[j].1@ == self.entries@[j].1@,
            decreases self.entries@.len() - i,
        {
            let e = &self.entries[i];
            entries.push((e.0, e.1.dup()));
            i = i + 1;
        }
        let r = Table { entries };
        proof {
            assert forall|j: int| 0 <= j < self.entries@.len() implies (#[trigger] self.entries@[j]).0 == r.entries@[j].0
                && self.entries@[j].1@ == r.entries@[j].1@ by {
                assert(r.entries@[j] == entries@[j]);
            }
            lemma_same_amounts(self.entries@, r.entries@);
        }
        r
    }
}

} // verus!
