//! Small sets and maps that remember the order of insertion.

use vstd::prelude::*;

use crate::actor::{LayoutId, WindowId};

verus! {

/// Plain values that can be told apart.
pub trait Distinct: Copy {
    fn same(self, other: Self) -> (r: bool)
        ensures
            r == (self == other),
    ;
}

impl Distinct for WindowId {
    fn same(self, other: Self) -> (r: bool) {
        self == other
    }
}

impl Distinct for LayoutId {
    fn same(self, other: Self) -> (r: bool) {
        self == other
    }
}

/// The place of a key in a list of keys, from `from` on; the length without one.
pub open spec fn slot_of<K>(keys: Seq<K>, key: K, from: int) -> int
    decreases keys.len() - from,
{
    if 0 <= from < keys.len() {
        if keys[from] == key {
            from
        } else {
            slot_of(keys, key, from + 1)
        }
    } else {
        keys.len() as int
    }
}

/// Where a key is found.
pub proof fn lemma_slot<K>(keys: Seq<K>, key: K, from: int)
    requires
        0 <= from <= keys.len(),
    ensures
        from <= slot_of(keys, key, from) <= keys.len(),
        slot_of(keys, key, from) < keys.len() ==> keys[slot_of(keys, key, from)] == key,
        forall|j: int| from <= j < slot_of(keys, key, from) ==> keys[j] != key,
    decreases keys.len() - from,
{
    if from < keys.len() && keys[from] != key {
        lemma_slot(keys, key, from + 1);
    }
}

/// What one more element adds to a list.
pub proof fn lemma_take_more<K>(list: Seq<K>, i: int)
    requires
        0 <= i < list.len(),
    ensures
        forall|x: K| #[trigger]
            list.take(i + 1).contains(x) <==> list.take(i).contains(x) || x == list[i],
{
    assert forall|x: K| #[trigger]
        list.take(i + 1).contains(x) <==> list.take(i).contains(x) || x == list[i] by {
        if list.take(i + 1).contains(x) {
            let more = list.take(i + 1);
            let j = choose|j: int| 0 <= j < more.len() && more[j] == x;
            if j < i {
                assert(list.take(i)[j] == x);
            }
        }
        if list.take(i).contains(x) {
            let j = choose|j: int| 0 <= j < i && list.take(i)[j] == x;
            assert(list.take(i + 1)[j] == x);
        }
        assert(list.take(i + 1)[i] == list[i]);
    }
}

/// The map that gives each key the value at its place.
pub open spec fn table<K, V>(keys: Seq<K>, values: Seq<V>) -> Map<K, V> {
    Map::new(|k: K| keys.contains(k), |k: K| values[slot_of(keys, k, 0)])
}

/// A new value at the place of a key.
pub proof fn lemma_table_update<K, V>(keys: Seq<K>, values: Seq<V>, i: int)
    requires
        keys.no_duplicates(),
        keys.len() == values.len(),
        0 <= i < keys.len(),
    ensures
        forall|v: V| #[trigger]
            table(keys, values.update(i, v)) == table(keys, values).insert(keys[i], v),
{
    lemma_slot(keys, keys[i], 0);
    assert forall|v: V| #[trigger]
        table(keys, values.update(i, v)) == table(keys, values).insert(keys[i], v) by {
        let a = table(keys, values.update(i, v));
        let b = table(keys, values).insert(keys[i], v);
        assert forall|k: K| #[trigger] a.contains_key(k) implies a[k] == b[k] by {
            lemma_slot(keys, k, 0);
        }
        assert(a =~= b);
    }
}

/// A set.
pub struct VecSet<K> {
    items: Vec<K>,
}

impl<K> View for VecSet<K> {
    type V = Set<K>;

    closed spec fn view(&self) -> Set<K> {
        self.items@.to_set()
    }
}

impl<K: Distinct> VecSet<K> {
    /// Nothing occurs twice.
    pub closed spec fn wf(&self) -> bool {
        self.items@.no_duplicates()
    }

    pub fn new() -> (r: VecSet<K>)
        ensures
            r.wf(),
            r@ == Set::<K>::empty(),
    {
        let r = VecSet { items: Vec::new() };
        assert(r@ =~= Set::empty());
        r
    }

    fn position(&self, key: K) -> (r: Option<usize>)
        ensures
            r matches Some(i) ==> i < self.items@.len() && self.items@[i as int] == key,
            r is None ==> !self.items@.contains(key),
    {
        let mut i: usize = 0;
        while i < self.items.len()
            invariant
                i <= self.items.len(),
                forall|j: int| 0 <= j < i ==> self.items@[j] != key,
            decreases self.items.len() - i,
        {
            if self.items[i].same(key) {
                return Some(i);
            }
            i += 1;
        }
        None
    }

    pub fn contains(&self, key: K) -> (r: bool)
        ensures
            r == self@.contains(key),
    {
        self.position(key).is_some()
    }

    pub fn is_empty(&self) -> (r: bool)
        ensures
            r == (self@ == Set::<K>::empty()),
    {
        let r = self.items.len() == 0;
        proof {
            if r {
                assert(self@ =~= Set::empty());
            } else {
                assert(self@.contains(self.items@[0]));
            }
        }
        r
    }

    /// Adds a member.
    pub fn insert(&mut self, key: K)
        requires
            old(self).wf(),
        ensures
            final(self).wf(),
            final(self)@ == old(self)@.insert(key),
    {
        if self.position(key).is_none() {
            let ghost before = self.items@;
            self.items.push(key);
            proof {
                assert forall|w: K| self.items@.contains(w) == (before.contains(w) || w == key) by {
                    if before.contains(w) {
                        let i = choose|i: int| 0 <= i < before.len() && before[i] == w;
                        assert(self.items@[i] == w);
                    }
                    assert(self.items@[before.len() as int] == key);
                }
            }
        }
        assert(self@ =~= old(self)@.insert(key));
    }

    /// Removes a member. Says whether it was there.
    pub fn remove(&mut self, key: K) -> (r: bool)
        requires
            old(self).wf(),
        ensures
            final(self).wf(),
            r == old(self)@.contains(key),
            final(self)@ == old(self)@.remove(key),
    {
        match self.position(key) {
            Some(i) => {
                let ghost before = self.items@;
                self.items.remove(i);
                proof {
                    let after = self.items@;
                    assert forall|w: K| after.contains(w) == (before.contains(w) && w != key) by {
                        if before.contains(w) && w != key {
                            let j = choose|j: int| 0 <= j < before.len() && before[j] == w;
                            assert(after[if j < i { j } else { j - 1 }] == w);
                        }
                        if after.contains(w) {
                            let j = choose|j: int| 0 <= j < after.len() && after[j] == w;
                            assert(before[if j < i { j } else { j + 1 }] == w);
                        }
                    }
                }
                assert(self@ =~= old(self)@.remove(key));
                true
            },
            None => {
                assert(self@ =~= old(self)@.remove(key));
                false
            },
        }
    }

    /// A copy of the set.
    pub fn copy(&self) -> (r: VecSet<K>)
        requires
            self.wf(),
        ensures
            r.wf(),
            r@ == self@,
    {
        VecSet { items: self.to_vec() }
    }

    /// The members, in the order in which they were added.
    pub fn to_vec(&self) -> (r: Vec<K>)
        requires
            self.wf(),
        ensures
            r@.no_duplicates(),
            r@.to_set() == self@,
    {
        let mut items: Vec<K> = Vec::new();
        let mut i: usize = 0;
        while i < self.items.len()
            invariant
                i <= self.items.len(),
                items@ =~= self.items@.take(i as int),
            decreases self.items.len() - i,
        {
            items.push(self.items[i]);
            i += 1;
        }
        assert(items@ =~= self.items@);
        items
    }
}

/// A map.
pub struct VecMap<K, V> {
    keys: Vec<K>,
    values: Vec<V>,
}

impl<K, V> View for VecMap<K, V> {
    type V = Map<K, V>;

    closed spec fn view(&self) -> Map<K, V> {
        table(self.keys@, self.values@)
    }
}

impl<K: Distinct, V> VecMap<K, V> {
    /// No key occurs twice, and each has a value.
    pub closed spec fn wf(&self) -> bool {
        self.keys@.no_duplicates() && self.keys@.len() == self.values@.len()
    }

    pub fn new() -> (r: VecMap<K, V>)
        ensures
            r.wf(),
            r@ == Map::<K, V>::empty(),
    {
        let r = VecMap { keys: Vec::new(), values: Vec::new() };
        assert(r@ =~= Map::empty());
        r
    }

    fn position(&self, key: K) -> (r: usize)
        ensures
            r == slot_of(self.keys@, key, 0),
            r <= self.keys@.len(),
            r < self.keys@.len() <==> self@.contains_key(key),
            r < self.keys@.len() ==> self.keys@[r as int] == key,
    {
        let mut i: usize = 0;
        while i < self.keys.len()
            invariant
                i <= self.keys.len(),
                forall|j: int| 0 <= j < i ==> self.keys@[j] != key,
                slot_of(self.keys@, key, 0) == slot_of(self.keys@, key, i as int),
            decreases self.keys.len() - i,
        {
            if self.keys[i].same(key) {
                return i;
            }
            i += 1;
        }
        i
    }

    /// What the slots of a list without duplicates are.
    proof fn lemma_slots(&self)
        requires
            self.wf(),
        ensures
            forall|i: int|
                0 <= i < self.keys@.len() ==> self@.contains_key(#[trigger] self.keys@[i])
                    && self@[self.keys@[i]] == self.values@[i],
    {
        assert forall|i: int| 0 <= i < self.keys@.len() implies self@.contains_key(
            #[trigger] self.keys@[i],
        ) && self@[self.keys@[i]] == self.values@[i] by {
            lemma_slot(self.keys@, self.keys@[i], 0);
        }
    }

    pub fn contains_key(&self, key: K) -> (r: bool)
        ensures
            r == self@.contains_key(key),
    {
        self.position(key) < self.keys.len()
    }

    pub fn get(&self, key: K) -> (r: Option<&V>)
        requires
            self.wf(),
        ensures
            r is Some <==> self@.contains_key(key),
            r is Some ==> *(r->0) == self@[key],
    {
        let i = self.position(key);
        if i < self.keys.len() {
            Some(&self.values[i])
        } else {
            None
        }
    }

    /// Puts a value under a key. Returns the value that was there.
    pub fn insert(&mut self, key: K, value: V) -> (r: Option<V>)
        requires
            old(self).wf(),
        ensures
            final(self).wf(),
            r == (if old(self)@.contains_key(key) {
                Some(old(self)@[key])
            } else {
                None
            }),
            final(self)@ == old(self)@.insert(key, value),
    {
        let i = self.position(key);
        proof {
            self.lemma_slots();
        }
        if i < self.keys.len() {
            let mut value = value;
            self.values.set_and_swap(i, &mut value);
            proof {
                lemma_table_update(old(self).keys@, old(self).values@, i as int);
            }
            Some(value)
        } else {
            self.keys.push(key);
            self.values.push(value);
            proof {
                let n = old(self).keys@.len() as int;
                assert(self.keys@[n] == key);
                self.lemma_slots();
                assert forall|k: K| self@.contains_key(k) == old(self)@.insert(
                    key,
                    value,
                ).contains_key(k) by {
                    if old(self)@.contains_key(k) {
                        let j = choose|j: int| 0 <= j < n && old(self).keys@[j] == k;
                        assert(self.keys@[j] == k);
                    }
                }
                assert forall|k: K| #[trigger] self@.contains_key(k) implies self@[k] == old(
                    self,
                )@.insert(key, value)[k] by {
                    let j = choose|j: int| 0 <= j < self.keys@.len() && self.keys@[j] == k;
                    assert(self.keys@[j] == k);
                    if j < n {
                        assert(old(self).keys@[j] == k);
                    }
                }
                assert(self@ =~= old(self)@.insert(key, value));
            }
            None
        }
    }

    /// Takes the value of a key out of the map.
    pub fn remove(&mut self, key: K) -> (r: Option<V>)
        requires
            old(self).wf(),
        ensures
            final(self).wf(),
            r == (if old(self)@.contains_key(key) {
                Some(old(self)@[key])
            } else {
                None
            }),
            final(self)@ == old(self)@.remove(key),
    {
        let i = self.position(key);
        proof {
            self.lemma_slots();
        }
        if i < self.keys.len() {
            self.keys.remove(i);
            let value = self.values.remove(i);
            proof {
                let before = old(self).keys@;
                let after = self.keys@;
                assert forall|a: int, b: int|
                    0 <= a < after.len() && 0 <= b < after.len() && a != b implies after[a]
                    != after[b] by {
                    assert(after[a] == before[if a < i { a } else { a + 1 }]);
                    assert(after[b] == before[if b < i { b } else { b + 1 }]);
                }
                self.lemma_slots();
                assert forall|k: K| self@.contains_key(k) == old(self)@.remove(key).contains_key(
                    k,
                ) by {
                    if old(self)@.contains_key(k) && k != key {
                        let j = choose|j: int| 0 <= j < before.len() && before[j] == k;
                        assert(after[if j < i { j } else { j - 1 }] == k);
                    }
                    if self@.contains_key(k) {
                        let j = choose|j: int| 0 <= j < after.len() && after[j] == k;
                        assert(before[if j < i { j } else { j + 1 }] == k);
                    }
                }
                assert forall|k: K| #[trigger] self@.contains_key(k) implies self@[k] == old(
                    self,
                )@[k] by {
                    let j = choose|j: int| 0 <= j < after.len() && after[j] == k;
                    assert(after[j] == k);
                    assert(before[if j < i { j } else { j + 1 }] == k);
                }
                assert(self@ =~= old(self)@.remove(key));
            }
            Some(value)
        } else {
            assert(self@ =~= old(self)@.remove(key));
            None
        }
    }

    /// The value of a key, to be changed in place.
    pub fn get_mut(&mut self, key: K) -> (r: Option<&mut V>)
        requires
            old(self).wf(),
        ensures
            r is Some <==> old(self)@.contains_key(key),
            r is None ==> final(self).wf() && final(self)@ == old(self)@,
            r is Some ==> *(r->0) == old(self)@[key],
            r is Some ==> final(self).wf() && final(self)@ == old(self)@.insert(
                key,
                *final(r->0),
            ),
    {
        let i = self.position(key);
        if i < self.keys.len() {
            proof {
                lemma_table_update(self.keys@, self.values@, i as int);
            }
            Some(&mut self.values[i])
        } else {
            None
        }
    }

    /// The keys, in the order in which they were added.
    pub fn keys(&self) -> (r: Vec<K>)
        requires
            self.wf(),
        ensures
            r@.no_duplicates(),
            forall|k: K| r@.contains(k) <==> self@.contains_key(k),
    {
        let mut keys: Vec<K> = Vec::new();
        let mut i: usize = 0;
        while i < self.keys.len()
            invariant
                i <= self.keys.len(),
                keys@ =~= self.keys@.take(i as int),
            decreases self.keys.len() - i,
        {
            keys.push(self.keys[i]);
            i += 1;
        }
        assert(keys@ =~= self.keys@);
        keys
    }

    pub fn len(&self) -> (r: usize)
        requires
            self.wf(),
        ensures
            r == self@.dom().len(),
    {
        proof {
            assert(self@.dom() =~= self.keys@.to_set());
            self.keys@.unique_seq_to_set();
        }
        self.keys.len()
    }
}

} // verus!
