use vstd::prelude::*;

use crate::Address;

verus! {

/// A key type whose equality can be tested in executable code with a known
/// meaning.
pub trait Key: Sized {
    fn same(&self, other: &Self) -> (r: bool)
        ensures
            r == (*self == *other),
    ;
}

impl Key for Address {
    fn same(&self, other: &Address) -> (r: bool) {
        *self == *other
    }
}

impl Key for (Address, Address) {
    fn same(&self, other: &(Address, Address)) -> (r: bool) {
        self.0 == other.0 && self.1 == other.1
    }
}

/// A keyed store: each key appears once, and keys are kept in the order in
/// which each was first written. Entries are never removed.
#[verifier::reject_recursive_types(K)]
pub struct Book<K, V> {
    entries: Vec<(K, V)>,
    contents: Ghost<Map<K, V>>,
}

impl<K: Key + Copy, V: Copy> Book<K, V> {
    /// The keys written so far, in order of first write.
    pub closed spec fn keys(&self) -> Seq<K> {
        self.entries@.map_values(|e: (K, V)| e.0)
    }

    /// The current value of each key written so far.
    pub closed spec fn view(&self) -> Map<K, V> {
        self.contents@
    }

    pub closed spec fn wf(&self) -> bool {
        &&& forall|i: int, j: int|
            0 <= i < j < self.entries@.len() ==> self.entries@[i].0 != self.entries@[j].0
        &&& forall|i: int|
            0 <= i < self.entries@.len() ==> #[trigger] self.contents@.contains_key(
                self.entries@[i].0,
            ) && self.contents@[self.entries@[i].0] == self.entries@[i].1
        &&& forall|k: K| #[trigger]
            self.contents@.contains_key(k) ==> exists|i: int|
                0 <= i < self.entries@.len() && self.entries@[i].0 == k
    }

    /// The keys are distinct and are exactly the keys of the view.
    pub proof fn lemma_keys(&self)
        requires
            self.wf(),
        ensures
            self.keys().no_duplicates(),
            forall|k: K| self@.contains_key(k) <==> self.keys().contains(k),
    {
        assert forall|k: K| self@.contains_key(k) <==> self.keys().contains(k) by {
            if self@.contains_key(k) {
                let i = choose|i: int| 0 <= i < self.entries@.len() && self.entries@[i].0 == k;
                assert(self.keys()[i] == k);
            }
            if self.keys().contains(k) {
                let i = choose|i: int| 0 <= i < self.keys().len() && self.keys()[i] == k;
                assert(self.contents@.contains_key(self.entries@[i].0));
            }
        }
    }

    pub fn new() -> (b: Self)
        ensures
            b.wf(),
            b@ == Map::<K, V>::empty(),
            b.keys() == Seq::<K>::empty(),
    {
        let b = Book { entries: Vec::new(), contents: Ghost(Map::empty()) };
        assert(b.keys() =~= Seq::<K>::empty());
        b
    }

    /// The position of `key` among the entries, if it has been written.
    fn find(&self, key: K) -> (r: Option<usize>)
        requires
            self.wf(),
        ensures
            match r {
                Some(i) => i < self.entries@.len() && self.entries@[i as int].0 == key,
                None => !self@.contains_key(key),
            },
    {
        let mut i: usize = 0;
        while i < self.entries.len()
            invariant
                self.wf(),
                i <= self.entries@.len(),
                forall|j: int| 0 <= j < i ==> self.entries@[j].0 != key,
            decreases self.entries@.len() - i,
        {
            if self.entries[i].0.same(&key) {
                return Some(i);
            }
            i = i + 1;
        }
        None
    }

    pub fn get(&self, key: K) -> (r: Option<V>)
        requires
            self.wf(),
        ensures
            r == (if self@.contains_key(key) {
                Some(self@[key])
            } else {
                None::<V>
            }),
    {
        match self.find(key) {
            Some(i) => Some(self.entries[i].1),
            None => None,
        }
    }

    /// Writes `value` under `key`, adding the key at the end if it is new.
    pub fn set(&mut self, key: K, value: V)
        requires
            old(self).wf(),
        ensures
            final(self).wf(),
            final(self)@ == old(self)@.insert(key, value),
            final(self).keys() == (if old(self)@.contains_key(key) {
                old(self).keys()
            } else {
                old(self).keys().push(key)
            }),
    {
        match self.find(key) {
            Some(i) => {
                self.entries.set(i, (key, value));
                self.contents = Ghost(self.contents@.insert(key, value));
                assert(self.keys() =~= old(self).keys());
                assert forall|k: K| #[trigger] self.contents@.contains_key(k) implies exists|j: int|
                    0 <= j < self.entries@.len() && self.entries@[j].0 == k by {
                    if k == key {
                        assert(self.entries@[i as int].0 == key);
                    } else {
                        let j = choose|j: int|
                            0 <= j < old(self).entries@.len() && old(self).entries@[j].0 == k;
                        assert(self.entries@[j].0 == k);
                    }
                }
            },
            None => {
                self.entries.push((key, value));
                self.contents = Ghost(self.contents@.insert(key, value));
                assert(self.keys() =~= old(self).keys().push(key));
                assert(self.entries@[old(self).entries@.len() as int].0 == key);
                assert forall|k: K| #[trigger] self.contents@.contains_key(k) implies exists|j: int|
                    0 <= j < self.entries@.len() && self.entries@[j].0 == k by {
                    if k != key {
                        let j = choose|j: int|
                            0 <= j < old(self).entries@.len() && old(self).entries@[j].0 == k;
                        assert(self.entries@[j].0 == k);
                    }
                }
            },
        }
    }

    /// The keys written so far, in order of first write.
    pub fn key_list(&self) -> (r: Vec<K>)
        requires
            self.wf(),
        ensures
            r@ == self.keys(),
    {
        let mut r: Vec<K> = Vec::new();
        let mut i: usize = 0;
        while i < self.entries.len()
            invariant
                i <= self.entries@.len(),
                r@ == self.keys().take(i as int),
            decreases self.entries@.len() - i,
        {
            r.push(self.entries[i].0);
            i = i + 1;
            assert(r@ =~= self.keys().take(i as int));
        }
        assert(self.keys().take(i as int) =~= self.keys());
        r
    }

    /// Each key with its value, in order of first write.
    pub fn entry_list(&self) -> (r: Vec<(K, V)>)
        requires
            self.wf(),
        ensures
            r@ == self.keys().map_values(|k: K| (k, self@[k])),
    {
        let mut r: Vec<(K, V)> = Vec::new();
        let mut i: usize = 0;
        while i < self.entries.len()
            invariant
                self.wf(),
                i <= self.entries@.len(),
                r@ == self.keys().map_values(|k: K| (k, self@[k])).take(i as int),
            decreases self.entries@.len() - i,
        {
            let e = self.entries[i];
            assert(self.contents@.contains_key(self.entries@[i as int].0));
            r.push(e);
            i = i + 1;
            assert(r@ =~= self.keys().map_values(|k: K| (k, self@[k])).take(i as int));
        }
        assert(self.keys().map_values(|k: K| (k, self@[k])).take(i as int) =~= self.keys().map_values(
            |k: K| (k, self@[k]),
        ));
        r
    }
}

/// The sum of the values that `m` gives the keys in `keys`, a missing key
/// counting as zero.
pub open spec fn sum_over<K>(keys: Seq<K>, m: Map<K, i128>) -> int
    decreases keys.len(),
{
    if keys.len() == 0 {
        0
    } else {
        sum_over(keys.drop_last(), m) + value_at(m, keys.last())
    }
}

/// The value of `k` in `m`, zero where `m` has none.
pub open spec fn value_at<K>(m: Map<K, i128>, k: K) -> int {
    if m.contains_key(k) {
        m[k] as int
    } else {
        0
    }
}

/// Writing `v` under `k` changes the sum over a set of distinct keys by the
/// difference, where `k` is one of them, and not at all where it is not.
pub proof fn lemma_sum_insert<K>(keys: Seq<K>, m: Map<K, i128>, k: K, v: i128)
    requires
        keys.no_duplicates(),
    ensures
        sum_over(keys, m.insert(k, v)) == sum_over(keys, m) + (if keys.contains(k) {
            v - value_at(m, k)
        } else {
            0
        }),
    decreases keys.len(),
{
    if keys.len() > 0 {
        let rest = keys.drop_last();
        assert(rest.no_duplicates());
        lemma_sum_insert(rest, m, k, v);
        if keys.last() == k {
            assert(!rest.contains(k));
        } else {
            assert(keys.contains(k) == rest.contains(k)) by {
                if keys.contains(k) {
                    let i = choose|i: int| 0 <= i < keys.len() && keys[i] == k;
                    assert(rest[i] == k);
                }
            }
        }
    }
}

/// Adding a new key at the end adds its value to the sum.
pub proof fn lemma_sum_push<K>(keys: Seq<K>, m: Map<K, i128>, k: K)
    ensures
        sum_over(keys.push(k), m) == sum_over(keys, m) + value_at(m, k),
{
    assert(keys.push(k).drop_last() =~= keys);
}

/// Over non-negative values, each key's value is at most the sum.
pub proof fn lemma_sum_bounds<K>(keys: Seq<K>, m: Map<K, i128>, k: K)
    requires
        keys.no_duplicates(),
        forall|x: K| keys.contains(x) ==> value_at(m, x) >= 0,
    ensures
        sum_over(keys, m) >= 0,
        keys.contains(k) ==> value_at(m, k) <= sum_over(keys, m),
    decreases keys.len(),
{
    if keys.len() > 0 {
        let rest = keys.drop_last();
        assert(rest.no_duplicates());
        assert forall|x: K| rest.contains(x) implies value_at(m, x) >= 0 by {
            let i = choose|i: int| 0 <= i < rest.len() && rest[i] == x;
            assert(keys[i] == x);
            assert(keys.contains(x));
        }
        assert(keys.contains(keys.last())) by {
            assert(keys[keys.len() - 1] == keys.last());
        }
        lemma_sum_bounds(rest, m, k);
        if keys.contains(k) && keys.last() != k {
            let i = choose|i: int| 0 <= i < keys.len() && keys[i] == k;
            assert(i != keys.len() - 1);
            assert(rest[i] == k);
        }
    }
}

} // verus!
