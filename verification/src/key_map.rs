//! A map from string keys to values, held as two vectors in key order.
//!
//! The map is what the rest of the store reads and writes. Its keys stand in
//! strictly increasing order, so a key occurs once and a walk over the map
//! meets the keys in order.

use vstd::prelude::*;
use crate::key_order::{
    key_less, lemma_key_less_asymmetric, lemma_key_less_total, lemma_key_less_transitive, str_less,
};

verus! {

/// Each key comes strictly before every later one.
pub open spec fn strictly_sorted(keys: Seq<Seq<char>>) -> bool {
    forall|i: int, j: int|
        0 <= i < j < keys.len() ==> key_less(#[trigger] keys[i], #[trigger] keys[j])
}

/// The map that pairs each key with the value at the same position.
pub open spec fn assoc<T>(keys: Seq<Seq<char>>, values: Seq<T>) -> Map<Seq<char>, T> {
    Map::new(|k: Seq<char>| keys.contains(k), |k: Seq<char>| values[keys.index_of(k)])
}

/// In a sorted sequence a key stands at one position only.
pub proof fn lemma_sorted_distinct(keys: Seq<Seq<char>>, i: int, j: int)
    requires
        strictly_sorted(keys),
        0 <= i < keys.len(),
        0 <= j < keys.len(),
        keys[i] == keys[j],
    ensures
        i == j,
{
    if i < j {
        lemma_key_less_asymmetric(keys[i], keys[j]);
    } else if j < i {
        lemma_key_less_asymmetric(keys[j], keys[i]);
    }
}

/// The key at a position maps to the value at that position.
pub proof fn lemma_assoc_at<T>(keys: Seq<Seq<char>>, values: Seq<T>, i: int)
    requires
        strictly_sorted(keys),
        0 <= i < keys.len(),
    ensures
        assoc(keys, values).contains_key(keys[i]),
        assoc(keys, values)[keys[i]] == values[i],
{
    let k = keys[i];
    assert(keys.contains(k));
    lemma_sorted_distinct(keys, i, keys.index_of(k));
}

/// Replacing the value at a position is an insert under that position's key.
pub proof fn lemma_assoc_update<T>(keys: Seq<Seq<char>>, values: Seq<T>, i: int, v: T)
    requires
        strictly_sorted(keys),
        keys.len() == values.len(),
        0 <= i < keys.len(),
    ensures
        assoc(keys, values.update(i, v)) == assoc(keys, values).insert(keys[i], v),
{
    let a = assoc(keys, values.update(i, v));
    let b = assoc(keys, values).insert(keys[i], v);
    assert(keys.contains(keys[i]));
    assert forall|k: Seq<char>| a.contains_key(k) implies #[trigger] a[k] == b[k] by {
        let j = keys.index_of(k);
        if k == keys[i] {
            lemma_sorted_distinct(keys, i, j);
        }
    }
    assert(a =~= b);
}

/// Putting a new key at its place in the order is an insert.
pub proof fn lemma_assoc_insert<T>(
    keys: Seq<Seq<char>>,
    values: Seq<T>,
    p: int,
    k: Seq<char>,
    v: T,
)
    requires
        strictly_sorted(keys),
        keys.len() == values.len(),
        0 <= p <= keys.len(),
        forall|j: int| 0 <= j < p ==> key_less(#[trigger] keys[j], k),
        forall|j: int| p <= j < keys.len() ==> key_less(k, #[trigger] keys[j]),
    ensures
        strictly_sorted(keys.insert(p, k)),
        assoc(keys.insert(p, k), values.insert(p, v)) == assoc(keys, values).insert(k, v),
{
    let keys2 = keys.insert(p, k);
    let values2 = values.insert(p, v);
    assert forall|i: int, j: int| 0 <= i < j < keys2.len() implies key_less(
        #[trigger] keys2[i],
        #[trigger] keys2[j],
    ) by {
        let oi = if i < p { i } else { i - 1 };
        let oj = if j < p { j } else { j - 1 };
        if i != p && j != p {
            assert(keys2[i] == keys[oi]);
            assert(keys2[j] == keys[oj]);
        } else if i == p {
            assert(keys2[j] == keys[oj]);
        } else {
            assert(keys2[i] == keys[oi]);
        }
    }
    let a = assoc(keys2, values2);
    let b = assoc(keys, values).insert(k, v);
    assert forall|x: Seq<char>| a.contains_key(x) <==> b.contains_key(x) by {
        if keys2.contains(x) {
            let i = keys2.index_of(x);
            if i < p {
                assert(keys[i] == x);
            } else if i > p {
                assert(keys[i - 1] == x);
            }
        }
        if keys.contains(x) {
            let i = keys.index_of(x);
            if i < p {
                assert(keys2[i] == x);
            } else {
                assert(keys2[i + 1] == x);
            }
        }
        if x == k {
            assert(keys2[p] == x);
        }
    }
    assert forall|x: Seq<char>| a.contains_key(x) implies #[trigger] a[x] == b[x] by {
        let i = keys2.index_of(x);
        lemma_assoc_at(keys2, values2, i);
        if i < p {
            lemma_assoc_at(keys, values, i);
            lemma_key_less_asymmetric(keys[i], k);
        } else if i > p {
            lemma_assoc_at(keys, values, i - 1);
            lemma_key_less_asymmetric(k, keys[i - 1]);
        }
    }
    assert(a =~= b);
}

/// Taking out the pair at a position removes that position's key.
pub proof fn lemma_assoc_remove<T>(keys: Seq<Seq<char>>, values: Seq<T>, p: int)
    requires
        strictly_sorted(keys),
        keys.len() == values.len(),
        0 <= p < keys.len(),
    ensures
        strictly_sorted(keys.remove(p)),
        assoc(keys.remove(p), values.remove(p)) == assoc(keys, values).remove(keys[p]),
{
    let keys2 = keys.remove(p);
    let values2 = values.remove(p);
    assert forall|i: int, j: int| 0 <= i < j < keys2.len() implies key_less(
        #[trigger] keys2[i],
        #[trigger] keys2[j],
    ) by {
        let oi = if i < p { i } else { i + 1 };
        let oj = if j < p { j } else { j + 1 };
        assert(keys2[i] == keys[oi]);
        assert(keys2[j] == keys[oj]);
    }
    let a = assoc(keys2, values2);
    let b = assoc(keys, values).remove(keys[p]);
    assert forall|x: Seq<char>| a.contains_key(x) <==> b.contains_key(x) by {
        if keys2.contains(x) {
            let i = keys2.index_of(x);
            let oi = if i < p { i } else { i + 1 };
            assert(keys[oi] == x);
            lemma_sorted_distinct(keys, oi, if x == keys[p] { p } else { oi });
        }
        if keys.contains(x) && x != keys[p] {
            let i = keys.index_of(x);
            if i < p {
                assert(keys2[i] == x);
            } else {
                assert(keys2[i - 1] == x);
            }
        }
    }
    assert forall|x: Seq<char>| a.contains_key(x) implies #[trigger] a[x] == b[x] by {
        let i = keys2.index_of(x);
        let oi = if i < p { i } else { i + 1 };
        lemma_assoc_at(keys2, values2, i);
        lemma_assoc_at(keys, values, oi);
    }
    assert(a =~= b);
}

/// A map from string keys to values of type `T`, kept in key order.
pub struct KeyMap<T> {
    names: Vec<String>,
    items: Vec<T>,
}

impl<T> View for KeyMap<T> {
    type V = Map<Seq<char>, T>;

    /// The map from each key to its value.
    open spec fn view(&self) -> Map<Seq<char>, T> {
        assoc(self.keys(), self.values())
    }
}

impl<T> KeyMap<T> {
    /// The keys, in the order in which they are kept.
    pub closed spec fn keys(&self) -> Seq<Seq<char>> {
        Seq::new(self.names@.len(), |i: int| self.names@[i]@)
    }

    /// The values, each at the position of its key.
    pub closed spec fn values(&self) -> Seq<T> {
        self.items@
    }

    /// There is one value for each key, and the keys are in strictly increasing
    /// order.
    pub open spec fn wf(&self) -> bool {
        &&& self.keys().len() == self.values().len()
        &&& strictly_sorted(self.keys())
    }

    /// What holds of the pair at each position of a well-formed map.
    pub proof fn lemma_at(&self, i: int)
        requires
            self.wf(),
            0 <= i < self.keys().len(),
        ensures
            self@.contains_key(self.keys()[i]),
            self@[self.keys()[i]] == self.values()[i],
    {
        lemma_assoc_at(self.keys(), self.values(), i);
    }

    /// Every key of the map stands at some position.
    pub proof fn lemma_position(&self, k: Seq<char>) -> (i: int)
        requires
            self.wf(),
            self@.contains_key(k),
        ensures
            0 <= i < self.keys().len(),
            self.keys()[i] == k,
            self.values()[i] == self@[k],
    {
        let i = self.keys().index_of(k);
        lemma_assoc_at(self.keys(), self.values(), i);
        i
    }

    /// An empty map.
    pub fn new() -> (m: Self)
        ensures
            m.wf(),
            m.keys().len() == 0,
            m@ == Map::<Seq<char>, T>::empty(),
    {
        let m = KeyMap { names: Vec::new(), items: Vec::new() };
        assert(m@ =~= Map::<Seq<char>, T>::empty());
        m
    }

    /// The number of keys.
    pub fn len(&self) -> (n: usize)
        requires
            self.wf(),
        ensures
            n == self.keys().len(),
    {
        self.names.len()
    }

    /// The key at position `i`.
    pub fn key_at(&self, i: usize) -> (k: &String)
        requires
            self.wf(),
            i < self.keys().len(),
        ensures
            k@ == self.keys()[i as int],
    {
        &self.names[i]
    }

    /// The value at position `i`.
    pub fn value_at(&self, i: usize) -> (v: &T)
        requires
            self.wf(),
            i < self.keys().len(),
        ensures
            *v == self.values()[i as int],
    {
        &self.items[i]
    }

    /// The value at position `i`, to be changed in place. The keys stay as they
    /// are.
    pub fn value_at_mut(&mut self, i: usize) -> (v: &mut T)
        requires
            old(self).wf(),
            i < old(self).keys().len(),
        ensures
            *v == old(self).values()[i as int],
            final(self).keys() == old(self).keys(),
            final(self).values() == old(self).values().update(i as int, *final(v)),
    {
        &mut self.items[i]
    }

    /// Where `key` stands, or where it would stand: the position of the first
    /// key that is not less than `key`, and whether that key is `key` itself.
    pub fn find(&self, key: &str) -> (r: (usize, bool))
        requires
            self.wf(),
        ensures
            r.0 <= self.keys().len(),
            r.1 == self@.contains_key(key@),
            r.1 ==> r.0 < self.keys().len() && self.keys()[r.0 as int] == key@,
            forall|j: int| 0 <= j < r.0 ==> key_less(#[trigger] self.keys()[j], key@),
            forall|j: int|
                r.0 <= j < self.keys().len() && !(r.1 && j == r.0) ==> key_less(
                    key@,
                    #[trigger] self.keys()[j],
                ),
    {
        let ghost ks = self.keys();
        let mut lo: usize = 0;
        let mut hi: usize = self.names.len();
        while lo < hi
            invariant
                lo <= hi <= ks.len(),
                ks == self.keys(),
                ks.len() == self.names@.len(),
                strictly_sorted(ks),
                forall|j: int| 0 <= j < lo ==> key_less(#[trigger] ks[j], key@),
                forall|j: int| hi <= j < ks.len() ==> !key_less(#[trigger] ks[j], key@),
            decreases hi - lo,
        {
            let mid = lo + (hi - lo) / 2;
            if str_less(self.names[mid].as_str(), key) {
                assert forall|j: int| 0 <= j < mid + 1 implies key_less(#[trigger] ks[j], key@) by {
                    if j < mid {
                        lemma_key_less_transitive(ks[j], ks[mid as int], key@);
                    }
                }
                lo = mid + 1;
            } else {
                assert forall|j: int| mid <= j < ks.len() implies !key_less(
                    #[trigger] ks[j],
                    key@,
                ) by {
                    if j > mid && key_less(ks[j], key@) {
                        lemma_key_less_transitive(ks[mid as int], ks[j], key@);
                    }
                }
                hi = mid;
            }
        }
        let found = lo < self.names.len() && !str_less(key, self.names[lo].as_str());
        proof {
            if lo < ks.len() {
                lemma_key_less_total(ks[lo as int], key@);
            }
            assert forall|j: int| lo <= j < ks.len() && !(found && j == lo) implies key_less(
                key@,
                #[trigger] ks[j],
            ) by {
                if j > lo {
                    if found {
                        assert(key_less(ks[lo as int], ks[j]));
                    } else {
                        lemma_key_less_transitive(key@, ks[lo as int], ks[j]);
                    }
                }
            }
            if found {
                assert(ks.contains(key@));
            } else if ks.contains(key@) {
                let j = ks.index_of(key@);
                if j < lo {
                    lemma_key_less_asymmetric(ks[j], key@);
                } else {
                    lemma_key_less_asymmetric(key@, ks[j]);
                }
            }
        }
        (lo, found)
    }

    /// The value under `key`, if there is one.
    pub fn get(&self, key: &str) -> (v: Option<&T>)
        requires
            self.wf(),
        ensures
            v is Some == self@.contains_key(key@),
            v is Some ==> *v->0 == self@[key@],
    {
        let (p, found) = self.find(key);
        if found {
            proof {
                self.lemma_at(p as int);
            }
            Some(&self.items[p])
        } else {
            None
        }
    }

    /// Adds `key` with `value` behind all keys of the map. The key must come
    /// after every key that the map holds.
    pub fn push_last(&mut self, key: String, value: T)
        requires
            old(self).wf(),
            forall|i: int|
                0 <= i < old(self).keys().len() ==> key_less(#[trigger] old(self).keys()[i], key@),
        ensures
            final(self).wf(),
            final(self).keys() == old(self).keys().push(key@),
            final(self).values() == old(self).values().push(value),
            final(self)@ == old(self)@.insert(key@, value),
    {
        let ghost ks = self.keys();
        let ghost vs = self.values();
        proof {
            lemma_assoc_insert(ks, vs, ks.len() as int, key@, value);
            assert(ks.insert(ks.len() as int, key@) =~= ks.push(key@));
            assert(vs.insert(vs.len() as int, value) =~= vs.push(value));
        }
        self.names.push(key);
        self.items.push(value);
        assert(self.keys() =~= ks.push(key@));
    }

    /// Puts `value` under `key`, in place of the value that was there, if any,
    /// which is returned.
    pub fn put(&mut self, key: String, value: T) -> (prev: Option<T>)
        requires
            old(self).wf(),
        ensures
            final(self).wf(),
            final(self)@ == old(self)@.insert(key@, value),
            prev is Some == old(self)@.contains_key(key@),
            prev is Some ==> prev->0 == old(self)@[key@],
    {
        let (p, found) = self.find(key.as_str());
        let ghost ks = self.keys();
        let ghost vs = self.values();
        if found {
            proof {
                self.lemma_at(p as int);
                lemma_assoc_update(ks, vs, p as int, value);
            }
            self.items.push(value);
            let prev = self.items.swap_remove(p);
            assert(self.values() =~= vs.update(p as int, value));
            assert(self.keys() =~= ks);
            Some(prev)
        } else {
            proof {
                lemma_assoc_insert(ks, vs, p as int, key@, value);
            }
            self.names.insert(p, key);
            self.items.insert(p, value);
            assert(self.keys() =~= ks.insert(p as int, key@));
            None
        }
    }

    /// Removes `key` and returns the value that was under it, if any.
    pub fn take(&mut self, key: &str) -> (prev: Option<T>)
        requires
            old(self).wf(),
        ensures
            final(self).wf(),
            final(self)@ == old(self)@.remove(key@),
            prev is Some == old(self)@.contains_key(key@),
            prev is Some ==> prev->0 == old(self)@[key@],
    {
        let (p, found) = self.find(key);
        let ghost ks = self.keys();
        let ghost vs = self.values();
        if found {
            proof {
                self.lemma_at(p as int);
                lemma_assoc_remove(ks, vs, p as int);
            }
            self.names.remove(p);
            let prev = self.items.remove(p);
            assert(self.keys() =~= ks.remove(p as int));
            Some(prev)
        } else {
            assert(self@.remove(key@) =~= self@);
            None
        }
    }
}

} // verus!
