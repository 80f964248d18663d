//! A map from endpoint keys to values that keeps its entries in key order.
//!
//! The entries live in one vector, sorted by key with no key twice, so that
//! walking the map always meets the keys in the same order, whatever the order
//! in which they were put in.

use crate::order::{
    ascending, count_less, key_less, key_order, lemma_key_less_irreflexive,
    lemma_key_less_transitive, KeyOrder,
};
use vstd::prelude::*;

verus! {

/// One key with its value.
#[derive(Debug)]
pub struct Entry<T> {
    pub key: String,
    pub value: T,
}

impl<T> Entry<T> {
    /// The key's text and the value.
    pub open spec fn pair(self) -> (Seq<char>, T) {
        (self.key@, self.value)
    }
}

/// The keys of a sequence of pairs, in their order.
pub open spec fn keys_of<T>(pairs: Seq<(Seq<char>, T)>) -> Seq<Seq<char>> {
    pairs.map_values(|p: (Seq<char>, T)| p.0)
}

/// The values of a sequence of pairs, in their order.
pub open spec fn values_of<T>(pairs: Seq<(Seq<char>, T)>) -> Seq<T> {
    pairs.map_values(|p: (Seq<char>, T)| p.1)
}

/// Putting a pair in at a position puts its key and its value in at that position.
pub proof fn lemma_insert_splits<T>(pairs: Seq<(Seq<char>, T)>, r: int, pair: (Seq<char>, T))
    requires
        0 <= r <= pairs.len(),
    ensures
        keys_of(pairs.insert(r, pair)) == keys_of(pairs).insert(r, pair.0),
        values_of(pairs.insert(r, pair)) == values_of(pairs).insert(r, pair.1),
{
    assert(keys_of(pairs.insert(r, pair)) =~= keys_of(pairs).insert(r, pair.0));
    assert(values_of(pairs.insert(r, pair)) =~= values_of(pairs).insert(r, pair.1));
}

/// Replacing the pair at a position replaces its key and its value there.
pub proof fn lemma_update_splits<T>(pairs: Seq<(Seq<char>, T)>, r: int, pair: (Seq<char>, T))
    requires
        0 <= r < pairs.len(),
    ensures
        keys_of(pairs.update(r, pair)) == keys_of(pairs).update(r, pair.0),
        values_of(pairs.update(r, pair)) == values_of(pairs).update(r, pair.1),
{
    assert(keys_of(pairs.update(r, pair)) =~= keys_of(pairs).update(r, pair.0));
    assert(values_of(pairs.update(r, pair)) =~= values_of(pairs).update(r, pair.1));
}

/// The map that holds `values[i]` under `keys[i]`.
pub open spec fn assoc<T>(keys: Seq<Seq<char>>, values: Seq<T>) -> Map<Seq<char>, T> {
    Map::new(|k: Seq<char>| keys.contains(k), |k: Seq<char>| values[keys.index_of(k)])
}

/// In an ascending sequence no key occurs twice.
pub proof fn lemma_ascending_no_duplicates(keys: Seq<Seq<char>>)
    requires
        ascending(keys),
    ensures
        keys.no_duplicates(),
{
    assert forall|i: int, j: int| 0 <= i < keys.len() && 0 <= j < keys.len() && i != j implies keys[i]
        != keys[j] by {
        lemma_key_less_irreflexive(keys[i]);
        if i < j {
            assert(key_less(keys[i], keys[j]));
        } else {
            assert(key_less(keys[j], keys[i]));
        }
    }
}

/// Where all keys before `r` are less than `key` and none from `r` on is, `r` keys are less.
pub proof fn lemma_count_less_boundary(keys: Seq<Seq<char>>, key: Seq<char>, r: int)
    requires
        0 <= r <= keys.len(),
        forall|j: int| 0 <= j < r ==> key_less(#[trigger] keys[j], key),
        forall|j: int| r <= j < keys.len() ==> !key_less(#[trigger] keys[j], key),
    ensures
        count_less(keys, key) == r,
    decreases keys.len(),
{
    if keys.len() > 0 {
        let front = keys.drop_last();
        if r == keys.len() {
            assert(key_less(keys[r - 1], key));
            lemma_count_less_boundary(front, key, r - 1);
        } else {
            assert(!key_less(keys[keys.len() - 1], key));
            lemma_count_less_boundary(front, key, r);
        }
    }
}

/// Without a key twice, `assoc` holds each value under the key at its position.
pub proof fn lemma_assoc_at<T>(keys: Seq<Seq<char>>, values: Seq<T>, i: int)
    requires
        keys.no_duplicates(),
        0 <= i < keys.len(),
    ensures
        assoc(keys, values).contains_key(keys[i]),
        assoc(keys, values)[keys[i]] == values[i],
{
    assert(keys.contains(keys[i]));
    let j = keys.index_of(keys[i]);
    assert(0 <= j < keys.len() && keys[j] == keys[i]);
}

/// A new key put at position `r`, with its value at the same position, adds one entry.
pub proof fn lemma_assoc_insert<T>(keys: Seq<Seq<char>>, values: Seq<T>, r: int, key: Seq<char>, value: T)
    requires
        keys.no_duplicates(),
        keys.len() == values.len(),
        0 <= r <= keys.len(),
        !keys.contains(key),
    ensures
        keys.insert(r, key).no_duplicates(),
        assoc(keys.insert(r, key), values.insert(r, value)) == assoc(keys, values).insert(key, value),
{
    let keys2 = keys.insert(r, key);
    let values2 = values.insert(r, value);
    assert forall|i: int, j: int| 0 <= i < keys2.len() && 0 <= j < keys2.len() && i != j implies keys2[i]
        != keys2[j] by {
        let a = if i < r { i } else { i - 1 };
        let b = if j < r { j } else { j - 1 };
        if i != r {
            assert(keys2[i] == keys[a]);
            assert(keys.contains(keys[a]));
        }
        if j != r {
            assert(keys2[j] == keys[b]);
            assert(keys.contains(keys[b]));
        }
    }
    assert(keys2[r] == key);
    assert forall|k: Seq<char>| keys2.contains(k) <==> (keys.contains(k) || k == key) by {
        if keys2.contains(k) {
            let i = choose|i: int| 0 <= i < keys2.len() && keys2[i] == k;
            if i < r {
                assert(keys[i] == k);
            } else if i > r {
                assert(keys[i - 1] == k);
            }
        }
        if keys.contains(k) {
            let i = choose|i: int| 0 <= i < keys.len() && keys[i] == k;
            if i < r {
                assert(keys2[i] == k);
            } else {
                assert(keys2[i + 1] == k);
            }
        }
    }
    assert forall|k: Seq<char>| keys2.contains(k) implies #[trigger] assoc(keys2, values2)[k] == assoc(
        keys,
        values,
    ).insert(key, value)[k] by {
        let i = keys2.index_of(k);
        assert(0 <= i < keys2.len() && keys2[i] == k);
        if i == r {
        } else {
            let a = if i < r { i } else { i - 1 };
            assert(keys[a] == k);
            assert(keys.contains(k));
            lemma_assoc_at(keys, values, a);
            assert(values2[i] == values[a]);
        }
    }
    assert(assoc(keys2, values2) =~= assoc(keys, values).insert(key, value));
}

/// A new value at position `i` replaces the value under the key at that position.
pub proof fn lemma_assoc_update<T>(keys: Seq<Seq<char>>, values: Seq<T>, i: int, value: T)
    requires
        keys.no_duplicates(),
        keys.len() == values.len(),
        0 <= i < keys.len(),
    ensures
        assoc(keys, values.update(i, value)) == assoc(keys, values).insert(keys[i], value),
{
    let values2 = values.update(i, value);
    assert(keys.contains(keys[i]));
    assert forall|k: Seq<char>| keys.contains(k) implies #[trigger] assoc(keys, values2)[k] == assoc(
        keys,
        values,
    ).insert(keys[i], value)[k] by {
        let j = keys.index_of(k);
        assert(0 <= j < keys.len() && keys[j] == k);
    }
    assert(assoc(keys, values2) =~= assoc(keys, values).insert(keys[i], value));
}

/// A key put where as many keys are less than it keeps the sequence ascending.
pub proof fn lemma_ascending_insert(keys: Seq<Seq<char>>, key: Seq<char>, r: int)
    requires
        ascending(keys),
        0 <= r <= keys.len(),
        forall|j: int| 0 <= j < r ==> key_less(#[trigger] keys[j], key),
        forall|j: int| r <= j < keys.len() ==> key_less(key, #[trigger] keys[j]),
    ensures
        ascending(keys.insert(r, key)),
{
    let keys2 = keys.insert(r, key);
    assert forall|i: int, j: int| 0 <= i < j < keys2.len() implies key_less(
        #[trigger] keys2[i],
        #[trigger] keys2[j],
    ) by {
        let a = if i < r { i } else { i - 1 };
        let b = if j < r { j } else { j - 1 };
        if i == r {
            assert(keys2[j] == keys[b]);
        } else if j == r {
            assert(keys2[i] == keys[a]);
        } else {
            assert(keys2[i] == keys[a]);
            assert(keys2[j] == keys[b]);
        }
    }
}

/// In an ascending sequence the key at position `n` is greater than the `n`
/// keys before it and is none of them: put into a map of those, it goes last.
pub proof fn lemma_next_key_goes_last(keys: Seq<Seq<char>>, n: int)
    requires
        ascending(keys),
        0 <= n < keys.len(),
    ensures
        count_less(keys.take(n), keys[n]) == n,
        !keys.take(n).contains(keys[n]),
{
    let front = keys.take(n);
    assert forall|j: int| 0 <= j < n implies key_less(#[trigger] front[j], keys[n]) by {
        assert(key_less(keys[j], keys[n]));
    }
    lemma_count_less_boundary(front, keys[n], n);
    lemma_key_less_irreflexive(keys[n]);
    if front.contains(keys[n]) {
        let j = choose|j: int| 0 <= j < front.len() && front[j] == keys[n];
        assert(key_less(front[j], keys[n]));
    }
}

/// An ascending sequence is determined by the keys in it: two ascending
/// sequences of the same keys are the same sequence.
pub proof fn lemma_ascending_unique(a: Seq<Seq<char>>, b: Seq<Seq<char>>)
    requires
        ascending(a),
        ascending(b),
        a.to_set() == b.to_set(),
    ensures
        a == b,
    decreases a.len(),
{
    lemma_ascending_no_duplicates(a);
    lemma_ascending_no_duplicates(b);
    a.unique_seq_to_set();
    b.unique_seq_to_set();
    if a.len() == 0 {
        assert(a =~= b);
    } else {
        let n = a.len() - 1;
        let x = a[n];
        let y = b[n];
        assert(a.contains(x));
        assert(b.to_set().contains(x));
        assert(b.contains(y));
        assert(a.to_set().contains(y));
        let j = choose|j: int| 0 <= j < b.len() && b[j] == x;
        let i = choose|i: int| 0 <= i < a.len() && a[i] == y;
        if x != y {
            assert(key_less(b[j], b[n]));
            assert(key_less(a[i], a[n]));
            lemma_key_less_transitive(x, y, x);
            lemma_key_less_irreflexive(x);
        }
        let front = a.drop_last();
        let other = b.drop_last();
        assert forall|k: Seq<char>| front.contains(k) <==> other.contains(k) by {
            if front.contains(k) {
                let m = choose|m: int| 0 <= m < front.len() && front[m] == k;
                assert(a[m] == k);
                assert(a.contains(k));
                assert(b.to_set().contains(k));
                let m2 = choose|m2: int| 0 <= m2 < b.len() && b[m2] == k;
                assert(m2 != n);
                assert(other[m2] == k);
            }
            if other.contains(k) {
                let m = choose|m: int| 0 <= m < other.len() && other[m] == k;
                assert(b[m] == k);
                assert(b.contains(k));
                assert(a.to_set().contains(k));
                let m2 = choose|m2: int| 0 <= m2 < a.len() && a[m2] == k;
                assert(m2 != n);
                assert(front[m2] == k);
            }
        }
        assert(front.to_set() =~= other.to_set());
        lemma_ascending_unique(front, other);
        assert(a =~= front.push(x));
        assert(b =~= other.push(y));
    }
}

/// A map from keys to values of type `T`, with its entries in ascending key order.
#[derive(Debug)]
pub struct SortedMap<T> {
    entries: Vec<Entry<T>>,
}

impl<T> View for SortedMap<T> {
    type V = Map<Seq<char>, T>;

    open spec fn view(&self) -> Map<Seq<char>, T> {
        assoc(self.keys(), self.values())
    }
}

impl<T> SortedMap<T> {
    /// The entries in the order in which the map holds them.
    pub closed spec fn pairs(&self) -> Seq<(Seq<char>, T)> {
        self.entries@.map_values(|e: Entry<T>| e.pair())
    }

    /// The keys in the order in which the map holds them.
    pub open spec fn keys(&self) -> Seq<Seq<char>> {
        keys_of(self.pairs())
    }

    /// The values, each at the position of its key.
    pub open spec fn values(&self) -> Seq<T> {
        values_of(self.pairs())
    }

    /// The keys are in ascending order, so each occurs once.
    #[verifier::type_invariant]
    pub open spec fn wf(&self) -> bool {
        ascending(self.keys())
    }

    /// The entries of a map and their order are determined by what the map
    /// holds under which key, not by how it came to hold it.
    pub proof fn lemma_order_is_canonical(self, other: Self)
        requires
            self.wf(),
            other.wf(),
            self@ == other@,
        ensures
            self.pairs() == other.pairs(),
    {
        let keys = self.keys();
        let others = other.keys();
        lemma_ascending_no_duplicates(keys);
        lemma_ascending_no_duplicates(others);
        assert forall|k: Seq<char>| keys.contains(k) <==> others.contains(k) by {
            assert(self@.contains_key(k) <==> keys.contains(k));
            assert(other@.contains_key(k) <==> others.contains(k));
        }
        assert(keys.to_set() =~= others.to_set());
        lemma_ascending_unique(keys, others);
        assert forall|i: int| 0 <= i < self.pairs().len() implies self.pairs()[i] == other.pairs()[i] by {
            lemma_assoc_at(keys, self.values(), i);
            lemma_assoc_at(others, other.values(), i);
            assert(self.pairs()[i].0 == keys[i]);
            assert(other.pairs()[i].0 == others[i]);
            assert(self.pairs()[i].1 == self.values()[i]);
            assert(other.pairs()[i].1 == other.values()[i]);
        }
        assert(keys.len() == others.len());
        assert(self.pairs() =~= other.pairs());
    }

    /// A map without entries.
    pub fn new() -> (map: Self)
        ensures
            map.pairs() == Seq::<(Seq<char>, T)>::empty(),
    {
        let map = SortedMap { entries: Vec::new() };
        assert(map.pairs() =~= Seq::<(Seq<char>, T)>::empty());
        map
    }

    /// The number of entries.
    pub fn len(&self) -> (n: usize)
        ensures
            n == self.pairs().len(),
    {
        self.entries.len()
    }

    /// The key at position `i` of the key order.
    pub fn key_at(&self, i: usize) -> (key: &String)
        requires
            i < self.pairs().len(),
        ensures
            key@ == self.keys()[i as int],
    {
        &self.entries[i].key
    }

    /// The value under the key at position `i` of the key order.
    pub fn value_at(&self, i: usize) -> (value: &T)
        requires
            i < self.pairs().len(),
        ensures
            *value == self.values()[i as int],
    {
        &self.entries[i].value
    }

    /// Finds by bisection how many keys are less than `key`, and whether `key` is there.
    fn locate(&self, key: &str) -> (at: (usize, bool))
        ensures
            at.0 == count_less(self.keys(), key@),
            at.0 <= self.keys().len(),
            at.1 <==> self.keys().contains(key@),
            at.1 ==> at.0 < self.keys().len() && self.keys()[at.0 as int] == key@,
            forall|j: int| 0 <= j < at.0 ==> key_less(#[trigger] self.keys()[j], key@),
            !at.1 ==> forall|j: int|
                at.0 <= j < self.keys().len() ==> key_less(key@, #[trigger] self.keys()[j]),
    {
        proof {
            use_type_invariant(self);
        }
        let ghost keys = self.keys();
        let mut lo: usize = 0;
        let mut hi: usize = self.entries.len();
        while lo < hi
            invariant
                keys == self.keys(),
                ascending(keys),
                keys.len() == self.entries.len(),
                0 <= lo <= hi <= keys.len(),
                forall|j: int| 0 <= j < lo ==> key_less(#[trigger] keys[j], key@),
                forall|j: int| hi <= j < keys.len() ==> key_less(key@, #[trigger] keys[j]),
            decreases hi - lo,
        {
            let mid: usize = lo + (hi - lo) / 2;
            let probe = key_order(self.entries[mid].key.as_str(), key);
            assert(self.entries[mid as int].key@ == keys[mid as int]);
            match probe {
                KeyOrder::Before => {
                    assert forall|j: int| 0 <= j < mid + 1 implies key_less(
                        #[trigger] keys[j],
                        key@,
                    ) by {
                        if j < mid {
                            lemma_key_less_transitive(keys[j], keys[mid as int], key@);
                        }
                    }
                    lo = mid + 1;
                },
                KeyOrder::Same => {
                    proof {
                        lemma_key_less_irreflexive(key@);
                        assert forall|j: int| mid <= j < keys.len() implies !key_less(
                            #[trigger] keys[j],
                            key@,
                        ) by {
                            if j > mid {
                                assert(key_less(keys[mid as int], keys[j]));
                                if key_less(keys[j], key@) {
                                    lemma_key_less_transitive(key@, keys[j], key@);
                                }
                            }
                        }
                        assert forall|j: int| 0 <= j < mid implies key_less(
                            #[trigger] keys[j],
                            key@,
                        ) by {
                            assert(key_less(keys[j], keys[mid as int]));
                        }
                        lemma_count_less_boundary(keys, key@, mid as int);
                    }
                    return (mid, true);
                },
                KeyOrder::After => {
                    assert forall|j: int| mid <= j < keys.len() implies key_less(
                        key@,
                        #[trigger] keys[j],
                    ) by {
                        if j > mid {
                            lemma_key_less_transitive(key@, keys[mid as int], keys[j]);
                        }
                    }
                    hi = mid;
                },
            }
        }
        proof {
            lemma_key_less_irreflexive(key@);
            assert forall|j: int| lo <= j < keys.len() implies !key_less(#[trigger] keys[j], key@) by {
                if key_less(keys[j], key@) {
                    lemma_key_less_transitive(key@, keys[j], key@);
                }
            }
            lemma_count_less_boundary(keys, key@, lo as int);
            if keys.contains(key@) {
                let j = choose|j: int| 0 <= j < keys.len() && keys[j] == key@;
                if j < lo {
                    assert(key_less(keys[j], key@));
                } else {
                    assert(key_less(key@, keys[j]));
                }
            }
        }
        (lo, false)
    }

    /// Whether the map holds `key`.
    pub fn contains_key(&self, key: &str) -> (held: bool)
        ensures
            held == self@.contains_key(key@),
    {
        self.locate(key).1
    }

    /// The value under `key`, if the map holds it.
    pub fn get(&self, key: &str) -> (value: Option<&T>)
        ensures
            match value {
                Some(v) => self@.contains_key(key@) && *v == self@[key@],
                None => !self@.contains_key(key@),
            },
    {
        let (r, found) = self.locate(key);
        if found {
            proof {
                use_type_invariant(self);
                lemma_ascending_no_duplicates(self.keys());
                lemma_assoc_at(self.keys(), self.values(), r as int);
            }
            Some(&self.entries[r].value)
        } else {
            None
        }
    }

    /// Puts `value` under `key` and hands back the value that was there before, if any.
    ///
    /// A key that is new takes the position that the key order gives it; the
    /// other entries stay as they are.
    pub fn insert(&mut self, key: String, value: T) -> (previous: Option<T>)
        ensures
            final(self)@ == old(self)@.insert(key@, value),
            old(self)@.contains_key(key@) ==> {
                &&& previous == Some(old(self)@[key@])
                &&& count_less(old(self).keys(), key@) < old(self).keys().len()
                &&& old(self).keys()[count_less(old(self).keys(), key@) as int] == key@
                &&& final(self).pairs() == old(self).pairs().update(
                    count_less(old(self).keys(), key@) as int,
                    (key@, value),
                )
            },
            !old(self)@.contains_key(key@) ==> {
                &&& previous is None
                &&& count_less(old(self).keys(), key@) <= old(self).keys().len()
                &&& final(self).pairs() == old(self).pairs().insert(
                    count_less(old(self).keys(), key@) as int,
                    (key@, value),
                )
            },
    {
        proof {
            use_type_invariant(&*self);
        }
        let (r, found) = self.locate(key.as_str());
        let ghost before = self.entries@;
        let ghost keys = self.keys();
        let ghost values = self.values();
        let entry = Entry { key, value };
        proof {
            lemma_ascending_no_duplicates(keys);
        }
        if found {
            proof {
                let rest = before.remove(r as int);
                assert(keys_of(rest.map_values(|e: Entry<T>| e.pair())) =~= keys.remove(r as int));
                assert(ascending(keys.remove(r as int)));
                let after = rest.insert(r as int, entry);
                assert(after.map_values(|e: Entry<T>| e.pair()) =~= self.pairs().update(
                    r as int,
                    entry.pair(),
                ));
                assert(keys_of(after.map_values(|e: Entry<T>| e.pair())) =~= keys);
                assert(values_of(after.map_values(|e: Entry<T>| e.pair())) =~= values.update(
                    r as int,
                    entry.value,
                ));
                lemma_assoc_at(keys, values, r as int);
                lemma_assoc_update(keys, values, r as int, entry.value);
            }
            let mut entries: Vec<Entry<T>> = Vec::new();
            core::mem::swap(&mut self.entries, &mut entries);
            let replaced = entries.remove(r);
            entries.insert(r, entry);
            self.entries = entries;
            Some(replaced.value)
        } else {
            proof {
                let after = before.insert(r as int, entry);
                assert(after.map_values(|e: Entry<T>| e.pair()) =~= self.pairs().insert(
                    r as int,
                    entry.pair(),
                ));
                assert(keys_of(after.map_values(|e: Entry<T>| e.pair())) =~= keys.insert(
                    r as int,
                    entry.key@,
                ));
                assert(values_of(after.map_values(|e: Entry<T>| e.pair())) =~= values.insert(
                    r as int,
                    entry.value,
                ));
                lemma_ascending_insert(keys, entry.key@, r as int);
                lemma_assoc_insert(keys, values, r as int, entry.key@, entry.value);
            }
            let mut entries: Vec<Entry<T>> = Vec::new();
            core::mem::swap(&mut self.entries, &mut entries);
            entries.insert(r, entry);
            self.entries = entries;
            None
        }
    }

    /// The entries in key order.
    pub fn entries(&self) -> (all: &Vec<Entry<T>>)
        ensures
            all@.map_values(|e: Entry<T>| e.pair()) == self.pairs(),
    {
        &self.entries
    }
}

} // verus!
