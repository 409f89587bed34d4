//! An ordered map from digests to values.

use vstd::prelude::*;

use crate::order;
use crate::types::Digest;

verus! {

/// The digests stand in ascending order, so none occurs twice.
pub open spec fn ascending(keys: Seq<Digest>) -> bool {
    forall|i: int, j: int|
        0 <= i < j < keys.len() ==> order::precedes((#[trigger] keys[i]).0, (#[trigger] keys[j]).0)
}

/// The digest is one of the first components of the pairs.
spec fn listed<V>(entries: Seq<(Digest, V)>, key: Digest) -> bool {
    exists|i: int| 0 <= i < entries.len() && (#[trigger] entries[i]).0 == key
}

/// A position at which the digest is listed.
spec fn position<V>(entries: Seq<(Digest, V)>, key: Digest) -> int {
    choose|i: int| 0 <= i < entries.len() && (#[trigger] entries[i]).0 == key
}

spec fn keys_of<V>(entries: Seq<(Digest, V)>) -> Seq<Digest> {
    entries.map_values(|e: (Digest, V)| e.0)
}

spec fn map_of<V>(entries: Seq<(Digest, V)>) -> Map<Digest, V> {
    Map::new(|k: Digest| listed(entries, k), |k: Digest| entries[position(entries, k)].1)
}

/// A map from digests to values, kept as a list in ascending order of the digests.
#[derive(Debug)]
pub struct DigestMap<V> {
    entries: Vec<(Digest, V)>,
}

impl<V> View for DigestMap<V> {
    type V = Map<Digest, V>;

    closed spec fn view(&self) -> Map<Digest, V> {
        map_of(self.entries@)
    }
}

impl<V> DigestMap<V> {
    #[verifier::type_invariant]
    spec fn inv(self) -> bool {
        ascending(keys_of(self.entries@))
    }

    /// The digests of the map in the order in which it is walked.
    pub closed spec fn keys(self) -> Seq<Digest> {
        keys_of(self.entries@)
    }

    /// The map is walked in ascending order of its digests, each of them once.
    pub open spec fn walked_in_order(self) -> bool {
        &&& ascending(self.keys())
        &&& forall|k: Digest| #[trigger] self@.contains_key(k) <==> self.keys().contains(k)
    }
}

impl<V: Copy> DigestMap<V> {
    /// Makes an empty map.
    pub fn new() -> (map: Self)
        ensures
            map@ == Map::<Digest, V>::empty(),
    {
        let map = DigestMap { entries: Vec::new() };
        assert(map@ =~= Map::<Digest, V>::empty());
        map
    }

    /// The number of digests in the map.
    pub fn len(&self) -> (n: usize)
        ensures
            n == self.keys().len(),
            self.walked_in_order(),
    {
        proof {
            use_type_invariant(self);
            lemma_keys_listed(self.entries@);
        }
        self.entries.len()
    }

    /// The digest at a place in the walk.
    pub fn key_at(&self, i: usize) -> (key: Digest)
        requires
            i < self.keys().len(),
        ensures
            key == self.keys()[i as int],
            self@.contains_key(key),
    {
        assert(listed(self.entries@, self.entries@[i as int].0));
        self.entries[i].0
    }

    /// The value at a place in the walk.
    pub fn value_at(&self, i: usize) -> (value: V)
        requires
            i < self.keys().len(),
        ensures
            value == self@[self.keys()[i as int]],
    {
        proof {
            use_type_invariant(self);
            lemma_lookup(self.entries@, i as int);
        }
        self.entries[i].1
    }

    /// The first place whose digest does not come before `key`.
    fn lower_bound(&self, key: &Digest) -> (at: usize)
        ensures
            at <= self.entries@.len(),
            forall|i: int| 0 <= i < at ==> order::precedes((#[trigger] self.entries@[i]).0.0, key.0),
            forall|i: int|
                at <= i < self.entries@.len() ==> !order::precedes(
                    (#[trigger] self.entries@[i]).0.0,
                    key.0,
                ),
    {
        proof {
            use_type_invariant(self);
        }
        let mut low: usize = 0;
        let mut high: usize = self.entries.len();
        while low < high
            invariant
                low <= high <= self.entries@.len(),
                ascending(keys_of(self.entries@)),
                forall|i: int|
                    0 <= i < low ==> order::precedes((#[trigger] self.entries@[i]).0.0, key.0),
                forall|i: int|
                    high <= i < self.entries@.len() ==> !order::precedes(
                        (#[trigger] self.entries@[i]).0.0,
                        key.0,
                    ),
            decreases high - low,
        {
            let mid: usize = low + (high - low) / 2;
            let ghost pivot = self.entries@[mid as int].0;
            assert(keys_of(self.entries@)[mid as int] == pivot);
            if order::is_before(&self.entries[mid].0.0, &key.0) {
                assert forall|i: int| 0 <= i < mid + 1 implies order::precedes(
                    (#[trigger] self.entries@[i]).0.0,
                    key.0,
                ) by {
                    if i < mid {
                        assert(keys_of(self.entries@)[i] == self.entries@[i].0);
                        order::law_transitive(self.entries@[i].0.0, pivot.0, key.0);
                    }
                }
                low = mid + 1;
            } else {
                assert forall|i: int| mid <= i < self.entries@.len() implies !order::precedes(
                    (#[trigger] self.entries@[i]).0.0,
                    key.0,
                ) by {
                    if mid < i && order::precedes(self.entries@[i].0.0, key.0) {
                        assert(keys_of(self.entries@)[i] == self.entries@[i].0);
                        order::law_transitive(pivot.0, self.entries@[i].0.0, key.0);
                    }
                }
                high = mid;
            }
        }
        low
    }

    /// The place of `key`, or the place where it would have to be put.
    fn locate(&self, key: &Digest) -> (found: Result<usize, usize>)
        ensures
            match found {
                Ok(at) => at < self.entries@.len() && self.entries@[at as int].0 == *key,
                Err(at) => {
                    &&& at <= self.entries@.len()
                    &&& !listed(self.entries@, *key)
                    &&& forall|i: int|
                        0 <= i < at ==> order::precedes((#[trigger] self.entries@[i]).0.0, key.0)
                    &&& forall|i: int|
                        at <= i < self.entries@.len() ==> order::precedes(
                            key.0,
                            (#[trigger] self.entries@[i]).0.0,
                        )
                },
            },
    {
        let at = self.lower_bound(key);
        if at < self.entries.len() && order::is_same(&self.entries[at].0.0, &key.0) {
            return Ok(at);
        }
        proof {
            use_type_invariant(self);
            assert forall|i: int| at <= i < self.entries@.len() implies order::precedes(
                key.0,
                (#[trigger] self.entries@[i]).0.0,
            ) by {
                let pivot = self.entries@[at as int].0;
                order::law_total(pivot.0, key.0);
                if at < i {
                    assert(keys_of(self.entries@)[at as int] == pivot);
                    assert(keys_of(self.entries@)[i] == self.entries@[i].0);
                    order::law_transitive(key.0, pivot.0, self.entries@[i].0.0);
                }
            }
            if listed(self.entries@, *key) {
                let i = position(self.entries@, *key);
                order::law_asymmetric(key.0, key.0);
            }
        }
        Err(at)
    }

    /// Tells whether the map holds `key`.
    pub fn contains_key(&self, key: &Digest) -> (found: bool)
        ensures
            found == self@.contains_key(*key),
    {
        match self.locate(key) {
            Ok(at) => {
                assert(self.entries@[at as int].0 == *key);
                true
            },
            Err(_) => false,
        }
    }

    /// Gives `key` the value `value`, in place of any that it had.
    pub fn insert(&mut self, key: Digest, value: V)
        ensures
            final(self)@ == old(self)@.insert(key, value),
    {
        let found = self.locate(&key);
        proof {
            use_type_invariant(&*self);
        }
        let ghost before = self.entries@;
        let mut entries: Vec<(Digest, V)> = Vec::new();
        std::mem::swap(&mut entries, &mut self.entries);
        match found {
            Ok(at) => {
                entries.set(at, (key, value));
                proof {
                    assert(keys_of(entries@) =~= keys_of(before));
                    lemma_updated(before, at as int, value);
                }
            },
            Err(at) => {
                entries.insert(at, (key, value));
                proof {
                    lemma_inserted(before, at as int, key, value);
                }
            },
        }
        self.entries = entries;
    }

    /// Takes `key` out of the map.
    pub fn remove(&mut self, key: &Digest)
        ensures
            final(self)@ == old(self)@.remove(*key),
    {
        let found = self.locate(key);
        proof {
            use_type_invariant(&*self);
        }
        let ghost before = self.entries@;
        if let Ok(at) = found {
            let mut entries: Vec<(Digest, V)> = Vec::new();
            std::mem::swap(&mut entries, &mut self.entries);
            entries.remove(at);
            proof {
                lemma_removed(before, at as int);
            }
            self.entries = entries;
        } else {
            assert(map_of(before) =~= map_of(before).remove(*key));
        }
    }
}

/// The digests of the map are those of its walk.
proof fn lemma_keys_listed<V>(entries: Seq<(Digest, V)>)
    ensures
        forall|k: Digest| #[trigger] map_of(entries).contains_key(k) <==> keys_of(entries).contains(k),
{
    assert forall|k: Digest| #[trigger] map_of(entries).contains_key(k) implies keys_of(
        entries,
    ).contains(k) by {
        let i = position(entries, k);
        assert(keys_of(entries)[i] == k);
    }
    assert forall|k: Digest| #[trigger] keys_of(entries).contains(k) implies map_of(
        entries,
    ).contains_key(k) by {
        let i = choose|i: int| 0 <= i < keys_of(entries).len() && keys_of(entries)[i] == k;
        assert(entries[i].0 == k);
    }
}

/// Different places hold different digests.
proof fn lemma_distinct<V>(entries: Seq<(Digest, V)>, i: int, j: int)
    requires
        ascending(keys_of(entries)),
        0 <= i < entries.len(),
        0 <= j < entries.len(),
        entries[i].0 == entries[j].0,
    ensures
        i == j,
{
    let keys = keys_of(entries);
    assert(keys[i] == entries[i].0 && keys[j] == entries[j].0);
    if i < j {
        order::law_asymmetric(keys[i].0, keys[j].0);
    } else if j < i {
        order::law_asymmetric(keys[j].0, keys[i].0);
    }
}

/// The map holds the value that stands beside the digest.
proof fn lemma_lookup<V>(entries: Seq<(Digest, V)>, i: int)
    requires
        ascending(keys_of(entries)),
        0 <= i < entries.len(),
    ensures
        map_of(entries).contains_key(entries[i].0),
        map_of(entries)[entries[i].0] == entries[i].1,
{
    assert(listed(entries, entries[i].0));
    lemma_distinct(entries, i, position(entries, entries[i].0));
}

proof fn lemma_updated<V>(entries: Seq<(Digest, V)>, at: int, value: V)
    requires
        ascending(keys_of(entries)),
        0 <= at < entries.len(),
    ensures
        map_of(entries.update(at, (entries[at].0, value))) == map_of(entries).insert(
            entries[at].0,
            value,
        ),
{
    let after = entries.update(at, (entries[at].0, value));
    let expected = map_of(entries).insert(entries[at].0, value);
    assert(keys_of(after) =~= keys_of(entries));
    lemma_keys_listed(entries);
    lemma_keys_listed(after);
    lemma_lookup(entries, at);
    assert forall|k: Digest| #[trigger] map_of(after).contains_key(k) implies map_of(after)[k]
        == expected[k] by {
        let i = position(after, k);
        lemma_lookup(after, i);
        lemma_lookup(entries, i);
        if i != at && entries[i].0 == entries[at].0 {
            lemma_distinct(entries, i, at);
        }
    }
    assert(map_of(after) =~= expected);
}

proof fn lemma_inserted<V>(entries: Seq<(Digest, V)>, at: int, key: Digest, value: V)
    requires
        ascending(keys_of(entries)),
        0 <= at <= entries.len(),
        !listed(entries, key),
        forall|i: int| 0 <= i < at ==> order::precedes((#[trigger] entries[i]).0.0, key.0),
        forall|i: int| at <= i < entries.len() ==> order::precedes(key.0, (#[trigger] entries[i]).0.0),
    ensures
        ascending(keys_of(entries.insert(at, (key, value)))),
        map_of(entries.insert(at, (key, value))) == map_of(entries).insert(key, value),
{
    let after = entries.insert(at, (key, value));
    let keys = keys_of(after);
    assert forall|i: int, j: int| 0 <= i < j < keys.len() implies order::precedes(
        (#[trigger] keys[i]).0,
        (#[trigger] keys[j]).0,
    ) by {
        let from_i = if i < at { i } else { i - 1 };
        let from_j = if j < at { j } else { j - 1 };
        if i != at {
            assert(keys_of(entries)[from_i] == entries[from_i].0);
            assert(after[i] == entries[from_i]);
        }
        if j != at {
            assert(keys_of(entries)[from_j] == entries[from_j].0);
            assert(after[j] == entries[from_j]);
        }
    }
    let expected = map_of(entries).insert(key, value);
    assert forall|k: Digest| #[trigger] map_of(after).contains_key(k) implies expected.contains_key(k)
        && map_of(after)[k] == expected[k] by {
        let i = position(after, k);
        lemma_lookup(after, i);
        if i != at {
            let from_i = if i < at { i } else { i - 1 };
            assert(after[i] == entries[from_i]);
            lemma_lookup(entries, from_i);
        }
    }
    assert forall|k: Digest| #[trigger] expected.contains_key(k) implies map_of(after).contains_key(
        k,
    ) by {
        if k == key {
            lemma_lookup(after, at);
        } else {
            let i = position(entries, k);
            let to = if i < at { i } else { i + 1 };
            assert(after[to] == entries[i]);
            lemma_lookup(after, to);
        }
    }
    assert(map_of(after) =~= expected);
}

proof fn lemma_removed<V>(entries: Seq<(Digest, V)>, at: int)
    requires
        ascending(keys_of(entries)),
        0 <= at < entries.len(),
    ensures
        ascending(keys_of(entries.remove(at))),
        map_of(entries.remove(at)) == map_of(entries).remove(entries[at].0),
{
    let after = entries.remove(at);
    let key = entries[at].0;
    let keys = keys_of(after);
    assert forall|i: int, j: int| 0 <= i < j < keys.len() implies order::precedes(
        (#[trigger] keys[i]).0,
        (#[trigger] keys[j]).0,
    ) by {
        let from_i = if i < at { i } else { i + 1 };
        let from_j = if j < at { j } else { j + 1 };
        assert(keys_of(entries)[from_i] == entries[from_i].0);
        assert(keys_of(entries)[from_j] == entries[from_j].0);
        assert(after[i] == entries[from_i]);
        assert(after[j] == entries[from_j]);
    }
    let expected = map_of(entries).remove(key);
    assert forall|k: Digest| #[trigger] map_of(after).contains_key(k) implies expected.contains_key(k)
        && map_of(after)[k] == expected[k] by {
        let i = position(after, k);
        lemma_lookup(after, i);
        let from_i = if i < at { i } else { i + 1 };
        assert(after[i] == entries[from_i]);
        lemma_lookup(entries, from_i);
        if k == key {
            lemma_distinct(entries, from_i, at);
        }
    }
    assert forall|k: Digest| #[trigger] expected.contains_key(k) implies map_of(after).contains_key(
        k,
    ) by {
        let i = position(entries, k);
        let to = if i < at { i } else { i - 1 };
        assert(after[to] == entries[i]);
        lemma_lookup(after, to);
    }
    assert(map_of(after) =~= expected);
}

/// A list in ascending order has each digest once, and of any two the first comes before the second.
pub proof fn law_ascending(keys: Seq<Digest>, i: int, j: int)
    requires
        ascending(keys),
        0 <= i < j < keys.len(),
    ensures
        order::precedes(keys[i].0, keys[j].0),
        keys[i] != keys[j],
{
    order::law_asymmetric(keys[i].0, keys[j].0);
}

/// A walk through a map meets each of its digests once, and no others, in ascending order.
pub proof fn law_walk<V>(map: DigestMap<V>)
    requires
        map.walked_in_order(),
    ensures
        map.keys().no_duplicates(),
        forall|k: Digest| #[trigger] map@.contains_key(k) <==> map.keys().contains(k),
        forall|i: int, j: int|
            0 <= i < j < map.keys().len() ==> order::precedes(
                (#[trigger] map.keys()[i]).0,
                (#[trigger] map.keys()[j]).0,
            ),
{
    let keys = map.keys();
    assert forall|i: int, j: int| 0 <= i < j < keys.len() implies keys[i] != keys[j] by {
        law_ascending(keys, i, j);
    }
}

} // verus!
