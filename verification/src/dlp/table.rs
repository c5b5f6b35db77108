//! A table from fingerprints to values, in which no fingerprint occurs twice.
//!
//! The entries stand in two vectors, in the order in which they came. A hash
//! map from the first eight bytes of a fingerprint to the places of the
//! fingerprints that start with them leads a search to the few entries that
//! it has to look at.

use crate::bytes::bytes_eq;
use std::collections::HashMap;
use vstd::bytes::{spec_u64_from_le_bytes, u64_from_le_bytes};
use vstd::prelude::*;
use vstd::slice::slice_subrange;

verus! {

/// Whether `k` is the fingerprint at some index below `n`.
pub open spec fn occurs(keys: Seq<[u8; 32]>, n: int, k: Seq<u8>) -> bool {
    exists|i: int| 0 <= i < n && (#[trigger] keys[i])@ == k
}

/// An index at which the fingerprint `k` stands.
pub open spec fn place(keys: Seq<[u8; 32]>, k: Seq<u8>) -> int {
    choose|i: int| 0 <= i < keys.len() && (#[trigger] keys[i])@ == k
}

/// Whether no fingerprint stands at two indices.
pub open spec fn distinct(keys: Seq<[u8; 32]>) -> bool {
    forall|i: int, j: int|
        0 <= i < j < keys.len() ==> (#[trigger] keys[i])@ != (#[trigger] keys[j])@
}

/// The mapping that two sequences of equal length stand for.
pub open spec fn mapping<V>(keys: Seq<[u8; 32]>, values: Seq<V>) -> Map<Seq<u8>, V> {
    Map::new(|k: Seq<u8>| occurs(keys, keys.len() as int, k), |k: Seq<u8>| values[place(keys, k)])
}

/// The first eight bytes of a fingerprint, read as an integer, least
/// significant byte first.
pub open spec fn prefix(k: Seq<u8>) -> u64 {
    spec_u64_from_le_bytes(k.subrange(0, 8))
}

/// Whether an index leads to the fingerprints: every fingerprint stands in
/// the list that the index holds for its first eight bytes, and every place
/// in a list of the index is that of a fingerprint with these bytes.
pub open spec fn indexed(keys: Seq<[u8; 32]>, index: Map<u64, Vec<usize>>) -> bool {
    &&& forall|i: int|
        0 <= i < keys.len() ==> index.contains_key(prefix((#[trigger] keys[i])@)) && exists|j: int|
            0 <= j < index[prefix(keys[i]@)]@.len() && #[trigger] index[prefix(keys[i]@)]@[j] == i
    &&& forall|p: u64, j: int|
        index.contains_key(p) && 0 <= j < index[p]@.len() ==> (#[trigger] index[p]@[j])
            < keys.len() && prefix(keys[index[p]@[j] as int]@) == p
}

/// A table from fingerprints of 32 bytes to values. It keeps its entries in
/// the order in which they came.
#[derive(Debug)]
pub struct Table<V> {
    keys: Vec<[u8; 32]>,
    values: Vec<V>,
    index: HashMap<u64, Vec<usize>>,
}

impl<V> View for Table<V> {
    type V = Map<Seq<u8>, V>;

    /// The mapping from fingerprints to values.
    closed spec fn view(&self) -> Map<Seq<u8>, V> {
        mapping(self.keys@, self.values@)
    }
}

impl<V: Copy> Table<V> {
    /// The fingerprints, in the order in which they came.
    pub closed spec fn keys(&self) -> Seq<[u8; 32]> {
        self.keys@
    }

    /// The values, in the order in which they came.
    pub closed spec fn values(&self) -> Seq<V> {
        self.values@
    }

    /// A table is well formed when it holds one value for each fingerprint
    /// and no fingerprint twice.
    pub closed spec fn wf(&self) -> bool {
        &&& self.keys@.len() == self.values@.len()
        &&& distinct(self.keys@)
        &&& indexed(self.keys@, self.index@)
    }

    /// The mapping of a well-formed table is that of its entries.
    pub proof fn lemma_view(&self)
        requires
            self.wf(),
        ensures
            self@ == mapping(self.keys(), self.values()),
            self.keys().len() == self.values().len(),
            distinct(self.keys()),
            self@.dom().finite(),
            self@.len() == self.keys().len(),
            forall|i: int|
                0 <= i < self.keys().len() ==> self@.contains_key((#[trigger] self.keys()[i])@)
                    && self@[self.keys()[i]@] == self.values()[i],
    {
        lemma_mapping_len(self.keys@, self.values@);
    }

    /// The empty table.
    pub fn new() -> (r: Table<V>)
        ensures
            r.wf(),
            r@ == Map::<Seq<u8>, V>::empty(),
            r.keys().len() == 0,
    {
        let r = Table { keys: Vec::new(), values: Vec::new(), index: HashMap::new() };
        assert(r@ =~= Map::<Seq<u8>, V>::empty());
        r
    }

    /// The number of entries.
    pub fn len(&self) -> (r: usize)
        requires
            self.wf(),
        ensures
            r == self@.len(),
            r == self.keys().len(),
    {
        proof {
            self.lemma_view();
        }
        self.keys.len()
    }

    /// The fingerprint that came as number `i`.
    pub fn key_at(&self, i: usize) -> (r: [u8; 32])
        requires
            self.wf(),
            i < self.keys().len(),
        ensures
            r == self.keys()[i as int],
    {
        self.keys[i]
    }

    /// The value that came as number `i`.
    pub fn value_at(&self, i: usize) -> (r: V)
        requires
            self.wf(),
            i < self.keys().len(),
        ensures
            r == self.values()[i as int],
    {
        self.values[i]
    }

    /// The index at which a fingerprint stands, if it stands in the table.
    fn find(&self, key: &[u8; 32]) -> (r: Option<usize>)
        requires
            self.wf(),
        ensures
            r is Some <==> occurs(self.keys@, self.keys@.len() as int, key@),
            r matches Some(i) ==> i < self.keys@.len() && self.keys@[i as int]@ == key@ && i
                == place(self.keys@, key@),
    {
        let p = prefix_of(key);
        match self.index.get(&p) {
            Some(bucket) => {
                let mut j: usize = 0;
                while j < bucket.len()
                    invariant
                        j <= bucket.len(),
                        self.wf(),
                        self.index@.contains_key(p),
                        *bucket == self.index@[p],
                        forall|k: int| 0 <= k < j ==> self.keys@[bucket@[k] as int]@ != key@,
                    decreases bucket.len() - j,
                {
                    let at = bucket[j];
                    assert(at < self.keys@.len()) by {
                        assert(self.index@[p]@[j as int] < self.keys@.len());
                    }
                    if bytes_eq(&self.keys[at], key) {
                        proof {
                            let q = place(self.keys@, key@);
                            assert(self.keys@[at as int]@ == key@);
                            if q < at {
                                assert(self.keys@[q]@ != self.keys@[at as int]@);
                            } else if at < q {
                                assert(self.keys@[at as int]@ != self.keys@[q]@);
                            }
                        }
                        return Some(at);
                    }
                    j += 1;
                }
                proof {
                    if occurs(self.keys@, self.keys@.len() as int, key@) {
                        let i = place(self.keys@, key@);
                        assert(self.keys@[i]@ == key@);
                        let k = choose|k: int|
                            0 <= k < self.index@[p]@.len() && #[trigger] self.index@[p]@[k] == i;
                        assert(self.keys@[bucket@[k] as int]@ != key@);
                    }
                }
                None
            },
            None => {
                proof {
                    if occurs(self.keys@, self.keys@.len() as int, key@) {
                        let i = place(self.keys@, key@);
                        assert(self.keys@[i]@ == key@);
                        assert(self.index@.contains_key(prefix(self.keys@[i]@)));
                    }
                }
                None
            },
        }
    }

    /// The value that stands under a fingerprint.
    pub fn get(&self, key: &[u8; 32]) -> (r: Option<V>)
        requires
            self.wf(),
        ensures
            r == (if self@.contains_key(key@) {
                Some(self@[key@])
            } else {
                None
            }),
    {
        match self.find(key) {
            Some(i) => Some(self.values[i]),
            None => None,
        }
    }

    /// Puts a value under a fingerprint and hands back the value that stood
    /// there before, if one did.
    pub fn insert(&mut self, key: [u8; 32], value: V) -> (r: Option<V>)
        requires
            old(self).wf(),
            old(self).keys().len() < usize::MAX,
        ensures
            final(self).wf(),
            final(self)@ == old(self)@.insert(key@, value),
            r == (if old(self)@.contains_key(key@) {
                Some(old(self)@[key@])
            } else {
                None
            }),
            r is None ==> final(self).keys() == old(self).keys().push(key) && final(self).values()
                == old(self).values().push(value),
            r is Some ==> final(self).keys() == old(self).keys(),
    {
        let ghost keys = self.keys@;
        let ghost values = self.values@;
        match self.find(&key) {
            Some(i) => {
                let before = self.values[i];
                self.values.set(i, value);
                proof {
                    let after = values.update(i as int, value);
                    assert forall|k: Seq<u8>| occurs(keys, keys.len() as int, k) implies mapping(
                        keys,
                        after,
                    )[k] == mapping(keys, values).insert(key@, value)[k] by {
                        let p = place(keys, k);
                        assert(keys[p]@ == k);
                    }
                    assert(mapping(keys, after) =~= mapping(keys, values).insert(key@, value));
                }
                Some(before)
            },
            None => {
                let at = self.keys.len();
                let p = prefix_of(&key);
                let ghost index = self.index@;
                self.keys.push(key);
                self.values.push(value);
                let mut bucket = match self.index.remove(&p) {
                    Some(bucket) => bucket,
                    None => Vec::new(),
                };
                let ghost held = bucket@;
                bucket.push(at);
                self.index.insert(p, bucket);
                proof {
                    let more = keys.push(key);
                    let grown = self.index@;
                    assert(grown == index.insert(p, bucket));
                    assert(index.contains_key(p) ==> held == index[p]@);
                    assert(!index.contains_key(p) ==> held.len() == 0);
                    assert forall|i: int| 0 <= i < more.len() implies grown.contains_key(
                        prefix((#[trigger] more[i])@),
                    ) && exists|j: int|
                        0 <= j < grown[prefix(more[i]@)]@.len() && #[trigger] grown[prefix(
                            more[i]@,
                        )]@[j] == i by {
                        let q = prefix(more[i]@);
                        if i == at {
                            assert(grown[q]@[held.len() as int] == i);
                        } else {
                            assert(more[i] == keys[i]);
                            assert(index.contains_key(prefix(keys[i]@)));
                            let j = choose|j: int|
                                0 <= j < index[q]@.len() && #[trigger] index[q]@[j] == i;
                            assert(grown[q]@[j] == i);
                        }
                    }
                    assert forall|q: u64, j: int|
                        grown.contains_key(q) && 0 <= j < grown[q]@.len() implies (#[trigger] grown[q]@[j])
                            < more.len() && prefix(more[grown[q]@[j] as int]@) == q by {
                        if q == p {
                            if j < held.len() {
                                assert(index[p]@[j] < keys.len());
                                assert(more[index[p]@[j] as int] == keys[index[p]@[j] as int]);
                            }
                        } else {
                            assert(index[q]@[j] < keys.len());
                            assert(more[index[q]@[j] as int] == keys[index[q]@[j] as int]);
                        }
                    }
                    assert(indexed(more, grown));
                }
                proof {
                    let more = keys.push(key);
                    let after = values.push(value);
                    assert forall|k: Seq<u8>|
                        occurs(more, more.len() as int, k) <==> (k == key@ || occurs(
                            keys,
                            keys.len() as int,
                            k,
                        )) by {
                        if occurs(more, more.len() as int, k) {
                            let i = choose|i: int| 0 <= i < more.len() && (#[trigger] more[i])@ == k;
                            if i < keys.len() {
                                assert(keys[i]@ == k);
                            }
                        }
                        if k == key@ {
                            assert(more[keys.len() as int]@ == k);
                        }
                        if occurs(keys, keys.len() as int, k) {
                            let i = choose|i: int| 0 <= i < keys.len() && (#[trigger] keys[i])@ == k;
                            assert(more[i]@ == k);
                        }
                    }
                    assert forall|i: int, j: int| 0 <= i < j < more.len() implies (#[trigger] more[i])@
                        != (#[trigger] more[j])@ by {
                        if j == keys.len() {
                            assert(keys[i]@ == more[i]@);
                        }
                    }
                    assert forall|k: Seq<u8>| occurs(more, more.len() as int, k) implies mapping(
                        more,
                        after,
                    )[k] == mapping(keys, values).insert(key@, value)[k] by {
                        let p = place(more, k);
                        assert(more[p]@ == k);
                        if k != key@ {
                            let q = place(keys, k);
                            assert(keys[q]@ == k);
                            assert(more[q]@ == k);
                            if p != q {
                                if p < q {
                                    assert(more[p]@ != more[q]@);
                                } else {
                                    assert(more[q]@ != more[p]@);
                                }
                            }
                        } else {
                            if p != keys.len() {
                                assert(keys[p]@ == k);
                            }
                        }
                    }
                    assert(mapping(more, after) =~= mapping(keys, values).insert(key@, value));
                }
                None
            },
        }
    }
}

/// The first eight bytes of a fingerprint, read as an integer.
fn prefix_of(key: &[u8; 32]) -> (r: u64)
    ensures
        r == prefix(key@),
{
    u64_from_le_bytes(slice_subrange(key.as_slice(), 0, 8))
}

/// A mapping of distinct fingerprints has as many entries as there are
/// fingerprints, and holds each value under its fingerprint.
pub proof fn lemma_mapping_len<V>(keys: Seq<[u8; 32]>, values: Seq<V>)
    requires
        keys.len() == values.len(),
        distinct(keys),
    ensures
        mapping(keys, values).dom().finite(),
        mapping(keys, values).len() == keys.len(),
        forall|i: int|
            0 <= i < keys.len() ==> mapping(keys, values).contains_key((#[trigger] keys[i])@)
                && mapping(keys, values)[keys[i]@] == values[i],
    decreases keys.len(),
{
    let m = mapping(keys, values);
    assert forall|i: int| 0 <= i < keys.len() implies m.contains_key((#[trigger] keys[i])@) && m[keys[i]@]
        == values[i] by {
        let p = place(keys, keys[i]@);
        assert(keys[p]@ == keys[i]@);
        if p < i {
            assert(keys[p]@ != keys[i]@);
        } else if i < p {
            assert(keys[i]@ != keys[p]@);
        }
    }
    if keys.len() == 0 {
        assert(m.dom() =~= Set::<Seq<u8>>::empty());
    } else {
        let front = keys.drop_last();
        let last = keys.last();
        assert forall|i: int, j: int| 0 <= i < j < front.len() implies (#[trigger] front[i])@
            != (#[trigger] front[j])@ by {
            assert(keys[i]@ != keys[j]@);
        }
        lemma_mapping_len(front, values.drop_last());
        let before = mapping(front, values.drop_last());
        assert forall|k: Seq<u8>| m.dom().contains(k) <==> before.dom().insert(last@).contains(k) by {
            if m.dom().contains(k) {
                let i = choose|i: int| 0 <= i < keys.len() && (#[trigger] keys[i])@ == k;
                if i < front.len() {
                    assert(front[i]@ == k);
                }
            }
            if before.dom().contains(k) {
                let i = choose|i: int| 0 <= i < front.len() && (#[trigger] front[i])@ == k;
                assert(keys[i]@ == k);
            }
            if k == last@ {
                assert(keys[keys.len() - 1]@ == k);
            }
        }
        assert(m.dom() =~= before.dom().insert(last@));
        if before.dom().contains(last@) {
            let i = choose|i: int| 0 <= i < front.len() && (#[trigger] front[i])@ == last@;
            assert(keys[i]@ != keys[keys.len() - 1]@);
        }
    }
}

} // verus!
