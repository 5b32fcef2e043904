//! Association vectors with `u64` keys, viewed as mathematical maps.
//!
//! The store keeps its resources and entities in plain vectors of
//! `(key, data)` pairs whose keys are distinct; contracts speak of the
//! [`assoc_map`] view. This module holds the view, the lemmas that relate it
//! to the vector, and the generic scan operations.

use vstd::prelude::*;

verus! {

/// The map that an association sequence denotes (later pairs would win, but
/// the sequences used here always carry distinct keys).
pub open spec fn assoc_map<T>(s: Seq<(u64, T)>) -> Map<u64, T>
    decreases s.len(),
{
    if s.len() == 0 {
        Map::empty()
    } else {
        assoc_map(s.drop_last()).insert(s.last().0, s.last().1)
    }
}

/// No key occurs twice.
pub open spec fn distinct_keys<T>(s: Seq<(u64, T)>) -> bool {
    forall|i: int, j: int| 0 <= i < j < s.len() ==> s[i].0 != s[j].0
}

/// Keys strictly increase along the sequence.
pub open spec fn sorted_keys<T>(s: Seq<(u64, T)>) -> bool {
    forall|i: int, j: int| 0 <= i < j < s.len() ==> s[i].0 < s[j].0
}

/// Some pair of the sequence carries the key `k`.
pub open spec fn key_in<T>(s: Seq<(u64, T)>, k: u64) -> bool {
    exists|i: int| 0 <= i < s.len() && s[i].0 == k
}

/// A sorted sequence has distinct keys.
pub proof fn lemma_sorted_distinct<T>(s: Seq<(u64, T)>)
    requires
        sorted_keys(s),
    ensures
        distinct_keys(s),
{
}

/// The domain of the map view is exactly the set of keys of the sequence.
pub proof fn lemma_assoc_map_dom<T>(s: Seq<(u64, T)>)
    ensures
        forall|k: u64| assoc_map(s).dom().contains(k) <==> key_in(s, k),
    decreases s.len(),
{
    if s.len() > 0 {
        lemma_assoc_map_dom(s.drop_last());
        assert forall|k: u64| assoc_map(s).dom().contains(k) implies key_in(s, k) by {
            if k == s.last().0 {
                assert(s[s.len() - 1].0 == k);
            } else {
                assert(assoc_map(s.drop_last()).dom().contains(k));
                assert(key_in(s.drop_last(), k));
                let i = choose|i: int| 0 <= i < s.drop_last().len() && s.drop_last()[i].0 == k;
                assert(s.drop_last()[i] == s[i]);
                assert(s[i].0 == k);
            }
        }
        assert forall|k: u64| key_in(s, k) implies assoc_map(s).dom().contains(k) by {
            let i = choose|i: int| 0 <= i < s.len() && s[i].0 == k;
            if i < s.len() - 1 {
                assert(s.drop_last()[i].0 == k);
                assert(key_in(s.drop_last(), k));
                assert(assoc_map(s.drop_last()).dom().contains(k));
            }
        }
    }
}

/// Every pair of a distinct-key sequence is a pair of the map view.
pub proof fn lemma_assoc_map_index<T>(s: Seq<(u64, T)>, i: int)
    requires
        distinct_keys(s),
        0 <= i < s.len(),
    ensures
        assoc_map(s).contains_pair(s[i].0, s[i].1),
    decreases s.len(),
{
    if i < s.len() - 1 {
        lemma_assoc_map_index(s.drop_last(), i);
        assert(s.drop_last()[i] == s[i]);
    }
}

/// Appending a pair with a fresh key inserts it into the map view.
pub proof fn lemma_assoc_map_push<T>(s: Seq<(u64, T)>, k: u64, v: T)
    requires
        !key_in(s, k),
    ensures
        assoc_map(s.push((k, v))) == assoc_map(s).insert(k, v),
        distinct_keys(s) ==> distinct_keys(s.push((k, v))),
{
    assert(s.push((k, v)).drop_last() =~= s);
    if distinct_keys(s) {
        assert forall|i: int, j: int|
            0 <= i < j < s.push((k, v)).len() implies s.push((k, v))[i].0 != s.push(
            (k, v),
        )[j].0 by {
            if j == s.len() {
                assert(s[i].0 == s.push((k, v))[i].0);
            }
        }
    }
}

/// Replacing the data at one index updates the map view at that key.
pub proof fn lemma_assoc_map_update<T>(s: Seq<(u64, T)>, i: int, v: T)
    requires
        distinct_keys(s),
        0 <= i < s.len(),
    ensures
        assoc_map(s.update(i, (s[i].0, v))) == assoc_map(s).insert(s[i].0, v),
        distinct_keys(s.update(i, (s[i].0, v))),
    decreases s.len(),
{
    let t = s.update(i, (s[i].0, v));
    assert(forall|j: int| 0 <= j < s.len() ==> t[j].0 == s[j].0);
    if i == s.len() - 1 {
        assert(t.drop_last() =~= s.drop_last());
        assert(assoc_map(t) =~= assoc_map(s).insert(s[i].0, v));
    } else {
        lemma_assoc_map_update(s.drop_last(), i, v);
        assert(t.drop_last() =~= s.drop_last().update(i, (s[i].0, v)));
        assert(s.drop_last()[i] == s[i]);
        assert(assoc_map(t) =~= assoc_map(s).insert(s[i].0, v));
    }
}

/// A distinct-key sequence denotes a map with exactly one entry per pair.
pub proof fn lemma_assoc_map_len<T>(s: Seq<(u64, T)>)
    requires
        distinct_keys(s),
    ensures
        assoc_map(s).dom().finite(),
        assoc_map(s).dom().len() == s.len(),
    decreases s.len(),
{
    if s.len() > 0 {
        lemma_assoc_map_len(s.drop_last());
        lemma_assoc_map_dom(s.drop_last());
        assert(!key_in(s.drop_last(), s.last().0)) by {
            if key_in(s.drop_last(), s.last().0) {
                let j = choose|j: int|
                    0 <= j < s.drop_last().len() && s.drop_last()[j].0 == s.last().0;
                assert(s[j].0 == s[s.len() - 1].0);
            }
        }
        assert(!assoc_map(s.drop_last()).dom().contains(s.last().0));
    }
}

/// Index of the pair carrying `key`, if one does.
pub fn assoc_index_of<T: Copy>(v: &Vec<(u64, T)>, key: u64) -> (r: Option<usize>)
    requires
        distinct_keys(v@),
    ensures
        match r {
            Some(i) => i < v@.len() && v@[i as int].0 == key && assoc_map(v@).contains_pair(
                key,
                v@[i as int].1,
            ),
            None => !assoc_map(v@).dom().contains(key),
        },
{
    proof {
        lemma_assoc_map_dom(v@);
    }
    let n = v.len();
    let mut i: usize = 0;
    while i < n
        invariant
            n == v@.len(),
            distinct_keys(v@),
            forall|j: int| 0 <= j < i ==> v@[j].0 != key,
        decreases n - i,
    {
        if v[i].0 == key {
            proof {
                lemma_assoc_map_index(v@, i as int);
            }
            return Some(i);
        }
        i += 1;
    }
    proof {
        assert(!key_in(v@, key)) by {
            assert forall|j: int| 0 <= j < v@.len() implies v@[j].0 != key by {}
        }
    }
    None
}

/// Data stored under `key`, if any.
pub fn assoc_find<T: Copy>(v: &Vec<(u64, T)>, key: u64) -> (r: Option<T>)
    requires
        distinct_keys(v@),
    ensures
        r == if assoc_map(v@).dom().contains(key) {
            Some(assoc_map(v@)[key])
        } else {
            None::<T>
        },
{
    match assoc_index_of(v, key) {
        Some(i) => Some(v[i].1),
        None => None,
    }
}

/// Store `val` under `key`: replace the pair in place when the key is
/// present, append a new pair otherwise.
pub fn assoc_upsert<T: Copy>(v: &mut Vec<(u64, T)>, key: u64, val: T)
    requires
        distinct_keys(old(v)@),
    ensures
        distinct_keys(final(v)@),
        assoc_map(final(v)@) == assoc_map(old(v)@).insert(key, val),
        final(v)@.len() == if assoc_map(old(v)@).dom().contains(key) {
            old(v)@.len()
        } else {
            old(v)@.len() + 1
        },
{
    match assoc_index_of(v, key) {
        Some(i) => {
            proof {
                lemma_assoc_map_update(v@, i as int, val);
                lemma_assoc_map_dom(v@);
            }
            v[i] = (key, val);
        },
        None => {
            proof {
                lemma_assoc_map_dom(v@);
                lemma_assoc_map_push(v@, key, val);
            }
            v.push((key, val));
        },
    }
}

} // verus!
