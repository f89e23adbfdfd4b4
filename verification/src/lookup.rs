//! Association lists: the library's form of the lookup tables that the
//! services answer with. A key may occur more than once; the last entry wins,
//! as with repeated insertions into a map.

use vstd::prelude::*;

verus! {

/// Index of the last occurrence of `k` in `keys`, or -1.
pub open spec fn last_index_of<K>(keys: Seq<K>, k: K) -> int
    decreases keys.len(),
{
    if keys.len() == 0 {
        -1
    } else if keys.last() == k {
        keys.len() - 1
    } else {
        last_index_of(keys.drop_last(), k)
    }
}

/// Keys of an association list.
pub open spec fn keys_of<K, V>(entries: Seq<(K, V)>) -> Seq<K> {
    entries.map_values(|e: (K, V)| e.0)
}

/// The value of the last entry with key `k`.
pub open spec fn lookup<K, V>(entries: Seq<(K, V)>, k: K) -> Option<V> {
    let i = last_index_of(keys_of(entries), k);
    if i >= 0 {
        Some(entries[i].1)
    } else {
        None
    }
}

/// A lookup table behaves as a map filled entry by entry: nothing is found
/// in an empty table, an added entry is what its key finds afterwards, and
/// it leaves what other keys find unchanged.
pub proof fn law_lookup<K, V>(entries: Seq<(K, V)>, k: K, v: V, other: K)
    ensures
        lookup(Seq::<(K, V)>::empty(), k) is None,
        lookup(entries.push((k, v)), k) == Some(v),
        other != k ==> lookup(entries.push((k, v)), other) == lookup(entries, other),
{
    assert(keys_of(entries.push((k, v))) =~= keys_of(entries).push(k));
    assert(keys_of(entries.push((k, v))).drop_last() =~= keys_of(entries));
    if other != k {
        let i = last_index_of(keys_of(entries), other);
        lemma_last_index_of(keys_of(entries), other);
        if i >= 0 {
            assert(entries.push((k, v))[i] == entries[i]);
        }
    }
}

/// No key occurs twice.
pub open spec fn unique_keys<K>(keys: Seq<K>) -> bool {
    forall|i: int, j: int| 0 <= i < j < keys.len() ==> keys[i] != keys[j]
}

/// What `last_index_of` gives: -1 when `k` is absent, else an index holding
/// `k` after which `k` does not occur.
pub proof fn lemma_last_index_of<K>(keys: Seq<K>, k: K)
    ensures
        -1 <= last_index_of(keys, k) < keys.len(),
        last_index_of(keys, k) == -1 <==> !keys.contains(k),
        last_index_of(keys, k) >= 0 ==> keys[last_index_of(keys, k)] == k,
        forall|j: int| last_index_of(keys, k) < j < keys.len() ==> keys[j] != k,
    decreases keys.len(),
{
    if keys.len() > 0 {
        lemma_last_index_of(keys.drop_last(), k);
        if keys.last() != k {
            if keys.contains(k) {
                let j = choose|j: int| 0 <= j < keys.len() && keys[j] == k;
                assert(keys.drop_last()[j] == k);
            }
            if keys.drop_last().contains(k) {
                let j = choose|j: int| 0 <= j < keys.len() - 1 && keys.drop_last()[j] == k;
                assert(keys[j] == k);
            }
            assert forall|j: int| last_index_of(keys, k) < j < keys.len() implies keys[j] != k by {
                if j < keys.len() - 1 {
                    assert(keys.drop_last()[j] == keys[j]);
                }
            }
        } else {
            assert(keys[keys.len() - 1] == k);
        }
    }
}

/// With unique keys, the last index of a present key is its only index.
pub proof fn lemma_last_index_unique<K>(keys: Seq<K>, j: int)
    requires
        unique_keys(keys),
        0 <= j < keys.len(),
    ensures
        last_index_of(keys, keys[j]) == j,
{
    lemma_last_index_of(keys, keys[j]);
}

/// The last index of `k` among text-keyed entries.
pub fn last_index_text<V>(entries: &Vec<(String, V)>, k: &String) -> (r: Option<usize>)
    ensures
        match r {
            Some(i) => i as int == last_index_of(entries@.map_values(|e: (String, V)| e.0@), k@),
            None => last_index_of(entries@.map_values(|e: (String, V)| e.0@), k@) == -1,
        },
{
    let ghost keys = entries@.map_values(|e: (String, V)| e.0@);
    let mut i: usize = entries.len();
    assert(keys.take(i as int) =~= keys);
    while i > 0
        invariant
            keys == entries@.map_values(|e: (String, V)| e.0@),
            i <= entries@.len(),
            last_index_of(keys, k@) == last_index_of(keys.take(i as int), k@),
        decreases i,
    {
        assert(keys.take(i as int).last() == entries@[i - 1].0@);
        if entries[i - 1].0 == *k {
            return Some(i - 1);
        }
        assert(keys.take(i as int).drop_last() =~= keys.take(i - 1));
        i = i - 1;
    }
    None
}

/// The last index of `k` among entries keyed by a 32-bit number.
pub fn last_index_u32<V>(entries: &Vec<(u32, V)>, k: u32) -> (r: Option<usize>)
    ensures
        match r {
            Some(i) => i as int == last_index_of(entries@.map_values(|e: (u32, V)| e.0), k),
            None => last_index_of(entries@.map_values(|e: (u32, V)| e.0), k) == -1,
        },
{
    let ghost keys = entries@.map_values(|e: (u32, V)| e.0);
    let mut i: usize = entries.len();
    assert(keys.take(i as int) =~= keys);
    while i > 0
        invariant
            keys == entries@.map_values(|e: (u32, V)| e.0),
            i <= entries@.len(),
            last_index_of(keys, k) == last_index_of(keys.take(i as int), k),
        decreases i,
    {
        assert(keys.take(i as int).last() == entries@[i - 1].0);
        if entries[i - 1].0 == k {
            return Some(i - 1);
        }
        assert(keys.take(i as int).drop_last() =~= keys.take(i - 1));
        i = i - 1;
    }
    None
}

} // verus!
