//! Keyed lists searched from the front: the first entry under a key is the one
//! that counts, and later entries under the same key are never seen.

use vstd::prelude::*;

verus! {

/// Whether `i` is the position of the first occurrence of `key` in `keys`.
pub open spec fn is_first_at<K>(keys: Seq<K>, key: K, i: int) -> bool {
    &&& 0 <= i < keys.len()
    &&& keys[i] == key
    &&& forall|j: int| 0 <= j < i ==> keys[j] != key
}

/// A position that holds `key` with no earlier occurrence is the one that
/// `index_of_first` reports.
pub proof fn lemma_first_at<K>(keys: Seq<K>, key: K, i: int)
    requires
        is_first_at(keys, key, i),
    ensures
        keys.index_of_first(key) == Some(i),
{
    keys.index_of_first_ensures(key);
    assert(keys.contains(key));
}

/// `index_of_first` reports nothing exactly when no position holds `key`.
pub proof fn lemma_first_none<K>(keys: Seq<K>, key: K)
    requires
        forall|j: int| 0 <= j < keys.len() ==> keys[j] != key,
    ensures
        keys.index_of_first(key) is None,
{
    keys.index_of_first_ensures(key);
}

/// What `index_of_first` reports is a first occurrence.
pub proof fn lemma_first_some<K>(keys: Seq<K>, key: K)
    ensures
        match keys.index_of_first(key) {
            Some(i) => is_first_at(keys, key, i),
            None => forall|j: int| 0 <= j < keys.len() ==> keys[j] != key,
        },
{
    keys.index_of_first_ensures(key);
}

/// The keys of a keyed list, in list order.
pub open spec fn keys<K, V>(entries: Seq<(K, V)>) -> Seq<K> {
    entries.map_values(|e: (K, V)| e.0)
}

/// The map that a keyed list stands for: every key that occurs, with the
/// value of its first entry.
pub open spec fn to_map<K, V>(entries: Seq<(K, V)>) -> Map<K, V>
    decreases entries.len(),
{
    if entries.len() == 0 {
        Map::empty()
    } else {
        let front = to_map(entries.drop_last());
        let last = entries.last();
        if front.contains_key(last.0) {
            front
        } else {
            front.insert(last.0, last.1)
        }
    }
}

/// Appending an entry adds its key unless the key is already there.
pub proof fn lemma_to_map_push<K, V>(entries: Seq<(K, V)>, key: K, value: V)
    ensures
        to_map(entries.push((key, value))) == if to_map(entries).contains_key(key) {
            to_map(entries)
        } else {
            to_map(entries).insert(key, value)
        },
{
    assert(entries.push((key, value)).drop_last() =~= entries);
}

/// A key that no entry carries is not in the map.
pub proof fn lemma_to_map_absent<K, V>(entries: Seq<(K, V)>, key: K)
    requires
        forall|j: int| 0 <= j < entries.len() ==> entries[j].0 != key,
    ensures
        !to_map(entries).contains_key(key),
    decreases entries.len(),
{
    if entries.len() > 0 {
        lemma_to_map_absent(entries.drop_last(), key);
    }
}

/// The map gives each key the value of the first entry that carries it.
pub proof fn lemma_to_map_first<K, V>(entries: Seq<(K, V)>, key: K, i: int)
    requires
        is_first_at(keys(entries), key, i),
    ensures
        to_map(entries).contains_key(key),
        to_map(entries)[key] == entries[i].1,
    decreases entries.len(),
{
    let front = entries.drop_last();
    if i == entries.len() - 1 {
        assert forall|j: int| 0 <= j < front.len() implies front[j].0 != key by {
            assert(keys(entries)[j] != key);
        }
        lemma_to_map_absent(front, key);
    } else {
        assert forall|j: int| 0 <= j < i implies keys(front)[j] != key by {
            assert(keys(entries)[j] != key);
        }
        assert(keys(front)[i] == keys(entries)[i]);
        lemma_to_map_first(front, key, i);
    }
}

/// Replacing the value of the first entry under a key replaces the value of
/// that key in the map.
pub proof fn lemma_to_map_update<K, V>(entries: Seq<(K, V)>, i: int, value: V)
    requires
        0 <= i < entries.len(),
        is_first_at(keys(entries), entries[i].0, i),
    ensures
        to_map(entries.update(i, (entries[i].0, value))) == to_map(entries).insert(
            entries[i].0,
            value,
        ),
    decreases entries.len(),
{
    let key = entries[i].0;
    let updated = entries.update(i, (key, value));
    let front = entries.drop_last();
    if i == entries.len() - 1 {
        assert(updated.drop_last() =~= front);
        assert forall|j: int| 0 <= j < front.len() implies front[j].0 != key by {
            assert(keys(entries)[j] != key);
        }
        lemma_to_map_absent(front, key);
        assert(to_map(updated) =~= to_map(entries).insert(key, value));
    } else {
        assert(updated.drop_last() =~= front.update(i, (key, value)));
        assert forall|j: int| 0 <= j < i implies keys(front)[j] != key by {
            assert(keys(entries)[j] != key);
        }
        assert(keys(front)[i] == keys(entries)[i]);
        lemma_to_map_update(front, i, value);
        lemma_to_map_first(front, key, i);
        assert(to_map(updated) =~= to_map(entries).insert(key, value));
    }
}

/// Taking out an entry changes the map at most under the key of that entry.
pub proof fn lemma_to_map_remove<K, V>(entries: Seq<(K, V)>, i: int)
    requires
        0 <= i < entries.len(),
    ensures
        to_map(entries.remove(i)).remove(entries[i].0) == to_map(entries).remove(entries[i].0),
    decreases entries.len(),
{
    let key = entries[i].0;
    let front = entries.drop_last();
    let removed = entries.remove(i);
    if i == entries.len() - 1 {
        assert(removed =~= front);
        assert(to_map(removed).remove(key) =~= to_map(entries).remove(key));
    } else {
        assert(removed.drop_last() =~= front.remove(i));
        assert(removed.last() == entries.last());
        lemma_to_map_remove(front, i);
        let a = to_map(front.remove(i));
        let b = to_map(front);
        let k2 = entries.last().0;
        let v2 = entries.last().1;
        assert(to_map(removed) == if a.contains_key(k2) {
            a
        } else {
            a.insert(k2, v2)
        });
        assert(to_map(entries) == if b.contains_key(k2) {
            b
        } else {
            b.insert(k2, v2)
        });
        if k2 == key {
            assert(to_map(removed).remove(key) =~= a.remove(key));
            assert(to_map(entries).remove(key) =~= b.remove(key));
        } else {
            assert(a.remove(key).contains_key(k2) == a.contains_key(k2));
            assert(b.remove(key).contains_key(k2) == b.contains_key(k2));
            if a.contains_key(k2) {
            } else {
                assert(a.insert(k2, v2).remove(key) =~= a.remove(key).insert(k2, v2));
                assert(b.insert(k2, v2).remove(key) =~= b.remove(key).insert(k2, v2));
            }
        }
    }
}

/// Taking out the only entry under a key removes that key from the map.
pub proof fn lemma_to_map_remove_only<K, V>(entries: Seq<(K, V)>, i: int)
    requires
        0 <= i < entries.len(),
        forall|j: int| 0 <= j < entries.len() && j != i ==> entries[j].0 != entries[i].0,
    ensures
        to_map(entries.remove(i)) == to_map(entries).remove(entries[i].0),
{
    lemma_to_map_remove(entries, i);
    lemma_to_map_absent(entries.remove(i), entries[i].0);
    assert(to_map(entries.remove(i)).remove(entries[i].0) =~= to_map(entries.remove(i)));
}

} // verus!
