use vstd::prelude::*;

verus! {

/// The map that a list of keys and a list of values of the same length
/// stand for: each key with the value at its place.
pub open spec fn assoc_map<K, V>(keys: Seq<K>, values: Seq<V>) -> Map<K, V> {
    Map::new(|k: K| keys.contains(k), |k: K| values[keys.index_of(k)])
}

/// The map of a list has finitely many keys.
pub proof fn lemma_assoc_finite<K, V>(keys: Seq<K>, values: Seq<V>)
    ensures
        assoc_map(keys, values).dom().finite(),
{
    vstd::seq_lib::seq_to_set_is_finite(keys);
    assert(assoc_map(keys, values).dom() =~= keys.to_set());
}

/// Where no key occurs twice, each key maps to the value at its own place.
pub proof fn lemma_assoc_at<K, V>(keys: Seq<K>, values: Seq<V>, i: int)
    requires
        keys.no_duplicates(),
        0 <= i < keys.len(),
    ensures
        assoc_map(keys, values).contains_key(keys[i]),
        assoc_map(keys, values)[keys[i]] == values[i],
{
    assert(keys.contains(keys[i]));
    assert(keys.index_of(keys[i]) == i);
}

/// A key that the list lacks is no key of its map.
pub proof fn lemma_assoc_absent<K, V>(keys: Seq<K>, values: Seq<V>, key: K)
    requires
        forall|i: int| 0 <= i < keys.len() ==> keys[i] != key,
    ensures
        !assoc_map(keys, values).contains_key(key),
{
}

/// Replacing the value at one place replaces the value of that key.
pub proof fn lemma_assoc_update<K, V>(keys: Seq<K>, values: Seq<V>, i: int, value: V)
    requires
        keys.no_duplicates(),
        keys.len() == values.len(),
        0 <= i < keys.len(),
    ensures
        assoc_map(keys, values.update(i, value)) == assoc_map(keys, values).insert(keys[i], value),
{
    let before = assoc_map(keys, values);
    let after = assoc_map(keys, values.update(i, value));
    assert(keys.contains(keys[i]));
    assert forall|k: K| after.contains_key(k) implies #[trigger] after[k] == before.insert(
        keys[i],
        value,
    )[k] by {
        let j = keys.index_of(k);
        assert(keys[j] == k);
    }
    assert(after =~= before.insert(keys[i], value));
}

/// Putting a new key with its value anywhere into the list adds that key to
/// the map, and no key occurs twice afterwards.
pub proof fn lemma_assoc_insert<K, V>(keys: Seq<K>, values: Seq<V>, at: int, key: K, value: V)
    requires
        keys.no_duplicates(),
        keys.len() == values.len(),
        0 <= at <= keys.len(),
        forall|i: int| 0 <= i < keys.len() ==> keys[i] != key,
    ensures
        keys.insert(at, key).no_duplicates(),
        assoc_map(keys.insert(at, key), values.insert(at, value)) == assoc_map(keys, values).insert(
            key,
            value,
        ),
{
    let before = assoc_map(keys, values);
    let keys2 = keys.insert(at, key);
    let values2 = values.insert(at, value);
    let after = assoc_map(keys2, values2);
    assert forall|j: int| 0 <= j < keys2.len() implies #[trigger] keys2[j] == (if j < at {
        keys[j]
    } else if j == at {
        key
    } else {
        keys[j - 1]
    }) by {}
    assert forall|j: int| 0 <= j < values2.len() implies #[trigger] values2[j] == (if j < at {
        values[j]
    } else if j == at {
        value
    } else {
        values[j - 1]
    }) by {}
    assert(keys2.no_duplicates());
    assert forall|k: K| after.contains_key(k) == before.insert(key, value).contains_key(k) by {
        if keys2.contains(k) {
            let j = keys2.index_of(k);
            if j < at {
                assert(keys[j] == k);
            } else if j > at {
                assert(keys[j - 1] == k);
            }
        }
        if keys.contains(k) {
            let j = keys.index_of(k);
            if j < at {
                assert(keys2[j] == k);
            } else {
                assert(keys2[j + 1] == k);
            }
        }
        if k == key {
            assert(keys2[at] == k);
        }
    }
    assert forall|k: K| after.contains_key(k) implies #[trigger] after[k] == before.insert(
        key,
        value,
    )[k] by {
        let j = keys2.index_of(k);
        assert(keys2[j] == k);
        if j < at {
            lemma_assoc_at(keys, values, j);
        } else if j > at {
            lemma_assoc_at(keys, values, j - 1);
        }
    }
    assert(after =~= before.insert(key, value));
}

} // verus!
