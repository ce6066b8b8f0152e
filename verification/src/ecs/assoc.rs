//! Association sequences: a sequence of distinct keys beside a sequence of
//! values of the same length, read as a map.

use vstd::prelude::*;

verus! {

/// What is left of `s` when the element at `i` is replaced by the last
/// element and the last position is dropped.
pub open spec fn swap_removed<T>(s: Seq<T>, i: int) -> Seq<T> {
    s.update(i, s.last()).drop_last()
}

/// The map that sends each key to the value at the key's position.
pub open spec fn assoc_map<K, V>(keys: Seq<K>, values: Seq<V>) -> Map<K, V> {
    Map::new(|k: K| keys.contains(k), |k: K| values[keys.index_of(k)])
}

/// In a sequence without duplicates the position of an element is the only
/// position that holds it.
pub proof fn lemma_index_of_unique<K>(keys: Seq<K>, i: int)
    requires
        keys.no_duplicates(),
        0 <= i < keys.len(),
    ensures
        keys.contains(keys[i]),
        keys.index_of(keys[i]) == i,
{
    assert(keys.contains(keys[i]));
    let j = keys.index_of(keys[i]);
    assert(0 <= j < keys.len() && keys[j] == keys[i]);
}

/// Appending a new key with its value inserts the pair into the map.
pub proof fn lemma_assoc_push<K, V>(keys: Seq<K>, values: Seq<V>, k: K, v: V)
    requires
        keys.len() == values.len(),
        keys.no_duplicates(),
        !keys.contains(k),
    ensures
        keys.push(k).no_duplicates(),
        assoc_map(keys.push(k), values.push(v)) == assoc_map(keys, values).insert(k, v),
{
    let keys2 = keys.push(k);
    let values2 = values.push(v);
    assert(keys2.no_duplicates()) by {
        assert forall|i: int, j: int| 0 <= i < keys2.len() && 0 <= j < keys2.len() && i != j
            implies keys2[i] != keys2[j] by {
            if i < keys.len() && j < keys.len() {
                assert(keys[i] != keys[j]);
            } else if i < keys.len() {
                assert(keys.contains(keys[i]));
            } else if j < keys.len() {
                assert(keys.contains(keys[j]));
            }
        }
    }
    let lhs = assoc_map(keys2, values2);
    let rhs = assoc_map(keys, values).insert(k, v);
    assert forall|x: K| lhs.dom().contains(x) == rhs.dom().contains(x) by {
        if keys2.contains(x) {
            let i = choose|i: int| 0 <= i < keys2.len() && keys2[i] == x;
            if i < keys.len() {
                assert(keys[i] == x);
                assert(keys.contains(x));
            }
        }
        if keys.contains(x) {
            let i = choose|i: int| 0 <= i < keys.len() && keys[i] == x;
            assert(keys2[i] == x);
        }
        if x == k {
            assert(keys2[keys.len() as int] == x);
        }
    }
    assert forall|x: K| #[trigger] lhs.dom().contains(x) implies lhs[x] == rhs[x] by {
        let i = choose|i: int| 0 <= i < keys2.len() && keys2[i] == x;
        lemma_index_of_unique(keys2, i);
        if i < keys.len() {
            assert(keys[i] == x);
            lemma_index_of_unique(keys, i);
        }
    }
    assert(lhs =~= rhs);
}

/// Replacing the value at a key's position overwrites the key's value in the
/// map.
pub proof fn lemma_assoc_update<K, V>(keys: Seq<K>, values: Seq<V>, i: int, v: V)
    requires
        keys.len() == values.len(),
        keys.no_duplicates(),
        0 <= i < keys.len(),
    ensures
        assoc_map(keys, values.update(i, v)) == assoc_map(keys, values).insert(keys[i], v),
{
    let lhs = assoc_map(keys, values.update(i, v));
    let rhs = assoc_map(keys, values).insert(keys[i], v);
    lemma_index_of_unique(keys, i);
    assert forall|x: K| #[trigger] lhs.dom().contains(x) implies lhs[x] == rhs[x] by {
        let j = choose|j: int| 0 <= j < keys.len() && keys[j] == x;
        lemma_index_of_unique(keys, j);
    }
    assert(lhs =~= rhs);
}

/// Swap-removing a position removes that position's key from the map and
/// keeps every other pair.
pub proof fn lemma_assoc_swap_remove<K, V>(keys: Seq<K>, values: Seq<V>, i: int)
    requires
        keys.len() == values.len(),
        keys.no_duplicates(),
        0 <= i < keys.len(),
    ensures
        swap_removed(keys, i).no_duplicates(),
        swap_removed(keys, i).len() == keys.len() - 1,
        forall|x: K| swap_removed(keys, i).contains(x) <==> (keys.contains(x) && x != keys[i]),
        assoc_map(swap_removed(keys, i), swap_removed(values, i)) == assoc_map(
            keys,
            values,
        ).remove(keys[i]),
{
    let keys2 = swap_removed(keys, i);
    let values2 = swap_removed(values, i);
    let last = keys.len() - 1;
    assert forall|a: int, b: int| 0 <= a < keys2.len() && 0 <= b < keys2.len() && a != b
        implies keys2[a] != keys2[b] by {
        let a0 = if a == i { last } else { a };
        let b0 = if b == i { last } else { b };
        assert(keys2[a] == keys[a0]);
        assert(keys2[b] == keys[b0]);
        assert(a0 != b0);
    }
    assert forall|x: K| keys2.contains(x) <==> (keys.contains(x) && x != keys[i]) by {
        if keys2.contains(x) {
            let a = choose|a: int| 0 <= a < keys2.len() && keys2[a] == x;
            let a0 = if a == i { last } else { a };
            assert(keys[a0] == x);
            assert(a0 != i);
        }
        if keys.contains(x) && x != keys[i] {
            let a0 = choose|a: int| 0 <= a < keys.len() && keys[a] == x;
            let a = if a0 == last { i } else { a0 };
            assert(keys2[a] == x);
        }
    }
    let lhs = assoc_map(keys2, values2);
    let rhs = assoc_map(keys, values).remove(keys[i]);
    assert forall|x: K| #[trigger] lhs.dom().contains(x) implies lhs[x] == rhs[x] by {
        let a = choose|a: int| 0 <= a < keys2.len() && keys2[a] == x;
        let a0 = if a == i { last } else { a };
        lemma_index_of_unique(keys2, a);
        assert(keys[a0] == x);
        lemma_index_of_unique(keys, a0);
    }
    assert(lhs =~= rhs);
}

} // verus!
