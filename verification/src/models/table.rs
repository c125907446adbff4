//! Small string-keyed tables kept in insertion order, looked up by their first
//! entry with a key, as a `HashMap` with distinct keys would be.
use vstd::prelude::*;

use crate::text::str_eq;

verus! {

/// Values of `key` per key: for the paths of one plugin, root id to folder.
pub type PathTable = Vec<(String, String)>;

/// A table as plain values.
pub type TableView = Seq<(Seq<char>, Seq<char>)>;

pub open spec fn table_view(t: Seq<(String, String)>) -> TableView {
    t.map_values(|e: (String, String)| (e.0@, e.1@))
}

/// `i` is the first position of `key` in `e`.
pub open spec fn is_first_key<V>(e: Seq<(Seq<char>, V)>, key: Seq<char>, i: int) -> bool {
    &&& 0 <= i < e.len()
    &&& e[i].0 == key
    &&& forall|j: int| 0 <= j < i ==> e[j].0 != key
}

pub open spec fn has_key<V>(e: Seq<(Seq<char>, V)>, key: Seq<char>) -> bool {
    exists|i: int| 0 <= i < e.len() && e[i].0 == key
}

pub open spec fn key_index<V>(e: Seq<(Seq<char>, V)>, key: Seq<char>) -> int {
    choose|i: int| is_first_key(e, key, i)
}

/// The value of the first entry with `key`.
pub open spec fn lookup<V>(e: Seq<(Seq<char>, V)>, key: Seq<char>) -> Option<V> {
    if has_key(e, key) {
        Some(e[key_index(e, key)].1)
    } else {
        None
    }
}

/// `HashMap::insert`: the value of `key` becomes `value`.
pub open spec fn table_insert<V>(e: Seq<(Seq<char>, V)>, key: Seq<char>, value: V) -> Seq<
    (Seq<char>, V),
> {
    if has_key(e, key) {
        e.update(key_index(e, key), (key, value))
    } else {
        e.push((key, value))
    }
}

/// `entry(key).or_insert(value)`: `key` gets `value` only if it has none.
pub open spec fn table_insert_absent<V>(e: Seq<(Seq<char>, V)>, key: Seq<char>, value: V) -> Seq<
    (Seq<char>, V),
> {
    if has_key(e, key) {
        e
    } else {
        e.push((key, value))
    }
}

proof fn lemma_first_key_below<V>(e: Seq<(Seq<char>, V)>, key: Seq<char>, w: int) -> (i: int)
    requires
        0 <= w < e.len(),
        e[w].0 == key,
    ensures
        is_first_key(e, key, i),
        i <= w,
    decreases w,
{
    if exists|j: int| 0 <= j < w && e[j].0 == key {
        let j = choose|j: int| 0 <= j < w && e[j].0 == key;
        lemma_first_key_below(e, key, j)
    } else {
        w
    }
}

/// The first position of a key is unique and is where `key_index` points.
pub proof fn lemma_key_index<V>(e: Seq<(Seq<char>, V)>, key: Seq<char>)
    ensures
        has_key(e, key) ==> is_first_key(e, key, key_index(e, key)),
        forall|i: int| is_first_key(e, key, i) ==> key_index(e, key) == i,
        !has_key(e, key) ==> lookup(e, key) is None,
{
    if has_key(e, key) {
        let w = choose|i: int| 0 <= i < e.len() && e[i].0 == key;
        let _ = lemma_first_key_below(e, key, w);
        let k = key_index(e, key);
        assert forall|i: int| is_first_key(e, key, i) implies k == i by {
            if k < i {
                assert(e[k].0 == key);
            } else if i < k {
                assert(e[i].0 == key);
            }
        }
    }
}

/// After an insert, the key reads back the inserted value and every other key
/// reads back what it read before.
pub proof fn lemma_table_insert<V>(e: Seq<(Seq<char>, V)>, key: Seq<char>, value: V, other: Seq<
    char,
>)
    requires
        other != key,
    ensures
        lookup(table_insert(e, key, value), key) == Some(value),
        lookup(table_insert(e, key, value), other) == lookup(e, other),
{
    lemma_key_index(e, key);
    lemma_key_index(e, other);
    let t = table_insert(e, key, value);
    lemma_key_index(t, key);
    lemma_key_index(t, other);
    if has_key(e, key) {
        let k = key_index(e, key);
        assert(is_first_key(t, key, k));
        if has_key(e, other) {
            let o = key_index(e, other);
            assert(is_first_key(t, other, o));
        } else {
            assert forall|i: int| 0 <= i < t.len() implies t[i].0 != other by {
                if i != k {
                    assert(t[i] == e[i]);
                }
            }
        }
    } else {
        assert(is_first_key(t, key, e.len() as int));
        if has_key(e, other) {
            let o = key_index(e, other);
            assert(is_first_key(t, other, o));
        } else {
            assert forall|i: int| 0 <= i < t.len() implies t[i].0 != other by {
                if i < e.len() {
                    assert(t[i] == e[i]);
                }
            }
        }
    }
}

/// After an insert-if-absent, a key that had a value keeps it, a key that had
/// none reads back the inserted value, and every other key is unchanged.
pub proof fn lemma_table_insert_absent<V>(
    e: Seq<(Seq<char>, V)>,
    key: Seq<char>,
    value: V,
    other: Seq<char>,
)
    requires
        other != key,
    ensures
        lookup(table_insert_absent(e, key, value), key) == if has_key(e, key) {
            lookup(e, key)
        } else {
            Some(value)
        },
        lookup(table_insert_absent(e, key, value), other) == lookup(e, other),
{
    lemma_key_index(e, key);
    lemma_key_index(e, other);
    let t = table_insert_absent(e, key, value);
    lemma_key_index(t, key);
    lemma_key_index(t, other);
    if !has_key(e, key) {
        assert(is_first_key(t, key, e.len() as int));
        if has_key(e, other) {
            let o = key_index(e, other);
            assert(is_first_key(t, other, o));
        } else {
            assert forall|i: int| 0 <= i < t.len() implies t[i].0 != other by {
                if i < e.len() {
                    assert(t[i] == e[i]);
                }
            }
        }
    }
}

/// No key occurs twice, as in a `HashMap`.
pub open spec fn distinct_keys<V>(e: Seq<(Seq<char>, V)>) -> bool {
    forall|i: int, j: int| 0 <= i < j < e.len() ==> (#[trigger] e[i]).0 != (#[trigger] e[j]).0
}

/// Inserts keep the keys distinct.
pub proof fn lemma_insert_keeps_keys_distinct<V>(e: Seq<(Seq<char>, V)>, key: Seq<char>, value: V)
    requires
        distinct_keys(e),
    ensures
        distinct_keys(table_insert(e, key, value)),
        distinct_keys(table_insert_absent(e, key, value)),
{
    lemma_key_index(e, key);
    if has_key(e, key) {
        let k = key_index(e, key);
        let t = table_insert(e, key, value);
        assert forall|i: int, j: int| 0 <= i < j < t.len() implies (#[trigger] t[i]).0 != (#[trigger] t[j]).0 by {
            assert(t[i].0 == e[i].0);
            assert(t[j].0 == e[j].0);
        }
    } else {
        let t = e.push((key, value));
        assert forall|i: int, j: int| 0 <= i < j < t.len() implies (#[trigger] t[i]).0 != (#[trigger] t[j]).0 by {
            if j == e.len() {
                assert(t[i] == e[i]);
            } else {
                assert(t[i] == e[i] && t[j] == e[j]);
            }
        }
    }
}

/// Position of the first entry of `t` with key `key`.
pub fn find_key<V>(t: &Vec<(String, V)>, key: &str) -> (r: Option<usize>)
    ensures
        match r {
            Some(i) => i < t@.len() && t@[i as int].0@ == key@ && forall|j: int|
                0 <= j < i ==> t@[j].0@ != key@,
            None => forall|j: int| 0 <= j < t@.len() ==> t@[j].0@ != key@,
        },
{
    let mut i: usize = 0;
    while i < t.len()
        invariant
            i <= t.len(),
            forall|j: int| 0 <= j < i ==> t@[j].0@ != key@,
        decreases t.len() - i,
    {
        if str_eq(t[i].0.as_str(), key) {
            return Some(i);
        }
        i = i + 1;
    }
    None
}

} // verus!
