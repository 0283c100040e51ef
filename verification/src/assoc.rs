//! Association lists keyed by text: what stands in for a map from names to values.

use vstd::prelude::*;

verus! {

/// Index of the entry with the key `key` among the first `upto`, the first such.
pub open spec fn key_index<V>(entries: Seq<(Seq<char>, V)>, key: Seq<char>, upto: int) -> Option<
    int,
>
    decreases upto,
{
    if upto <= 0 || upto > entries.len() {
        None
    } else {
        match key_index(entries, key, upto - 1) {
            Some(i) => Some(i),
            None => if entries[upto - 1].0 == key {
                Some(upto - 1)
            } else {
                None
            },
        }
    }
}

/// The value stored under `key`, if any.
pub open spec fn entry_at<V>(entries: Seq<(Seq<char>, V)>, key: Seq<char>) -> Option<V> {
    match key_index(entries, key, entries.len() as int) {
        Some(i) => Some(entries[i].1),
        None => None,
    }
}

/// The entries after `value` is stored under `key`: in the place of the entry that had the
/// key, or at the end where none had.
pub open spec fn with_entry<V>(
    entries: Seq<(Seq<char>, V)>,
    key: Seq<char>,
    value: V,
) -> Seq<(Seq<char>, V)> {
    match key_index(entries, key, entries.len() as int) {
        Some(i) => entries.update(i, (key, value)),
        None => entries.push((key, value)),
    }
}

/// Whether no key occurs twice.
pub open spec fn keys_distinct<V>(entries: Seq<(Seq<char>, V)>) -> bool {
    forall|i: int, j: int|
        0 <= i < j < entries.len() ==> (#[trigger] entries[i]).0 != (#[trigger] entries[j]).0
}

/// The index that is found holds the key and is the first that does; where none is found,
/// no entry holds the key.
pub proof fn lemma_key_index<V>(entries: Seq<(Seq<char>, V)>, key: Seq<char>, upto: int)
    requires
        0 <= upto <= entries.len(),
    ensures
        match key_index(entries, key, upto) {
            Some(i) => 0 <= i < upto && entries[i].0 == key && forall|k: int|
                0 <= k < i ==> (#[trigger] entries[k]).0 != key,
            None => forall|k: int| 0 <= k < upto ==> (#[trigger] entries[k]).0 != key,
        },
    decreases upto,
{
    if upto > 0 {
        lemma_key_index(entries, key, upto - 1);
    }
}

/// Once a key is found, looking further finds the same fact.
pub proof fn lemma_key_index_stable<V>(
    entries: Seq<(Seq<char>, V)>,
    key: Seq<char>,
    a: int,
    b: int,
)
    requires
        0 <= a <= b <= entries.len(),
        key_index(entries, key, a) is Some,
    ensures
        key_index(entries, key, b) == key_index(entries, key, a),
    decreases b - a,
{
    if a < b {
        lemma_key_index_stable(entries, key, a, b - 1);
    }
}

/// Storing a value keeps the keys distinct, and the value is then found under its key.
pub proof fn lemma_with_entry_distinct<V>(
    entries: Seq<(Seq<char>, V)>,
    key: Seq<char>,
    value: V,
)
    requires
        keys_distinct(entries),
    ensures
        keys_distinct(with_entry(entries, key, value)),
        entry_at(with_entry(entries, key, value), key) == Some(value),
{
    lemma_key_index(entries, key, entries.len() as int);
    let after = with_entry(entries, key, value);
    lemma_key_index(after, key, after.len() as int);
    match key_index(entries, key, entries.len() as int) {
        Some(i) => {
            assert(after[i].0 == key);
            assert forall|a: int, b: int| 0 <= a < b < after.len() implies (
            #[trigger] after[a]).0 != (#[trigger] after[b]).0 by {
                assert(after[a].0 == entries[a].0);
                assert(after[b].0 == entries[b].0);
            }
            let j = key_index(after, key, after.len() as int)->0;
            if j != i {
                assert(after[j].0 == after[i].0);
            }
        },
        None => {
            assert(after[entries.len() as int].0 == key);
            assert forall|a: int, b: int| 0 <= a < b < after.len() implies (
            #[trigger] after[a]).0 != (#[trigger] after[b]).0 by {
                if b < entries.len() {
                    assert(after[a] == entries[a]);
                    assert(after[b] == entries[b]);
                } else {
                    assert(after[a] == entries[a]);
                }
            }
            let j = key_index(after, key, after.len() as int)->0;
            if j < entries.len() {
                assert(after[j] == entries[j]);
            }
        },
    }
}

} // verus!
