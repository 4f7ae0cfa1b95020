//! Association lists keyed by names, where a later entry shadows an earlier
//! one: the model of the environment's tables and scoped stacks.

use vstd::prelude::*;
use crate::text::str_eq;

verus! {

/// The value of the last entry of `key` in `entries`, if any: a later
/// entry overrides an earlier one.
pub open spec fn spec_assoc<V>(entries: Seq<(Seq<char>, V)>, key: Seq<char>) -> Option<V>
    decreases entries.len(),
{
    if entries.len() == 0 {
        None
    } else if entries.last().0 == key {
        Some(entries.last().1)
    } else {
        spec_assoc(entries.drop_last(), key)
    }
}

/// `entries` without the last entry of `key` (unchanged when there is none).
pub open spec fn spec_remove_last<V>(entries: Seq<(Seq<char>, V)>, key: Seq<char>) -> Seq<(Seq<char>, V)>
    decreases entries.len(),
{
    if entries.len() == 0 {
        entries
    } else if entries.last().0 == key {
        entries.drop_last()
    } else {
        spec_remove_last(entries.drop_last(), key).push(entries.last())
    }
}

/// Removes the last entry of each of `keys`, the last key first: what
/// leaving nested scopes opened for `keys` (in order) does.
pub open spec fn spec_unwind<V>(entries: Seq<(Seq<char>, V)>, keys: Seq<Seq<char>>) -> Seq<(Seq<char>, V)>
    decreases keys.len(),
{
    if keys.len() == 0 {
        entries
    } else {
        spec_unwind(spec_remove_last(entries, keys.last()), keys.drop_last())
    }
}

/// `entries` without any entry of `key`.
pub open spec fn spec_without<V>(entries: Seq<(Seq<char>, V)>, key: Seq<char>) -> Seq<(Seq<char>, V)>
    decreases entries.len(),
{
    if entries.len() == 0 {
        entries
    } else if entries.last().0 == key {
        spec_without(entries.drop_last(), key)
    } else {
        spec_without(entries.drop_last(), key).push(entries.last())
    }
}

/// `entries` where `key` is set to `value`, replacing whatever it held.
pub open spec fn spec_insert<V>(entries: Seq<(Seq<char>, V)>, key: Seq<char>, value: V) -> Seq<(Seq<char>, V)> {
    spec_without(entries, key).push((key, value))
}

/// `entries` after setting each of `items` in turn (see [`spec_insert`]).
pub open spec fn spec_insert_all<V>(entries: Seq<(Seq<char>, V)>, items: Seq<(Seq<char>, V)>) -> Seq<(Seq<char>, V)>
    decreases items.len(),
{
    if items.len() == 0 {
        entries
    } else {
        spec_insert(spec_insert_all(entries, items.drop_last()), items.last().0, items.last().1)
    }
}

/// Some entry of `entries` has the key `key`.
pub open spec fn has_key<V>(entries: Seq<(Seq<char>, V)>, key: Seq<char>) -> bool {
    exists|k: int| 0 <= k < entries.len() && (#[trigger] entries[k]).0 == key
}

/// The keys of `entries`, in order.
pub open spec fn spec_keys<V>(entries: Seq<(Seq<char>, V)>) -> Seq<Seq<char>> {
    entries.map_values(|e: (Seq<char>, V)| e.0)
}

/// No key occurs twice in `entries`.
pub open spec fn keys_distinct<V>(entries: Seq<(Seq<char>, V)>) -> bool {
    forall|i: int, j: int| 0 <= i < j < entries.len() ==> (#[trigger] entries[i]).0 != (#[trigger] entries[j]).0
}

/// Position `i` holds the last entry of its key.
pub open spec fn is_last_of<V>(entries: Seq<(Seq<char>, V)>, i: int) -> bool {
    &&& 0 <= i < entries.len()
    &&& forall|j: int| i < j < entries.len() ==> (#[trigger] entries[j]).0 != entries[i].0
}

//########################### LEMMAS

/// The last entry of a key is what the list associates with it.
pub proof fn lemma_assoc_last<V>(entries: Seq<(Seq<char>, V)>, i: int)
    requires
        is_last_of(entries, i),
    ensures
        spec_assoc(entries, entries[i].0) == Some(entries[i].1),
    decreases entries.len(),
{
    if i < entries.len() - 1 {
        let d = entries.drop_last();
        assert(entries.last() == entries[entries.len() - 1]);
        assert forall|j: int| i < j < d.len() implies (#[trigger] d[j]).0 != d[i].0 by {
            assert(d[j] == entries[j]);
        }
        lemma_assoc_last(d, i);
    }
}

/// A key without entries is associated with nothing.
pub proof fn lemma_assoc_absent<V>(entries: Seq<(Seq<char>, V)>, key: Seq<char>)
    requires
        forall|j: int| 0 <= j < entries.len() ==> (#[trigger] entries[j]).0 != key,
    ensures
        spec_assoc(entries, key) is None,
    decreases entries.len(),
{
    if entries.len() > 0 {
        let d = entries.drop_last();
        assert(entries.last() == entries[entries.len() - 1]);
        assert forall|j: int| 0 <= j < d.len() implies (#[trigger] d[j]).0 != key by {
            assert(d[j] == entries[j]);
        }
        lemma_assoc_absent(d, key);
    }
}

/// What a key is associated with is the value of its last entry.
pub proof fn lemma_assoc_found<V>(entries: Seq<(Seq<char>, V)>, key: Seq<char>)
    ensures
        spec_assoc(entries, key) matches Some(v) ==> exists|i: int|
            is_last_of(entries, i) && (#[trigger] entries[i]) == (key, v),
        spec_assoc(entries, key) is None ==> forall|j: int| 0 <= j < entries.len() ==> (#[trigger] entries[j]).0 != key,
    decreases entries.len(),
{
    if entries.len() > 0 {
        let n = entries.len() - 1;
        let d = entries.drop_last();
        lemma_assoc_found(d, key);
        if entries.last().0 == key {
            assert(entries[n] == entries.last());
            assert(is_last_of(entries, n));
        } else {
            if spec_assoc(d, key) is Some {
                let v = spec_assoc(d, key).unwrap();
                let i = choose|i: int| is_last_of(d, i) && (#[trigger] d[i]) == (key, v);
                assert(entries[i] == d[i]);
                assert forall|j: int| i < j < entries.len() implies (#[trigger] entries[j]).0 != entries[i].0 by {
                    if j < n {
                        assert(d[j] == entries[j]);
                    }
                }
                assert(is_last_of(entries, i));
            } else {
                assert forall|j: int| 0 <= j < entries.len() implies (#[trigger] entries[j]).0 != key by {
                    if j < n {
                        assert(d[j] == entries[j]);
                    }
                }
            }
        }
    }
}

/// Removing the last entry of a key is removing the entry at its position.
pub proof fn lemma_remove_last_at<V>(entries: Seq<(Seq<char>, V)>, i: int)
    requires
        is_last_of(entries, i),
    ensures
        spec_remove_last(entries, entries[i].0) == entries.remove(i),
    decreases entries.len(),
{
    let n = entries.len() - 1;
    let d = entries.drop_last();
    assert(entries.last() == entries[n]);
    if i == n {
        assert(entries.remove(i) =~= d);
    } else {
        assert forall|j: int| i < j < d.len() implies (#[trigger] d[j]).0 != d[i].0 by {
            assert(d[j] == entries[j]);
        }
        lemma_remove_last_at(d, i);
        assert(entries.remove(i) =~= d.remove(i).push(entries.last()));
    }
}

/// Removing the last entry of a key that has none changes nothing.
pub proof fn lemma_remove_last_absent<V>(entries: Seq<(Seq<char>, V)>, key: Seq<char>)
    requires
        forall|j: int| 0 <= j < entries.len() ==> (#[trigger] entries[j]).0 != key,
    ensures
        spec_remove_last(entries, key) == entries,
    decreases entries.len(),
{
    if entries.len() > 0 {
        let d = entries.drop_last();
        assert(entries.last() == entries[entries.len() - 1]);
        assert forall|j: int| 0 <= j < d.len() implies (#[trigger] d[j]).0 != key by {
            assert(d[j] == entries[j]);
        }
        lemma_remove_last_absent(d, key);
        assert(d.push(entries.last()) =~= entries);
    }
}

/// Prepending an entry only matters for keys the rest does not hold.
pub proof fn lemma_assoc_prepend<V>(e: (Seq<char>, V), rest: Seq<(Seq<char>, V)>, key: Seq<char>)
    ensures
        spec_assoc(seq![e] + rest, key) == match spec_assoc(rest, key) {
            Some(v) => Some(v),
            None => if e.0 == key {
                Some(e.1)
            } else {
                None
            },
        },
    decreases rest.len(),
{
    let s = seq![e] + rest;
    if rest.len() == 0 {
        assert(s.drop_last() =~= Seq::<(Seq<char>, V)>::empty());
        assert(s.last() == e);
    } else {
        assert(s.drop_last() =~= seq![e] + rest.drop_last());
        assert(s.last() == rest.last());
        lemma_assoc_prepend(e, rest.drop_last(), key);
    }
}

/// Taking out every entry of a key leaves the others' associations.
pub proof fn lemma_assoc_without<V>(entries: Seq<(Seq<char>, V)>, key: Seq<char>, other: Seq<char>)
    ensures
        spec_assoc(spec_without(entries, key), other) == if other == key {
            None
        } else {
            spec_assoc(entries, other)
        },
    decreases entries.len(),
{
    if entries.len() > 0 {
        let d = entries.drop_last();
        lemma_assoc_without(d, key, other);
        if entries.last().0 != key {
            let w = spec_without(d, key).push(entries.last());
            assert(w.drop_last() =~= spec_without(d, key));
            assert(w.last() == entries.last());
        }
    }
}

//########################### EXECUTABLE HELPERS

/// The position of the last entry of `name` in `entries`, if any.
pub fn last_index_of<V>(entries: &Vec<(String, V)>, name: &str) -> (r: Option<usize>)
    ensures
        match r {
            Some(i) => i < entries@.len() && entries@[i as int].0@ == name@ && forall|j: int|
                i < j < entries@.len() ==> (#[trigger] entries@[j]).0@ != name@,
            None => forall|j: int| 0 <= j < entries@.len() ==> (#[trigger] entries@[j]).0@ != name@,
        },
{
    let mut i: usize = entries.len();
    while i > 0
        invariant
            i <= entries@.len(),
            forall|j: int| i <= j < entries@.len() ==> (#[trigger] entries@[j]).0@ != name@,
        decreases i,
    {
        if str_eq(entries[i - 1].0.as_str(), name) {
            return Some(i - 1);
        }
        i = i - 1;
    }
    None
}

/// Whether `names` holds `name`.
pub fn contains_name(names: &Vec<String>, name: &str) -> (r: bool)
    ensures
        r == exists|j: int| 0 <= j < names@.len() && (#[trigger] names@[j])@ == name@,
{
    let mut i: usize = 0;
    while i < names.len()
        invariant
            i <= names@.len(),
            forall|j: int| 0 <= j < i ==> (#[trigger] names@[j])@ != name@,
        decreases names@.len() - i,
    {
        if str_eq(names[i].as_str(), name) {
            return true;
        }
        i = i + 1;
    }
    false
}

/// Whether position `i` holds the last entry of its name.
pub fn is_last_entry<V>(entries: &Vec<(String, V)>, i: usize) -> (r: bool)
    requires
        i < entries@.len(),
    ensures
        r == forall|j: int| i < j < entries@.len() ==> (#[trigger] entries@[j]).0@ != entries@[i as int].0@,
{
    let n = entries.len();
    let mut j: usize = i + 1;
    while j < n
        invariant
            i < j <= entries@.len(),
            n == entries@.len(),
            forall|k: int| i < k < j ==> (#[trigger] entries@[k]).0@ != entries@[i as int].0@,
        decreases entries@.len() - j,
    {
        if str_eq(entries[j].0.as_str(), entries[i].0.as_str()) {
            return false;
        }
        j = j + 1;
    }
    true
}

/// Whether some entry of `entries` has the name `name`.
pub fn has_entry<V>(entries: &Vec<(String, V)>, name: &str) -> (r: bool)
    ensures
        r == exists|k: int| 0 <= k < entries@.len() && (#[trigger] entries@[k]).0@ == name@,
{
    match last_index_of(entries, name) {
        Some(i) => {
            assert(entries@[i as int].0@ == name@);
            true
        },
        None => false,
    }
}

} // verus!
