//! Association lists keyed by account names. Keys are unique, and the
//! abstract view is a map from the key's characters to the stored value.

use vstd::prelude::*;

verus! {

/// The map a list of entries denotes: later entries win, though with
/// unique keys each key appears once.
pub open spec fn as_map<V>(entries: Seq<(String, V)>) -> Map<Seq<char>, V>
    decreases entries.len(),
{
    if entries.len() == 0 {
        Map::empty()
    } else {
        as_map(entries.drop_last()).insert(entries.last().0@, entries.last().1)
    }
}

/// No two entries share a key.
pub open spec fn keys_unique<V>(entries: Seq<(String, V)>) -> bool {
    forall|i: int, j: int|
        0 <= i < j < entries.len() ==> (#[trigger] entries[i]).0@ != (#[trigger] entries[j]).0@
}

/// A key no entry carries is outside the denoted map's domain.
pub proof fn lemma_as_map_absent<V>(entries: Seq<(String, V)>, who: Seq<char>)
    requires
        forall|i: int| 0 <= i < entries.len() ==> (#[trigger] entries[i]).0@ != who,
    ensures
        !as_map(entries).dom().contains(who),
    decreases entries.len(),
{
    if entries.len() > 0 {
        lemma_as_map_absent(entries.drop_last(), who);
    }
}

/// With unique keys, the entry carrying a key gives that key's value in
/// the denoted map.
pub proof fn lemma_as_map_found<V>(entries: Seq<(String, V)>, i: int)
    requires
        keys_unique(entries),
        0 <= i < entries.len(),
    ensures
        as_map(entries).dom().contains(entries[i].0@),
        as_map(entries)[entries[i].0@] == entries[i].1,
    decreases entries.len(),
{
    if i < entries.len() - 1 {
        assert(entries.drop_last()[i] == entries[i]);
        lemma_as_map_found(entries.drop_last(), i);
        assert(entries[i].0@ != entries.last().0@);
    }
}

/// Overwriting an entry's value in place denotes inserting at its key.
pub proof fn lemma_as_map_update<V>(entries: Seq<(String, V)>, i: int, v: V)
    requires
        keys_unique(entries),
        0 <= i < entries.len(),
    ensures
        as_map(entries.update(i, (entries[i].0, v))) == as_map(entries).insert(
            entries[i].0@,
            v,
        ),
        keys_unique(entries.update(i, (entries[i].0, v))),
    decreases entries.len(),
{
    let k = entries[i].0;
    let updated = entries.update(i, (k, v));
    assert forall|x: int, y: int|
        0 <= x < y < updated.len() implies (#[trigger] updated[x]).0@ != (
    #[trigger] updated[y]).0@ by {
        assert(updated[x].0@ == entries[x].0@);
        assert(updated[y].0@ == entries[y].0@);
    }
    if i == entries.len() - 1 {
        assert(updated.drop_last() =~= entries.drop_last());
        assert(updated.last() == (k, v));
    } else {
        let dl = entries.drop_last();
        assert(updated.drop_last() =~= dl.update(i, (k, v)));
        assert(dl[i] == entries[i]);
        lemma_as_map_update(dl, i, v);
        assert(k@ != entries.last().0@);
        assert(as_map(dl).insert(k@, v).insert(entries.last().0@, entries.last().1)
            =~= as_map(dl).insert(entries.last().0@, entries.last().1).insert(k@, v));
        assert(updated.last() == entries.last());
    }
}

/// Appending an entry with a fresh key denotes inserting it, and keeps
/// keys unique.
pub proof fn lemma_as_map_push<V>(entries: Seq<(String, V)>, key: String, v: V)
    requires
        keys_unique(entries),
        forall|i: int| 0 <= i < entries.len() ==> (#[trigger] entries[i]).0@ != key@,
    ensures
        as_map(entries.push((key, v))) == as_map(entries).insert(key@, v),
        keys_unique(entries.push((key, v))),
{
    assert(entries.push((key, v)).drop_last() =~= entries);
}

/// The index of the entry carrying the given key, if one does.
#[verifier::loop_isolation(false)]
pub fn find_index<V>(entries: &Vec<(String, V)>, who: &String) -> (r: Option<usize>)
    ensures
        match r {
            Some(i) => i < entries@.len() && entries@[i as int].0@ == who@,
            None => forall|i: int|
                0 <= i < entries@.len() ==> (#[trigger] entries@[i]).0@ != who@,
        },
{
    let mut i: usize = 0;
    while i < entries.len()
        invariant
            i <= entries@.len(),
            forall|j: int| 0 <= j < i ==> (#[trigger] entries@[j]).0@ != who@,
        decreases entries@.len() - i,
    {
        if entries[i].0 == *who {
            return Some(i);
        }
        i = i + 1;
    }
    None
}

} // verus!
