//! Association lists as finite maps: the map that a sequence of key-value
//! pairs denotes, and what pushing, removing and dropping entries do to it.

use vstd::prelude::*;

verus! {

/// The map that a sequence of entries denotes. A later entry for a key
/// overrides an earlier one.
pub open spec fn assoc_map<K, V>(entries: Seq<(K, V)>) -> Map<K, V>
    decreases entries.len(),
{
    if entries.len() == 0 {
        Map::empty()
    } else {
        assoc_map(entries.drop_last()).insert(entries.last().0, entries.last().1)
    }
}

/// No key occurs twice.
pub open spec fn distinct_keys<K, V>(entries: Seq<(K, V)>) -> bool {
    forall|i: int, j: int| 0 <= i < j < entries.len() ==> entries[i].0 != entries[j].0
}

/// Some entry has key `key`.
pub open spec fn has_key<K, V>(entries: Seq<(K, V)>, key: K) -> bool {
    exists|i: int| 0 <= i < entries.len() && #[trigger] entries[i].0 == key
}

/// The keys of the map are the keys of the entries, and there are finitely
/// many of them.
pub proof fn lemma_assoc_map_keys<K, V>(entries: Seq<(K, V)>)
    ensures
        forall|key: K| #[trigger] assoc_map(entries).contains_key(key) <==> has_key(entries, key),
        assoc_map(entries).dom().finite(),
    decreases entries.len(),
{
    if entries.len() > 0 {
        let front = entries.drop_last();
        lemma_assoc_map_keys(front);
        assert forall|key: K| #[trigger]
            assoc_map(entries).contains_key(key) <==> has_key(entries, key) by {
            if has_key(entries, key) {
                let i = choose|i: int| 0 <= i < entries.len() && #[trigger] entries[i].0 == key;
                if i < entries.len() - 1 {
                    assert(front[i].0 == key);
                    assert(has_key(front, key));
                }
            }
            if assoc_map(entries).contains_key(key) && key != entries.last().0 {
                assert(has_key(front, key));
                let i = choose|i: int| 0 <= i < front.len() && #[trigger] front[i].0 == key;
                assert(entries[i].0 == key);
            }
            if key == entries.last().0 {
                assert(entries[entries.len() - 1].0 == key);
            }
        }
    }
}

/// Where no key occurs twice, every entry is what the map holds for its key.
pub proof fn lemma_assoc_map_entry<K, V>(entries: Seq<(K, V)>, i: int)
    requires
        distinct_keys(entries),
        0 <= i < entries.len(),
    ensures
        assoc_map(entries).contains_key(entries[i].0),
        assoc_map(entries)[entries[i].0] == entries[i].1,
    decreases entries.len(),
{
    if i < entries.len() - 1 {
        let front = entries.drop_last();
        assert(front[i] == entries[i]);
        lemma_assoc_map_entry(front, i);
    }
}

/// Pushing an entry inserts it into the map.
pub proof fn lemma_assoc_map_push<K, V>(entries: Seq<(K, V)>, key: K, value: V)
    ensures
        assoc_map(entries.push((key, value))) == assoc_map(entries).insert(key, value),
{
    assert(entries.push((key, value)).drop_last() =~= entries);
}

/// Where no key occurs twice, removing an entry removes its key from the
/// map and leaves the other keys as they were.
pub proof fn lemma_assoc_map_remove<K, V>(entries: Seq<(K, V)>, i: int)
    requires
        distinct_keys(entries),
        0 <= i < entries.len(),
    ensures
        assoc_map(entries.remove(i)) == assoc_map(entries).remove(entries[i].0),
        distinct_keys(entries.remove(i)),
    decreases entries.len(),
{
    let rest = entries.remove(i);
    let front = entries.drop_last();
    if i == entries.len() - 1 {
        assert(rest =~= front);
        lemma_assoc_map_keys(front);
        if has_key(front, entries[i].0) {
            let j = choose|j: int| 0 <= j < front.len() && #[trigger] front[j].0 == entries[i].0;
            assert(entries[j].0 == entries[i].0);
        }
        assert(assoc_map(front) =~= assoc_map(entries).remove(entries[i].0));
    } else {
        assert(front[i] == entries[i]);
        lemma_assoc_map_remove(front, i);
        assert(rest.drop_last() =~= front.remove(i));
        assert(rest.last() == entries.last());
        assert(assoc_map(rest) =~= assoc_map(entries).remove(entries[i].0));
    }
}

} // verus!
