use vstd::prelude::*;

verus! {

/// The position of the first entry at or after `from` with the key `key`.
pub open spec fn key_position<V>(entries: Seq<(Seq<char>, V)>, key: Seq<char>, from: int) -> Option<int>
    decreases entries.len() - from,
{
    if from < 0 || from >= entries.len() {
        None
    } else if entries[from].0 == key {
        Some(from)
    } else {
        key_position(entries, key, from + 1)
    }
}

/// Whether no two entries have the same key.
pub open spec fn keys_distinct<V>(entries: Seq<(Seq<char>, V)>) -> bool {
    forall|i: int, j: int|
        0 <= i < j < entries.len() ==> (#[trigger] entries[i]).0 != (#[trigger] entries[j]).0
}

/// The map that a sequence of entries stands for.
pub open spec fn entries_map<V>(entries: Seq<(Seq<char>, V)>) -> Map<Seq<char>, V> {
    Map::new(
        |key: Seq<char>| key_position(entries, key, 0) is Some,
        |key: Seq<char>| entries[key_position(entries, key, 0).unwrap()].1,
    )
}

/// `key_position` finds a key that an entry has, and then the first entry with it.
pub proof fn lemma_key_position<V>(entries: Seq<(Seq<char>, V)>, key: Seq<char>, from: int)
    requires
        0 <= from,
    ensures
        match key_position(entries, key, from) {
            Some(k) => from <= k < entries.len() && entries[k].0 == key && forall|i: int|
                from <= i < k ==> (#[trigger] entries[i]).0 != key,
            None => forall|i: int| from <= i < entries.len() ==> (#[trigger] entries[i]).0 != key,
        },
    decreases entries.len() - from,
{
    if from < entries.len() && entries[from].0 != key {
        lemma_key_position(entries, key, from + 1);
    }
}

/// With distinct keys, the position of a key is the position of the entry that has it.
pub proof fn lemma_key_position_is<V>(entries: Seq<(Seq<char>, V)>, at: int)
    requires
        keys_distinct(entries),
        0 <= at < entries.len(),
    ensures
        key_position(entries, entries[at].0, 0) == Some(at),
{
    lemma_key_position(entries, entries[at].0, 0);
    let found = key_position(entries, entries[at].0, 0);
    if found is Some && found.unwrap() < at {
        assert(entries[found.unwrap()].0 != entries[at].0);
    }
}

/// A new key at the end of the entries is a new key in the map.
pub proof fn lemma_entries_push<V>(entries: Seq<(Seq<char>, V)>, key: Seq<char>, value: V)
    requires
        keys_distinct(entries),
        key_position(entries, key, 0) is None,
    ensures
        keys_distinct(entries.push((key, value))),
        entries_map(entries.push((key, value))) == entries_map(entries).insert(key, value),
{
    let after = entries.push((key, value));
    lemma_key_position(entries, key, 0);
    assert(keys_distinct(after)) by {
        assert forall|i: int, j: int| 0 <= i < j < after.len() implies (#[trigger] after[i]).0
            != (#[trigger] after[j]).0 by {
            if j < entries.len() {
                assert(entries[i].0 != entries[j].0);
            } else {
                assert(entries[i].0 != key);
            }
        }
    }
    let target = entries_map(entries).insert(key, value);
    assert forall|k: Seq<char>|
        (#[trigger] entries_map(after).dom().contains(k)) == target.dom().contains(k) && (
        entries_map(after).dom().contains(k) ==> entries_map(after)[k] == target[k]) by {
        lemma_key_position(entries, k, 0);
        lemma_key_position(after, k, 0);
        if k == key {
            lemma_key_position_is(after, entries.len() as int);
        } else {
            match key_position(entries, k, 0) {
                Some(m) => {
                    assert(after[m] == entries[m]);
                    lemma_key_position_is(after, m);
                },
                None => {
                    match key_position(after, k, 0) {
                        Some(m) => {
                            if m < entries.len() {
                                assert(entries[m].0 != k);
                            }
                        },
                        None => {},
                    }
                },
            }
        }
    }
    assert(entries_map(after) =~= target);
}

/// A new value in the place of an entry is a new value for its key in the map.
pub proof fn lemma_entries_update<V>(entries: Seq<(Seq<char>, V)>, at: int, value: V)
    requires
        keys_distinct(entries),
        0 <= at < entries.len(),
    ensures
        keys_distinct(entries.update(at, (entries[at].0, value))),
        entries_map(entries.update(at, (entries[at].0, value))) == entries_map(entries).insert(
            entries[at].0,
            value,
        ),
{
    let key = entries[at].0;
    let after = entries.update(at, (key, value));
    assert(keys_distinct(after)) by {
        assert forall|i: int, j: int| 0 <= i < j < after.len() implies (#[trigger] after[i]).0
            != (#[trigger] after[j]).0 by {
            assert(entries[i].0 != entries[j].0);
        }
    }
    let target = entries_map(entries).insert(key, value);
    assert forall|k: Seq<char>|
        (#[trigger] entries_map(after).dom().contains(k)) == target.dom().contains(k) && (
        entries_map(after).dom().contains(k) ==> entries_map(after)[k] == target[k]) by {
        lemma_key_position(entries, k, 0);
        lemma_key_position(after, k, 0);
        if k == key {
            lemma_key_position_is(after, at);
            lemma_key_position_is(entries, at);
        } else {
            match key_position(entries, k, 0) {
                Some(m) => {
                    assert(after[m] == entries[m]);
                    lemma_key_position_is(after, m);
                },
                None => {
                    match key_position(after, k, 0) {
                        Some(m) => {
                            assert(entries[m].0 == after[m].0);
                        },
                        None => {},
                    }
                },
            }
        }
    }
    assert(entries_map(after) =~= target);
}

/// An entry taken out of the entries is a key taken out of the map.
pub proof fn lemma_entries_remove<V>(entries: Seq<(Seq<char>, V)>, at: int)
    requires
        keys_distinct(entries),
        0 <= at < entries.len(),
    ensures
        keys_distinct(entries.remove(at)),
        entries_map(entries.remove(at)) == entries_map(entries).remove(entries[at].0),
{
    let key = entries[at].0;
    let after = entries.remove(at);
    assert(keys_distinct(after)) by {
        assert forall|i: int, j: int| 0 <= i < j < after.len() implies (#[trigger] after[i]).0
            != (#[trigger] after[j]).0 by {
            let a = if i < at {
                i
            } else {
                i + 1
            };
            let b = if j < at {
                j
            } else {
                j + 1
            };
            assert(entries[a].0 != entries[b].0);
        }
    }
    let target = entries_map(entries).remove(key);
    assert forall|k: Seq<char>|
        (#[trigger] entries_map(after).dom().contains(k)) == target.dom().contains(k) && (
        entries_map(after).dom().contains(k) ==> entries_map(after)[k] == target[k]) by {
        lemma_key_position(entries, k, 0);
        lemma_key_position(after, k, 0);
        if k == key {
            match key_position(after, k, 0) {
                Some(m) => {
                    let a = if m < at {
                        m
                    } else {
                        m + 1
                    };
                    assert(after[m] == entries[a]);
                    if a < at {
                        assert(entries[a].0 != entries[at].0);
                    } else {
                        assert(entries[at].0 != entries[a].0);
                    }
                },
                None => {},
            }
        } else {
            match key_position(entries, k, 0) {
                Some(m) => {
                    let a = if m < at {
                        m
                    } else {
                        m - 1
                    };
                    assert(after[a] == entries[m]);
                    lemma_key_position_is(after, a);
                },
                None => {
                    match key_position(after, k, 0) {
                        Some(m) => {
                            let a = if m < at {
                                m
                            } else {
                                m + 1
                            };
                            assert(after[m] == entries[a]);
                            assert(entries[a].0 != k);
                        },
                        None => {},
                    }
                },
            }
        }
    }
    assert(entries_map(after) =~= target);
}

} // verus!
