use vstd::prelude::*;

use crate::value::{find_key, first_key_at, same, values_equal, Value};

verus! {

/// Whether the state `doc` satisfies the sparse pattern `filter`.
///
/// Two mappings match when every key of the filter is found in the document and
/// its filter value matches the value found there; extra document keys do not
/// count. Two sequences match when every filter element matches every document
/// element. Any other pair matches when the two trees are equal.
pub open spec fn satisfies(filter: Value, doc: Value) -> bool
    decreases filter,
{
    match (filter, doc) {
        (Value::Mapping(fs), Value::Mapping(ds)) => forall|i: int|
            0 <= i < fs@.len() ==> entry_matches(#[trigger] fs@[i], ds@),
        (Value::Sequence(fs), Value::Sequence(ds)) => forall|i: int, j: int|
            0 <= i < fs@.len() && 0 <= j < ds@.len() ==> satisfies(#[trigger] fs@[i], #[trigger] ds@[j]),
        _ => same(filter, doc),
    }
}

/// The key of the filter entry `e` is present in `entries`, and the value under
/// it matches the filter value.
pub open spec fn entry_matches(e: (Value, Value), entries: Seq<(Value, Value)>) -> bool
    decreases e,
{
    exists|j: int| #[trigger] first_key_at(entries, e.0, j) && satisfies(e.1, entries[j].1)
}

proof fn first_key_unique(entries: Seq<(Value, Value)>, key: Value, j1: int, j2: int)
    requires
        first_key_at(entries, key, j1),
        first_key_at(entries, key, j2),
    ensures
        j1 == j2,
{
    if j1 < j2 {
        assert(entries[j1] == entries[j1]);
    } else if j2 < j1 {
        assert(entries[j2] == entries[j2]);
    }
}

/// Whether the state `state` satisfies the pattern `filter` (see `satisfies`).
pub fn match_state(filter: &Value, state: &Value) -> (r: bool)
    ensures
        r == satisfies(*filter, *state),
    decreases filter, 0int,
{
    match (filter, state) {
        (Value::Mapping(fs), Value::Mapping(ds)) => {
            let mut i: usize = 0;
            while i < fs.len()
                invariant
                    *filter == Value::Mapping(*fs),
                    decreases_to!(*filter => *fs),
                    *state == Value::Mapping(*ds),
                    satisfies(*filter, *state) == forall|k: int|
                        0 <= k < fs@.len() ==> entry_matches(#[trigger] fs@[k], ds@),
                    0 <= i <= fs@.len(),
                    forall|k: int| 0 <= k < i ==> entry_matches(#[trigger] fs@[k], ds@),
                decreases fs@.len() - i,
            {
                proof {
                    assert(decreases_to!(*filter => fs@[i as int]));
                }
                match find_key(ds, &fs[i].0) {
                    Some(j) => {
                        if !match_state(&fs[i].1, &ds[j].1) {
                            assert(!entry_matches(fs@[i as int], ds@)) by {
                                if entry_matches(fs@[i as int], ds@) {
                                    let j2 = choose|j2: int|
                                        #[trigger] first_key_at(ds@, fs@[i as int].0, j2)
                                            && satisfies(fs@[i as int].1, ds@[j2].1);
                                    first_key_unique(ds@, fs@[i as int].0, j as int, j2);
                                }
                            }
                            return false;
                        }
                        assert(entry_matches(fs@[i as int], ds@));
                    },
                    None => {
                        assert(!entry_matches(fs@[i as int], ds@)) by {
                            if entry_matches(fs@[i as int], ds@) {
                                let j2 = choose|j2: int|
                                    #[trigger] first_key_at(ds@, fs@[i as int].0, j2)
                                        && satisfies(fs@[i as int].1, ds@[j2].1);
                                assert(ds@[j2] == ds@[j2]);
                            }
                        }
                        return false;
                    },
                }
                i += 1;
            }
            true
        },
        (Value::Sequence(fs), Value::Sequence(ds)) => {
            let mut i: usize = 0;
            while i < fs.len()
                invariant
                    *filter == Value::Sequence(*fs),
                    decreases_to!(*filter => *fs),
                    *state == Value::Sequence(*ds),
                    satisfies(*filter, *state) == forall|k: int, j: int|
                        0 <= k < fs@.len() && 0 <= j < ds@.len() ==> satisfies(
                            #[trigger] fs@[k],
                            #[trigger] ds@[j],
                        ),
                    0 <= i <= fs@.len(),
                    forall|k: int, j: int|
                        0 <= k < i && 0 <= j < ds@.len() ==> satisfies(
                            #[trigger] fs@[k],
                            #[trigger] ds@[j],
                        ),
                decreases fs@.len() - i,
            {
                proof {
                    assert(decreases_to!(*filter => fs@[i as int]));
                }
                if !matches_all(&fs[i], ds) {
                    assert(!satisfies(*filter, *state)) by {
                        let j = choose|j: int| 0 <= j < ds@.len() && !satisfies(fs@[i as int], #[trigger] ds@[j]);
                        assert(fs@[i as int] == fs@[i as int]);
                    }
                    return false;
                }
                i += 1;
            }
            true
        },
        _ => values_equal(filter, state),
    }
}

/// Whether the pattern `filter` matches every element of `docs`.
pub fn matches_all(filter: &Value, docs: &Vec<Value>) -> (r: bool)
    ensures
        r == forall|j: int| 0 <= j < docs@.len() ==> satisfies(*filter, #[trigger] docs@[j]),
    decreases filter, 1int,
{
    let mut j: usize = 0;
    while j < docs.len()
        invariant
            0 <= j <= docs@.len(),
            forall|k: int| 0 <= k < j ==> satisfies(*filter, #[trigger] docs@[k]),
        decreases docs@.len() - j,
    {
        if !match_state(filter, &docs[j]) {
            return false;
        }
        j += 1;
    }
    true
}

/// An empty filter mapping is satisfied by every document mapping: it asks for no key.
pub proof fn lemma_empty_filter_matches(filter: Value, doc: Value)
    requires
        filter is Mapping,
        filter->Mapping_0@.len() == 0,
        doc is Mapping,
    ensures
        satisfies(filter, doc),
{
}

} // verus!
