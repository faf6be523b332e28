//! Ordered tables keyed by player: a sequence of entries, each an identifier
//! with a value, read as a map that remembers the order in which its keys came.
//!
//! A lookup goes to the first entry that carries the key, so every function here
//! is defined on any sequence; on a table whose keys are distinct it is the one
//! entry with that key.

use vstd::prelude::*;
use crate::event::PlayerId;

verus! {

/// Some entry carries `id`.
pub open spec fn holds<T>(table: Seq<(PlayerId, T)>, id: PlayerId) -> bool {
    exists|i: int| 0 <= i < table.len() && (#[trigger] table[i]).0 == id
}

/// No two entries carry the same key.
pub open spec fn distinct<T>(table: Seq<(PlayerId, T)>) -> bool {
    forall|i: int, j: int|
        0 <= i < j < table.len() ==> (#[trigger] table[i]).0 != (#[trigger] table[j]).0
}

/// `i` is the position of the first entry that carries `id`.
pub open spec fn first_at<T>(table: Seq<(PlayerId, T)>, id: PlayerId, i: int) -> bool {
    &&& 0 <= i < table.len()
    &&& table[i].0 == id
    &&& forall|j: int| 0 <= j < i ==> (#[trigger] table[j]).0 != id
}

/// The position of the first entry that carries `id`; meaningful where
/// `holds(table, id)`.
pub open spec fn slot<T>(table: Seq<(PlayerId, T)>, id: PlayerId) -> int {
    choose|i: int| first_at(table, id, i)
}

/// The table with `value` under `id`: in place where the key is present,
/// appended where it is not.
pub open spec fn put<T>(table: Seq<(PlayerId, T)>, id: PlayerId, value: T) -> Seq<(PlayerId, T)> {
    if holds(table, id) {
        table.update(slot(table, id), (id, value))
    } else {
        table.push((id, value))
    }
}

/// The table without the entry for `id`; unchanged where the key is absent.
pub open spec fn without<T>(table: Seq<(PlayerId, T)>, id: PlayerId) -> Seq<(PlayerId, T)> {
    if holds(table, id) {
        table.remove(slot(table, id))
    } else {
        table
    }
}

/// A first position pins `slot`, and shows the key present.
pub proof fn lemma_slot_unique<T>(table: Seq<(PlayerId, T)>, id: PlayerId, i: int)
    requires
        first_at(table, id, i),
    ensures
        holds(table, id),
        slot(table, id) == i,
{
    let k = slot(table, id);
    assert(first_at(table, id, k));
    if k < i {
        assert(table[k].0 != id);
    }
    if i < k {
        assert(table[i].0 != id);
    }
}

/// Where the key is present, `slot` is the position of its first entry.
pub proof fn lemma_slot_found<T>(table: Seq<(PlayerId, T)>, id: PlayerId)
    requires
        holds(table, id),
    ensures
        first_at(table, id, slot(table, id)),
{
    let w = choose|i: int| 0 <= i < table.len() && (#[trigger] table[i]).0 == id;
    lemma_first_before(table, id, w);
}

/// Below any position that carries the key there is a first one.
proof fn lemma_first_before<T>(table: Seq<(PlayerId, T)>, id: PlayerId, w: int)
    requires
        0 <= w < table.len(),
        table[w].0 == id,
    ensures
        exists|i: int| first_at(table, id, i),
    decreases w,
{
    if exists|j: int| 0 <= j < w && (#[trigger] table[j]).0 == id {
        let j = choose|j: int| 0 <= j < w && (#[trigger] table[j]).0 == id;
        lemma_first_before(table, id, j);
    } else {
        assert(first_at(table, id, w));
    }
}

/// What a table holds after `put`: the new key, and every key it held before.
pub proof fn lemma_put_holds<T>(table: Seq<(PlayerId, T)>, id: PlayerId, value: T, other: PlayerId)
    ensures
        holds(put(table, id, value), other) <==> other == id || holds(table, other),
{
    let after = put(table, id, value);
    if holds(table, id) {
        lemma_slot_found(table, id);
    }
    if holds(after, other) {
        let k = choose|k: int| 0 <= k < after.len() && (#[trigger] after[k]).0 == other;
        if other != id {
            assert(table[k].0 == other);
        }
    }
    if holds(table, other) {
        let k = choose|k: int| 0 <= k < table.len() && (#[trigger] table[k]).0 == other;
        assert(after[k].0 == other);
    }
    if other == id {
        if holds(table, id) {
            assert(after[slot(table, id)].0 == id);
        } else {
            assert(after[table.len() as int].0 == id);
        }
    }
}

/// What a lookup finds after `put`: the new value under the new key, and
/// under every other key what stood there before.
pub proof fn lemma_put_entry<T>(table: Seq<(PlayerId, T)>, id: PlayerId, value: T, other: PlayerId)
    requires
        other == id || holds(table, other),
    ensures
        holds(put(table, id, value), other),
        put(table, id, value)[slot(put(table, id, value), other)].1 == (if other == id {
            value
        } else {
            table[slot(table, other)].1
        }),
{
    let after = put(table, id, value);
    lemma_put_holds(table, id, value, other);
    if holds(table, id) {
        lemma_slot_found(table, id);
    }
    if other == id {
        let i = if holds(table, id) {
            slot(table, id)
        } else {
            table.len() as int
        };
        assert(first_at(after, id, i)) by {
            assert forall|j: int| 0 <= j < i implies (#[trigger] after[j]).0 != id by {
                assert(table[j].0 != id);
            }
        }
        lemma_slot_unique(after, id, i);
    } else {
        lemma_slot_found(table, other);
        let i = slot(table, other);
        assert(first_at(after, other, i)) by {
            assert forall|j: int| 0 <= j < i implies (#[trigger] after[j]).0 != other by {
                assert(table[j].0 != other);
            }
        }
        lemma_slot_unique(after, other, i);
    }
}

/// `put` keeps the keys distinct.
pub proof fn lemma_put_distinct<T>(table: Seq<(PlayerId, T)>, id: PlayerId, value: T)
    requires
        distinct(table),
    ensures
        distinct(put(table, id, value)),
{
    let after = put(table, id, value);
    if holds(table, id) {
        lemma_slot_found(table, id);
        assert forall|i: int, j: int| 0 <= i < j < after.len() implies (#[trigger] after[i]).0 != (
        #[trigger] after[j]).0 by {
            assert(table[i].0 != table[j].0);
        }
    } else {
        assert forall|i: int, j: int| 0 <= i < j < after.len() implies (#[trigger] after[i]).0 != (
        #[trigger] after[j]).0 by {
            if j < table.len() {
                assert(table[i].0 != table[j].0);
            } else {
                assert(table[i].0 != id);
            }
        }
    }
}

/// `without` keeps the keys distinct, and on distinct keys leaves none of the
/// removed key behind.
pub proof fn lemma_without_distinct<T>(table: Seq<(PlayerId, T)>, id: PlayerId)
    requires
        distinct(table),
    ensures
        distinct(without(table, id)),
        !holds(without(table, id), id),
        forall|other: PlayerId|
            other != id ==> (holds(without(table, id), other) <==> holds(table, other)),
{
    let after = without(table, id);
    if holds(table, id) {
        lemma_slot_found(table, id);
        let s = slot(table, id);
        assert forall|i: int| 0 <= i < after.len() implies (#[trigger] after[i]) == table[if i
            < s {
            i
        } else {
            i + 1
        }] by {}
        assert forall|i: int, j: int| 0 <= i < j < after.len() implies (#[trigger] after[i]).0 != (
        #[trigger] after[j]).0 by {
            let a = if i < s { i } else { i + 1 };
            let b = if j < s { j } else { j + 1 };
            assert(table[a].0 != table[b].0);
        }
        if holds(after, id) {
            let k = choose|k: int| 0 <= k < after.len() && (#[trigger] after[k]).0 == id;
            let a = if k < s { k } else { k + 1 };
            assert(table[a].0 == id);
            if a < s {
                assert(table[a].0 != table[s].0);
            } else {
                assert(table[s].0 != table[a].0);
            }
        }
        assert forall|other: PlayerId| other != id implies (holds(after, other) <==> holds(
            table,
            other,
        )) by {
            if holds(after, other) {
                let k = choose|k: int| 0 <= k < after.len() && (#[trigger] after[k]).0 == other;
                let a = if k < s { k } else { k + 1 };
                assert(table[a].0 == other);
            }
            if holds(table, other) {
                let k = choose|k: int| 0 <= k < table.len() && (#[trigger] table[k]).0 == other;
                let a = if k < s { k } else { k - 1 };
                assert(after[a].0 == other);
            }
        }
    }
}

/// The position of the first entry that carries `id`, if there is one.
pub fn find<T>(table: &Vec<(PlayerId, T)>, id: PlayerId) -> (found: Option<usize>)
    ensures
        match found {
            Some(i) => first_at(table@, id, i as int) && slot(table@, id) == i,
            None => !holds(table@, id),
        },
        found is Some <==> holds(table@, id),
{
    let mut i: usize = 0;
    while i < table.len()
        invariant
            i <= table@.len(),
            forall|j: int| 0 <= j < i ==> (#[trigger] table@[j]).0 != id,
        decreases table@.len() - i,
    {
        if table[i].0 == id {
            proof {
                lemma_slot_unique(table@, id, i as int);
            }
            return Some(i);
        }
        i += 1;
    }
    None
}

/// Stores `value` under `id`: over the entry that carries the key, or at the
/// end where there is none.
pub fn insert<T>(table: &mut Vec<(PlayerId, T)>, id: PlayerId, value: T)
    ensures
        final(table)@ == put(old(table)@, id, value),
{
    match find(table, id) {
        Some(i) => {
            table[i] = (id, value);
        },
        None => {
            table.push((id, value));
        },
    }
}

/// Takes the entry for `id` out, if there is one.
pub fn remove<T>(table: &mut Vec<(PlayerId, T)>, id: PlayerId)
    ensures
        final(table)@ == without(old(table)@, id),
{
    match find(table, id) {
        Some(i) => {
            table.remove(i);
        },
        None => {},
    }
}

} // verus!
