//! Store-wide laws: properties that relate several operations, stated
//! over the store's mathematical model and proved once and for all.
use vstd::prelude::*;
use crate::records::ItemModel;
use crate::store::StoreModel;

verus! {

/// What any one successful create operation — of either record kind —
/// does to the identifier allocator: it hands out the allocator's
/// current value and advances the allocator by one.
pub open spec fn create_step(pre: StoreModel, post: StoreModel, issued: u64) -> bool {
    issued == pre.next && post.next == pre.next + 1
}

/// Along a run of create steps the allocator never goes back down.
proof fn lemma_next_monotone(states: Seq<StoreModel>, issued: Seq<u64>, i: int, j: int)
    requires
        states.len() == issued.len() + 1,
        forall|n: int|
            0 <= n < issued.len() ==> create_step(#[trigger] states[n], states[n + 1], issued[n]),
        0 <= i <= j < states.len(),
    ensures
        states[i].next <= states[j].next,
    decreases j - i,
{
    if i < j {
        lemma_next_monotone(states, issued, i, j - 1);
        assert(create_step(states[j - 1], states[j], issued[j - 1]));
    }
}

/// Identifier uniqueness: over any run of create operations, mixed
/// across both record kinds, every identifier handed out is distinct
/// from every identifier handed out before.
pub proof fn lemma_issued_ids_distinct(states: Seq<StoreModel>, issued: Seq<u64>)
    requires
        states.len() == issued.len() + 1,
        forall|n: int|
            0 <= n < issued.len() ==> create_step(#[trigger] states[n], states[n + 1], issued[n]),
    ensures
        forall|i: int, j: int| 0 <= i < j < issued.len() ==> issued[i] != issued[j],
{
    assert forall|i: int, j: int| 0 <= i < j < issued.len() implies issued[i] != issued[j] by {
        assert(create_step(states[i], states[i + 1], issued[i]));
        assert(create_step(states[j], states[j + 1], issued[j]));
        lemma_next_monotone(states, issued, i + 1, j);
    };
}

/// Lookup consistency: a record stored under its fresh identifier is
/// exactly what a later lookup of that identifier finds.
pub proof fn lemma_lookup_after_create(items: Map<u64, ItemModel>, id: u64, rec: ItemModel)
    ensures
        items.insert(id, rec).contains_key(id),
        items.insert(id, rec)[id] == rec,
{
}

} // verus!
