//! The first place in a sequence at which a test holds.

use vstd::prelude::*;

verus! {

/// The first place in `items` where `wanted` holds, or the length of
/// `items` when it holds nowhere.
pub open spec fn first_index<T>(items: Seq<T>, wanted: spec_fn(T) -> bool) -> int
    decreases items.len(),
{
    if items.len() == 0 || wanted(items[0]) {
        0
    } else {
        1 + first_index(items.drop_first(), wanted)
    }
}

/// `first_index` lies within the sequence or at its end, `wanted` holds
/// nowhere before it, and holds at it unless it is the end.
pub proof fn lemma_first_index<T>(items: Seq<T>, wanted: spec_fn(T) -> bool)
    ensures
        0 <= first_index(items, wanted) <= items.len(),
        forall|j: int| 0 <= j < first_index(items, wanted) ==> !wanted(#[trigger] items[j]),
        first_index(items, wanted) < items.len() ==> wanted(items[first_index(items, wanted)]),
    decreases items.len(),
{
    if items.len() != 0 && !wanted(items[0]) {
        let rest = items.drop_first();
        lemma_first_index(rest, wanted);
        let at = first_index(rest, wanted);
        assert forall|j: int| 0 <= j < at + 1 implies !wanted(#[trigger] items[j]) by {
            if j > 0 {
                assert(items[j] == rest[j - 1]);
            }
        }
        if at + 1 < items.len() {
            assert(items[at + 1] == rest[at]);
        }
    }
}

/// A place before which `wanted` holds nowhere, and at which it holds unless
/// it is the end, is the first index.
pub proof fn lemma_first_index_is<T>(items: Seq<T>, wanted: spec_fn(T) -> bool, at: int)
    requires
        0 <= at <= items.len(),
        forall|j: int| 0 <= j < at ==> !wanted(#[trigger] items[j]),
        at < items.len() ==> wanted(items[at]),
    ensures
        first_index(items, wanted) == at,
{
    lemma_first_index(items, wanted);
    let first = first_index(items, wanted);
    if first < at {
        assert(!wanted(items[first]));
    }
}

} // verus!
