use vstd::prelude::*;

use vstd::multiset::Multiset;

use crate::heap::{empty_heap_message, is_top, Heap};
use crate::order::{precedes, HeapProperty};

verus! {

/// Values added one at a time to an empty heap: `states[k]` is what the
/// heap holds after the first `k` adds, as `add` reports it. Then after
/// each add the heap holds exactly the values added so far, so the element
/// on top (what `peek` returns) is the minimum (`Min`) or the maximum
/// (`Max`) of all of them.
pub proof fn lemma_top_after_adds(p: HeapProperty, added: Seq<i32>, states: Seq<Seq<i32>>)
    requires
        states.len() == added.len() + 1,
        states[0].len() == 0,
        forall|k: int|
            0 <= k < added.len() ==> states[k + 1].to_multiset() == states[k].to_multiset().insert(
                #[trigger] added[k],
            ),
    ensures
        forall|k: int|
            0 <= k < states.len() ==> #[trigger] states[k].to_multiset() == added.subrange(
                0,
                k,
            ).to_multiset(),
        forall|k: int, x: i32|
            0 < k < states.len() && #[trigger] is_top(p, x, states[k].to_multiset()) ==> is_top(
                p,
                x,
                added.subrange(0, k).to_multiset(),
            ),
{
    assert forall|k: int| 0 <= k < states.len() implies #[trigger] states[k].to_multiset()
        == added.subrange(0, k).to_multiset() by {
        lemma_added_so_far(added, states, k);
    }
}

proof fn lemma_added_so_far(added: Seq<i32>, states: Seq<Seq<i32>>, k: int)
    requires
        states.len() == added.len() + 1,
        states[0].len() == 0,
        forall|k: int|
            0 <= k < added.len() ==> states[k + 1].to_multiset() == states[k].to_multiset().insert(
                #[trigger] added[k],
            ),
        0 <= k < states.len(),
    ensures
        states[k].to_multiset() == added.subrange(0, k).to_multiset(),
    decreases k,
{
    broadcast use vstd::seq_lib::group_to_multiset_ensures;

    if k == 0 {
        assert(states[0].to_multiset() =~= Multiset::empty());
        assert(added.subrange(0, 0).to_multiset() =~= Multiset::empty());
    } else {
        lemma_added_so_far(added, states, k - 1);
        assert(added.subrange(0, k) =~= added.subrange(0, k - 1).push(added[k - 1]));
        assert(states[k].to_multiset() == states[k - 1].to_multiset().insert(added[k - 1]));
    }
}

/// Elements popped one after another: `states[k]` is what the heap holds
/// before the `k`-th pop, and `popped[k]` what that pop returned, as `pop`
/// reports it. Then the popped values come out in order (ascending for
/// `Min`, descending for `Max`), and once the heap is empty they are
/// exactly the elements it held at the start.
pub proof fn lemma_pops_in_order(p: HeapProperty, states: Seq<Seq<i32>>, popped: Seq<i32>)
    requires
        states.len() == popped.len() + 1,
        forall|k: int|
            0 <= k < popped.len() ==> is_top(p, popped[k], #[trigger] states[k].to_multiset()),
        forall|k: int|
            0 <= k < popped.len() ==> states[k + 1].to_multiset() == states[k].to_multiset().remove(
                #[trigger] popped[k],
            ),
    ensures
        forall|i: int, j: int|
            0 <= i < j < popped.len() ==> precedes(p, #[trigger] popped[i], #[trigger] popped[j]),
        states[popped.len() as int].len() == 0 ==> popped.to_multiset() == states[0].to_multiset(),
{
    assert forall|i: int, j: int| 0 <= i < j < popped.len() implies precedes(
        p,
        #[trigger] popped[i],
        #[trigger] popped[j],
    ) by {
        assert(states[j].to_multiset().contains(popped[j]));
        lemma_later_states_shrink(p, states, popped, i + 1, j, popped[j]);
        assert(states[i].to_multiset().contains(popped[j]));
    }
    if states[popped.len() as int].len() == 0 {
        let n = popped.len() as int;
        lemma_popped_so_far(p, states, popped, n);
        assert(states[n].to_multiset() =~= Multiset::empty()) by {
            broadcast use vstd::seq_lib::group_to_multiset_ensures;

        }
        assert(popped.subrange(0, n) =~= popped);
        assert(popped.to_multiset() =~= states[0].to_multiset());
    }
}

proof fn lemma_later_states_shrink(
    p: HeapProperty,
    states: Seq<Seq<i32>>,
    popped: Seq<i32>,
    i: int,
    j: int,
    x: i32,
)
    requires
        states.len() == popped.len() + 1,
        forall|k: int|
            0 <= k < popped.len() ==> states[k + 1].to_multiset() == states[k].to_multiset().remove(
                #[trigger] popped[k],
            ),
        0 < i <= j < states.len(),
    ensures
        states[j].to_multiset().count(x) <= states[i - 1].to_multiset().count(x),
    decreases j - i,
{
    assert(states[i].to_multiset() == states[i - 1].to_multiset().remove(popped[i - 1]));
    if i < j {
        lemma_later_states_shrink(p, states, popped, i + 1, j, x);
    }
}

proof fn lemma_popped_so_far(p: HeapProperty, states: Seq<Seq<i32>>, popped: Seq<i32>, k: int)
    requires
        states.len() == popped.len() + 1,
        forall|k: int|
            0 <= k < popped.len() ==> is_top(p, popped[k], #[trigger] states[k].to_multiset()),
        forall|k: int|
            0 <= k < popped.len() ==> states[k + 1].to_multiset() == states[k].to_multiset().remove(
                #[trigger] popped[k],
            ),
        0 <= k < states.len(),
    ensures
        states[0].to_multiset() == popped.subrange(0, k).to_multiset().add(states[k].to_multiset()),
    decreases k,
{
    broadcast use vstd::seq_lib::group_to_multiset_ensures;

    if k == 0 {
        assert(popped.subrange(0, 0).to_multiset() =~= Multiset::empty());
        assert(states[0].to_multiset() =~= Multiset::empty().add(states[0].to_multiset()));
    } else {
        lemma_popped_so_far(p, states, popped, k - 1);
        assert(popped.subrange(0, k) =~= popped.subrange(0, k - 1).push(popped[k - 1]));
        assert(states[k - 1].to_multiset().contains(popped[k - 1]));
        assert(states[k].to_multiset() == states[k - 1].to_multiset().remove(popped[k - 1]));
        assert(states[0].to_multiset() =~= popped.subrange(0, k).to_multiset().add(
            states[k].to_multiset(),
        ));
    }
}

/// Peeking changes nothing (it only reads the heap) and its outcome is
/// fixed by the heap: two peeks at one heap, each as `peek` reports it, give
/// the same element, or, on an empty heap, the same error.
pub proof fn lemma_peek_repeats(h: Heap, first: Result<i32, String>, second: Result<i32, String>)
    requires
        h.wf(),
        h@.len() == 0 ==> first is Err && first->Err_0@ == empty_heap_message(),
        h@.len() > 0 ==> first == Ok::<i32, String>(h@[0]),
        h@.len() == 0 ==> second is Err && second->Err_0@ == empty_heap_message(),
        h@.len() > 0 ==> second == Ok::<i32, String>(h@[0]),
    ensures
        first is Ok <==> second is Ok,
        first is Ok ==> first == second,
        first is Err ==> first->Err_0@ == second->Err_0@ && first->Err_0@ == empty_heap_message(),
{
}

/// A heap built with no room holds nothing and is full at once: `peek` and
/// `pop` report it empty and `add` reports it full, whatever is added.
pub proof fn lemma_no_room(h: Heap)
    requires
        h.wf(),
        h.capacity_spec() == 0,
    ensures
        h@.len() == 0,
        h.count() == h.capacity_spec(),
{
}

} // verus!
