//! What holds of the two arrays and the allocator taken together, stated over
//! the same functions as the contracts of the operations.
use crate::array::{buffer_size, has_room, heap_with, lemma_heap_with, placed, VarLenArray};
use crate::heap::{
    lemma_release_frame, lemma_release_none, lemma_release_one, lemma_update_slot, HeapState,
};
use crate::leaky::{
    independent, lemma_owned_upto, lemma_owned_upto_frame, lemma_released_upto, owned_upto,
    released_upto, LeakyVarLenArray,
};
use crate::plain::{lemma_decode_encode, PlainData};
use crate::teardown::ForeignDrop;
use vstd::prelude::*;

verus! {

/// Round trip: the array that a constructor makes from `s` is well-formed in
/// the heap it leaves, and reads back as `s`, element for element.
pub proof fn law_round_trip<T: PlainData>(a: VarLenArray<T>, heap: HeapState, s: Seq<T>)
    requires
        has_room(heap, s),
        a.holds(heap, s),
    ensures
        a.wf(placed(heap, s)),
        a.elements(placed(heap, s)) == s,
{
    if s.len() > 0 {
        lemma_heap_with(heap, s);
        lemma_decode_encode(s);
    } else {
        assert(s =~= Seq::<T>::empty());
    }
}

/// Empty normalization: the array made from the empty sequence has length
/// zero and the null pointer, as the default array has, and making it leaves
/// the heap untouched whatever the allocator has room for.
pub proof fn law_empty_normalized<T: PlainData>(a: VarLenArray<T>, heap: HeapState)
    requires
        a.holds(heap, Seq::<T>::empty()),
    ensures
        has_room(heap, Seq::<T>::empty()),
        placed(heap, Seq::<T>::empty()) == heap,
        a.len() == 0,
        a.as_ptr() == 0,
        a.wf(heap),
        a.elements(heap) == Seq::<T>::empty(),
        a.torn_down(heap) == heap,
{
}

/// Clone independence: a clone of a populated array lies in a buffer of its
/// own and holds the same elements, and whatever is written over the buffer
/// of the array it was taken from, or the release of that buffer, leaves the
/// clone as it is.
pub proof fn law_clone_independent<T: PlainData>(
    a: VarLenArray<T>,
    copy: VarLenArray<T>,
    heap: HeapState,
    bytes: Seq<u8>,
)
    requires
        a.wf(heap),
        a.as_ptr() != 0,
        has_room(heap, a.elements(heap)),
        copy.holds(heap, a.elements(heap)),
    ensures
        copy.as_ptr() != a.as_ptr(),
        copy.wf(placed(heap, a.elements(heap))),
        copy.elements(placed(heap, a.elements(heap))) == a.elements(heap),
        a.elements(placed(heap, a.elements(heap))) == a.elements(heap),
        copy.elements(placed(heap, a.elements(heap)).store(a.as_ptr(), bytes)) == a.elements(heap),
        copy.elements(a.torn_down(placed(heap, a.elements(heap)))) == a.elements(heap),
        copy.wf(a.torn_down(placed(heap, a.elements(heap)))),
{
    let s = a.elements(heap);
    lemma_heap_with(heap, s);
    lemma_decode_encode(s);
}

/// Exactly-once free: tearing down an owning array releases one block if the
/// array is populated and none if it is empty; the block is live no more, and
/// its address is the last in the list of releases, where it stands once.
pub proof fn law_free_once<T: PlainData>(a: VarLenArray<T>, heap: HeapState)
    requires
        heap.wf(),
        a.wf(heap),
    ensures
        a.torn_down(heap).wf(),
        a.torn_down(heap).allocations() == heap.allocations(),
        a.torn_down(heap).releases() == heap.releases() + if a.len() == 0 {
            0nat
        } else {
            1nat
        },
        a.len() > 0 ==> !a.torn_down(heap).is_live(a.as_ptr()) && a.torn_down(heap).freed.last()
            == a.as_ptr() && !heap.freed.contains(a.as_ptr()),
{
    if a.as_ptr() != 0 {
        let ptr = a.as_ptr();
        lemma_release_one(heap, ptr);
        assert(seq![ptr].no_duplicates());
        assert forall|p: usize| #[trigger] seq![ptr].contains(p) implies heap.is_live(p) by {
            assert(p == ptr);
        }
        lemma_release_frame(heap, seq![ptr]);
        assert(seq![ptr].contains(ptr)) by {
            assert(seq![ptr][0] == ptr);
        }
    }
}

/// Construct, then drop: an array made from `s` and torn down right away
/// costs one allocation and one release where `s` has elements, and neither
/// where it has none.
pub proof fn law_construct_then_drop<T: PlainData>(a: VarLenArray<T>, heap: HeapState, s: Seq<T>)
    requires
        heap.wf(),
        has_room(heap, s),
        a.holds(heap, s),
    ensures
        a.torn_down(placed(heap, s)).allocations() == heap.allocations() + if s.len() == 0 {
            0nat
        } else {
            1nat
        },
        a.torn_down(placed(heap, s)).releases() == heap.releases() + if s.len() == 0 {
            0nat
        } else {
            1nat
        },
        a.torn_down(placed(heap, s)).in_use() == heap.in_use(),
{
    if s.len() > 0 {
        lemma_heap_with(heap, s);
        lemma_update_slot(heap_with(heap, s).slots, a.as_ptr() - 1, None);
    }
}

/// Idempotent explicit drop: on a record that `drop` has left, or any other
/// null record, a further `drop` finds nothing to release and leaves the heap
/// as it is.
pub proof fn law_drop_idempotent<T: ForeignDrop>(a: LeakyVarLenArray<T>, heap: HeapState)
    requires
        a.len() == 0,
        a.as_ptr() == 0,
    ensures
        a.droppable(heap),
        a.owned(heap) == Set::<usize>::empty(),
        a.released(heap) == Seq::<usize>::empty(),
        heap.release(a.released(heap)) == heap,
{
    lemma_release_none(heap);
}

/// One buffer for an array of plain elements: when the elements need no
/// destruction, tearing down a populated non-owning array releases its own
/// buffer and nothing else.
pub proof fn law_flat_teardown<T: ForeignDrop>(a: LeakyVarLenArray<T>, heap: HeapState)
    requires
        a.wf(heap),
        a.as_ptr() != 0,
        !T::spec_needs_drop(),
        independent(a.elements(heap), heap),
    ensures
        a.released(heap) == seq![a.as_ptr()],
        a.owned(heap) == set![a.as_ptr()],
        a.droppable(heap),
{
    let items = a.elements(heap);
    let n = a.len() as nat;
    lemma_owned_upto(items, heap, n);
    lemma_released_upto(items, heap, n);
    assert forall|i: int| 0 <= i < items.len() implies !(#[trigger] items[i]).owned(heap).contains(
        a.as_ptr(),
    ) by {
        items[i].lemma_owned(heap);
    }
    assert(a.released(heap) =~= seq![a.as_ptr()]);
    assert(a.owned(heap) =~= set![a.as_ptr()]);
}

/// A non-owning array made from elements that can be destroyed one after the
/// other can itself be destroyed: it owns its new buffer and what its
/// elements own, and releases the buffer last.
pub proof fn law_constructed_droppable<T: ForeignDrop>(
    a: LeakyVarLenArray<T>,
    heap: HeapState,
    s: Seq<T>,
)
    requires
        s.len() > 0,
        heap.can_allocate(buffer_size::<T>(s.len())),
        a.holds(heap, s),
        independent(s, heap),
    ensures
        a.droppable(placed(heap, s)),
        a.elements(placed(heap, s)) == s,
        a.owned(placed(heap, s)) == owned_upto(s, heap, s.len()).insert(a.as_ptr()),
        a.released(placed(heap, s)) == released_upto(s, heap, s.len()).push(a.as_ptr()),
{
    let after = placed(heap, s);
    let n = s.len();
    lemma_heap_with(heap, s);
    lemma_decode_encode(s);
    assert forall|i: int| 0 <= i < n implies heap.agrees_on(
        after,
        (#[trigger] s[i]).owned(heap),
    ) by {
        s[i].lemma_owned(heap);
    }
    lemma_owned_upto_frame(s, heap, after, n);
    assert forall|i: int| 0 <= i < n implies !(#[trigger] s[i]).owned(after).contains(
        a.as_ptr(),
    ) by {
        s[i].lemma_owned(heap);
    }
}

/// Recursive teardown: a non-owning array of `k` populated non-owning arrays
/// of plain elements owns `k + 1` blocks, the `k` inner buffers and its own,
/// and its teardown releases each of them once: the inner buffers in index
/// order, then its own.
pub proof fn law_nested_teardown<T: ForeignDrop>(
    outer: LeakyVarLenArray<LeakyVarLenArray<T>>,
    heap: HeapState,
)
    requires
        heap.wf(),
        outer.droppable(heap),
        outer.as_ptr() != 0,
        !T::spec_needs_drop(),
        forall|i: int| 0 <= i < outer.len() ==> (#[trigger] outer.elements(heap)[i]).len() > 0,
    ensures
        outer.owned(heap).len() == outer.len() + 1,
        outer.released(heap).len() == outer.len() + 1,
        outer.released(heap).no_duplicates(),
        forall|i: int|
            0 <= i < outer.len() ==> #[trigger] outer.released(heap)[i] == outer.elements(
                heap,
            )[i].as_ptr(),
        outer.released(heap)[outer.len() as int] == outer.as_ptr(),
        heap.release(outer.released(heap)).releases() == heap.releases() + outer.len() + 1,
        heap.release(outer.released(heap)).wf(),
{
    let inner = outer.elements(heap);
    lemma_inner_buffers(inner, heap, outer.len() as nat);
    outer.lemma_owned(heap);
    assert forall|p: usize| #[trigger] outer.released(heap).contains(p) implies heap.is_live(p) by {
        assert(outer.owned(heap).contains(p));
    }
    lemma_release_frame(heap, outer.released(heap));
}

/// The first `n` of a run of populated arrays of plain elements release
/// their `n` buffers, in index order.
proof fn lemma_inner_buffers<T: ForeignDrop>(
    inner: Seq<LeakyVarLenArray<T>>,
    heap: HeapState,
    n: nat,
)
    requires
        n <= inner.len(),
        !T::spec_needs_drop(),
        forall|i: int| 0 <= i < inner.len() ==> (#[trigger] inner[i]).droppable(heap),
        forall|i: int| 0 <= i < inner.len() ==> (#[trigger] inner[i]).len() > 0,
    ensures
        released_upto(inner, heap, n).len() == n,
        forall|i: int|
            0 <= i < n ==> #[trigger] released_upto(inner, heap, n)[i] == inner[i].as_ptr(),
    decreases n,
{
    if n > 0 {
        let last = inner[n - 1];
        lemma_inner_buffers(inner, heap, (n - 1) as nat);
        lemma_released_upto(last.elements(heap), heap, last.len() as nat);
        assert(last.released(heap) =~= seq![last.as_ptr()]);
    }
}

} // verus!
