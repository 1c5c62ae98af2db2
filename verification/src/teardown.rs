//! Per-element destruction: what the explicit teardown of a non-owning array
//! does to each of its elements before it gives the buffer back.
use crate::heap::{ForeignAllocator, HeapState};
use crate::plain::PlainData;
use vstd::prelude::*;

verus! {

/// An element type with a destruction step.
///
/// Destroying a value releases the blocks it owns, and those that its own
/// elements own, each exactly once. For a type without storage of its own the
/// step does nothing.
pub trait ForeignDrop: PlainData {
    /// Whether destroying a value of this type can release anything.
    spec fn spec_needs_drop() -> bool;

    /// The addresses of the blocks that destroying `self` releases.
    spec fn owned(self, heap: HeapState) -> Set<usize>;

    /// The same addresses in the order in which destroying `self` releases
    /// them.
    spec fn released(self, heap: HeapState) -> Seq<usize>;

    /// `self` can be destroyed in `heap`: every block it would release is live
    /// and is reached once only.
    spec fn droppable(self, heap: HeapState) -> bool;

    /// What a droppable value owns is a finite set of live blocks, each of
    /// them released once, and a type that needs no destruction owns nothing.
    proof fn lemma_owned(self, heap: HeapState)
        requires
            self.droppable(heap),
        ensures
            self.owned(heap).finite(),
            heap.all_live(self.owned(heap)),
            self.released(heap).no_duplicates(),
            self.released(heap).len() == self.owned(heap).len(),
            forall|p: usize| self.released(heap).contains(p) <==> self.owned(heap).contains(p),
            !Self::spec_needs_drop() ==> self.released(heap) == Seq::<usize>::empty(),
    ;

    /// Whether a value can be destroyed, and what it owns, depends on the
    /// blocks it owns and on nothing else in the heap.
    proof fn lemma_frame(self, heap: HeapState, other: HeapState)
        requires
            self.droppable(heap),
            heap.agrees_on(other, self.owned(heap)),
        ensures
            self.droppable(other),
            self.owned(other) == self.owned(heap),
            self.released(other) == self.released(heap),
    ;

    /// Whether destroying a value of this type can release anything.
    fn needs_drop() -> (b: bool)
        ensures
            b == Self::spec_needs_drop(),
    ;

    /// Destroys `self`: releases every block it owns, in the order of
    /// `released`.
    fn drop_in_place(&mut self, heap: &mut ForeignAllocator)
        requires
            old(heap).wf(),
            old(self).droppable(old(heap)@),
        ensures
            final(heap).wf(),
            final(heap)@ == old(heap)@.release(old(self).released(old(heap)@)),
    ;
}

} // verus!
