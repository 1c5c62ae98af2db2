//! The foreign allocator: the one capability through which every buffer that
//! the foreign runtime can see is obtained and released.
//!
//! The allocator is a value that callers pass in, not a process-wide hook, so
//! that every allocation and every release is visible in a contract. Addresses
//! are plain words; `0` is the null pointer and is never handed out.
use vstd::prelude::*;
use vstd::seq_lib::{lemma_no_dup_in_concat, lemma_seq_concat_contains_all_elements};

verus! {

/// One slot of the allocator's table: the bytes of a live block, or `None`
/// once the block has been released.
pub type Slot = Option<Seq<u8>>;

/// Bytes held by one slot.
pub open spec fn slot_bytes(slot: Slot) -> nat {
    match slot {
        Some(bytes) => bytes.len(),
        None => 0,
    }
}

/// Total size of the live blocks of a table.
pub open spec fn live_bytes(slots: Seq<Slot>) -> nat
    decreases slots.len(),
{
    if slots.len() == 0 {
        0
    } else {
        live_bytes(slots.drop_last()) + slot_bytes(slots.last())
    }
}

/// A block of `size` zero bytes: what freshly allocated storage holds.
pub open spec fn zeroed(size: nat) -> Seq<u8> {
    Seq::new(size, |i: int| 0u8)
}

/// The table after the blocks whose addresses are in `order` have been
/// released.
pub open spec fn cleared(slots: Seq<Slot>, order: Seq<usize>) -> Seq<Slot> {
    Seq::new(
        slots.len(),
        |i: int|
            if order.contains((i + 1) as usize) {
                None
            } else {
                slots[i]
            },
    )
}

/// The mathematical state of the foreign heap.
///
/// Slot `i` belongs to address `i + 1`. A slot is appended by every successful
/// allocation and cleared by the release of its block; `freed` lists the
/// released addresses in the order of their release. Together they record
/// every call that changed the heap.
pub struct HeapState {
    pub slots: Seq<Slot>,
    pub freed: Seq<usize>,
    pub capacity: nat,
}

impl HeapState {
    /// The heap of a fresh allocator.
    pub open spec fn empty(capacity: nat) -> HeapState {
        HeapState { slots: Seq::empty(), freed: Seq::empty(), capacity }
    }

    /// `ptr` is the address of a block that was allocated and not yet released.
    pub open spec fn is_live(self, ptr: usize) -> bool {
        0 < ptr <= self.slots.len() && self.slots[ptr - 1] is Some
    }

    /// `ptr` is the address of a block that has been released.
    pub open spec fn is_released(self, ptr: usize) -> bool {
        0 < ptr <= self.slots.len() && self.slots[ptr - 1] is None
    }

    /// The bytes of the live block at `ptr`.
    pub open spec fn block(self, ptr: usize) -> Seq<u8>
        recommends
            self.is_live(ptr),
    {
        self.slots[ptr - 1].unwrap()
    }

    /// Number of successful allocations so far.
    pub open spec fn allocations(self) -> nat {
        self.slots.len()
    }

    /// Number of releases so far.
    pub open spec fn releases(self) -> nat {
        self.freed.len()
    }

    /// Bytes that are allocated and not yet released.
    pub open spec fn in_use(self) -> nat {
        live_bytes(self.slots)
    }

    /// Whether a request for `size` bytes succeeds: the bytes fit under the
    /// capacity and an address is left to name the block.
    pub open spec fn can_allocate(self, size: nat) -> bool {
        self.in_use() + size <= self.capacity && self.slots.len() < usize::MAX
    }

    /// The address that the next successful allocation returns.
    pub open spec fn next_address(self) -> usize {
        (self.slots.len() + 1) as usize
    }

    /// The heap after a successful allocation of `size` bytes.
    pub open spec fn allocate(self, size: nat) -> HeapState {
        HeapState {
            slots: self.slots.push(Some(zeroed(size))),
            freed: self.freed,
            capacity: self.capacity,
        }
    }

    /// The heap after the block at `ptr` has been overwritten with `bytes`.
    pub open spec fn store(self, ptr: usize, bytes: Seq<u8>) -> HeapState
        recommends
            self.is_live(ptr),
    {
        HeapState {
            slots: self.slots.update(ptr - 1, Some(bytes)),
            freed: self.freed,
            capacity: self.capacity,
        }
    }

    /// The heap after the block at `ptr` has been released.
    pub open spec fn deallocate(self, ptr: usize) -> HeapState
        recommends
            self.is_live(ptr),
    {
        HeapState {
            slots: self.slots.update(ptr - 1, None),
            freed: self.freed.push(ptr),
            capacity: self.capacity,
        }
    }

    /// The heap after the blocks at the addresses of `order` have been
    /// released, one after the other.
    pub open spec fn release(self, order: Seq<usize>) -> HeapState {
        HeapState {
            slots: cleared(self.slots, order),
            freed: self.freed + order,
            capacity: self.capacity,
        }
    }

    /// The state is one that allocations and releases lead to: every address
    /// is a machine word, what is in use fits under the capacity, and the
    /// released addresses are those of the cleared slots, each listed once.
    pub open spec fn wf(self) -> bool {
        &&& self.slots.len() <= usize::MAX
        &&& self.in_use() <= self.capacity <= usize::MAX
        &&& self.freed.no_duplicates()
        &&& forall|p: usize|
            #![trigger self.freed.contains(p)]
            #![trigger self.is_released(p)]
            self.freed.contains(p) <==> self.is_released(p)
    }

    /// Every address in `ptrs` is live.
    pub open spec fn all_live(self, ptrs: Set<usize>) -> bool {
        forall|p: usize| ptrs.contains(p) ==> self.is_live(p)
    }

    /// The two heaps hold the same bytes at every address in `ptrs`, all of
    /// them live in both.
    pub open spec fn agrees_on(self, other: HeapState, ptrs: Set<usize>) -> bool {
        forall|p: usize|
            ptrs.contains(p) ==> self.is_live(p) && #[trigger] other.is_live(p) && other.block(p)
                == self.block(p)
    }
}

/// Appending a slot adds its bytes to the live total.
pub proof fn lemma_push_slot(slots: Seq<Slot>, slot: Slot)
    ensures
        live_bytes(slots.push(slot)) == live_bytes(slots) + slot_bytes(slot),
{
    assert(slots.push(slot).drop_last() =~= slots);
}

/// Replacing one slot exchanges its contribution to the live total.
pub proof fn lemma_update_slot(slots: Seq<Slot>, i: int, slot: Slot)
    requires
        0 <= i < slots.len(),
    ensures
        live_bytes(slots.update(i, slot)) + slot_bytes(slots[i]) == live_bytes(slots) + slot_bytes(
            slot,
        ),
        slot_bytes(slots[i]) <= live_bytes(slots),
    decreases slots.len(),
{
    if i == slots.len() - 1 {
        assert(slots.update(i, slot).drop_last() =~= slots.drop_last());
    } else {
        lemma_update_slot(slots.drop_last(), i, slot);
        assert(slots.update(i, slot).drop_last() =~= slots.drop_last().update(i, slot));
    }
}

/// Clearing slots can only lower the live total.
pub proof fn lemma_cleared_bytes(slots: Seq<Slot>, order: Seq<usize>)
    ensures
        live_bytes(cleared(slots, order)) <= live_bytes(slots),
    decreases slots.len(),
{
    if slots.len() > 0 {
        lemma_cleared_bytes(slots.drop_last(), order);
        assert(cleared(slots, order).drop_last() =~= cleared(slots.drop_last(), order));
    }
}

/// Releasing no block leaves the heap as it is.
pub proof fn lemma_release_none(heap: HeapState)
    ensures
        heap.release(Seq::empty()) == heap,
{
    assert(heap.release(Seq::empty()).slots =~= heap.slots);
    assert(heap.release(Seq::empty()).freed =~= heap.freed);
}

/// Releasing the one block at `ptr` is the release of the list that holds
/// `ptr` alone.
pub proof fn lemma_release_one(heap: HeapState, ptr: usize)
    requires
        heap.wf(),
        heap.is_live(ptr),
    ensures
        heap.deallocate(ptr) == heap.release(seq![ptr]),
{
    assert(seq![ptr][0] == ptr);
    assert(heap.deallocate(ptr).slots =~= heap.release(seq![ptr]).slots);
    assert(heap.deallocate(ptr).freed =~= heap.release(seq![ptr]).freed);
}

/// Releasing `first` and then `second` is releasing the one list after the
/// other.
pub proof fn lemma_release_twice(heap: HeapState, first: Seq<usize>, second: Seq<usize>)
    ensures
        heap.release(first).release(second) == heap.release(first + second),
{
    assert forall|p: usize| (first + second).contains(p) <==> first.contains(p) || second.contains(
        p,
    ) by {
        lemma_seq_concat_contains_all_elements(first, second, p);
    }
    assert(heap.release(first).release(second).slots =~= heap.release(first + second).slots);
    assert(heap.release(first).release(second).freed =~= heap.release(first + second).freed);
}

/// What a release of live blocks, each listed once, leaves: a heap in which
/// the listed blocks are live no more, every other block is as it was, and
/// one release is counted for each listed block.
pub proof fn lemma_release_frame(heap: HeapState, order: Seq<usize>)
    requires
        heap.wf(),
        order.no_duplicates(),
        forall|p: usize| #[trigger] order.contains(p) ==> heap.is_live(p),
    ensures
        heap.release(order).wf(),
        heap.release(order).allocations() == heap.allocations(),
        heap.release(order).releases() == heap.releases() + order.len(),
        forall|p: usize|
            heap.is_live(p) && !order.contains(p) ==> #[trigger] heap.release(order).is_live(p)
                && heap.release(order).block(p) == heap.block(p),
        forall|p: usize| order.contains(p) ==> !#[trigger] heap.release(order).is_live(p),
{
    let after = heap.release(order);
    lemma_cleared_bytes(heap.slots, order);
    assert forall|i: int, j: int|
        0 <= i < heap.freed.len() && 0 <= j < order.len() implies heap.freed[i] != order[j] by {
        assert(heap.freed.contains(heap.freed[i]));
        assert(order.contains(order[j]));
    }
    lemma_no_dup_in_concat(heap.freed, order);
    assert forall|p: usize|
        #![trigger after.freed.contains(p)]
        #![trigger after.is_released(p)]
        after.freed.contains(p) <==> after.is_released(p) by {
        lemma_seq_concat_contains_all_elements(heap.freed, order, p);
        if heap.is_released(p) {
            assert(heap.freed.contains(p));
        }
        if order.contains(p) {
            assert(heap.is_live(p));
        }
    }
}

/// Why a constructor returned no record.
#[derive(Debug, Clone, Copy, PartialEq, Eq)]
pub enum AllocError {
    /// The allocator could not serve the buffer.
    OutOfMemory,
}

/// The allocator of the foreign runtime, with a table of everything it has
/// handed out and a list of everything it has taken back.
pub struct ForeignAllocator {
    slots: Vec<Option<Vec<u8>>>,
    freed: Vec<usize>,
    capacity: usize,
    in_use: usize,
}

impl View for ForeignAllocator {
    type V = HeapState;

    closed spec fn view(&self) -> HeapState {
        HeapState {
            slots: Seq::new(
                self.slots@.len(),
                |i: int|
                    match self.slots@[i] {
                        Some(block) => Some(block@),
                        None => None,
                    },
            ),
            freed: self.freed@,
            capacity: self.capacity as nat,
        }
    }
}

impl ForeignAllocator {
    /// The state is well-formed and the running total agrees with the table.
    pub closed spec fn wf(&self) -> bool {
        &&& self@.wf()
        &&& self.in_use == self@.in_use()
    }

    /// The state of a well-formed allocator is well-formed.
    pub proof fn lemma_bounds(&self)
        requires
            self.wf(),
        ensures
            self@.wf(),
    {
    }

    /// An allocator that has handed out nothing and keeps at most `capacity`
    /// bytes allocated at a time.
    pub fn new(capacity: usize) -> (heap: ForeignAllocator)
        ensures
            heap.wf(),
            heap@ == HeapState::empty(capacity as nat),
    {
        let heap = ForeignAllocator { slots: Vec::new(), freed: Vec::new(), capacity, in_use: 0 };
        assert(heap@.slots =~= Seq::empty());
        heap
    }

    /// Hands out a block of `size` bytes and returns its address, or returns
    /// the null pointer and leaves the heap as it was when the request cannot
    /// be met.
    pub fn allocate(&mut self, size: usize) -> (ptr: usize)
        requires
            old(self).wf(),
            size > 0,
        ensures
            final(self).wf(),
            old(self)@.can_allocate(size as nat) ==> ptr == old(self)@.next_address()
                && final(self)@ == old(self)@.allocate(size as nat),
            !old(self)@.can_allocate(size as nat) ==> ptr == 0 && final(self)@ == old(self)@,
    {
        if self.slots.len() == usize::MAX || size > self.capacity - self.in_use {
            return 0;
        }
        let block: Vec<u8> = vec![0u8; size];
        proof {
            lemma_push_slot(self@.slots, Some(zeroed(size as nat)));
        }
        self.slots.push(Some(block));
        self.in_use = self.in_use + size;
        assert(self@.slots =~= old(self)@.slots.push(Some(zeroed(size as nat)))) by {
            assert(block@ =~= zeroed(size as nat));
        }
        self.slots.len()
    }

    /// Releases the block at `ptr`.
    pub fn deallocate(&mut self, ptr: usize)
        requires
            old(self).wf(),
            old(self)@.is_live(ptr),
        ensures
            final(self).wf(),
            final(self)@ == old(self)@.deallocate(ptr),
    {
        let size = match &self.slots[ptr - 1] {
            Some(block) => block.len(),
            None => 0,
        };
        proof {
            lemma_update_slot(self@.slots, ptr - 1, None);
            lemma_release_one(self@, ptr);
            assert(seq![ptr].no_duplicates());
            assert forall|p: usize| seq![ptr].contains(p) implies self@.is_live(p) by {
                assert(p == ptr);
            }
            lemma_release_frame(self@, seq![ptr]);
        }
        self.slots.set(ptr - 1, None);
        self.freed.push(ptr);
        self.in_use = self.in_use - size;
        assert(self@.slots =~= old(self)@.slots.update(ptr - 1, None));
    }

    /// Overwrites the block at `ptr` with `bytes`, which fill it exactly.
    pub fn store(&mut self, ptr: usize, bytes: Vec<u8>)
        requires
            old(self).wf(),
            old(self)@.is_live(ptr),
            bytes@.len() == old(self)@.block(ptr).len(),
        ensures
            final(self).wf(),
            final(self)@ == old(self)@.store(ptr, bytes@),
    {
        proof {
            lemma_update_slot(self@.slots, ptr - 1, Some(bytes@));
        }
        self.slots.set(ptr - 1, Some(bytes));
        assert(self@.slots =~= old(self)@.slots.update(ptr - 1, Some(bytes@)));
    }

    /// The bytes of the block at `ptr`.
    pub fn block(&self, ptr: usize) -> (bytes: &[u8])
        requires
            self@.is_live(ptr),
        ensures
            bytes@ == self@.block(ptr),
    {
        match &self.slots[ptr - 1] {
            Some(block) => block.as_slice(),
            None => &[],
        }
    }

    /// Whether `ptr` is the address of a live block.
    pub fn is_live(&self, ptr: usize) -> (live: bool)
        ensures
            live == self@.is_live(ptr),
    {
        ptr != 0 && ptr <= self.slots.len() && self.slots[ptr - 1].is_some()
    }

    /// Number of successful allocations so far.
    pub fn allocations(&self) -> (n: usize)
        ensures
            n == self@.allocations(),
    {
        self.slots.len()
    }

    /// Number of releases so far.
    pub fn releases(&self) -> (n: usize)
        ensures
            n == self@.releases(),
    {
        self.freed.len()
    }

    /// The released addresses, in the order of their release.
    pub fn freed(&self) -> (order: &[usize])
        ensures
            order@ == self@.freed,
    {
        self.freed.as_slice()
    }

    /// Bytes that are allocated and not yet released.
    pub fn in_use(&self) -> (n: usize)
        requires
            self.wf(),
        ensures
            n == self@.in_use(),
    {
        self.in_use
    }

    /// The most bytes that may be allocated at a time.
    pub fn capacity(&self) -> (n: usize)
        ensures
            n == self@.capacity,
    {
        self.capacity
    }
}

} // verus!
