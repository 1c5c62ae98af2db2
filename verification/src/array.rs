//! The owning variable-length array: a count and a pointer to a buffer on the
//! foreign heap that belongs to this record alone.
use crate::heap::{
    lemma_push_slot, lemma_update_slot, zeroed, AllocError, ForeignAllocator, HeapState,
};
use crate::plain::{
    decode_all, decode_block, encode_all, encode_slice, lemma_decode_encode, lemma_encode_all_len,
    same_items, PlainData,
};
use std::marker::PhantomData;
use vstd::prelude::*;

verus! {

broadcast use vstd::slice::group_slice_axioms;

/// A variable-length array that owns its buffer.
///
/// The record is the pair the foreign runtime reads: the element count, then
/// the address of the buffer. An empty array is the pair `(0, null)` and owns
/// nothing. Every populated record is made by copying its source into a block
/// of its own, so no two records share a buffer, and `drop` gives the block
/// back exactly once.
pub struct VarLenArray<T: PlainData> {
    len: usize,
    ptr: usize,
    tag: PhantomData<T>,
}

/// What a constructor copies: the first `len` elements behind `p`, or nothing
/// when `p` is null.
pub open spec fn source_of<T>(p: Option<&[T]>, len: usize) -> Seq<T> {
    match p {
        Some(src) => src@.subrange(0, len as int),
        None => Seq::empty(),
    }
}

/// Bytes that a buffer of `count` elements of `T` takes.
pub open spec fn buffer_size<T: PlainData>(count: nat) -> nat {
    count * T::spec_size()
}

/// The heap after a buffer that holds `s` has been allocated and filled.
pub open spec fn heap_with<T: PlainData>(heap: HeapState, s: Seq<T>) -> HeapState {
    heap.allocate(buffer_size::<T>(s.len())).store(heap.next_address(), encode_all(s))
}

/// A constructor has room for `s`: it is empty, or the allocator can serve its
/// buffer.
pub open spec fn has_room<T: PlainData>(heap: HeapState, s: Seq<T>) -> bool {
    s.len() == 0 || heap.can_allocate(buffer_size::<T>(s.len()))
}

/// The heap that a constructor leaves when it is asked to copy `s`: one more
/// buffer where `s` has elements and the allocator has room, else the heap as
/// it was.
pub open spec fn placed<T: PlainData>(heap: HeapState, s: Seq<T>) -> HeapState {
    if s.len() > 0 && heap.can_allocate(buffer_size::<T>(s.len())) {
        heap_with(heap, s)
    } else {
        heap
    }
}

/// The new buffer holds `s`, and every block that was live before is live
/// still, with the bytes it had.
pub proof fn lemma_heap_with<T: PlainData>(heap: HeapState, s: Seq<T>)
    requires
        s.len() > 0,
        heap.can_allocate(buffer_size::<T>(s.len())),
    ensures
        !heap.is_live(heap.next_address()),
        heap_with(heap, s).is_live(heap.next_address()),
        heap_with(heap, s).block(heap.next_address()) == encode_all(s),
        heap_with(heap, s).allocations() == heap.allocations() + 1,
        heap_with(heap, s).releases() == heap.releases(),
        heap_with(heap, s).in_use() == heap.in_use() + encode_all(s).len(),
        encode_all(s).len() == buffer_size::<T>(s.len()),
        heap.wf() ==> heap_with(heap, s).wf(),
        forall|p: usize|
            heap.is_live(p) ==> #[trigger] heap_with(heap, s).is_live(p) && heap_with(
                heap,
                s,
            ).block(p) == heap.block(p),
{
    let size = buffer_size::<T>(s.len());
    let fresh = heap.allocate(size);
    lemma_encode_all_len(s);
    lemma_push_slot(heap.slots, Some(zeroed(size)));
    lemma_update_slot(fresh.slots, heap.slots.len() as int, Some(encode_all(s)));
}

impl<T: PlainData> VarLenArray<T> {
    /// Number of elements.
    pub closed spec fn spec_len(&self) -> usize {
        self.len
    }

    /// Address of the buffer; `0` for none.
    pub closed spec fn spec_as_ptr(&self) -> usize {
        self.ptr
    }

    /// The record is in one of its two states with respect to `heap`: empty
    /// and null, or populated with a live block of exactly `len` elements.
    pub open spec fn wf(&self, heap: HeapState) -> bool {
        &&& self.len() == 0 <==> self.as_ptr() == 0
        &&& self.as_ptr() != 0 ==> heap.is_live(self.as_ptr()) && heap.block(self.as_ptr()).len()
            == buffer_size::<T>(self.len() as nat)
    }

    /// The elements of the array, read from `heap`.
    pub open spec fn elements(&self, heap: HeapState) -> Seq<T> {
        if self.len() == 0 || self.as_ptr() == 0 {
            Seq::empty()
        } else {
            decode_all::<T>(heap.block(self.as_ptr()), self.len() as nat)
        }
    }

    /// The heap after the record has given its buffer back: the block is
    /// released where there is one.
    pub open spec fn torn_down(&self, heap: HeapState) -> HeapState {
        if self.as_ptr() == 0 {
            heap
        } else {
            heap.deallocate(self.as_ptr())
        }
    }

    /// The record that a constructor returns for `s` in `heap`, and the only
    /// one: its fields are fixed by `s` and by the allocator's next address.
    pub open spec fn holds(&self, heap: HeapState, s: Seq<T>) -> bool {
        &&& self.len() == s.len()
        &&& self.as_ptr() == if s.len() == 0 {
            0
        } else {
            heap.next_address()
        }
    }

    /// Copies the first `len` elements behind `p` into a new buffer. A null
    /// `p` or a zero `len` gives the empty array and allocates nothing.
    pub fn from_parts(p: Option<&[T]>, len: usize, heap: &mut ForeignAllocator) -> (r: Result<
        Self,
        AllocError,
    >)
        requires
            old(heap).wf(),
            p matches Some(src) ==> len <= src@.len(),
        ensures
            final(heap).wf(),
            r is Ok <==> has_room(old(heap)@, source_of(p, len)),
            r matches Ok(a) ==> {
                &&& a.holds(old(heap)@, source_of(p, len))
                &&& a.wf(final(heap)@)
                &&& a.elements(final(heap)@) == source_of(p, len)
            },
            final(heap)@ == placed(old(heap)@, source_of(p, len)),
    {
        let ghost s = source_of(p, len);
        let src = match p {
            Some(src) => src,
            None => {
                return Ok(VarLenArray { len: 0, ptr: 0, tag: PhantomData });
            },
        };
        if len == 0 {
            return Ok(VarLenArray { len: 0, ptr: 0, tag: PhantomData });
        }
        let size = match len.checked_mul(T::size()) {
            Some(size) => size,
            None => {
                proof {
                    heap.lemma_bounds();
                }
                return Err(AllocError::OutOfMemory);
            },
        };
        assert(size > 0) by (nonlinear_arith)
            requires
                size == len * T::spec_size(),
                len > 0,
                T::spec_size() > 0,
        ;
        let ptr = heap.allocate(size);
        if ptr == 0 {
            return Err(AllocError::OutOfMemory);
        }
        let image = encode_slice(src, len);
        proof {
            lemma_encode_all_len(s);
            lemma_heap_with(old(heap)@, s);
            lemma_decode_encode(s);
        }
        heap.store(ptr, image);
        Ok(VarLenArray { len, ptr, tag: PhantomData })
    }

    /// Copies `arr` into a new buffer; the empty slice gives the empty array
    /// and allocates nothing.
    pub fn from_slice(arr: &[T], heap: &mut ForeignAllocator) -> (r: Result<Self, AllocError>)
        requires
            old(heap).wf(),
        ensures
            final(heap).wf(),
            r is Ok <==> has_room(old(heap)@, arr@),
            r matches Ok(a) ==> {
                &&& a.holds(old(heap)@, arr@)
                &&& a.wf(final(heap)@)
                &&& a.elements(final(heap)@) == arr@
            },
            final(heap)@ == placed(old(heap)@, arr@),
    {
        assert(arr@.subrange(0, arr@.len() as int) =~= arr@);
        Self::from_parts(Some(arr), arr.len(), heap)
    }

    /// Copies the elements of the array `arr` into a new buffer.
    pub fn from_array<const N: usize>(arr: [T; N], heap: &mut ForeignAllocator) -> (r: Result<
        Self,
        AllocError,
    >)
        requires
            old(heap).wf(),
        ensures
            final(heap).wf(),
            r is Ok <==> has_room(old(heap)@, arr@),
            r matches Ok(a) ==> {
                &&& a.holds(old(heap)@, arr@)
                &&& a.wf(final(heap)@)
                &&& a.elements(final(heap)@) == arr@
            },
            final(heap)@ == placed(old(heap)@, arr@),
    {
        Self::from_slice(arr.as_slice(), heap)
    }

    /// Address of the buffer, null for the empty array.
    #[verifier::when_used_as_spec(spec_as_ptr)]
    pub fn as_ptr(&self) -> (ptr: usize)
        ensures
            ptr == self.as_ptr(),
    {
        self.ptr
    }

    /// Number of elements.
    #[verifier::when_used_as_spec(spec_len)]
    pub fn len(&self) -> (len: usize)
        ensures
            len == self.len(),
    {
        self.len
    }

    /// Whether the array has no element.
    pub fn is_empty(&self) -> (empty: bool)
        ensures
            empty == (self.len() == 0),
    {
        self.len == 0
    }

    /// Whether the record is well-formed with respect to `heap`: what the
    /// operations that read or release the buffer ask of their caller.
    pub fn is_valid(&self, heap: &ForeignAllocator) -> (ok: bool)
        ensures
            ok == self.wf(heap@),
    {
        if self.ptr == 0 {
            return self.len == 0;
        }
        if self.len == 0 || !heap.is_live(self.ptr) {
            return false;
        }
        let bytes = heap.block(self.ptr);
        assert(bytes@.len() == bytes.len());
        match self.len.checked_mul(T::size()) {
            Some(size) => bytes.len() == size,
            None => false,
        }
    }

    /// The elements, copied out of the buffer.
    pub fn deref(&self, heap: &ForeignAllocator) -> (items: Vec<T>)
        requires
            self.wf(heap@),
        ensures
            items@ == self.elements(heap@),
    {
        if self.len == 0 || self.ptr == 0 {
            Vec::new()
        } else {
            decode_block(heap.block(self.ptr), self.len)
        }
    }

    /// The elements, copied out of the buffer.
    pub fn as_slice(&self, heap: &ForeignAllocator) -> (items: Vec<T>)
        requires
            self.wf(heap@),
        ensures
            items@ == self.elements(heap@),
    {
        self.deref(heap)
    }

    /// Gives the buffer back to the allocator and leaves the record empty. On
    /// an empty record nothing is released.
    pub fn drop(&mut self, heap: &mut ForeignAllocator)
        requires
            old(heap).wf(),
            old(self).wf(old(heap)@),
        ensures
            final(heap).wf(),
            final(self).len() == 0,
            final(self).as_ptr() == 0,
            final(heap)@ == old(self).torn_down(old(heap)@),
            final(heap)@.releases() == old(heap)@.releases() + if old(self).as_ptr() == 0 {
                0nat
            } else {
                1nat
            },
    {
        if self.ptr == 0 {
            return ;
        }
        heap.deallocate(self.ptr);
        self.ptr = 0;
        self.len = 0;
    }

    /// A deep copy in a buffer of its own. The array it is taken from, and
    /// that array's buffer, are left as they were.
    pub fn clone(&self, heap: &mut ForeignAllocator) -> (r: Result<Self, AllocError>)
        requires
            old(heap).wf(),
            self.wf(old(heap)@),
        ensures
            final(heap).wf(),
            r is Ok <==> has_room(old(heap)@, self.elements(old(heap)@)),
            r matches Ok(copy) ==> {
                &&& copy.holds(old(heap)@, self.elements(old(heap)@))
                &&& copy.wf(final(heap)@)
                &&& copy.elements(final(heap)@) == self.elements(old(heap)@)
                &&& self.as_ptr() != 0 ==> copy.as_ptr() != self.as_ptr()
            },
            final(heap)@ == placed(old(heap)@, self.elements(old(heap)@)),
            self.wf(final(heap)@),
            self.elements(final(heap)@) == self.elements(old(heap)@),
    {
        let items = self.deref(heap);
        proof {
            if self.len() > 0 && has_room(heap@, items@) {
                lemma_heap_with(heap@, items@);
            }
        }
        Self::from_slice(items.as_slice(), heap)
    }

    /// The elements as a vector. The array is consumed and its buffer is
    /// given back to the allocator.
    pub fn into_vec(self, heap: &mut ForeignAllocator) -> (items: Vec<T>)
        requires
            old(heap).wf(),
            self.wf(old(heap)@),
        ensures
            final(heap).wf(),
            items@ == self.elements(old(heap)@),
            final(heap)@ == self.torn_down(old(heap)@),
    {
        let mut this = self;
        let items = this.deref(heap);
        this.drop(heap);
        items
    }

    /// Whether two arrays hold the same elements, whatever buffers they are in.
    pub fn eq(&self, other: &Self, heap: &ForeignAllocator) -> (b: bool)
        requires
            self.wf(heap@),
            other.wf(heap@),
        ensures
            b == (self.elements(heap@) == other.elements(heap@)),
    {
        let items = other.deref(heap);
        self.eq_slice(items.as_slice(), heap)
    }

    /// Whether the array holds the elements of `other`.
    pub fn eq_slice(&self, other: &[T], heap: &ForeignAllocator) -> (b: bool)
        requires
            self.wf(heap@),
        ensures
            b == (self.elements(heap@) == other@),
    {
        let items = self.deref(heap);
        same_items(items.as_slice(), other)
    }
}

impl<T: PlainData> Default for VarLenArray<T> {
    /// The empty array: no element, no buffer.
    fn default() -> (a: Self)
        ensures
            a.len() == 0,
            a.as_ptr() == 0,
    {
        VarLenArray { len: 0, ptr: 0, tag: PhantomData }
    }
}

} // verus!
