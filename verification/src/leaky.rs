//! The non-owning variable-length array: the same record as the owning one,
//! copied bit for bit and never released on its own. Teardown is a call that
//! the holder of the record makes, once for each buffer.
use crate::array::{buffer_size, has_room, placed, VarLenArray};
use crate::heap::{
    lemma_release_frame, lemma_release_none, lemma_release_one, lemma_release_twice, AllocError,
    ForeignAllocator, HeapState,
};
use crate::plain::{
    decode_all, decode_block, encode_all, encode_slice, lemma_decode_encode,
    lemma_element_bounds, lemma_encode_all_len, PlainData,
};
use crate::teardown::ForeignDrop;
use std::marker::PhantomData;
use vstd::bytes::*;
use vstd::prelude::*;
use vstd::seq_lib::{lemma_no_dup_in_concat, lemma_seq_concat_contains_all_elements};
use vstd::set_lib::lemma_set_disjoint_lens;
use vstd::slice::slice_subrange;

verus! {

broadcast use vstd::slice::group_slice_axioms;

/// A variable-length array that does not own its buffer.
///
/// Copying the record copies the count and the pointer, not the buffer, so
/// several records may name one buffer. Nothing is released until `drop` is
/// called, and it is for the caller to call it on one record of each buffer
/// only.
pub struct LeakyVarLenArray<T: ForeignDrop> {
    len: usize,
    ptr: usize,
    ph: PhantomData<T>,
}

impl<T: ForeignDrop> Clone for LeakyVarLenArray<T> {
    /// A second record for the same buffer.
    fn clone(&self) -> (copy: Self)
        ensures
            copy == *self,
    {
        *self
    }
}

impl<T: ForeignDrop> Copy for LeakyVarLenArray<T> {

}

/// The blocks that the first `n` of `items` own, taken together.
pub open spec fn owned_upto<T: ForeignDrop>(items: Seq<T>, heap: HeapState, n: nat) -> Set<usize>
    decreases n,
{
    if n == 0 {
        Set::empty()
    } else {
        owned_upto(items, heap, (n - 1) as nat).union(items[n - 1].owned(heap))
    }
}

/// The same blocks in the order in which destroying the first `n` of `items`,
/// one after the other, releases them.
pub open spec fn released_upto<T: ForeignDrop>(items: Seq<T>, heap: HeapState, n: nat) -> Seq<
    usize,
>
    decreases n,
{
    if n == 0 {
        Seq::empty()
    } else {
        released_upto(items, heap, (n - 1) as nat) + items[n - 1].released(heap)
    }
}

/// The elements can be destroyed one after the other: each can be destroyed,
/// and no two of them own a block in common.
pub open spec fn independent<T: ForeignDrop>(items: Seq<T>, heap: HeapState) -> bool {
    &&& forall|i: int| 0 <= i < items.len() ==> (#[trigger] items[i]).droppable(heap)
    &&& forall|i: int, j: int|
        0 <= i < j < items.len() ==> (#[trigger] items[i]).owned(heap).disjoint(
            (#[trigger] items[j]).owned(heap),
        )
}

/// The elements of the buffer at `buffer` can be destroyed one after the
/// other, and none of them owns the buffer they lie in.
pub open spec fn separate<T: ForeignDrop>(items: Seq<T>, heap: HeapState, buffer: usize) -> bool {
    &&& independent(items, heap)
    &&& forall|i: int| 0 <= i < items.len() ==> !(#[trigger] items[i]).owned(heap).contains(buffer)
}

/// What the first `n` elements own is a finite set of live blocks, made of
/// what each of them owns.
pub proof fn lemma_owned_upto<T: ForeignDrop>(items: Seq<T>, heap: HeapState, n: nat)
    requires
        n <= items.len(),
        forall|i: int| 0 <= i < n ==> (#[trigger] items[i]).droppable(heap),
    ensures
        owned_upto(items, heap, n).finite(),
        heap.all_live(owned_upto(items, heap, n)),
        forall|i: int|
            0 <= i < n ==> (#[trigger] items[i]).owned(heap).subset_of(owned_upto(items, heap, n)),
        forall|p: usize|
            owned_upto(items, heap, n).contains(p) ==> exists|i: int|
                0 <= i < n && (#[trigger] items[i]).owned(heap).contains(p),
        !T::spec_needs_drop() ==> owned_upto(items, heap, n) == Set::<usize>::empty(),
    decreases n,
{
    if n > 0 {
        let before = (n - 1) as nat;
        lemma_owned_upto(items, heap, before);
        items[n - 1].lemma_owned(heap);
        assert forall|p: usize| owned_upto(items, heap, n).contains(p) implies exists|i: int|
            0 <= i < n && (#[trigger] items[i]).owned(heap).contains(p) by {
            if items[n - 1].owned(heap).contains(p) {
            } else {
                let i = choose|i: int|
                    0 <= i < before && (#[trigger] items[i]).owned(heap).contains(p);
                assert(items[i].owned(heap).contains(p));
            }
        }
        if !T::spec_needs_drop() {
            assert(owned_upto(items, heap, n) =~= Set::<usize>::empty());
        }
    }
}

/// Destroying the first `n` elements releases what they own, each block once.
pub proof fn lemma_released_upto<T: ForeignDrop>(items: Seq<T>, heap: HeapState, n: nat)
    requires
        n <= items.len(),
        independent(items, heap),
    ensures
        released_upto(items, heap, n).no_duplicates(),
        released_upto(items, heap, n).len() == owned_upto(items, heap, n).len(),
        forall|p: usize|
            released_upto(items, heap, n).contains(p) <==> owned_upto(items, heap, n).contains(p),
        !T::spec_needs_drop() ==> released_upto(items, heap, n) == Seq::<usize>::empty(),
    decreases n,
{
    if n > 0 {
        let before = (n - 1) as nat;
        let done = released_upto(items, heap, before);
        let next = items[n - 1].released(heap);
        lemma_released_upto(items, heap, before);
        lemma_owned_upto(items, heap, before);
        items[n - 1].lemma_owned(heap);
        assert(owned_upto(items, heap, before).disjoint(items[n - 1].owned(heap))) by {
            assert forall|p: usize| owned_upto(items, heap, before).contains(p) implies !items[n
                - 1].owned(heap).contains(p) by {
                let j = choose|j: int|
                    0 <= j < before && (#[trigger] items[j]).owned(heap).contains(p);
                assert(items[j].owned(heap).disjoint(items[n - 1].owned(heap)));
            }
        }
        assert forall|i: int, j: int| 0 <= i < done.len() && 0 <= j < next.len() implies done[i]
            != next[j] by {
            assert(done.contains(done[i]));
            assert(next.contains(next[j]));
        }
        lemma_no_dup_in_concat(done, next);
        lemma_set_disjoint_lens(owned_upto(items, heap, before), items[n - 1].owned(heap));
        assert forall|p: usize|
            released_upto(items, heap, n).contains(p) <==> owned_upto(items, heap, n).contains(
                p,
            ) by {
            lemma_seq_concat_contains_all_elements(done, next, p);
        }
        if !T::spec_needs_drop() {
            assert(released_upto(items, heap, n) =~= Seq::<usize>::empty());
        }
    }
}

/// What the first `n` elements own, and that each can be destroyed, carries
/// over to a heap that holds the same bytes in the blocks they own.
pub proof fn lemma_owned_upto_frame<T: ForeignDrop>(
    items: Seq<T>,
    heap: HeapState,
    other: HeapState,
    n: nat,
)
    requires
        n <= items.len(),
        forall|i: int| 0 <= i < n ==> (#[trigger] items[i]).droppable(heap),
        forall|i: int| 0 <= i < n ==> heap.agrees_on(other, (#[trigger] items[i]).owned(heap)),
    ensures
        forall|i: int| 0 <= i < n ==> (#[trigger] items[i]).droppable(other),
        forall|i: int| 0 <= i < n ==> (#[trigger] items[i]).owned(other) == items[i].owned(heap),
        owned_upto(items, other, n) == owned_upto(items, heap, n),
        released_upto(items, other, n) == released_upto(items, heap, n),
    decreases n,
{
    if n > 0 {
        lemma_owned_upto_frame(items, heap, other, (n - 1) as nat);
        items[n - 1].lemma_frame(heap, other);
    }
}

impl<T: ForeignDrop> LeakyVarLenArray<T> {
    /// Number of elements.
    pub closed spec fn spec_len(&self) -> usize {
        self.len
    }

    /// Address of the buffer; `0` for none.
    pub closed spec fn spec_as_ptr(&self) -> usize {
        self.ptr
    }

    /// The record is empty and null, or populated with a live block of
    /// exactly `len` elements.
    pub open spec fn wf(&self, heap: HeapState) -> bool {
        &&& self.len() == 0 <==> self.as_ptr() == 0
        &&& self.as_ptr() != 0 ==> heap.is_live(self.as_ptr()) && heap.block(self.as_ptr()).len()
            == buffer_size::<T>(self.len() as nat)
    }

    /// The elements of the array, read from `heap`.
    pub open spec fn elements(&self, heap: HeapState) -> Seq<T> {
        if self.len() == 0 {
            Seq::empty()
        } else {
            decode_all::<T>(heap.block(self.as_ptr()), self.len() as nat)
        }
    }

    /// Number of elements.
    #[verifier::when_used_as_spec(spec_len)]
    pub fn len(&self) -> (len: usize)
        ensures
            len == self.len(),
    {
        self.len
    }

    /// Address of the buffer, null for the empty array.
    #[verifier::when_used_as_spec(spec_as_ptr)]
    pub fn as_ptr(&self) -> (ptr: usize)
        ensures
            ptr == self.as_ptr(),
    {
        self.ptr
    }

    /// Address of the buffer for writing, null for the empty array.
    pub fn as_mut_ptr(&self) -> (ptr: usize)
        ensures
            ptr == self.as_ptr(),
    {
        self.ptr
    }

    /// Whether the array has no element.
    pub fn is_empty(&self) -> (empty: bool)
        ensures
            empty == (self.len() == 0),
    {
        self.len == 0
    }

    /// Whether the record is well-formed with respect to `heap`: what the
    /// operations that read or release the buffer ask of their caller.
    pub fn is_valid(&self, heap: &ForeignAllocator) -> (ok: bool)
        ensures
            ok == self.wf(heap@),
    {
        if self.ptr == 0 {
            return self.len == 0;
        }
        if self.len == 0 || !heap.is_live(self.ptr) {
            return false;
        }
        let bytes = heap.block(self.ptr);
        assert(bytes@.len() == bytes.len());
        match self.len.checked_mul(T::size()) {
            Some(size) => bytes.len() == size,
            None => false,
        }
    }

    /// The elements, copied out of the buffer.
    pub fn as_slice(&self, heap: &ForeignAllocator) -> (items: Vec<T>)
        requires
            self.wf(heap@),
        ensures
            items@ == self.elements(heap@),
    {
        let len = self.len;
        if len == 0 {
            Vec::new()
        } else {
            decode_block(heap.block(self.ptr), len)
        }
    }

    /// The record that the constructor returns for `s` in `heap`, and the only
    /// one: its fields are fixed by `s` and by the allocator's next address.
    pub open spec fn holds(&self, heap: HeapState, s: Seq<T>) -> bool {
        &&& self.len() == s.len()
        &&& self.as_ptr() == if s.len() == 0 {
            0
        } else {
            heap.next_address()
        }
    }

    /// Copies `arr` into a new buffer, as the owning array does; the empty
    /// slice gives the null record and allocates nothing. The buffer stays
    /// allocated until `drop` is called on a record that names it.
    pub fn from_slice(arr: &[T], heap: &mut ForeignAllocator) -> (r: Result<Self, AllocError>)
        requires
            old(heap).wf(),
        ensures
            final(heap).wf(),
            r is Ok <==> has_room(old(heap)@, arr@),
            r matches Ok(a) ==> {
                &&& a.holds(old(heap)@, arr@)
                &&& a.wf(final(heap)@)
                &&& a.elements(final(heap)@) == arr@
            },
            final(heap)@ == placed(old(heap)@, arr@),
    {
        match VarLenArray::from_slice(arr, heap) {
            Ok(owner) => Ok(
                LeakyVarLenArray { len: owner.len(), ptr: owner.as_ptr(), ph: PhantomData },
            ),
            Err(e) => Err(e),
        }
    }

    /// Mutable access to the elements: copies `items` over them, one for one.
    pub fn as_mut_slice(&self, items: &[T], heap: &mut ForeignAllocator)
        requires
            old(heap).wf(),
            self.wf(old(heap)@),
            items@.len() == self.len(),
        ensures
            final(heap).wf(),
            self.wf(final(heap)@),
            self.elements(final(heap)@) == items@,
            final(heap)@ == if self.len() == 0 {
                old(heap)@
            } else {
                old(heap)@.store(self.as_ptr(), encode_all(items@))
            },
    {
        let len = self.len;
        if len == 0 {
            assert(items@ =~= Seq::<T>::empty());
        } else {
            let image = encode_slice(items, len);
            proof {
                assert(items@.subrange(0, len as int) =~= items@);
                lemma_encode_all_len(items@);
                lemma_decode_encode(items@);
            }
            heap.store(self.ptr, image);
        }
    }

    /// Tears the array down: destroys each element in index order, gives the
    /// buffer back to the allocator and leaves the record empty. On a null
    /// record nothing happens.
    pub fn drop(&mut self, heap: &mut ForeignAllocator)
        requires
            old(heap).wf(),
            old(self).droppable(old(heap)@),
        ensures
            final(heap).wf(),
            final(self).len() == 0,
            final(self).as_ptr() == 0,
            final(heap)@ == old(heap)@.release(old(self).released(old(heap)@)),
            final(heap)@.releases() == old(heap)@.releases() + old(self).owned(old(heap)@).len(),
    {
        let ghost start = heap@;
        let ghost items = self.elements(start);
        proof {
            heap.lemma_bounds();
            (*self).lemma_owned(start);
            lemma_release_none(start);
        }
        if self.ptr == 0 {
            return ;
        }
        let ptr = self.ptr;
        let len = self.len;
        if T::needs_drop() {
            let size = T::size();
            let mut i: usize = 0;
            let mut at: usize = 0;
            while i < len
                invariant
                    heap.wf(),
                    start.wf(),
                    i <= len,
                    0 < size == T::spec_size(),
                    at == i * size,
                    len == items.len(),
                    start.is_live(ptr),
                    start.block(ptr).len() == len * size,
                    items == decode_all::<T>(start.block(ptr), len as nat),
                    separate(items, start, ptr),
                    heap@ == start.release(released_upto(items, start, i as nat)),
                decreases len - i,
            {
                let ghost done = released_upto(items, start, i as nat);
                proof {
                    lemma_owned_upto(items, start, i as nat);
                    lemma_released_upto(items, start, i as nat);
                    lemma_release_frame(start, done);
                    lemma_element_bounds(i as int, len as int, size as int);
                    items[i as int].lemma_owned(start);
                    assert(!done.contains(ptr));
                    assert(start.agrees_on(heap@, items[i as int].owned(start))) by {
                        assert forall|p: usize|
                            items[i as int].owned(start).contains(p) implies !done.contains(p) by {
                            if done.contains(p) {
                                let j = choose|j: int|
                                    0 <= j < i && (#[trigger] items[j]).owned(start).contains(p);
                                assert(items[j].owned(start).disjoint(
                                    items[i as int].owned(start),
                                ));
                            }
                        }
                    }
                    items[i as int].lemma_frame(start, heap@);
                }
                let bytes = heap.block(ptr);
                assert(bytes@.len() == bytes.len());
                let mut item = T::load(bytes, at);
                assert(item == items[i as int]);
                item.drop_in_place(heap);
                proof {
                    lemma_release_twice(start, done, items[i as int].released(start));
                }
                at = at + size;
                i = i + 1;
            }
        } else {
            proof {
                lemma_released_upto(items, start, len as nat);
            }
        }
        let ghost inner = released_upto(items, start, len as nat);
        proof {
            lemma_owned_upto(items, start, len as nat);
            lemma_released_upto(items, start, len as nat);
            lemma_release_frame(start, inner);
            assert(!inner.contains(ptr));
            heap.lemma_bounds();
            lemma_release_one(heap@, ptr);
            lemma_release_twice(start, inner, seq![ptr]);
            assert(inner + seq![ptr] =~= inner.push(ptr));
        }
        heap.deallocate(ptr);
        self.ptr = 0;
        self.len = 0;
    }
}

/// The image of a record on the foreign heap: the element count as a 64-bit
/// little-endian word, then the address of the buffer as another, sixteen
/// bytes in all.
pub open spec fn record_image(len: usize, ptr: usize) -> Seq<u8> {
    spec_u64_to_le_bytes(len as u64) + spec_u64_to_le_bytes(ptr as u64)
}

/// The count that sixteen bytes hold when read as a record.
pub open spec fn image_len(bytes: Seq<u8>) -> usize {
    spec_u64_from_le_bytes(bytes.subrange(0, 8)) as usize
}

/// The address that sixteen bytes hold when read as a record.
pub open spec fn image_ptr(bytes: Seq<u8>) -> usize {
    spec_u64_from_le_bytes(bytes.subrange(8, 16)) as usize
}

/// The two words of a record can be read back from its image.
pub proof fn lemma_record_image(len: usize, ptr: usize)
    ensures
        record_image(len, ptr).len() == 16,
        image_len(record_image(len, ptr)) == len,
        image_ptr(record_image(len, ptr)) == ptr,
{
    lemma_auto_spec_u64_to_from_le_bytes();
    assert(record_image(len, ptr).subrange(0, 8) =~= spec_u64_to_le_bytes(len as u64));
    assert(record_image(len, ptr).subrange(8, 16) =~= spec_u64_to_le_bytes(ptr as u64));
}

impl<T: ForeignDrop> LeakyVarLenArray<T> {
    /// A record is its two words: records with equal counts and equal
    /// addresses are equal.
    pub proof fn lemma_same_fields(self, other: Self)
        requires
            self.len() == other.len(),
            self.as_ptr() == other.as_ptr(),
        ensures
            self == other,
    {
    }

    /// Decoding reads the count from the first word and the address from the
    /// second.
    pub proof fn lemma_decode(bytes: Seq<u8>)
        ensures
            Self::decode(bytes).len() == image_len(bytes),
            Self::decode(bytes).as_ptr() == image_ptr(bytes),
    {
    }
}

impl<T: ForeignDrop> PlainData for LeakyVarLenArray<T> {
    open spec fn spec_size() -> nat {
        16
    }

    open spec fn encode(self) -> Seq<u8> {
        record_image(self.len(), self.as_ptr())
    }

    closed spec fn decode(bytes: Seq<u8>) -> Self {
        LeakyVarLenArray { len: image_len(bytes), ptr: image_ptr(bytes), ph: PhantomData }
    }

    proof fn lemma_encoding(v: Self) {
        lemma_record_image(v.len, v.ptr);
    }

    fn size() -> (n: usize) {
        16
    }

    fn store(&self, out: &mut Vec<u8>) {
        let mut count = u64_to_le_bytes(self.len as u64);
        let mut address = u64_to_le_bytes(self.ptr as u64);
        out.append(&mut count);
        out.append(&mut address);
        assert(out@ =~= old(out)@ + self.encode());
    }

    fn load(bytes: &[u8], at: usize) -> (v: Self) {
        assert(bytes@.len() == bytes.len());
        let ghost image = bytes@.subrange(at as int, at + 16);
        assert(image.subrange(0, 8) =~= bytes@.subrange(at as int, at + 8));
        assert(image.subrange(8, 16) =~= bytes@.subrange(at + 8, at + 16));
        let count = u64_from_le_bytes(slice_subrange(bytes, at, at + 8));
        let address = u64_from_le_bytes(slice_subrange(bytes, at + 8, at + 16));
        LeakyVarLenArray {
            len: #[verifier::truncate] (count as usize),
            ptr: #[verifier::truncate] (address as usize),
            ph: PhantomData,
        }
    }

    fn same(&self, other: &Self) -> (b: bool) {
        self.len == other.len && self.ptr == other.ptr
    }
}

impl<T: ForeignDrop> ForeignDrop for LeakyVarLenArray<T> {
    open spec fn spec_needs_drop() -> bool {
        true
    }

    open spec fn owned(self, heap: HeapState) -> Set<usize> {
        if self.as_ptr() == 0 {
            Set::empty()
        } else {
            owned_upto(self.elements(heap), heap, self.len() as nat).insert(self.as_ptr())
        }
    }

    open spec fn released(self, heap: HeapState) -> Seq<usize> {
        if self.as_ptr() == 0 {
            Seq::empty()
        } else {
            released_upto(self.elements(heap), heap, self.len() as nat).push(self.as_ptr())
        }
    }

    open spec fn droppable(self, heap: HeapState) -> bool {
        &&& self.wf(heap)
        &&& self.as_ptr() != 0 ==> separate(self.elements(heap), heap, self.as_ptr())
    }

    proof fn lemma_owned(self, heap: HeapState) {
        if self.as_ptr() != 0 {
            let items = self.elements(heap);
            let n = self.len() as nat;
            let inner = released_upto(items, heap, n);
            lemma_owned_upto(items, heap, n);
            lemma_released_upto(items, heap, n);
            assert(!owned_upto(items, heap, n).contains(self.as_ptr()));
            assert(inner.push(self.as_ptr()) =~= inner + seq![self.as_ptr()]);
            assert forall|i: int, j: int| 0 <= i < inner.len() && 0 <= j < 1 implies inner[i]
                != seq![self.as_ptr()][j] by {
                assert(inner.contains(inner[i]));
            }
            lemma_no_dup_in_concat(inner, seq![self.as_ptr()]);
            assert forall|p: usize|
                self.released(heap).contains(p) <==> self.owned(heap).contains(p) by {
                lemma_seq_concat_contains_all_elements(inner, seq![self.as_ptr()], p);
                assert(seq![self.as_ptr()][0] == self.as_ptr());
            }
        }
    }

    proof fn lemma_frame(self, heap: HeapState, other: HeapState) {
        if self.as_ptr() != 0 {
            let items = self.elements(heap);
            let n = self.len() as nat;
            lemma_owned_upto(items, heap, n);
            assert(other.is_live(self.as_ptr()));
            assert(self.elements(other) == items);
            assert forall|i: int| 0 <= i < n implies heap.agrees_on(
                other,
                (#[trigger] items[i]).owned(heap),
            ) by {
                assert(items[i].owned(heap).subset_of(owned_upto(items, heap, n)));
            }
            lemma_owned_upto_frame(items, heap, other, n);
        }
    }

    fn needs_drop() -> (b: bool) {
        true
    }

    fn drop_in_place(&mut self, heap: &mut ForeignAllocator)
        ensures
            final(self).len() == 0,
            final(self).as_ptr() == 0,
    {
        self.drop(heap);
    }
}

} // verus!
