//! The integer types as elements: little-endian images, and nothing to
//! release.
use crate::heap::{lemma_release_none, ForeignAllocator, HeapState};
use crate::plain::PlainData;
use crate::teardown::ForeignDrop;
use vstd::bytes::*;
use vstd::prelude::*;
use vstd::slice::slice_subrange;

verus! {

broadcast use vstd::slice::group_slice_axioms;

impl PlainData for u8 {
    open spec fn spec_size() -> nat {
        1
    }

    open spec fn encode(self) -> Seq<u8> {
        seq![self]
    }

    open spec fn decode(bytes: Seq<u8>) -> u8 {
        bytes[0]
    }

    proof fn lemma_encoding(v: u8) {
    }

    fn size() -> (n: usize) {
        1
    }

    fn store(&self, out: &mut Vec<u8>) {
        out.push(*self);
        assert(out@ =~= old(out)@ + self.encode());
    }

    fn load(bytes: &[u8], at: usize) -> (v: u8) {
        bytes[at]
    }

    fn same(&self, other: &u8) -> (b: bool) {
        *self == *other
    }
}

impl ForeignDrop for u8 {
    open spec fn spec_needs_drop() -> bool {
        false
    }

    open spec fn owned(self, heap: HeapState) -> Set<usize> {
        Set::empty()
    }

    open spec fn released(self, heap: HeapState) -> Seq<usize> {
        Seq::empty()
    }

    open spec fn droppable(self, heap: HeapState) -> bool {
        true
    }

    proof fn lemma_owned(self, heap: HeapState) {
    }

    proof fn lemma_frame(self, heap: HeapState, other: HeapState) {
    }

    fn needs_drop() -> (b: bool) {
        false
    }

    fn drop_in_place(&mut self, heap: &mut ForeignAllocator)
        ensures
            *final(self) == *old(self),
    {
        proof {
            lemma_release_none(heap@);
        }
    }
}

impl PlainData for u16 {
    open spec fn spec_size() -> nat {
        2
    }

    open spec fn encode(self) -> Seq<u8> {
        spec_u16_to_le_bytes(self)
    }

    open spec fn decode(bytes: Seq<u8>) -> u16 {
        spec_u16_from_le_bytes(bytes)
    }

    proof fn lemma_encoding(v: u16) {
        lemma_auto_spec_u16_to_from_le_bytes();
    }

    fn size() -> (n: usize) {
        2
    }

    fn store(&self, out: &mut Vec<u8>) {
        let mut image = u16_to_le_bytes(*self);
        out.append(&mut image);
    }

    fn load(bytes: &[u8], at: usize) -> (v: u16) {
        assert(bytes@.len() == bytes.len());
        u16_from_le_bytes(slice_subrange(bytes, at, at + 2))
    }

    fn same(&self, other: &u16) -> (b: bool) {
        *self == *other
    }
}

impl ForeignDrop for u16 {
    open spec fn spec_needs_drop() -> bool {
        false
    }

    open spec fn owned(self, heap: HeapState) -> Set<usize> {
        Set::empty()
    }

    open spec fn released(self, heap: HeapState) -> Seq<usize> {
        Seq::empty()
    }

    open spec fn droppable(self, heap: HeapState) -> bool {
        true
    }

    proof fn lemma_owned(self, heap: HeapState) {
    }

    proof fn lemma_frame(self, heap: HeapState, other: HeapState) {
    }

    fn needs_drop() -> (b: bool) {
        false
    }

    fn drop_in_place(&mut self, heap: &mut ForeignAllocator)
        ensures
            *final(self) == *old(self),
    {
        proof {
            lemma_release_none(heap@);
        }
    }
}

impl PlainData for u32 {
    open spec fn spec_size() -> nat {
        4
    }

    open spec fn encode(self) -> Seq<u8> {
        spec_u32_to_le_bytes(self)
    }

    open spec fn decode(bytes: Seq<u8>) -> u32 {
        spec_u32_from_le_bytes(bytes)
    }

    proof fn lemma_encoding(v: u32) {
        lemma_auto_spec_u32_to_from_le_bytes();
    }

    fn size() -> (n: usize) {
        4
    }

    fn store(&self, out: &mut Vec<u8>) {
        let mut image = u32_to_le_bytes(*self);
        out.append(&mut image);
    }

    fn load(bytes: &[u8], at: usize) -> (v: u32) {
        assert(bytes@.len() == bytes.len());
        u32_from_le_bytes(slice_subrange(bytes, at, at + 4))
    }

    fn same(&self, other: &u32) -> (b: bool) {
        *self == *other
    }
}

impl ForeignDrop for u32 {
    open spec fn spec_needs_drop() -> bool {
        false
    }

    open spec fn owned(self, heap: HeapState) -> Set<usize> {
        Set::empty()
    }

    open spec fn released(self, heap: HeapState) -> Seq<usize> {
        Seq::empty()
    }

    open spec fn droppable(self, heap: HeapState) -> bool {
        true
    }

    proof fn lemma_owned(self, heap: HeapState) {
    }

    proof fn lemma_frame(self, heap: HeapState, other: HeapState) {
    }

    fn needs_drop() -> (b: bool) {
        false
    }

    fn drop_in_place(&mut self, heap: &mut ForeignAllocator)
        ensures
            *final(self) == *old(self),
    {
        proof {
            lemma_release_none(heap@);
        }
    }
}

impl PlainData for u64 {
    open spec fn spec_size() -> nat {
        8
    }

    open spec fn encode(self) -> Seq<u8> {
        spec_u64_to_le_bytes(self)
    }

    open spec fn decode(bytes: Seq<u8>) -> u64 {
        spec_u64_from_le_bytes(bytes)
    }

    proof fn lemma_encoding(v: u64) {
        lemma_auto_spec_u64_to_from_le_bytes();
    }

    fn size() -> (n: usize) {
        8
    }

    fn store(&self, out: &mut Vec<u8>) {
        let mut image = u64_to_le_bytes(*self);
        out.append(&mut image);
    }

    fn load(bytes: &[u8], at: usize) -> (v: u64) {
        assert(bytes@.len() == bytes.len());
        u64_from_le_bytes(slice_subrange(bytes, at, at + 8))
    }

    fn same(&self, other: &u64) -> (b: bool) {
        *self == *other
    }
}

impl ForeignDrop for u64 {
    open spec fn spec_needs_drop() -> bool {
        false
    }

    open spec fn owned(self, heap: HeapState) -> Set<usize> {
        Set::empty()
    }

    open spec fn released(self, heap: HeapState) -> Seq<usize> {
        Seq::empty()
    }

    open spec fn droppable(self, heap: HeapState) -> bool {
        true
    }

    proof fn lemma_owned(self, heap: HeapState) {
    }

    proof fn lemma_frame(self, heap: HeapState, other: HeapState) {
    }

    fn needs_drop() -> (b: bool) {
        false
    }

    fn drop_in_place(&mut self, heap: &mut ForeignAllocator)
        ensures
            *final(self) == *old(self),
    {
        proof {
            lemma_release_none(heap@);
        }
    }
}

impl PlainData for i8 {
    open spec fn spec_size() -> nat {
        1
    }

    open spec fn encode(self) -> Seq<u8> {
        seq![self as u8]
    }

    open spec fn decode(bytes: Seq<u8>) -> i8 {
        bytes[0] as i8
    }

    proof fn lemma_encoding(v: i8) {
        assert((v as u8) as i8 == v) by (bit_vector);
    }

    fn size() -> (n: usize) {
        1
    }

    fn store(&self, out: &mut Vec<u8>) {
        out.push(#[verifier::truncate] (*self as u8));
        assert(out@ =~= old(out)@ + self.encode());
    }

    fn load(bytes: &[u8], at: usize) -> (v: i8) {
        #[verifier::truncate]
        (bytes[at] as i8)
    }

    fn same(&self, other: &i8) -> (b: bool) {
        *self == *other
    }
}

impl ForeignDrop for i8 {
    open spec fn spec_needs_drop() -> bool {
        false
    }

    open spec fn owned(self, heap: HeapState) -> Set<usize> {
        Set::empty()
    }

    open spec fn released(self, heap: HeapState) -> Seq<usize> {
        Seq::empty()
    }

    open spec fn droppable(self, heap: HeapState) -> bool {
        true
    }

    proof fn lemma_owned(self, heap: HeapState) {
    }

    proof fn lemma_frame(self, heap: HeapState, other: HeapState) {
    }

    fn needs_drop() -> (b: bool) {
        false
    }

    fn drop_in_place(&mut self, heap: &mut ForeignAllocator)
        ensures
            *final(self) == *old(self),
    {
        proof {
            lemma_release_none(heap@);
        }
    }
}

impl PlainData for i16 {
    open spec fn spec_size() -> nat {
        2
    }

    open spec fn encode(self) -> Seq<u8> {
        spec_u16_to_le_bytes(self as u16)
    }

    open spec fn decode(bytes: Seq<u8>) -> i16 {
        spec_u16_from_le_bytes(bytes) as i16
    }

    proof fn lemma_encoding(v: i16) {
        lemma_auto_spec_u16_to_from_le_bytes();
        assert((v as u16) as i16 == v) by (bit_vector);
    }

    fn size() -> (n: usize) {
        2
    }

    fn store(&self, out: &mut Vec<u8>) {
        let mut image = u16_to_le_bytes(#[verifier::truncate] (*self as u16));
        out.append(&mut image);
    }

    fn load(bytes: &[u8], at: usize) -> (v: i16) {
        assert(bytes@.len() == bytes.len());
        #[verifier::truncate]
        (u16_from_le_bytes(slice_subrange(bytes, at, at + 2)) as i16)
    }

    fn same(&self, other: &i16) -> (b: bool) {
        *self == *other
    }
}

impl ForeignDrop for i16 {
    open spec fn spec_needs_drop() -> bool {
        false
    }

    open spec fn owned(self, heap: HeapState) -> Set<usize> {
        Set::empty()
    }

    open spec fn released(self, heap: HeapState) -> Seq<usize> {
        Seq::empty()
    }

    open spec fn droppable(self, heap: HeapState) -> bool {
        true
    }

    proof fn lemma_owned(self, heap: HeapState) {
    }

    proof fn lemma_frame(self, heap: HeapState, other: HeapState) {
    }

    fn needs_drop() -> (b: bool) {
        false
    }

    fn drop_in_place(&mut self, heap: &mut ForeignAllocator)
        ensures
            *final(self) == *old(self),
    {
        proof {
            lemma_release_none(heap@);
        }
    }
}

impl PlainData for i32 {
    open spec fn spec_size() -> nat {
        4
    }

    open spec fn encode(self) -> Seq<u8> {
        spec_u32_to_le_bytes(self as u32)
    }

    open spec fn decode(bytes: Seq<u8>) -> i32 {
        spec_u32_from_le_bytes(bytes) as i32
    }

    proof fn lemma_encoding(v: i32) {
        lemma_auto_spec_u32_to_from_le_bytes();
        assert((v as u32) as i32 == v) by (bit_vector);
    }

    fn size() -> (n: usize) {
        4
    }

    fn store(&self, out: &mut Vec<u8>) {
        let mut image = u32_to_le_bytes(#[verifier::truncate] (*self as u32));
        out.append(&mut image);
    }

    fn load(bytes: &[u8], at: usize) -> (v: i32) {
        assert(bytes@.len() == bytes.len());
        #[verifier::truncate]
        (u32_from_le_bytes(slice_subrange(bytes, at, at + 4)) as i32)
    }

    fn same(&self, other: &i32) -> (b: bool) {
        *self == *other
    }
}

impl ForeignDrop for i32 {
    open spec fn spec_needs_drop() -> bool {
        false
    }

    open spec fn owned(self, heap: HeapState) -> Set<usize> {
        Set::empty()
    }

    open spec fn released(self, heap: HeapState) -> Seq<usize> {
        Seq::empty()
    }

    open spec fn droppable(self, heap: HeapState) -> bool {
        true
    }

    proof fn lemma_owned(self, heap: HeapState) {
    }

    proof fn lemma_frame(self, heap: HeapState, other: HeapState) {
    }

    fn needs_drop() -> (b: bool) {
        false
    }

    fn drop_in_place(&mut self, heap: &mut ForeignAllocator)
        ensures
            *final(self) == *old(self),
    {
        proof {
            lemma_release_none(heap@);
        }
    }
}

impl PlainData for i64 {
    open spec fn spec_size() -> nat {
        8
    }

    open spec fn encode(self) -> Seq<u8> {
        spec_u64_to_le_bytes(self as u64)
    }

    open spec fn decode(bytes: Seq<u8>) -> i64 {
        spec_u64_from_le_bytes(bytes) as i64
    }

    proof fn lemma_encoding(v: i64) {
        lemma_auto_spec_u64_to_from_le_bytes();
        assert((v as u64) as i64 == v) by (bit_vector);
    }

    fn size() -> (n: usize) {
        8
    }

    fn store(&self, out: &mut Vec<u8>) {
        let mut image = u64_to_le_bytes(#[verifier::truncate] (*self as u64));
        out.append(&mut image);
    }

    fn load(bytes: &[u8], at: usize) -> (v: i64) {
        assert(bytes@.len() == bytes.len());
        #[verifier::truncate]
        (u64_from_le_bytes(slice_subrange(bytes, at, at + 8)) as i64)
    }

    fn same(&self, other: &i64) -> (b: bool) {
        *self == *other
    }
}

impl ForeignDrop for i64 {
    open spec fn spec_needs_drop() -> bool {
        false
    }

    open spec fn owned(self, heap: HeapState) -> Set<usize> {
        Set::empty()
    }

    open spec fn released(self, heap: HeapState) -> Seq<usize> {
        Seq::empty()
    }

    open spec fn droppable(self, heap: HeapState) -> bool {
        true
    }

    proof fn lemma_owned(self, heap: HeapState) {
    }

    proof fn lemma_frame(self, heap: HeapState, other: HeapState) {
    }

    fn needs_drop() -> (b: bool) {
        false
    }

    fn drop_in_place(&mut self, heap: &mut ForeignAllocator)
        ensures
            *final(self) == *old(self),
    {
        proof {
            lemma_release_none(heap@);
        }
    }
}

} // verus!
