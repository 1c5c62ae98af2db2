//! Plain data: element types that are copied to and from foreign storage byte
//! for byte.
use vstd::prelude::*;

verus! {

broadcast use vstd::slice::group_slice_axioms;

/// A type whose values have a fixed-width byte image on the foreign heap.
///
/// A value is stored by writing its image and read back by decoding the same
/// bytes; nothing else happens when an element is copied in or out.
pub trait PlainData: Copy {
    /// Width of the byte image.
    spec fn spec_size() -> nat;

    /// The byte image of a value.
    spec fn encode(self) -> Seq<u8>;

    /// The value that an image stands for.
    spec fn decode(bytes: Seq<u8>) -> Self;

    /// An image has the width of its type, and decoding it gives the value back.
    proof fn lemma_encoding(v: Self)
        ensures
            Self::spec_size() > 0,
            v.encode().len() == Self::spec_size(),
            Self::decode(v.encode()) == v,
    ;

    /// Width of the byte image.
    fn size() -> (n: usize)
        ensures
            n == Self::spec_size(),
            n > 0,
    ;

    /// Appends the image of `self` to `out`.
    fn store(&self, out: &mut Vec<u8>)
        ensures
            final(out)@ == old(out)@ + self.encode(),
    ;

    /// Decodes the value whose image starts at offset `at` of `bytes`.
    fn load(bytes: &[u8], at: usize) -> (v: Self)
        requires
            at + Self::spec_size() <= bytes@.len(),
        ensures
            v == Self::decode(bytes@.subrange(at as int, at + Self::spec_size())),
    ;

    /// Whether two values are the same.
    fn same(&self, other: &Self) -> (b: bool)
        ensures
            b == (*self == *other),
    ;
}

/// The images of the elements of `s`, one after the other: what a buffer that
/// holds `s` contains.
pub open spec fn encode_all<T: PlainData>(s: Seq<T>) -> Seq<u8>
    decreases s.len(),
{
    if s.len() == 0 {
        Seq::empty()
    } else {
        encode_all(s.drop_last()) + s.last().encode()
    }
}

/// The bytes of the `i`-th element of a buffer of `T`.
pub open spec fn element_bytes<T: PlainData>(bytes: Seq<u8>, i: int) -> Seq<u8> {
    bytes.subrange(i * T::spec_size(), (i + 1) * T::spec_size())
}

/// The `count` elements that a buffer of `T` holds.
pub open spec fn decode_all<T: PlainData>(bytes: Seq<u8>, count: nat) -> Seq<T> {
    Seq::new(count, |i: int| T::decode(element_bytes::<T>(bytes, i)))
}

/// Where the `i`-th of `count` elements of width `size` lies.
pub proof fn lemma_element_bounds(i: int, count: int, size: int)
    requires
        0 <= i < count,
        0 < size,
    ensures
        0 <= i * size,
        (i + 1) * size == i * size + size,
        (i + 1) * size <= count * size,
{
    assert(0 <= i * size) by (nonlinear_arith)
        requires
            0 <= i,
            0 < size,
    ;
    assert((i + 1) * size == i * size + size) by (nonlinear_arith);
    assert((i + 1) * size <= count * size) by (nonlinear_arith)
        requires
            i + 1 <= count,
            0 < size,
    ;
}

/// A buffer that holds `s` is as long as its elements together.
pub proof fn lemma_encode_all_len<T: PlainData>(s: Seq<T>)
    ensures
        encode_all(s).len() == s.len() * T::spec_size(),
    decreases s.len(),
{
    if s.len() == 0 {
        assert(0 * T::spec_size() == 0) by (nonlinear_arith);
    } else {
        lemma_encode_all_len(s.drop_last());
        T::lemma_encoding(s.last());
        lemma_element_bounds(s.len() - 1, s.len() as int, T::spec_size() as int);
    }
}

/// The `i`-th element of a buffer that holds `s` is the image of `s[i]`.
pub proof fn lemma_encode_all_element<T: PlainData>(s: Seq<T>, i: int)
    requires
        0 <= i < s.len(),
    ensures
        element_bytes::<T>(encode_all(s), i) == s[i].encode(),
    decreases s.len(),
{
    let size = T::spec_size() as int;
    let front = s.drop_last();
    lemma_encode_all_len(front);
    T::lemma_encoding(s.last());
    lemma_element_bounds(i, s.len() as int, size);
    if i == s.len() - 1 {
        assert(element_bytes::<T>(encode_all(s), i) =~= s.last().encode());
    } else {
        lemma_encode_all_element(front, i);
        lemma_element_bounds(i, front.len() as int, size);
        assert(element_bytes::<T>(encode_all(s), i) =~= element_bytes::<T>(encode_all(front), i));
    }
}

/// Reading back a buffer that holds `s` gives `s`.
pub proof fn lemma_decode_encode<T: PlainData>(s: Seq<T>)
    ensures
        decode_all::<T>(encode_all(s), s.len()) == s,
{
    assert forall|i: int| 0 <= i < s.len() implies decode_all::<T>(encode_all(s), s.len())[i]
        == s[i] by {
        lemma_encode_all_element(s, i);
        T::lemma_encoding(s[i]);
    }
    assert(decode_all::<T>(encode_all(s), s.len()) =~= s);
}

/// Encodes the first `count` elements of `items` into a fresh buffer image.
pub fn encode_slice<T: PlainData>(items: &[T], count: usize) -> (bytes: Vec<u8>)
    requires
        count <= items@.len(),
    ensures
        bytes@ == encode_all(items@.subrange(0, count as int)),
{
    let mut bytes: Vec<u8> = Vec::new();
    let mut i: usize = 0;
    while i < count
        invariant
            i <= count <= items@.len(),
            bytes@ == encode_all(items@.subrange(0, i as int)),
        decreases count - i,
    {
        items[i].store(&mut bytes);
        i = i + 1;
        assert(items@.subrange(0, i as int).drop_last() =~= items@.subrange(0, i - 1));
    }
    bytes
}

/// Decodes the `count` elements of a buffer of `T`.
pub fn decode_block<T: PlainData>(bytes: &[u8], count: usize) -> (items: Vec<T>)
    requires
        bytes@.len() == count * T::spec_size(),
    ensures
        items@ == decode_all::<T>(bytes@, count as nat),
{
    let size = T::size();
    let mut items: Vec<T> = Vec::new();
    let mut i: usize = 0;
    let mut at: usize = 0;
    while i < count
        invariant
            i <= count,
            0 < size == T::spec_size(),
            at == i * size,
            bytes@.len() == count * size,
            items@ == decode_all::<T>(bytes@, i as nat),
        decreases count - i,
    {
        proof {
            lemma_element_bounds(i as int, count as int, size as int);
            assert(bytes@.len() == bytes.len());
        }
        let item = T::load(bytes, at);
        items.push(item);
        at = at + size;
        i = i + 1;
        assert(items@ =~= decode_all::<T>(bytes@, i as nat));
    }
    items
}

/// Whether two slices hold the same elements.
pub fn same_items<T: PlainData>(a: &[T], b: &[T]) -> (same: bool)
    ensures
        same == (a@ == b@),
{
    if a.len() != b.len() {
        return false;
    }
    let mut i: usize = 0;
    while i < a.len()
        invariant
            i <= a@.len() == b@.len(),
            forall|j: int| 0 <= j < i ==> a@[j] == b@[j],
        decreases a@.len() - i,
    {
        if !a[i].same(&b[i]) {
            return false;
        }
        i = i + 1;
    }
    assert(a@ =~= b@);
    true
}

} // verus!
