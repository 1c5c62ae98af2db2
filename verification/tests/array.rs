use varlen_array::array::VarLenArray;
use varlen_array::heap::{AllocError, ForeignAllocator};
use varlen_array::leaky::LeakyVarLenArray;
use varlen_array::plain::{decode_block, PlainData};

type S = VarLenArray<u16>;

#[test]
pub fn test_vla_empty_default() {
    let heap = ForeignAllocator::new(1 << 20);
    assert_eq!(S::default().deref(&heap), Vec::<u16>::new());
    assert!(S::default().is_empty());
    assert_eq!(S::default().len(), 0);
}

#[test]
pub fn test_vla_array_traits() {
    let mut heap = ForeignAllocator::new(1 << 20);
    let s = &[1u16, 2, 3];
    let a = VarLenArray::from_slice(s, &mut heap).unwrap();
    assert_eq!(a.as_slice(&heap), s);
    assert_eq!(a.len(), 3);
    assert!(!a.is_empty());
    assert_eq!(decode_block::<u16>(heap.block(a.as_ptr()), a.len()), s);
    assert_eq!(a.deref(&heap), s);
    let c = a.clone(&mut heap).unwrap();
    assert_eq!(a.deref(&heap), c.deref(&heap));
    let v: Vec<u16> = c.into_vec(&mut heap);
    assert_eq!(v, vec![1, 2, 3]);
    let from_slice = VarLenArray::from_slice(&s[..], &mut heap).unwrap();
    assert_eq!(a.deref(&heap), from_slice.deref(&heap));
    let f: [u16; 3] = [1, 2, 3];
    let from_array = VarLenArray::from_array(f, &mut heap).unwrap();
    assert_eq!(a.deref(&heap), from_array.deref(&heap));
    assert_eq!(format!("{:?}", a.as_slice(&heap)), "[1, 2, 3]");
    assert!(a.eq_slice(&[1, 2, 3], &heap));
    assert!(a.eq_slice(s, &heap));
    assert!(a.eq_slice(&a.as_slice(&heap), &heap));
    assert!(a.eq(&a, &heap));
    let v: Vec<_> = a.as_slice(&heap).iter().cloned().collect();
    assert_eq!(v, vec![1, 2, 3]);
}

#[test]
fn impl_for_leaky_type() {
    type Stuff = LeakyVarLenArray<LeakyVarLenArray<LeakyVarLenArray<i32>>>;
    println!("{:?}", <Stuff as PlainData>::size());
}

#[test]
fn round_trip_of_every_length() {
    let mut heap = ForeignAllocator::new(1 << 20);
    for n in 0..40usize {
        let s: Vec<u32> = (0..n as u32).map(|i| i.wrapping_mul(0x9E37_79B9)).collect();
        let a = VarLenArray::from_slice(&s, &mut heap).unwrap();
        assert_eq!(a.len(), n);
        assert_eq!(a.as_slice(&heap), s);
        assert!(a.is_valid(&heap));
    }
}

#[test]
fn concrete_scenario() {
    let mut heap = ForeignAllocator::new(64);
    let a = VarLenArray::from_slice(&[1u16, 2, 3], &mut heap).unwrap();
    assert_eq!(a.len(), 3);
    assert_eq!(a.as_slice(&heap), [1, 2, 3]);
    assert_eq!(format!("{:?}", a.as_slice(&heap)), "[1, 2, 3]");
    let empty: &[u16] = &[];
    let e = VarLenArray::from_slice(empty, &mut heap).unwrap();
    assert_eq!(e.len(), 0);
    assert_eq!(e.as_slice(&heap), Vec::<u16>::new());
    assert_eq!(format!("{:?}", e.as_slice(&heap)), "[]");
}

#[test]
fn empty_is_normalized() {
    let mut heap = ForeignAllocator::new(64);
    let empty: &[u64] = &[];
    let a = VarLenArray::from_slice(empty, &mut heap).unwrap();
    let b = VarLenArray::<u64>::default();
    for x in [&a, &b] {
        assert_eq!(x.len(), 0);
        assert_eq!(x.as_ptr(), 0);
        assert!(x.is_empty());
        assert!(x.is_valid(&heap));
    }
    assert!(a.eq(&b, &heap));
    assert_eq!(heap.allocations(), 0);
    assert_eq!(heap.in_use(), 0);
}

#[test]
fn empty_needs_no_room() {
    let mut heap = ForeignAllocator::new(0);
    let empty: &[u64] = &[];
    assert!(VarLenArray::from_slice(empty, &mut heap).is_ok());
    assert!(VarLenArray::<u64>::from_parts(None, 5, &mut heap).is_ok());
    assert!(VarLenArray::<u64>::from_parts(Some(&[1, 2]), 0, &mut heap).is_ok());
    assert_eq!(heap.allocations(), 0);
}

#[test]
fn from_parts_copies_the_first_len_elements() {
    let mut heap = ForeignAllocator::new(64);
    let src = [10i32, -20, 30, -40];
    let a = VarLenArray::from_parts(Some(&src), 2, &mut heap).unwrap();
    assert_eq!(a.len(), 2);
    assert_eq!(a.as_slice(&heap), [10, -20]);
    assert_eq!(heap.in_use(), 8);
    let null = VarLenArray::<i32>::from_parts(None, 3, &mut heap).unwrap();
    assert_eq!(null.len(), 0);
    assert_eq!(null.as_ptr(), 0);
    let zero = VarLenArray::from_parts(Some(&src), 0, &mut heap).unwrap();
    assert_eq!(zero.len(), 0);
    assert_eq!(zero.as_ptr(), 0);
    assert_eq!(heap.allocations(), 1);
}

#[test]
fn buffer_takes_length_times_width_bytes() {
    let mut heap = ForeignAllocator::new(1000);
    let a = VarLenArray::from_slice(&[7u8; 5], &mut heap).unwrap();
    assert_eq!(heap.in_use(), 5);
    let b = VarLenArray::from_slice(&[7u16; 5], &mut heap).unwrap();
    assert_eq!(heap.in_use(), 5 + 10);
    let c = VarLenArray::from_slice(&[7u32; 5], &mut heap).unwrap();
    assert_eq!(heap.in_use(), 5 + 10 + 20);
    let d = VarLenArray::from_slice(&[7i64; 5], &mut heap).unwrap();
    assert_eq!(heap.in_use(), 5 + 10 + 20 + 40);
    assert_eq!(heap.block(a.as_ptr()).len(), 5);
    assert_eq!(heap.block(b.as_ptr()).len(), 10);
    assert_eq!(heap.block(c.as_ptr()).len(), 20);
    assert_eq!(heap.block(d.as_ptr()).len(), 40);
}

#[test]
fn elements_are_copied_byte_for_byte() {
    let mut heap = ForeignAllocator::new(64);
    let a = VarLenArray::from_slice(&[0x0102u16, 0xA0B0], &mut heap).unwrap();
    assert_eq!(heap.block(a.as_ptr()), [0x02, 0x01, 0xB0, 0xA0]);
    let b = VarLenArray::from_slice(&[-2i32], &mut heap).unwrap();
    assert_eq!(heap.block(b.as_ptr()), [0xFE, 0xFF, 0xFF, 0xFF]);
}

#[test]
fn addresses_are_fresh_and_never_null() {
    let mut heap = ForeignAllocator::new(64);
    let a = VarLenArray::from_slice(&[1u8], &mut heap).unwrap();
    let b = VarLenArray::from_slice(&[1u8], &mut heap).unwrap();
    assert_eq!(a.as_ptr(), 1);
    assert_eq!(b.as_ptr(), 2);
    assert!(a.eq(&b, &heap));
}

#[test]
fn allocation_failure_gives_no_record() {
    let mut heap = ForeignAllocator::new(5);
    let r = VarLenArray::from_slice(&[1u16, 2, 3], &mut heap);
    assert!(matches!(r, Err(AllocError::OutOfMemory)));
    assert_eq!(heap.allocations(), 0);
    assert_eq!(heap.in_use(), 0);
    let ok = VarLenArray::from_slice(&[1u16, 2], &mut heap).unwrap();
    assert_eq!(heap.in_use(), 4);
    assert!(matches!(VarLenArray::from_slice(&[9u16], &mut heap), Err(AllocError::OutOfMemory)));
    assert!(matches!(ok.clone(&mut heap), Err(AllocError::OutOfMemory)));
    assert_eq!(ok.as_slice(&heap), [1, 2]);
    assert_eq!(heap.allocations(), 1);
}

#[test]
fn allocation_succeeds_at_the_exact_capacity() {
    let mut heap = ForeignAllocator::new(6);
    let a = VarLenArray::from_slice(&[1u16, 2, 3], &mut heap).unwrap();
    assert_eq!(heap.in_use(), 6);
    assert_eq!(a.as_slice(&heap), [1, 2, 3]);
}

#[test]
fn clone_is_independent() {
    let mut heap = ForeignAllocator::new(64);
    let mut a = VarLenArray::from_slice(&[5i16, -6, 7], &mut heap).unwrap();
    let c = a.clone(&mut heap).unwrap();
    assert_ne!(a.as_ptr(), c.as_ptr());
    assert_eq!(c.as_slice(&heap), a.as_slice(&heap));
    assert!(c.eq(&a, &heap));
    heap.store(a.as_ptr(), vec![0u8; 6]);
    assert_eq!(a.as_slice(&heap), [0, 0, 0]);
    assert_eq!(c.as_slice(&heap), [5, -6, 7]);
    assert!(!c.eq(&a, &heap));
    a.drop(&mut heap);
    assert!(c.is_valid(&heap));
    assert_eq!(c.as_slice(&heap), [5, -6, 7]);
}

#[test]
fn clone_of_empty_allocates_nothing() {
    let mut heap = ForeignAllocator::new(0);
    let a = VarLenArray::<u8>::default();
    let c = a.clone(&mut heap).unwrap();
    assert_eq!(c.len(), 0);
    assert_eq!(c.as_ptr(), 0);
    assert_eq!(heap.allocations(), 0);
}

#[test]
fn drop_frees_exactly_once() {
    let mut heap = ForeignAllocator::new(64);
    let mut a = VarLenArray::from_slice(&[1u16, 2, 3], &mut heap).unwrap();
    let ptr = a.as_ptr();
    assert_eq!(heap.releases(), 0);
    a.drop(&mut heap);
    assert_eq!(heap.releases(), 1);
    assert_eq!(heap.freed(), [ptr]);
    assert_eq!(heap.in_use(), 0);
    assert!(!heap.is_live(ptr));
    assert_eq!(a.len(), 0);
    assert_eq!(a.as_ptr(), 0);
    a.drop(&mut heap);
    assert_eq!(heap.releases(), 1);
    assert_eq!(heap.allocations(), 1);
}

#[test]
fn drop_of_empty_frees_nothing() {
    let mut heap = ForeignAllocator::new(64);
    let mut a = VarLenArray::<u16>::default();
    a.drop(&mut heap);
    let empty: &[u16] = &[];
    let mut b = VarLenArray::from_slice(empty, &mut heap).unwrap();
    b.drop(&mut heap);
    assert_eq!(heap.releases(), 0);
    assert_eq!(heap.allocations(), 0);
}

#[test]
fn into_vec_releases_the_buffer() {
    let mut heap = ForeignAllocator::new(64);
    let a = VarLenArray::from_slice(&[4u64, 5], &mut heap).unwrap();
    let ptr = a.as_ptr();
    let v = a.into_vec(&mut heap);
    assert_eq!(v, vec![4, 5]);
    assert_eq!(heap.freed(), [ptr]);
    assert_eq!(heap.in_use(), 0);
    let e = VarLenArray::<u64>::default().into_vec(&mut heap);
    assert!(e.is_empty());
    assert_eq!(heap.releases(), 1);
}

#[test]
fn equality_is_by_content() {
    let mut heap = ForeignAllocator::new(256);
    let a = VarLenArray::from_slice(&[1i8, -2, 3], &mut heap).unwrap();
    let b = VarLenArray::from_slice(&[1i8, -2, 3], &mut heap).unwrap();
    let c = VarLenArray::from_slice(&[1i8, -2, 4], &mut heap).unwrap();
    let d = VarLenArray::from_slice(&[1i8, -2], &mut heap).unwrap();
    let e = VarLenArray::<i8>::default();
    assert!(a.eq(&b, &heap));
    assert!(b.eq(&a, &heap));
    assert!(!a.eq(&c, &heap));
    assert!(!a.eq(&d, &heap));
    assert!(!d.eq(&a, &heap));
    assert!(!a.eq(&e, &heap));
    assert!(e.eq(&e, &heap));
    assert!(a.eq_slice(&[1, -2, 3], &heap));
    assert!(!a.eq_slice(&[1, -2], &heap));
    assert!(!a.eq_slice(&[], &heap));
    assert!(e.eq_slice(&[], &heap));
}

#[test]
fn validity_follows_the_heap() {
    let mut heap = ForeignAllocator::new(64);
    let a = VarLenArray::from_slice(&[1u16, 2], &mut heap).unwrap();
    assert!(a.is_valid(&heap));
    let other = ForeignAllocator::new(64);
    assert!(!a.is_valid(&other));
    heap.deallocate(a.as_ptr());
    assert!(!a.is_valid(&heap));
    heap.allocate(3);
    let b = VarLenArray::from_slice(&[1u16, 2], &mut heap).unwrap();
    heap.store(b.as_ptr(), vec![1, 2, 3, 4]);
    assert!(b.is_valid(&heap));
}

#[test]
fn records_can_cross_threads() {
    fn shared_and_sent<T: Send + Sync>() {}
    shared_and_sent::<VarLenArray<u16>>();
    shared_and_sent::<LeakyVarLenArray<i32>>();
    shared_and_sent::<LeakyVarLenArray<LeakyVarLenArray<u8>>>();
    shared_and_sent::<ForeignAllocator>();
}
