use varlen_array::heap::{AllocError, ForeignAllocator};
use varlen_array::leaky::LeakyVarLenArray;
use varlen_array::plain::PlainData;
use varlen_array::teardown::ForeignDrop;

type Flat = LeakyVarLenArray<i32>;
type Nested = LeakyVarLenArray<Flat>;

#[test]
fn leaky_round_trip() {
    let mut heap = ForeignAllocator::new(64);
    let a = Flat::from_slice(&[1, -2, 3], &mut heap).unwrap();
    assert_eq!(a.len(), 3);
    assert!(!a.is_empty());
    assert_eq!(a.as_ptr(), 1);
    assert_eq!(a.as_mut_ptr(), 1);
    assert_eq!(a.as_slice(&heap), [1, -2, 3]);
    assert!(a.is_valid(&heap));
    assert_eq!(heap.in_use(), 12);
}

#[test]
fn leaky_empty_is_null() {
    let mut heap = ForeignAllocator::new(0);
    let a = Flat::from_slice(&[], &mut heap).unwrap();
    assert_eq!(a.len(), 0);
    assert!(a.is_empty());
    assert_eq!(a.as_ptr(), 0);
    assert_eq!(a.as_mut_ptr(), 0);
    assert_eq!(a.as_slice(&heap), Vec::<i32>::new());
    assert!(a.is_valid(&heap));
    assert_eq!(heap.allocations(), 0);
}

#[test]
fn leaky_allocation_failure() {
    let mut heap = ForeignAllocator::new(11);
    assert!(matches!(Flat::from_slice(&[1, 2, 3], &mut heap), Err(AllocError::OutOfMemory)));
    assert_eq!(heap.allocations(), 0);
}

#[test]
fn leaky_copies_share_the_buffer() {
    let mut heap = ForeignAllocator::new(64);
    let a = Flat::from_slice(&[1, 2, 3], &mut heap).unwrap();
    let b = a;
    let c = a.clone();
    assert_eq!(b.as_ptr(), a.as_ptr());
    assert_eq!(c.as_ptr(), a.as_ptr());
    assert_eq!(c.len(), 3);
    assert!(a.same(&b));
    assert_eq!(heap.allocations(), 1);
    a.as_mut_slice(&[7, 8, 9], &mut heap);
    assert_eq!(b.as_slice(&heap), [7, 8, 9]);
    assert_eq!(c.as_slice(&heap), [7, 8, 9]);
}

#[test]
fn leaky_is_never_released_on_its_own() {
    let mut heap = ForeignAllocator::new(64);
    {
        let _a = Flat::from_slice(&[1, 2, 3], &mut heap).unwrap();
    }
    assert_eq!(heap.releases(), 0);
    assert_eq!(heap.in_use(), 12);
    assert!(heap.is_live(1));
}

#[test]
fn as_mut_slice_overwrites_in_place() {
    let mut heap = ForeignAllocator::new(64);
    let a = Flat::from_slice(&[1, 2], &mut heap).unwrap();
    a.as_mut_slice(&[-1, 0x0102_0304], &mut heap);
    assert_eq!(a.as_slice(&heap), [-1, 0x0102_0304]);
    assert_eq!(heap.block(a.as_ptr()), [0xFF, 0xFF, 0xFF, 0xFF, 4, 3, 2, 1]);
    assert_eq!(heap.allocations(), 1);
    assert_eq!(heap.in_use(), 8);
    let e = Flat::from_slice(&[], &mut heap).unwrap();
    e.as_mut_slice(&[], &mut heap);
    assert_eq!(heap.allocations(), 1);
}

#[test]
fn drop_once_releases_one_buffer() {
    let mut heap = ForeignAllocator::new(64);
    let mut a = Flat::from_slice(&[1, 2, 3], &mut heap).unwrap();
    let ptr = a.as_ptr();
    a.drop(&mut heap);
    assert_eq!(heap.releases(), 1);
    assert_eq!(heap.freed(), [ptr]);
    assert!(!heap.is_live(ptr));
    assert_eq!(heap.in_use(), 0);
    assert_eq!(a.len(), 0);
    assert_eq!(a.as_ptr(), 0);
    assert!(a.is_empty());
}

#[test]
fn drop_twice_is_safe() {
    let mut heap = ForeignAllocator::new(64);
    let mut a = Flat::from_slice(&[1, 2, 3], &mut heap).unwrap();
    a.drop(&mut heap);
    a.drop(&mut heap);
    assert_eq!(heap.releases(), 1);
    assert_eq!(heap.allocations(), 1);
    let mut e = Flat::from_slice(&[], &mut heap).unwrap();
    e.drop(&mut heap);
    e.drop(&mut heap);
    assert_eq!(heap.releases(), 1);
}

#[test]
fn record_image_is_count_then_pointer() {
    let mut heap = ForeignAllocator::new(64);
    let _pad = heap.allocate(1);
    let a = Flat::from_slice(&[1, 2, 3], &mut heap).unwrap();
    assert_eq!(<Flat as PlainData>::size(), 16);
    assert_eq!(<Nested as PlainData>::size(), 16);
    let mut out = Vec::new();
    a.store(&mut out);
    assert_eq!(out, [3, 0, 0, 0, 0, 0, 0, 0, 2, 0, 0, 0, 0, 0, 0, 0]);
    let back = Flat::load(&out, 0);
    assert_eq!(back.len(), 3);
    assert_eq!(back.as_ptr(), 2);
    assert!(back.same(&a));
    let null = Flat::from_slice(&[], &mut heap).unwrap();
    let mut out = Vec::new();
    null.store(&mut out);
    assert_eq!(out, [0u8; 16]);
    assert!(!null.same(&a));
}

#[test]
fn needs_drop_by_type() {
    assert!(!<i32 as ForeignDrop>::needs_drop());
    assert!(!<u8 as ForeignDrop>::needs_drop());
    assert!(<Flat as ForeignDrop>::needs_drop());
    assert!(<Nested as ForeignDrop>::needs_drop());
}

#[test]
fn plain_elements_are_left_alone_by_destruction() {
    let mut heap = ForeignAllocator::new(64);
    let p = heap.allocate(4);
    let mut x = 5i32;
    x.drop_in_place(&mut heap);
    assert_eq!(x, 5);
    assert_eq!(heap.releases(), 0);
    assert!(heap.is_live(p));
}

fn nested(rows: &[&[i32]], heap: &mut ForeignAllocator) -> (Nested, Vec<usize>) {
    let inner: Vec<Flat> = rows.iter().map(|r| Flat::from_slice(r, heap).unwrap()).collect();
    let ptrs = inner.iter().map(|a| a.as_ptr()).collect();
    (Nested::from_slice(&inner, heap).unwrap(), ptrs)
}

#[test]
fn nested_teardown_releases_k_plus_one() {
    for k in 1..6usize {
        let mut heap = ForeignAllocator::new(1 << 16);
        let rows: Vec<Vec<i32>> = (0..k).map(|i| vec![i as i32; i + 1]).collect();
        let rows: Vec<&[i32]> = rows.iter().map(|r| r.as_slice()).collect();
        let (mut outer, inner) = nested(&rows, &mut heap);
        assert_eq!(heap.allocations(), k + 1);
        assert_eq!(outer.len(), k);
        outer.drop(&mut heap);
        assert_eq!(heap.releases(), k + 1);
        assert_eq!(heap.in_use(), 0);
        let mut expected = inner.clone();
        expected.push(k + 1);
        assert_eq!(heap.freed(), expected);
        assert_eq!(outer.as_ptr(), 0);
        assert_eq!(outer.len(), 0);
        outer.drop(&mut heap);
        assert_eq!(heap.releases(), k + 1);
    }
}

#[test]
fn nested_reads_back_its_rows() {
    let mut heap = ForeignAllocator::new(1 << 16);
    let (outer, _) = nested(&[&[1, 2], &[3], &[4, 5, 6]], &mut heap);
    let rows = outer.as_slice(&heap);
    assert_eq!(rows.len(), 3);
    assert_eq!(rows[0].as_slice(&heap), [1, 2]);
    assert_eq!(rows[1].as_slice(&heap), [3]);
    assert_eq!(rows[2].as_slice(&heap), [4, 5, 6]);
    assert_eq!(heap.in_use(), 8 + 4 + 12 + 3 * 16);
}

#[test]
fn nested_teardown_skips_null_rows() {
    let mut heap = ForeignAllocator::new(1 << 16);
    let (mut outer, inner) = nested(&[&[1], &[], &[2, 3]], &mut heap);
    assert_eq!(inner[1], 0);
    assert_eq!(heap.allocations(), 3);
    outer.drop(&mut heap);
    assert_eq!(heap.freed(), [inner[0], inner[2], 3]);
    assert_eq!(heap.in_use(), 0);
}

#[test]
fn teardown_leaves_other_buffers_alone() {
    let mut heap = ForeignAllocator::new(1 << 16);
    let keep = Flat::from_slice(&[42], &mut heap).unwrap();
    let (mut outer, _) = nested(&[&[1], &[2]], &mut heap);
    outer.drop(&mut heap);
    assert!(keep.is_valid(&heap));
    assert_eq!(keep.as_slice(&heap), [42]);
    assert_eq!(heap.in_use(), 4);
}

#[test]
fn three_levels_are_torn_down_depth_first() {
    let mut heap = ForeignAllocator::new(1 << 16);
    let (a, a_inner) = nested(&[&[1], &[2, 3]], &mut heap);
    let (b, b_inner) = nested(&[&[4]], &mut heap);
    let mut top = LeakyVarLenArray::from_slice(&[a, b], &mut heap).unwrap();
    assert_eq!(heap.allocations(), 6);
    top.drop(&mut heap);
    assert_eq!(
        heap.freed(),
        [a_inner[0], a_inner[1], a.as_ptr(), b_inner[0], b.as_ptr(), 6]
    );
    assert_eq!(heap.releases(), 6);
    assert_eq!(heap.in_use(), 0);
}

#[test]
fn drop_in_place_is_the_teardown() {
    let mut heap = ForeignAllocator::new(64);
    let mut a = Flat::from_slice(&[1, 2], &mut heap).unwrap();
    let ptr = a.as_ptr();
    a.drop_in_place(&mut heap);
    assert_eq!(heap.freed(), [ptr]);
    assert_eq!(a.as_ptr(), 0);
    assert_eq!(a.len(), 0);
    a.drop_in_place(&mut heap);
    assert_eq!(heap.releases(), 1);
}
