use varlen_array::plain::{decode_block, encode_slice, same_items, PlainData};

fn image<T: PlainData>(v: T) -> Vec<u8> {
    let mut out = vec![0xEE];
    v.store(&mut out);
    out
}

#[test]
fn unsigned_images_are_little_endian() {
    assert_eq!(image(0xABu8), [0xEE, 0xAB]);
    assert_eq!(image(0x0102u16), [0xEE, 0x02, 0x01]);
    assert_eq!(image(0x0102_0304u32), [0xEE, 0x04, 0x03, 0x02, 0x01]);
    assert_eq!(
        image(0x0102_0304_0506_0708u64),
        [0xEE, 0x08, 0x07, 0x06, 0x05, 0x04, 0x03, 0x02, 0x01]
    );
}

#[test]
fn signed_images_are_twos_complement() {
    assert_eq!(image(-1i8), [0xEE, 0xFF]);
    assert_eq!(image(-2i16), [0xEE, 0xFE, 0xFF]);
    assert_eq!(image(i32::MIN), [0xEE, 0x00, 0x00, 0x00, 0x80]);
    assert_eq!(image(-1i64), [0xEE, 0xFF, 0xFF, 0xFF, 0xFF, 0xFF, 0xFF, 0xFF, 0xFF]);
}

#[test]
fn widths_are_those_of_the_types() {
    assert_eq!(<u8 as PlainData>::size(), 1);
    assert_eq!(<i8 as PlainData>::size(), 1);
    assert_eq!(<u16 as PlainData>::size(), 2);
    assert_eq!(<i16 as PlainData>::size(), 2);
    assert_eq!(<u32 as PlainData>::size(), 4);
    assert_eq!(<i32 as PlainData>::size(), 4);
    assert_eq!(<u64 as PlainData>::size(), 8);
    assert_eq!(<i64 as PlainData>::size(), 8);
}

#[test]
fn load_reads_at_an_offset() {
    let bytes = [0xEE, 0x02, 0x01, 0xFE, 0xFF, 0xFF, 0xFF, 0x7F];
    assert_eq!(u8::load(&bytes, 0), 0xEE);
    assert_eq!(u16::load(&bytes, 1), 0x0102);
    assert_eq!(i32::load(&bytes, 3), -2);
    assert_eq!(i8::load(&bytes, 4), -1);
    assert_eq!(u32::load(&bytes, 4), 0x7FFF_FFFF);
    assert_eq!(i16::load(&bytes, 6), 0x7FFF);
    assert_eq!(u64::load(&bytes, 0), 0x7FFF_FFFF_FE01_02EE);
    assert_eq!(i64::load(&bytes, 0), 0x7FFF_FFFF_FE01_02EE);
}

#[test]
fn extremes_round_trip() {
    fn check<T: PlainData + PartialEq + std::fmt::Debug>(values: &[T]) {
        let bytes = encode_slice(values, values.len());
        assert_eq!(bytes.len(), values.len() * T::size());
        assert_eq!(decode_block::<T>(&bytes, values.len()), values);
    }
    check(&[u8::MIN, 1, u8::MAX]);
    check(&[i8::MIN, -1, 0, i8::MAX]);
    check(&[u16::MIN, 1, u16::MAX]);
    check(&[i16::MIN, -1, 0, i16::MAX]);
    check(&[u32::MIN, 1, u32::MAX]);
    check(&[i32::MIN, -1, 0, i32::MAX]);
    check(&[u64::MIN, 1, u64::MAX]);
    check(&[i64::MIN, -1, 0, i64::MAX]);
}

#[test]
fn encode_slice_takes_a_prefix() {
    assert_eq!(encode_slice(&[1u16, 2, 3], 2), [1, 0, 2, 0]);
    assert_eq!(encode_slice(&[1u16, 2, 3], 0), Vec::<u8>::new());
    assert_eq!(decode_block::<u16>(&[1, 0, 2, 0], 2), [1, 2]);
    assert_eq!(decode_block::<u16>(&[], 0), Vec::<u16>::new());
}

#[test]
fn same_items_compares_length_and_content() {
    assert!(same_items::<u32>(&[], &[]));
    assert!(same_items(&[1u32, 2], &[1, 2]));
    assert!(!same_items(&[1u32, 2], &[1, 3]));
    assert!(!same_items(&[1u32, 2], &[1]));
    assert!(!same_items(&[1u32], &[1, 2]));
    assert!(1u8.same(&1));
    assert!(!(-1i64).same(&1));
}
