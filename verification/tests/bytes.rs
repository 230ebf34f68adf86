use bytecode_vm::pipeline::bytecode::bytes::{
    all_there, decode, encode, next_bytes, try_next_bytes, ByteIter, FromBytes, ToBytes,
};

#[test]
fn round_trip() {
    assert_eq!(127u8, ToBytes::<1>::num_to_bytes(&127u8).bytes_to_num());
    assert_eq!(127u16, ToBytes::<2>::num_to_bytes(&127u8).bytes_to_num());
    assert_eq!(127u32, ToBytes::<4>::num_to_bytes(&127u8).bytes_to_num());
    assert_eq!(1234u16, ToBytes::<2>::num_to_bytes(&1234u16).bytes_to_num());
    assert_eq!(1234u32, ToBytes::<4>::num_to_bytes(&1234u16).bytes_to_num());
}

#[test]
fn round_trip_at_every_width() {
    let one: u8 = ToBytes::<1>::num_to_bytes(&0xabu8).bytes_to_num();
    assert_eq!(one, 0xab);
    let two: u16 = ToBytes::<2>::num_to_bytes(&0xabcdu16).bytes_to_num();
    assert_eq!(two, 0xabcd);
    let four: u32 = ToBytes::<4>::num_to_bytes(&0xdead_beefu32).bytes_to_num();
    assert_eq!(four, 0xdead_beef);
    let eight: u64 = ToBytes::<8>::num_to_bytes(&0x0123_4567_89ab_cdefu64).bytes_to_num();
    assert_eq!(eight, 0x0123_4567_89ab_cdef);
    let index: usize = ToBytes::<8>::num_to_bytes(&300usize).bytes_to_num();
    assert_eq!(index, 300);
    let largest: u64 = ToBytes::<8>::num_to_bytes(&u64::MAX).bytes_to_num();
    assert_eq!(largest, u64::MAX);
    let zero: u32 = ToBytes::<4>::num_to_bytes(&0u32).bytes_to_num();
    assert_eq!(zero, 0);
}

#[test]
fn encoding_is_big_endian() {
    assert_eq!(ToBytes::<2>::num_to_bytes(&0x1234u16), [0x12, 0x34]);
    assert_eq!(ToBytes::<4>::num_to_bytes(&0x1234_5678u32), [0x12, 0x34, 0x56, 0x78]);
    assert_eq!(
        ToBytes::<8>::num_to_bytes(&300usize),
        [0, 0, 0, 0, 0, 0, 0x01, 0x2c]
    );
    assert_eq!(encode::<3>(0x01_02_03), [1, 2, 3]);
}

#[test]
fn narrow_value_is_padded_on_the_left() {
    assert_eq!(ToBytes::<4>::num_to_bytes(&0x7fu8), [0, 0, 0, 0x7f]);
    assert_eq!(ToBytes::<8>::num_to_bytes(&0xabcdu16), [0, 0, 0, 0, 0, 0, 0xab, 0xcd]);
    assert_eq!(encode::<0>(77), []);
}

#[test]
fn wide_value_keeps_its_low_bytes() {
    assert_eq!(encode::<1>(0x1234), [0x34]);
    assert_eq!(encode::<2>(0x0012_3456), [0x34, 0x56]);
    assert_eq!(decode::<2>(&encode::<2>(0x0012_3456)), 0x3456);
}

#[test]
fn decoding_is_big_endian() {
    assert_eq!(decode::<2>(&[0x12, 0x34]), 0x1234);
    assert_eq!(decode::<8>(&[0xff; 8]), u64::MAX);
    assert_eq!(decode::<0>(&[]), 0);
    let wide: u64 = [0x12u8, 0x34].bytes_to_num();
    assert_eq!(wide, 0x1234);
}

#[test]
fn one_byte_decodes_into_a_wide_index() {
    let index: usize = [200u8].bytes_to_num();
    assert_eq!(index, 200);
    let wide: u64 = [200u8].bytes_to_num();
    assert_eq!(wide, 200);
    let index: usize = [1u8, 0].bytes_to_num();
    assert_eq!(index, 256);
}

#[test]
fn cursor_reads_byte_by_byte() {
    let stream = [10u8, 20, 30];
    let mut cursor = ByteIter::new(&stream);
    assert_eq!(cursor.offset(), 0);
    assert_eq!(cursor.next(), Some(10));
    assert_eq!(cursor.offset(), 1);
    assert_eq!(cursor.next(), Some(20));
    assert_eq!(cursor.next(), Some(30));
    assert_eq!(cursor.offset(), 3);
    assert_eq!(cursor.next(), None);
    assert_eq!(cursor.offset(), 3);
}

#[test]
fn cursor_starts_where_told() {
    let stream = [10u8, 20, 30];
    let mut cursor = ByteIter::starting_at(&stream, 2);
    assert_eq!(cursor.offset(), 2);
    assert_eq!(cursor.next(), Some(30));
    let past = ByteIter::starting_at(&stream, 9);
    assert_eq!(past.offset(), 3);
}

#[test]
fn next_bytes_reads_exactly_or_nothing() {
    let stream = [1u8, 2, 3, 4, 5];
    let mut cursor = ByteIter::new(&stream);
    assert_eq!(next_bytes::<2>(&mut cursor), Some([1, 2]));
    assert_eq!(cursor.offset(), 2);
    assert_eq!(next_bytes::<0>(&mut cursor), Some([]));
    assert_eq!(cursor.offset(), 2);
    assert_eq!(next_bytes::<4>(&mut cursor), None);
    assert_eq!(cursor.offset(), 5);
    assert_eq!(next_bytes::<1>(&mut cursor), None);
}

#[test]
fn try_next_bytes_fills_what_is_there() {
    let stream = [1u8, 2, 3];
    let mut cursor = ByteIter::new(&stream);
    assert_eq!(try_next_bytes::<2>(&mut cursor), [Some(1), Some(2)]);
    assert_eq!(cursor.offset(), 2);
    assert_eq!(try_next_bytes::<3>(&mut cursor), [Some(3), None, None]);
    assert_eq!(cursor.offset(), 3);
    assert_eq!(try_next_bytes::<2>(&mut cursor), [None, None]);
}

#[test]
fn all_there_wants_every_slot() {
    assert_eq!(all_there(&[Some(1u8), Some(2)]), Some([1, 2]));
    assert_eq!(all_there(&[Some(1u8), None]), None);
    assert_eq!(all_there(&[None, Some(2u8)]), None);
    assert_eq!(all_there::<0>(&[]), Some([]));
}

#[test]
fn index_in_four_bytes() {
    assert_eq!(ToBytes::<4>::num_to_bytes(&300usize), [0, 0, 0x01, 0x2c]);
    let index: usize = [0u8, 0, 0x01, 0x2c].bytes_to_num();
    assert_eq!(index, 300);
    let back: usize = ToBytes::<4>::num_to_bytes(&0xdead_beefusize).bytes_to_num();
    assert_eq!(back, 0xdead_beef);
}
