//! Integers and structures on disk.

use disk_cache::on_disk_struct::bytes::{decode_at, encode_at, native_byte_order, ByteOrder};
use disk_cache::on_disk_struct::error::{OnDiskError, OnDiskOperation};
use disk_cache::on_disk_struct::layout::{
    Endianness, Field, FieldType, FieldValue, Packing, StructLayout,
};
use disk_cache::on_disk_struct::primitive::OnDiskStruct;
use std::sync::atomic::{AtomicU32, AtomicU64, Ordering};

#[test]
fn sizes() {
    assert_eq!(u16::ON_DISK_SIZE, 2);
    assert_eq!(u32::ON_DISK_SIZE, 4);
    assert_eq!(u64::ON_DISK_SIZE, 8);
    assert_eq!(AtomicU32::ON_DISK_SIZE, 4);
    assert_eq!(AtomicU64::ON_DISK_SIZE, 8);
    assert_eq!(7u16.on_disk_size(), 2);
    assert_eq!(7u32.on_disk_size(), 4);
    assert_eq!(7u64.on_disk_size(), 8);
    assert_eq!(AtomicU32::new(7).on_disk_size(), 4);
    assert_eq!(AtomicU64::new(7).on_disk_size(), 8);
}

#[test]
fn integers_little_endian() {
    let bytes = [1, 2, 3, 4, 5, 6, 7, 8];
    assert_eq!(u16::load_from_le(&bytes[..2]).ok(), Some(0x0201));
    assert_eq!(u32::load_from_le(&bytes[..4]).ok(), Some(0x04030201));
    assert_eq!(u64::load_from_le(&bytes).ok(), Some(0x0807060504030201));
    let mut buffer = [0; 8];
    assert!(0x0807060504030201u64.store_to_le(&mut buffer).is_ok());
    assert_eq!(buffer, bytes);
    assert!(0xfffeu16.store_to_le(&mut buffer[..2]).is_ok());
    assert!(0xdeadbeefu32.store_to_le(&mut buffer[4..]).is_ok());
    assert_eq!(buffer, [0xfe, 0xff, 3, 4, 0xef, 0xbe, 0xad, 0xde]);
}

#[test]
fn integers_big_endian() {
    let bytes = [1, 2, 3, 4, 5, 6, 7, 8];
    assert_eq!(u16::load_from_be(&bytes[..2]).ok(), Some(0x0102));
    assert_eq!(u32::load_from_be(&bytes[..4]).ok(), Some(0x01020304));
    assert_eq!(u64::load_from_be(&bytes).ok(), Some(0x0102030405060708));
    let mut buffer = [0; 8];
    assert!(0x0102030405060708u64.store_to_be(&mut buffer).is_ok());
    assert_eq!(buffer, bytes);
    assert!(0xfffeu16.store_to_be(&mut buffer[..2]).is_ok());
    assert!(0xdeadbeefu32.store_to_be(&mut buffer[4..]).is_ok());
    assert_eq!(buffer, [0xff, 0xfe, 3, 4, 0xde, 0xad, 0xbe, 0xef]);
}

#[test]
fn byte_orders_are_reversed() {
    let mut little = [0; 2];
    let mut big = [0; 2];
    assert!(0x1234u16.store_to_le(&mut little).is_ok());
    assert!(0x1234u16.store_to_be(&mut big).is_ok());
    assert_eq!(little, [0x34, 0x12]);
    assert_eq!(big, [0x12, 0x34]);
    let mut little = [0; 8];
    let mut big = [0; 8];
    assert!(AtomicU64::new(0x0102030405060708).store_to_le(&mut little).is_ok());
    assert!(AtomicU64::new(0x0102030405060708).store_to_be(&mut big).is_ok());
    little.reverse();
    assert_eq!(little, big);
}

#[test]
fn integers_in_native_order() {
    let mut buffer = [0; 4];
    assert!(0x01020304u32.store_to(&mut buffer).is_ok());
    assert_eq!(buffer, 0x01020304u32.to_ne_bytes());
    assert_eq!(u32::load_from(&buffer).ok(), Some(0x01020304));
    assert_eq!(u16::load_from(&buffer[..2]).ok(), Some(u16::from_ne_bytes([buffer[0], buffer[1]])));
    assert_eq!(u64::load_from(&[9, 8, 7, 6, 5, 4, 3, 2]).ok(), Some(u64::from_ne_bytes([9, 8, 7, 6, 5, 4, 3, 2])));
    let little = 1u16.to_ne_bytes() == [1, 0];
    assert_eq!(native_byte_order() == ByteOrder::Little, little);
}

#[test]
fn integers_round_trip() {
    for value in [0u64, 1, 0xff, 0x100, 0x0123_4567_89ab_cdef, u64::MAX] {
        let mut buffer = [0; 8];
        assert!(value.store_to_be(&mut buffer).is_ok());
        assert_eq!(u64::load_from_be(&buffer).ok(), Some(value));
        assert!(value.store_to_le(&mut buffer).is_ok());
        assert_eq!(u64::load_from_le(&buffer).ok(), Some(value));
        assert!(value.store_to(&mut buffer).is_ok());
        assert_eq!(u64::load_from(&buffer).ok(), Some(value));
    }
}

fn message<T>(result: Result<T, OnDiskError>) -> String {
    match result {
        Ok(_) => panic!("no error"),
        Err(error) => error.message(),
    }
}

#[test]
fn integers_need_a_buffer_of_their_size() {
    assert_eq!(
        message(u16::load_from_le(&[1])),
        "Cannot load type u16 (length 2) from buffer of length 1"
    );
    assert_eq!(
        message(u32::load_from_be(&[0; 10])),
        "Cannot load type u32 (length 4) from buffer of length 10"
    );
    assert_eq!(
        message(u64::load_from(&[])),
        "Cannot load type u64 (length 8) from buffer of length 0"
    );
    let mut buffer = [7; 12];
    assert_eq!(
        message(1u16.store_to(&mut buffer)),
        "Cannot write type u16 (length 2) into buffer of length 12"
    );
    assert_eq!(
        message(1u32.store_to_le(&mut buffer[..3])),
        "Cannot write type u32 (length 4) into buffer of length 3"
    );
    assert_eq!(
        message(1u64.store_to_be(&mut buffer)),
        "Cannot write type u64 (length 8) into buffer of length 12"
    );
    assert_eq!(buffer, [7; 12]);
    assert_eq!(
        message(AtomicU32::load_from(&[1])),
        "Cannot load type u32 (length 4) from buffer of length 1"
    );
}

#[test]
fn long_lengths_are_written_out() {
    let error = OnDiskError {
        operation: OnDiskOperation::ReadStruct,
        name: String::from("Header"),
        length: 1090,
        buffer_length: usize::MAX,
    };
    assert_eq!(
        error.message(),
        format!("Cannot read struct Header (length 1090) from buffer of length {}", usize::MAX)
    );
}

#[test]
fn shared_integers() {
    let cell = AtomicU32::load_from_be(&[0, 0, 1, 2]).ok().unwrap();
    assert_eq!(cell.load(Ordering::Relaxed), 0x0102);
    cell.store(0xa0b0c0d0, Ordering::Relaxed);
    let mut buffer = [0; 4];
    assert!(cell.store_to_le(&mut buffer).is_ok());
    assert_eq!(buffer, [0xd0, 0xc0, 0xb0, 0xa0]);
    assert!(cell.store_to_be(&mut buffer).is_ok());
    assert_eq!(buffer, [0xa0, 0xb0, 0xc0, 0xd0]);
    assert!(cell.store_to(&mut buffer).is_ok());
    assert_eq!(AtomicU32::load_from(&buffer).ok().unwrap().into_inner(), 0xa0b0c0d0);

    let cell = AtomicU64::load_from_le(&[1, 2, 3, 4, 5, 6, 7, 8]).ok().unwrap();
    assert_eq!(cell.load(Ordering::Relaxed), 0x0807060504030201);
    let mut buffer = [0; 8];
    assert!(cell.store_to_be(&mut buffer).is_ok());
    assert_eq!(buffer, [8, 7, 6, 5, 4, 3, 2, 1]);
}

#[test]
fn integers_in_the_middle_of_a_buffer() {
    let mut buffer = [0xee; 6];
    encode_at(&mut buffer, 1, 3, 0x00aabbcc, ByteOrder::Big);
    assert_eq!(buffer, [0xee, 0xaa, 0xbb, 0xcc, 0xee, 0xee]);
    assert_eq!(decode_at(&buffer, 1, 3, ByteOrder::Big), 0xaabbcc);
    assert_eq!(decode_at(&buffer, 1, 3, ByteOrder::Little), 0xccbbaa);
}

fn field(offset: usize, field_type: FieldType) -> Field {
    Field { offset, field_type }
}

fn layout(endianness: Endianness, packing: Packing, fields: Vec<Field>) -> StructLayout {
    StructLayout { name: String::from("Example"), endianness, packing, fields }
}

fn integers(values: &Vec<FieldValue>) -> Vec<u64> {
    let mut all = Vec::new();
    for value in values {
        match value {
            FieldValue::U16(v) => all.push(u64::from(*v)),
            FieldValue::U32(v) => all.push(u64::from(*v)),
            FieldValue::U64(v) => all.push(*v),
            FieldValue::Struct(inner) => all.extend(integers(inner)),
        }
    }
    all
}

fn packed(endianness: Endianness) -> StructLayout {
    layout(
        endianness,
        Packing::NoGaps,
        vec![field(0, FieldType::U16), field(2, FieldType::U32), field(6, FieldType::U64)],
    )
}

#[test]
fn packed_structure() {
    let bytes = [1, 2, 3, 4, 5, 6, 7, 8, 9, 10, 11, 12, 13, 14];
    let big = packed(Endianness::Be);
    assert!(big.check_layout());
    assert_eq!(big.on_disk_size(), 14);
    let values = big.load_from(&bytes).ok().unwrap();
    assert_eq!(integers(&values), [0x0102, 0x03040506, 0x0708090a0b0c0d0e]);
    let values = packed(Endianness::Le).load_from(&bytes).ok().unwrap();
    assert_eq!(integers(&values), [0x0201, 0x06050403, 0x0e0d0c0b0a090807]);
    let values = packed(Endianness::Ne).load_from(&bytes).ok().unwrap();
    assert_eq!(integers(&values)[0], u64::from(u16::from_ne_bytes([1, 2])));

    let mut buffer = [0; 16];
    let values = big.load_from(&bytes).ok().unwrap();
    assert!(packed(Endianness::Le).store_to(&values, &mut buffer).is_ok());
    assert_eq!(buffer, [2, 1, 6, 5, 4, 3, 14, 13, 12, 11, 10, 9, 8, 7, 0, 0]);
}

/// Bytes that belong to no field stay, and a larger buffer is in order.
#[test]
fn gaps_and_trailing_bytes_stay() {
    let gappy = layout(
        Endianness::Be,
        Packing::AllowGaps,
        vec![field(1, FieldType::U16), field(4, FieldType::U16)],
    );
    assert!(gappy.check_layout());
    assert_eq!(gappy.on_disk_size(), 6);
    let mut buffer = [0xee; 8];
    let values = vec![FieldValue::U16(0x0102), FieldValue::U16(0x0304)];
    assert!(gappy.store_to(&values, &mut buffer).is_ok());
    assert_eq!(buffer, [0xee, 1, 2, 0xee, 3, 4, 0xee, 0xee]);
    let loaded = gappy.load_from(&buffer).ok().unwrap();
    assert_eq!(integers(&loaded), [0x0102, 0x0304]);
    let before = buffer;
    assert!(gappy.store_to(&loaded, &mut buffer).is_ok());
    assert_eq!(buffer, before);
}

/// A structure inside of another keeps its own endianness.
#[test]
fn nested_structure() {
    let inner = layout(
        Endianness::Le,
        Packing::AllowGaps,
        vec![field(0, FieldType::U16), field(4, FieldType::U16)],
    );
    let outer = layout(
        Endianness::Be,
        Packing::NoGaps,
        vec![
            field(0, FieldType::U32),
            field(4, FieldType::Struct(Box::new(inner))),
            field(10, FieldType::U16),
        ],
    );
    assert!(outer.check_layout());
    assert_eq!(outer.on_disk_size(), 12);
    let mut buffer = [0xee; 12];
    let values = vec![
        FieldValue::U32(0x01020304),
        FieldValue::Struct(vec![FieldValue::U16(0x0506), FieldValue::U16(0x0708)]),
        FieldValue::U16(0x090a),
    ];
    assert!(outer.store_to(&values, &mut buffer).is_ok());
    assert_eq!(buffer, [1, 2, 3, 4, 6, 5, 0xee, 0xee, 8, 7, 9, 10]);
    let loaded = outer.load_from(&buffer).ok().unwrap();
    assert_eq!(integers(&loaded), [0x01020304, 0x0506, 0x0708, 0x090a]);
}

#[test]
fn structures_need_a_large_enough_buffer() {
    let big = packed(Endianness::Be);
    assert_eq!(
        message(big.load_from(&[0; 13])),
        "Cannot read struct Example (length 14) from buffer of length 13"
    );
    let values = vec![FieldValue::U16(1), FieldValue::U32(2), FieldValue::U64(3)];
    let mut buffer = [5; 4];
    assert_eq!(
        message(big.store_to(&values, &mut buffer)),
        "Cannot write struct Example (length 14) into buffer of length 4"
    );
    assert_eq!(buffer, [5; 4]);
}

#[test]
fn layouts_are_checked() {
    let two = |packing: Packing, first: usize, second: usize| {
        layout(
            Endianness::Le,
            packing,
            vec![field(first, FieldType::U32), field(second, FieldType::U16)],
        )
    };
    assert!(two(Packing::NoGaps, 0, 4).check_layout());
    assert!(!two(Packing::NoGaps, 0, 5).check_layout());
    assert!(!two(Packing::NoGaps, 1, 5).check_layout());
    assert!(two(Packing::AllowGaps, 1, 5).check_layout());
    assert!(two(Packing::AllowGaps, 3, 100).check_layout());
    assert!(!two(Packing::AllowGaps, 0, 3).check_layout());
    assert!(!two(Packing::AllowGaps, 4, 0).check_layout());
    assert!(!two(Packing::AllowGaps, 0, usize::MAX).check_layout());
    assert!(!two(Packing::AllowGaps, usize::MAX, usize::MAX).check_layout());
    assert!(!layout(Endianness::Le, Packing::AllowGaps, vec![]).check_layout());
    let outer = layout(
        Endianness::Le,
        Packing::AllowGaps,
        vec![field(0, FieldType::Struct(Box::new(two(Packing::NoGaps, 0, 5))))],
    );
    assert!(!outer.check_layout());
}

/// A pair of integers that is always little endian.
#[derive(Debug, PartialEq)]
struct Pair(u16, u16);

impl OnDiskStruct for Pair {
    const ON_DISK_SIZE: usize = 4;

    fn load_from(bytes: &[u8]) -> Result<Self, OnDiskError> {
        if bytes.len() < 4 {
            return Err(OnDiskError {
                operation: OnDiskOperation::ReadStruct,
                name: String::from("Pair"),
                length: 4,
                buffer_length: bytes.len(),
            });
        }
        Ok(Pair(u16::load_from_le(&bytes[..2])?, u16::load_from_le(&bytes[2..4])?))
    }

    fn store_to(&self, bytes: &mut [u8]) -> Result<(), OnDiskError> {
        if bytes.len() < 4 {
            return Err(OnDiskError {
                operation: OnDiskOperation::WriteStruct,
                name: String::from("Pair"),
                length: 4,
                buffer_length: bytes.len(),
            });
        }
        self.0.store_to_le(&mut bytes[..2])?;
        self.1.store_to_le(&mut bytes[2..4])
    }
}

/// A structure with an inherent endianness keeps it, whichever is asked for.
#[test]
fn inherent_endianness_prevails() {
    let bytes = [1, 0, 2, 0];
    assert_eq!(Pair::load_from_le(&bytes).ok(), Some(Pair(1, 2)));
    assert_eq!(Pair::load_from_be(&bytes).ok(), Some(Pair(1, 2)));
    let mut buffer = [9; 4];
    assert!(Pair(1, 2).store_to_be(&mut buffer).is_ok());
    assert_eq!(buffer, bytes);
    assert!(Pair(3, 4).store_to_le(&mut buffer).is_ok());
    assert_eq!(buffer, [3, 0, 4, 0]);
    assert_eq!(Pair(1, 2).on_disk_size(), 4);
    assert_eq!(
        message(Pair::load_from_le(&bytes[..3])),
        "Cannot read struct Pair (length 4) from buffer of length 3"
    );
}
