use classfile::constant_pool::{constant_pool, get_utf8, resolve_class_name, ConstantPoolType};
use classfile::{Cursor, DecodeErrorKind};

/// Decode a constant table from raw bytes, asserting full consumption.
fn decode_pool(bytes: &[u8]) -> classfile::ConstantTable {
    let mut cur = Cursor::new(bytes);
    let t = constant_pool(&mut cur).expect("constant table must decode");
    assert_eq!(cur.pos, bytes.len(), "table must consume all bytes");
    t
}

#[test]
fn utf8_entry_round_trips_verbatim() {
    // count = 2: one entry at index 1, a Utf8 of declared length 5
    let mut b: Vec<u8> = vec![0x00, 0x02];
    b.push(0x01); // Utf8 tag
    b.extend_from_slice(&[0x00, 0x05]);
    b.extend_from_slice(&[b'h', b'e', b'l', b'l', b'o']);
    let t = decode_pool(&b);
    let got = get_utf8(&t, 1).expect("index 1 must hold Utf8");
    assert_eq!(got.as_slice(), b"hello");
}

#[test]
fn integer_entry_decodes_to_semantic_value() {
    let mut b: Vec<u8> = vec![0x00, 0x02];
    b.push(0x03); // Integer tag
    b.extend_from_slice(&[0x00, 0x00, 0x00, 0x2A]);
    let t = decode_pool(&b);
    match t.get(1).expect("index 1 must hold an entry") {
        ConstantPoolType::Integer { value } => assert_eq!(*value, 42),
        other => panic!("expected Integer, got {other:?}"),
    }
}

#[test]
fn negative_integer_entry_decodes_to_semantic_value() {
    let mut b: Vec<u8> = vec![0x00, 0x02];
    b.push(0x03);
    b.extend_from_slice(&[0xFF, 0xFF, 0xFF, 0xFE]);
    let t = decode_pool(&b);
    match t.get(1).expect("entry") {
        ConstantPoolType::Integer { value } => assert_eq!(*value, -2),
        other => panic!("expected Integer, got {other:?}"),
    }
}

#[test]
fn float_entry_decodes_to_ieee_bit_pattern() {
    let mut b: Vec<u8> = vec![0x00, 0x02];
    b.push(0x04); // Float tag, bit pattern of 1.5
    b.extend_from_slice(&[0x3F, 0xC0, 0x00, 0x00]);
    let t = decode_pool(&b);
    match t.get(1).expect("entry") {
        ConstantPoolType::Float { bits } => assert_eq!(f32::from_bits(*bits), 1.5f32),
        other => panic!("expected Float, got {other:?}"),
    }
}

#[test]
fn long_and_double_entries_occupy_two_slots() {
    // count = 6: Long at 1 (gap at 2), Double at 3 (gap at 4), Integer at 5
    let mut b: Vec<u8> = vec![0x00, 0x06];
    b.push(0x05); // Long tag, value 7
    b.extend_from_slice(&[0x00, 0x00, 0x00, 0x00, 0x00, 0x00, 0x00, 0x07]);
    b.push(0x06); // Double tag, bit pattern of 2.5
    b.extend_from_slice(&2.5f64.to_bits().to_be_bytes());
    b.push(0x03); // Integer tag, value 9
    b.extend_from_slice(&[0x00, 0x00, 0x00, 0x09]);
    let t = decode_pool(&b);
    assert_eq!(t.slot_count(), 6);
    match t.get(1).expect("Long at 1") {
        ConstantPoolType::Long { value } => assert_eq!(*value, 7),
        other => panic!("expected Long, got {other:?}"),
    }
    let gap = t.get(2).err().expect("index 2 is the gap after the Long");
    assert_eq!(gap, DecodeErrorKind::InvalidConstantPoolIndex);
    match t.get(3).expect("Double at 3") {
        ConstantPoolType::Double { bits } => assert_eq!(f64::from_bits(*bits), 2.5f64),
        other => panic!("expected Double, got {other:?}"),
    }
    let gap = t.get(4).err().expect("index 4 is the gap after the Double");
    assert_eq!(gap, DecodeErrorKind::InvalidConstantPoolIndex);
    match t.get(5).expect("Integer at 5") {
        ConstantPoolType::Integer { value } => assert_eq!(*value, 9),
        other => panic!("expected Integer, got {other:?}"),
    }
}

#[test]
fn negative_long_entry_decodes_to_semantic_value() {
    let mut b: Vec<u8> = vec![0x00, 0x03];
    b.push(0x05);
    b.extend_from_slice(&(-3i64 as u64).to_be_bytes());
    let t = decode_pool(&b);
    match t.get(1).expect("entry") {
        ConstantPoolType::Long { value } => assert_eq!(*value, -3),
        other => panic!("expected Long, got {other:?}"),
    }
}

#[test]
fn index_zero_and_out_of_range_lookups_fail() {
    let mut b: Vec<u8> = vec![0x00, 0x02];
    b.push(0x07); // Class tag
    b.extend_from_slice(&[0x00, 0x01]);
    let t = decode_pool(&b);
    assert_eq!(t.get(0).err().unwrap(), DecodeErrorKind::InvalidConstantPoolIndex);
    assert_eq!(t.get(2).err().unwrap(), DecodeErrorKind::InvalidConstantPoolIndex);
    assert!(t.get(1).is_ok());
}

#[test]
fn unknown_constant_tag_is_fatal() {
    // count = 2, then a tag byte outside the defined set
    let b: Vec<u8> = vec![0x00, 0x02, 0x02, 0x00, 0x00, 0x00];
    let mut cur = Cursor::new(&b);
    let e = constant_pool(&mut cur).err().expect("tag 2 must fail");
    assert_eq!(e.kind, DecodeErrorKind::UnknownConstantTag);
    assert_eq!(e.offset, 2);
}

#[test]
fn ref_like_entries_keep_their_indices() {
    let mut b: Vec<u8> = vec![0x00, 0x05];
    b.push(0x09); // Fieldref
    b.extend_from_slice(&[0x00, 0x02, 0x00, 0x03]);
    b.push(0x0A); // Methodref
    b.extend_from_slice(&[0x00, 0x04, 0x00, 0x05]);
    b.push(0x0C); // NameAndType
    b.extend_from_slice(&[0x00, 0x06, 0x00, 0x07]);
    b.push(0x10); // MethodType
    b.extend_from_slice(&[0x00, 0x08]);
    let t = decode_pool(&b);
    match t.get(1).unwrap() {
        ConstantPoolType::Fieldref { class_index, name_and_type_index } => {
            assert_eq!((*class_index, *name_and_type_index), (2, 3));
        },
        other => panic!("expected Fieldref, got {other:?}"),
    }
    match t.get(2).unwrap() {
        ConstantPoolType::Methodref { class_index, name_and_type_index } => {
            assert_eq!((*class_index, *name_and_type_index), (4, 5));
        },
        other => panic!("expected Methodref, got {other:?}"),
    }
    match t.get(3).unwrap() {
        ConstantPoolType::NameAndType { name_index, descriptor_index } => {
            assert_eq!((*name_index, *descriptor_index), (6, 7));
        },
        other => panic!("expected NameAndType, got {other:?}"),
    }
    match t.get(4).unwrap() {
        ConstantPoolType::MethodType { descriptor_index } => assert_eq!(*descriptor_index, 8),
        other => panic!("expected MethodType, got {other:?}"),
    }
}

#[test]
fn class_name_resolves_through_class_entry() {
    let mut b: Vec<u8> = vec![0x00, 0x03];
    b.push(0x07); // Class, name_index = 2
    b.extend_from_slice(&[0x00, 0x02]);
    b.push(0x01); // Utf8 "A/B"
    b.extend_from_slice(&[0x00, 0x03]);
    b.extend_from_slice(b"A/B");
    let t = decode_pool(&b);
    let name = resolve_class_name(&t, 1).expect("class name must resolve");
    assert_eq!(name.as_slice(), b"A/B");
    assert!(resolve_class_name(&t, 2).is_none()); // a Utf8 entry is not a Class
    assert!(get_utf8(&t, 1).is_none()); // a Class entry is not Utf8
}

#[test]
fn method_handle_entry_keeps_kind_and_index() {
    let mut b: Vec<u8> = vec![0x00, 0x02];
    b.push(0x0F); // MethodHandle
    b.push(0x06); // reference_kind
    b.extend_from_slice(&[0x00, 0x09]);
    let t = decode_pool(&b);
    match t.get(1).unwrap() {
        ConstantPoolType::MethodHandle { reference_kind, reference_index } => {
            assert_eq!((*reference_kind, *reference_index), (6, 9));
        },
        other => panic!("expected MethodHandle, got {other:?}"),
    }
}

#[test]
fn truncated_utf8_entry_fails_with_eof() {
    let mut b: Vec<u8> = vec![0x00, 0x02];
    b.push(0x01);
    b.extend_from_slice(&[0x00, 0x05]);
    b.extend_from_slice(&[b'h', b'e']); // 2 of the declared 5 bytes
    let mut cur = Cursor::new(&b);
    let e = constant_pool(&mut cur).err().expect("short Utf8 must fail");
    assert_eq!(e.kind, DecodeErrorKind::UnexpectedEof);
}

#[test]
fn pool_count_overrunning_input_fails_fast() {
    let b: Vec<u8> = vec![0xFF, 0xFF, 0x03, 0x00];
    let mut cur = Cursor::new(&b);
    let e = constant_pool(&mut cur).err().expect("oversized count must fail");
    assert_eq!(e.kind, DecodeErrorKind::CollectionLengthExceedsRemainingInput);
    assert_eq!(e.offset, 2);
}

#[test]
fn wide_entry_in_last_slot_leaves_no_gap_slot() {
    // count = 2: the Long fills slot 1, the last slot; no slot is left
    // for its gap
    let mut b: Vec<u8> = vec![0x00, 0x02];
    b.push(0x05);
    b.extend_from_slice(&[0x00, 0x00, 0x00, 0x00, 0x00, 0x00, 0x00, 0x01]);
    let t = decode_pool(&b);
    assert_eq!(t.slot_count(), 2);
    assert!(matches!(t.get(1), Ok(ConstantPoolType::Long { value: 1 })));
    assert_eq!(t.get(2).err().unwrap(), DecodeErrorKind::InvalidConstantPoolIndex);
}

#[test]
fn extreme_numeric_entries_decode_exactly() {
    // slots: 1 and 2 hold Integers, 3 the Long, 4 its gap
    let mut b: Vec<u8> = vec![0x00, 0x05];
    b.push(0x03); // Integer i32::MIN
    b.extend_from_slice(&[0x80, 0x00, 0x00, 0x00]);
    b.push(0x03); // Integer i32::MAX
    b.extend_from_slice(&[0x7F, 0xFF, 0xFF, 0xFF]);
    b.push(0x05); // Long i64::MIN
    b.extend_from_slice(&[0x80, 0x00, 0x00, 0x00, 0x00, 0x00, 0x00, 0x00]);
    let t = decode_pool(&b);
    assert!(matches!(t.get(1), Ok(ConstantPoolType::Integer { value: i32::MIN })));
    assert!(matches!(t.get(2), Ok(ConstantPoolType::Integer { value: i32::MAX })));
    assert!(matches!(t.get(3), Ok(ConstantPoolType::Long { value: i64::MIN })));
    assert_eq!(t.get(4).err().unwrap(), DecodeErrorKind::InvalidConstantPoolIndex);
}
