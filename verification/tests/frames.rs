use classfile::stack_map::{stack_map_frame, stack_map_table, verification_type_info};
use classfile::{Cursor, DecodeErrorKind, StackMapFrame, VerificationTypeInfo};

/// Feed one tag byte with plenty of zero trailing bytes to the frame
/// decoder.
fn decode_frame(tag: u8) -> Result<(StackMapFrame, usize), classfile::DecodeError> {
    let mut b: Vec<u8> = vec![tag];
    b.extend_from_slice(&[0x00; 12]);
    let mut cur = Cursor::new(&b);
    stack_map_frame(&mut cur).map(|f| (f, cur.pos))
}

#[test]
fn every_tag_byte_maps_to_the_fixed_frame_table() {
    for tag in 0..=255u8 {
        let r = decode_frame(tag);
        match tag {
            0..=63 => match r.expect("Same frame") {
                (StackMapFrame::Same { tag: t, offset_delta }, _) => {
                    assert_eq!(t, tag);
                    assert_eq!(offset_delta, tag as u16);
                },
                (other, _) => panic!("tag {tag}: expected Same, got {other:?}"),
            },
            64..=127 => match r.expect("SameLocals1StackItem frame") {
                (StackMapFrame::SameLocals1StackItem { tag: t, offset_delta, stack }, _) => {
                    assert_eq!(t, tag);
                    assert_eq!(offset_delta, (tag - 64) as u16);
                    assert_eq!(stack[0], VerificationTypeInfo::TopVariable);
                },
                (other, _) => panic!("tag {tag}: expected SameLocals1StackItem, got {other:?}"),
            },
            128..=246 => {
                let e = r.err().expect("reserved tags must fail");
                assert_eq!(e.kind, DecodeErrorKind::ReservedFrameTag, "tag {tag}");
                assert_eq!(e.offset, 0, "tag {tag}");
            },
            247 => match r.expect("SameLocalsStackItemExtended frame") {
                (StackMapFrame::SameLocalsStackItemExtended { tag: t, .. }, _) => {
                    assert_eq!(t, tag);
                },
                (other, _) => panic!("tag {tag}: expected extended form, got {other:?}"),
            },
            248..=250 => match r.expect("Chop frame") {
                (StackMapFrame::Chop { tag: t, .. }, _) => assert_eq!(t, tag),
                (other, _) => panic!("tag {tag}: expected Chop, got {other:?}"),
            },
            251 => match r.expect("SameExtended frame") {
                (StackMapFrame::SameExtended { tag: t, .. }, _) => assert_eq!(t, tag),
                (other, _) => panic!("tag {tag}: expected SameExtended, got {other:?}"),
            },
            252..=254 => match r.expect("Append frame") {
                (StackMapFrame::Append { tag: t, locals, .. }, _) => {
                    assert_eq!(t, tag);
                    assert_eq!(locals.len(), (tag - 251) as usize);
                },
                (other, _) => panic!("tag {tag}: expected Append, got {other:?}"),
            },
            255 => match r.expect("Full frame") {
                (StackMapFrame::Full { tag: t, locals, stack, .. }, _) => {
                    assert_eq!(t, tag);
                    assert!(locals.is_empty());
                    assert!(stack.is_empty());
                },
                (other, _) => panic!("tag {tag}: expected Full, got {other:?}"),
            },
        }
    }
}

#[test]
fn same_frame_consumes_one_byte() {
    let (_, end) = decode_frame(17).expect("Same frame");
    assert_eq!(end, 1);
}

#[test]
fn full_frame_reads_both_type_lists() {
    // tag 255, offset_delta 4, one local (Object #9), two stack entries
    let b: Vec<u8> = vec![
        0xFF, 0x00, 0x04, 0x00, 0x01, 0x07, 0x00, 0x09, 0x00, 0x02, 0x01, 0x08, 0x00, 0x11,
    ];
    let mut cur = Cursor::new(&b);
    let f = stack_map_frame(&mut cur).expect("Full frame");
    assert_eq!(cur.pos, b.len());
    match f {
        StackMapFrame::Full { tag, offset_delta, locals, stack } => {
            assert_eq!(tag, 255);
            assert_eq!(offset_delta, 4);
            assert_eq!(locals, vec![VerificationTypeInfo::ObjectVariable { cpool_index: 9 }]);
            assert_eq!(
                stack,
                vec![
                    VerificationTypeInfo::IntegerVariable,
                    VerificationTypeInfo::UninitializedVariable { offset: 17 },
                ]
            );
        },
        other => panic!("expected Full, got {other:?}"),
    }
}

#[test]
fn every_verification_tag_maps_to_its_variant() {
    let expected = [
        VerificationTypeInfo::TopVariable,
        VerificationTypeInfo::IntegerVariable,
        VerificationTypeInfo::FloatVariable,
        VerificationTypeInfo::DoubleVariable,
        VerificationTypeInfo::LongVariable,
        VerificationTypeInfo::NullVariable,
        VerificationTypeInfo::UninitializedThisVariable,
    ];
    for (tag, want) in expected.iter().enumerate() {
        let b: Vec<u8> = vec![tag as u8];
        let mut cur = Cursor::new(&b);
        let got = verification_type_info(&mut cur).expect("payload-free tag");
        assert_eq!(got, *want);
        assert_eq!(cur.pos, 1);
    }
    let b: Vec<u8> = vec![0x07, 0x00, 0x05];
    let mut cur = Cursor::new(&b);
    let got = verification_type_info(&mut cur).expect("Object");
    assert_eq!(got, VerificationTypeInfo::ObjectVariable { cpool_index: 5 });
    let b: Vec<u8> = vec![0x08, 0x01, 0x00];
    let mut cur = Cursor::new(&b);
    let got = verification_type_info(&mut cur).expect("Uninitialized");
    assert_eq!(got, VerificationTypeInfo::UninitializedVariable { offset: 256 });
}

#[test]
fn verification_tag_out_of_range_is_fatal() {
    let b: Vec<u8> = vec![0x09];
    let mut cur = Cursor::new(&b);
    let e = verification_type_info(&mut cur).err().expect("tag 9 must fail");
    assert_eq!(e.kind, DecodeErrorKind::UnknownVerificationTag);
    assert_eq!(e.offset, 0);
}

#[test]
fn stack_map_table_reads_declared_frame_count() {
    // two frames: Same (tag 5) and Chop (tag 248, delta 3)
    let b: Vec<u8> = vec![0x00, 0x02, 0x05, 0xF8, 0x00, 0x03];
    let mut cur = Cursor::new(&b);
    let frames = stack_map_table(&mut cur).expect("table");
    assert_eq!(cur.pos, b.len());
    assert_eq!(frames.len(), 2);
    assert!(matches!(frames[0], StackMapFrame::Same { tag: 5, offset_delta: 5 }));
    assert!(matches!(frames[1], StackMapFrame::Chop { tag: 248, offset_delta: 3 }));
}

#[test]
fn stack_map_table_count_overrunning_input_fails_fast() {
    let b: Vec<u8> = vec![0x00, 0x09, 0x05];
    let mut cur = Cursor::new(&b);
    let e = stack_map_table(&mut cur).err().expect("count 9 with 1 byte left");
    assert_eq!(e.kind, DecodeErrorKind::CollectionLengthExceedsRemainingInput);
}

#[test]
fn truncated_frame_fails_with_eof() {
    // tag 247 wants an offset and a verification type after it
    let b: Vec<u8> = vec![0xF7, 0x00];
    let mut cur = Cursor::new(&b);
    let e = stack_map_frame(&mut cur).err().expect("truncated frame");
    assert_eq!(e.kind, DecodeErrorKind::UnexpectedEof);
}
