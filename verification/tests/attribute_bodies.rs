use classfile::annotations::{annotation, element_value};
use classfile::attributes::attribute;
use classfile::constant_pool::constant_pool;
use classfile::{
    Attribute, ConstantTable, Cursor, DecodeErrorKind, ElementValue, ElementValueTag,
    MAX_NESTING_DEPTH,
};

/// A constant table whose indices 1.. hold the given Utf8 names.
fn pool_with_names(names: &[&[u8]]) -> ConstantTable {
    let count = (names.len() + 1) as u16;
    let mut b: Vec<u8> = count.to_be_bytes().to_vec();
    for name in names {
        b.push(0x01);
        b.extend_from_slice(&(name.len() as u16).to_be_bytes());
        b.extend_from_slice(name);
    }
    let mut cur = Cursor::new(&b);
    constant_pool(&mut cur).expect("name table must decode")
}

/// Decode one attribute against the given table, returning it with the
/// number of bytes consumed.
fn decode_attr(
    table: &ConstantTable,
    bytes: &[u8],
) -> Result<(Attribute, usize), classfile::DecodeError> {
    let mut cur = Cursor::new(bytes);
    attribute(&mut cur, table, MAX_NESTING_DEPTH).map(|a| (a, cur.pos))
}

#[test]
fn unrecognized_name_decodes_to_opaque_and_advances_exactly() {
    let table = pool_with_names(&[b"SomethingElse"]);
    let mut b: Vec<u8> = vec![0x00, 0x01]; // name index 1
    b.extend_from_slice(&[0x00, 0x00, 0x00, 0x03]); // declared length 3
    b.extend_from_slice(&[0xAA, 0xBB, 0xCC]);
    let (a, consumed) = decode_attr(&table, &b).expect("opaque attribute");
    assert_eq!(consumed, 2 + 4 + 3);
    match a {
        Attribute::Opaque { attribute_name_index, info } => {
            assert_eq!(attribute_name_index, 1);
            assert_eq!(info, vec![0xAA, 0xBB, 0xCC]);
        },
        other => panic!("expected Opaque, got {other:?}"),
    }
}

#[test]
fn attribute_name_index_must_name_a_utf8_entry() {
    let table = pool_with_names(&[b"ConstantValue"]);
    // name index 5 is out of range of the table
    let b: Vec<u8> = vec![0x00, 0x05, 0x00, 0x00, 0x00, 0x02, 0x00, 0x01];
    let e = decode_attr(&table, &b).err().expect("bad name index");
    assert_eq!(e.kind, DecodeErrorKind::InvalidConstantPoolIndex);
    assert_eq!(e.offset, 0);
}

#[test]
fn declared_length_must_match_consumed_bytes() {
    let table = pool_with_names(&[b"SourceFile"]);
    // SourceFile's grammar consumes 2 bytes, but 3 are declared
    let b: Vec<u8> = vec![0x00, 0x01, 0x00, 0x00, 0x00, 0x03, 0x00, 0x07, 0x00];
    let e = decode_attr(&table, &b).err().expect("length mismatch");
    assert_eq!(e.kind, DecodeErrorKind::AttributeLengthMismatch);
    assert_eq!(e.offset, 8);
}

#[test]
fn empty_bodied_attributes_demand_length_zero() {
    let table = pool_with_names(&[b"Synthetic", b"Deprecated"]);
    let b: Vec<u8> = vec![0x00, 0x01, 0x00, 0x00, 0x00, 0x00];
    let (a, consumed) = decode_attr(&table, &b).expect("Synthetic");
    assert!(matches!(a, Attribute::Synthetic));
    assert_eq!(consumed, 6);
    let b: Vec<u8> = vec![0x00, 0x02, 0x00, 0x00, 0x00, 0x00];
    let (a, _) = decode_attr(&table, &b).expect("Deprecated");
    assert!(matches!(a, Attribute::Deprecated));
    let b: Vec<u8> = vec![0x00, 0x01, 0x00, 0x00, 0x00, 0x01, 0x00];
    let e = decode_attr(&table, &b).err().expect("Synthetic with length 1");
    assert_eq!(e.kind, DecodeErrorKind::AttributeLengthMismatch);
}

#[test]
fn constant_value_attribute_reads_one_index() {
    let table = pool_with_names(&[b"ConstantValue"]);
    let b: Vec<u8> = vec![0x00, 0x01, 0x00, 0x00, 0x00, 0x02, 0x00, 0x09];
    let (a, consumed) = decode_attr(&table, &b).expect("ConstantValue");
    assert_eq!(consumed, 8);
    assert!(matches!(a, Attribute::ConstantValue { constant_value_index: 9 }));
}

#[test]
fn source_debug_extension_takes_declared_length_verbatim() {
    let table = pool_with_names(&[b"SourceDebugExtension"]);
    let mut b: Vec<u8> = vec![0x00, 0x01, 0x00, 0x00, 0x00, 0x04];
    b.extend_from_slice(&[0x01, 0x02, 0x03, 0x04]);
    let (a, consumed) = decode_attr(&table, &b).expect("SourceDebugExtension");
    assert_eq!(consumed, 10);
    match a {
        Attribute::SourceDebugExtension { debug_extension } => {
            assert_eq!(debug_extension, vec![1, 2, 3, 4]);
        },
        other => panic!("expected SourceDebugExtension, got {other:?}"),
    }
}

#[test]
fn exceptions_attribute_reads_index_table() {
    let table = pool_with_names(&[b"Exceptions"]);
    let b: Vec<u8> = vec![
        0x00, 0x01, 0x00, 0x00, 0x00, 0x06, 0x00, 0x02, 0x00, 0x05, 0x00, 0x08,
    ];
    let (a, _) = decode_attr(&table, &b).expect("Exceptions");
    match a {
        Attribute::Exceptions { number_of_exceptions, exception_index_table } => {
            assert_eq!(number_of_exceptions, 2);
            assert_eq!(exception_index_table, vec![5, 8]);
        },
        other => panic!("expected Exceptions, got {other:?}"),
    }
}

#[test]
fn inner_classes_attribute_reads_rows() {
    let table = pool_with_names(&[b"InnerClasses"]);
    let b: Vec<u8> = vec![
        0x00, 0x01, 0x00, 0x00, 0x00, 0x0A, 0x00, 0x01, 0x00, 0x02, 0x00, 0x03, 0x00, 0x04, 0x00,
        0x19,
    ];
    let (a, _) = decode_attr(&table, &b).expect("InnerClasses");
    match a {
        Attribute::InnerClasses { classes } => {
            assert_eq!(classes.len(), 1);
            assert_eq!(classes[0].inner_class_info, 2);
            assert_eq!(classes[0].outer_class_info, 3);
            assert_eq!(classes[0].inner_name_index, 4);
            assert_eq!(classes[0].inner_class_access_flags, 0x19);
        },
        other => panic!("expected InnerClasses, got {other:?}"),
    }
}

#[test]
fn line_number_table_reads_rows() {
    let table = pool_with_names(&[b"LineNumberTable"]);
    let b: Vec<u8> = vec![
        0x00, 0x01, 0x00, 0x00, 0x00, 0x0A, 0x00, 0x02, 0x00, 0x00, 0x00, 0x0A, 0x00, 0x05, 0x00,
        0x0B,
    ];
    let (a, _) = decode_attr(&table, &b).expect("LineNumberTable");
    match a {
        Attribute::LineNumberTable { line_number_table } => {
            assert_eq!(line_number_table.len(), 2);
            assert_eq!((line_number_table[0].start_pc, line_number_table[0].line_number), (0, 10));
            assert_eq!((line_number_table[1].start_pc, line_number_table[1].line_number), (5, 11));
        },
        other => panic!("expected LineNumberTable, got {other:?}"),
    }
}

#[test]
fn local_variable_table_reads_rows() {
    let table = pool_with_names(&[b"LocalVariableTable"]);
    let b: Vec<u8> = vec![
        0x00, 0x01, 0x00, 0x00, 0x00, 0x0C, 0x00, 0x01, 0x00, 0x01, 0x00, 0x06, 0x00, 0x02, 0x00,
        0x03, 0x00, 0x00,
    ];
    let (a, _) = decode_attr(&table, &b).expect("LocalVariableTable");
    match a {
        Attribute::LocalVariableTable { local_variable_table } => {
            assert_eq!(local_variable_table.len(), 1);
            let row = &local_variable_table[0];
            assert_eq!(
                (row.start_pc, row.length, row.name_index, row.descriptor_index, row.index),
                (1, 6, 2, 3, 0)
            );
        },
        other => panic!("expected LocalVariableTable, got {other:?}"),
    }
}

#[test]
fn signature_and_enclosing_method_read_their_indices() {
    let table = pool_with_names(&[b"Signature", b"EnclosingMethod"]);
    let b: Vec<u8> = vec![0x00, 0x01, 0x00, 0x00, 0x00, 0x02, 0x00, 0x04];
    let (a, _) = decode_attr(&table, &b).expect("Signature");
    assert!(matches!(a, Attribute::Signature { signature_index: 4 }));
    let b: Vec<u8> = vec![0x00, 0x02, 0x00, 0x00, 0x00, 0x04, 0x00, 0x06, 0x00, 0x07];
    let (a, _) = decode_attr(&table, &b).expect("EnclosingMethod");
    assert!(matches!(a, Attribute::EnclosingMethod { class_index: 6, method_index: 7 }));
}

#[test]
fn bootstrap_methods_attribute_reads_argument_lists() {
    let table = pool_with_names(&[b"BootstrapMethods"]);
    let b: Vec<u8> = vec![
        0x00, 0x01, 0x00, 0x00, 0x00, 0x0A, 0x00, 0x01, 0x00, 0x03, 0x00, 0x02, 0x00, 0x08, 0x00,
        0x09,
    ];
    let (a, _) = decode_attr(&table, &b).expect("BootstrapMethods");
    match a {
        Attribute::BootstrapMethods { bootstrap_methods } => {
            assert_eq!(bootstrap_methods.len(), 1);
            assert_eq!(bootstrap_methods[0].bootstrap_method_ref, 3);
            assert_eq!(bootstrap_methods[0].bootstrap_arguments, vec![8, 9]);
        },
        other => panic!("expected BootstrapMethods, got {other:?}"),
    }
}

#[test]
fn runtime_visible_annotations_attribute_decodes_annotations() {
    let table = pool_with_names(&[b"RuntimeVisibleAnnotations"]);
    // one annotation: type 2, one pair: name 3, value 'I' index 4
    let b: Vec<u8> = vec![
        0x00, 0x01, 0x00, 0x00, 0x00, 0x0B, 0x00, 0x01, 0x00, 0x02, 0x00, 0x01, 0x00, 0x03, 0x49,
        0x00, 0x04,
    ];
    let (a, _) = decode_attr(&table, &b).expect("RuntimeVisibleAnnotations");
    match a {
        Attribute::RuntimeVisibleAnnotations { annotations } => {
            assert_eq!(annotations.len(), 1);
            assert_eq!(annotations[0].type_index, 2);
            assert_eq!(annotations[0].element_value_pairs.len(), 1);
            let pair = &annotations[0].element_value_pairs[0];
            assert_eq!(pair.element_name_index, 3);
            assert!(matches!(
                pair.value,
                ElementValue::ConstValueIndex { tag: ElementValueTag::Int, index: 4 }
            ));
        },
        other => panic!("expected RuntimeVisibleAnnotations, got {other:?}"),
    }
}

#[test]
fn parameter_annotations_group_per_parameter() {
    let table = pool_with_names(&[b"RuntimeVisibleParameterAnnotations"]);
    // 2 parameters: first with no annotations, second with one ('Z' at 5)
    let b: Vec<u8> = vec![
        0x00, 0x01, 0x00, 0x00, 0x00, 0x0E, 0x02, 0x00, 0x00, 0x00, 0x01, 0x00, 0x02, 0x00, 0x01,
        0x00, 0x03, 0x5A, 0x00, 0x05,
    ];
    let (a, _) = decode_attr(&table, &b).expect("RuntimeVisibleParameterAnnotations");
    match a {
        Attribute::RuntimeVisibleParameterAnnotations { parameter_annotations } => {
            assert_eq!(parameter_annotations.len(), 2);
            assert!(parameter_annotations[0].is_empty());
            assert_eq!(parameter_annotations[1].len(), 1);
            assert_eq!(parameter_annotations[1][0].type_index, 2);
        },
        other => panic!("expected RuntimeVisibleParameterAnnotations, got {other:?}"),
    }
}

#[test]
fn annotation_default_holds_one_element_value() {
    let table = pool_with_names(&[b"AnnotationDefault"]);
    // enum constant: type name 2, const name 3
    let b: Vec<u8> = vec![0x00, 0x01, 0x00, 0x00, 0x00, 0x05, 0x65, 0x00, 0x02, 0x00, 0x03];
    let (a, _) = decode_attr(&table, &b).expect("AnnotationDefault");
    match a {
        Attribute::AnnotationDefault { default_value } => {
            assert!(matches!(
                default_value,
                ElementValue::EnumConstValue { type_name_index: 2, const_name_index: 3 }
            ));
        },
        other => panic!("expected AnnotationDefault, got {other:?}"),
    }
}

#[test]
fn element_value_array_nests_recursively() {
    // [ of 2 values: 'c' class at 6, then nested annotation at type 7
    let b: Vec<u8> = vec![
        0x5B, 0x00, 0x02, 0x63, 0x00, 0x06, 0x40, 0x00, 0x07, 0x00, 0x00,
    ];
    let mut cur = Cursor::new(&b);
    let v = element_value(&mut cur, MAX_NESTING_DEPTH).expect("array value");
    assert_eq!(cur.pos, b.len());
    match v {
        ElementValue::ArrayValue { values } => {
            assert_eq!(values.len(), 2);
            assert!(matches!(values[0], ElementValue::ClassInfoIndex { index: 6 }));
            match &values[1] {
                ElementValue::AnnotationValue { annotation_value } => {
                    assert_eq!(annotation_value.type_index, 7);
                    assert!(annotation_value.element_value_pairs.is_empty());
                },
                other => panic!("expected nested annotation, got {other:?}"),
            }
        },
        other => panic!("expected ArrayValue, got {other:?}"),
    }
}

#[test]
fn unknown_element_value_tag_is_fatal() {
    let b: Vec<u8> = vec![0x51, 0x00, 0x01];
    let mut cur = Cursor::new(&b);
    let e = element_value(&mut cur, MAX_NESTING_DEPTH).err().expect("tag 'Q' must fail");
    assert_eq!(e.kind, DecodeErrorKind::UnknownElementValueTag);
    assert_eq!(e.offset, 0);
}

#[test]
fn each_primitive_element_value_tag_keeps_its_kind() {
    let cases: [(u8, ElementValueTag); 9] = [
        (b'B', ElementValueTag::Byte),
        (b'C', ElementValueTag::Char),
        (b'D', ElementValueTag::Double),
        (b'F', ElementValueTag::Float),
        (b'I', ElementValueTag::Int),
        (b'J', ElementValueTag::Long),
        (b'S', ElementValueTag::Short),
        (b'Z', ElementValueTag::Boolean),
        (b's', ElementValueTag::String),
    ];
    for (byte, want) in cases {
        let b: Vec<u8> = vec![byte, 0x00, 0x0C];
        let mut cur = Cursor::new(&b);
        let v = element_value(&mut cur, MAX_NESTING_DEPTH).expect("const kind");
        match v {
            ElementValue::ConstValueIndex { tag, index } => {
                assert_eq!(tag, want);
                assert_eq!(index, 12);
            },
            other => panic!("expected ConstValueIndex, got {other:?}"),
        }
    }
}

#[test]
fn deep_element_value_nesting_hits_the_recursion_guard() {
    // arrays of one element, nested past the depth budget
    let levels = MAX_NESTING_DEPTH as usize + 1;
    let mut b: Vec<u8> = Vec::new();
    for _ in 0..levels {
        b.extend_from_slice(&[0x5B, 0x00, 0x01]);
    }
    b.extend_from_slice(&[0x49, 0x00, 0x01]);
    let mut cur = Cursor::new(&b);
    let e = element_value(&mut cur, MAX_NESTING_DEPTH).err().expect("nesting past the budget");
    assert_eq!(e.kind, DecodeErrorKind::RecursionLimitExceeded);
}

#[test]
fn annotation_pair_count_overrunning_input_fails_fast() {
    let b: Vec<u8> = vec![0x00, 0x01, 0x00, 0x09];
    let mut cur = Cursor::new(&b);
    let e = annotation(&mut cur, MAX_NESTING_DEPTH).err().expect("count 9 with nothing after");
    assert_eq!(e.kind, DecodeErrorKind::CollectionLengthExceedsRemainingInput);
    assert_eq!(e.offset, 4);
}

#[test]
fn code_attribute_length_mismatch_is_fatal() {
    let table = pool_with_names(&[b"Code"]);
    let mut b: Vec<u8> = vec![0x00, 0x01, 0x00, 0x00, 0x00, 0x0E];
    b.extend_from_slice(&[0x00, 0x02]); // max_stack
    b.extend_from_slice(&[0x00, 0x01]); // max_locals
    b.extend_from_slice(&[0x00, 0x00, 0x00, 0x01]); // code_length
    b.push(0xB1);
    b.extend_from_slice(&[0x00, 0x00]); // exception table
    b.extend_from_slice(&[0x00, 0x00]); // nested attributes
    b.push(0x00); // a stray trailing byte inside the declared length
    let e = decode_attr(&table, &b).err().expect("declared 14, consumed 13");
    assert_eq!(e.kind, DecodeErrorKind::AttributeLengthMismatch);
}
