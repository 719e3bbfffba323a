use classfile::{class_file, DecodeErrorKind};

/// The smallest well-formed class file: empty constant table and empty
/// lists throughout.
fn minimal_class_bytes() -> Vec<u8> {
    let mut b: Vec<u8> = Vec::new();
    b.extend_from_slice(&[0xCA, 0xFE, 0xBA, 0xBE]); // magic
    b.extend_from_slice(&[0x00, 0x00]); // minor = 0
    b.extend_from_slice(&[0x00, 0x34]); // major = 52
    b.extend_from_slice(&[0x00, 0x01]); // constant_pool_count = 1 (zero entries)
    b.extend_from_slice(&[0x00, 0x21]); // access_flags
    b.extend_from_slice(&[0x00, 0x00]); // this_class
    b.extend_from_slice(&[0x00, 0x00]); // super_class
    b.extend_from_slice(&[0x00, 0x00]); // interfaces_count
    b.extend_from_slice(&[0x00, 0x00]); // fields_count
    b.extend_from_slice(&[0x00, 0x00]); // methods_count
    b.extend_from_slice(&[0x00, 0x00]); // attributes_count
    b
}

#[test]
fn minimal_class_decodes() {
    let bytes = minimal_class_bytes();
    let cf = class_file(&bytes).expect("minimal class file must decode");
    assert_eq!(cf.version.minor, 0);
    assert_eq!(cf.version.major, 52);
    // count 1 means one slot (index 0), which never holds an entry
    assert_eq!(cf.constant_pool.slot_count(), 1);
    assert!(cf.constant_pool.get(0).is_err());
    assert_eq!(cf.access_flags, 0x0021);
    assert_eq!(cf.this_class, 0);
    assert_eq!(cf.super_class, 0);
    assert!(cf.interfaces.is_empty());
    assert!(cf.fields.is_empty());
    assert!(cf.methods.is_empty());
    assert!(cf.attributes.is_empty());
}

#[test]
fn truncated_minimal_class_fails_with_eof() {
    let bytes = minimal_class_bytes();
    for cut in 0..bytes.len() {
        let r = class_file(&bytes[..cut]);
        let e = r.err().expect("every strict prefix must fail");
        assert_eq!(e.kind, DecodeErrorKind::UnexpectedEof, "cut at {cut}");
    }
}

#[test]
fn wrong_magic_is_rejected() {
    let mut bytes = minimal_class_bytes();
    bytes[0] = 0xCB;
    let e = class_file(&bytes).err().expect("wrong magic must fail");
    assert_eq!(e.kind, DecodeErrorKind::InvalidMagic);
    assert_eq!(e.offset, 0);
}

#[test]
fn empty_input_fails_with_eof_at_start() {
    let e = class_file(&[]).err().expect("empty input must fail");
    assert_eq!(e.kind, DecodeErrorKind::UnexpectedEof);
    assert_eq!(e.offset, 0);
}

#[test]
fn decoding_is_deterministic() {
    let bytes = minimal_class_bytes();
    let a = class_file(&bytes).expect("decode");
    let b = class_file(&bytes).expect("decode again");
    assert_eq!(a.version, b.version);
    assert_eq!(a.access_flags, b.access_flags);
    assert_eq!(a.this_class, b.this_class);
    assert_eq!(a.super_class, b.super_class);
    assert_eq!(a.constant_pool.slot_count(), b.constant_pool.slot_count());
    assert_eq!(a.interfaces, b.interfaces);
    assert_eq!(a.fields.len(), b.fields.len());
    assert_eq!(a.methods.len(), b.methods.len());
    assert_eq!(a.attributes.len(), b.attributes.len());
}

/// A class with one method whose single attribute is a Code body holding
/// one instruction and no nested attributes.
#[test]
fn method_with_code_attribute_decodes() {
    let mut b: Vec<u8> = Vec::new();
    b.extend_from_slice(&[0xCA, 0xFE, 0xBA, 0xBE]);
    b.extend_from_slice(&[0x00, 0x00]); // minor
    b.extend_from_slice(&[0x00, 0x34]); // major
    b.extend_from_slice(&[0x00, 0x04]); // constant_pool_count = 4 (3 entries)
    // [1] Utf8 "Code"
    b.push(0x01);
    b.extend_from_slice(&[0x00, 0x04]);
    b.extend_from_slice(b"Code");
    // [2] Utf8 "foo"
    b.push(0x01);
    b.extend_from_slice(&[0x00, 0x03]);
    b.extend_from_slice(b"foo");
    // [3] Utf8 "()V"
    b.push(0x01);
    b.extend_from_slice(&[0x00, 0x03]);
    b.extend_from_slice(b"()V");
    b.extend_from_slice(&[0x00, 0x01]); // access_flags
    b.extend_from_slice(&[0x00, 0x00]); // this_class
    b.extend_from_slice(&[0x00, 0x00]); // super_class
    b.extend_from_slice(&[0x00, 0x00]); // interfaces_count
    b.extend_from_slice(&[0x00, 0x00]); // fields_count
    b.extend_from_slice(&[0x00, 0x01]); // methods_count = 1
    // method: flags, name [2], descriptor [3], 1 attribute
    b.extend_from_slice(&[0x00, 0x09]);
    b.extend_from_slice(&[0x00, 0x02]);
    b.extend_from_slice(&[0x00, 0x03]);
    b.extend_from_slice(&[0x00, 0x01]);
    // Code attribute: name [1], length 13
    b.extend_from_slice(&[0x00, 0x01]);
    b.extend_from_slice(&[0x00, 0x00, 0x00, 0x0D]);
    b.extend_from_slice(&[0x00, 0x02]); // max_stack
    b.extend_from_slice(&[0x00, 0x01]); // max_locals
    b.extend_from_slice(&[0x00, 0x00, 0x00, 0x01]); // code_length = 1
    b.push(0xB1); // the single instruction
    b.extend_from_slice(&[0x00, 0x00]); // exception_table_length
    b.extend_from_slice(&[0x00, 0x00]); // nested attributes_count
    b.extend_from_slice(&[0x00, 0x00]); // class attributes_count
    let cf = class_file(&b).expect("class with Code method must decode");
    assert_eq!(cf.methods.len(), 1);
    let m = &cf.methods[0];
    assert_eq!(m.access_flags, 0x0009);
    assert_eq!(m.name_index, 2);
    assert_eq!(m.descriptor_index, 3);
    assert_eq!(m.attributes.len(), 1);
    match &m.attributes[0] {
        classfile::Attribute::Code { max_stack, max_locals, code, exception_table, attributes } => {
            assert_eq!(*max_stack, 2);
            assert_eq!(*max_locals, 1);
            assert_eq!(code.as_slice(), &[0xB1]);
            assert!(exception_table.is_empty());
            assert!(attributes.is_empty());
        },
        other => panic!("expected a Code attribute, got {other:?}"),
    }
}

#[test]
fn interface_list_is_kept_in_order() {
    let mut b: Vec<u8> = Vec::new();
    b.extend_from_slice(&[0xCA, 0xFE, 0xBA, 0xBE]);
    b.extend_from_slice(&[0x00, 0x03]); // minor = 3
    b.extend_from_slice(&[0x00, 0x37]); // major = 55
    b.extend_from_slice(&[0x00, 0x01]);
    b.extend_from_slice(&[0x00, 0x21]);
    b.extend_from_slice(&[0x00, 0x07]);
    b.extend_from_slice(&[0x00, 0x08]);
    b.extend_from_slice(&[0x00, 0x03]); // interfaces_count = 3
    b.extend_from_slice(&[0x00, 0x0A, 0x00, 0x0B, 0x00, 0x0C]);
    b.extend_from_slice(&[0x00, 0x00]);
    b.extend_from_slice(&[0x00, 0x00]);
    b.extend_from_slice(&[0x00, 0x00]);
    let cf = class_file(&b).expect("decode");
    assert_eq!(cf.version.minor, 3);
    assert_eq!(cf.version.major, 55);
    assert_eq!(cf.this_class, 7);
    assert_eq!(cf.super_class, 8);
    assert_eq!(cf.interfaces, vec![10, 11, 12]);
}

#[test]
fn oversized_interface_count_fails_fast() {
    let mut b: Vec<u8> = Vec::new();
    b.extend_from_slice(&[0xCA, 0xFE, 0xBA, 0xBE]);
    b.extend_from_slice(&[0x00, 0x00]);
    b.extend_from_slice(&[0x00, 0x34]);
    b.extend_from_slice(&[0x00, 0x01]);
    b.extend_from_slice(&[0x00, 0x21]);
    b.extend_from_slice(&[0x00, 0x00]);
    b.extend_from_slice(&[0x00, 0x00]);
    b.extend_from_slice(&[0xFF, 0xFF]); // interfaces_count far beyond the input
    b.extend_from_slice(&[0x00, 0x0A]);
    let e = class_file(&b).err().expect("must fail fast");
    assert_eq!(e.kind, DecodeErrorKind::CollectionLengthExceedsRemainingInput);
}
