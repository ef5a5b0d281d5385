use classfile::attribute_info::AttributeKind;
use classfile::bootstrap_class_loader::define_class;
use classfile::constant_pool::ConstantKind;
use classfile::error::DecodeError;

fn push_u16(b: &mut Vec<u8>, v: u16) {
    b.push((v >> 8) as u8);
    b.push(v as u8);
}

fn push_u32(b: &mut Vec<u8>, v: u32) {
    b.push((v >> 24) as u8);
    b.push((v >> 16) as u8);
    b.push((v >> 8) as u8);
    b.push(v as u8);
}

/// A header through the constant-pool count, with the given versions
/// and declared count.
fn header(major: u16, cp_count: u16) -> Vec<u8> {
    let mut b = Vec::new();
    push_u32(&mut b, 0xCAFEBABE);
    push_u16(&mut b, 0); // minor_version
    push_u16(&mut b, major);
    push_u16(&mut b, cp_count);
    b
}

/// Flags, this/super class, and empty interface, field, method and
/// attribute sections.
fn push_empty_tail(b: &mut Vec<u8>) {
    push_u16(b, 0x0021); // access_flags
    push_u16(b, 0); // this_class
    push_u16(b, 0); // super_class
    push_u16(b, 0); // interfaces_count
    push_u16(b, 0); // fields_count
    push_u16(b, 0); // methods_count
    push_u16(b, 0); // attributes_count
}

fn minimal_class(major: u16) -> Vec<u8> {
    let mut b = header(major, 1);
    push_empty_tail(&mut b);
    b
}

fn push_utf8_entry(b: &mut Vec<u8>, text: &[u8]) {
    b.push(1);
    push_u16(b, text.len() as u16);
    b.extend_from_slice(text);
}

#[test]
fn minimal_class_decodes() {
    let b = minimal_class(52);
    let cf = define_class(&b).unwrap();
    assert_eq!(cf.minor_version, 0);
    assert_eq!(cf.major_version, 52);
    assert_eq!(cf.constant_pool_count, 1);
    assert_eq!(cf.constant_pool.len(), 1);
    assert!(matches!(cf.constant_pool[0], ConstantKind::Empty(_)));
    assert_eq!(cf.access_flags, 0x0021);
    assert_eq!(cf.interfaces.len(), 0);
    assert_eq!(cf.fields.len(), 0);
    assert_eq!(cf.methods.len(), 0);
    assert_eq!(cf.attributes.len(), 0);
}

#[test]
fn constant_pool_has_declared_count_and_sentinel() {
    // Declared count 7: the sentinel plus six decoded entries, one per
    // shape of interest here.
    let mut b = header(52, 7);
    push_utf8_entry(&mut b, b"Hello"); // slot 1
    b.push(3); // slot 2: Integer
    push_u32(&mut b, 0xDEADBEEF);
    b.push(5); // slot 3: Long
    push_u32(&mut b, 1);
    push_u32(&mut b, 2);
    b.push(7); // slot 4: Class
    push_u16(&mut b, 1);
    b.push(12); // slot 5: NameAndType
    push_u16(&mut b, 1);
    push_u16(&mut b, 1);
    b.push(15); // slot 6: MethodHandle
    b.push(6);
    push_u16(&mut b, 4);
    push_empty_tail(&mut b);

    let cf = define_class(&b).unwrap();
    assert_eq!(cf.constant_pool.len(), 7);
    assert!(matches!(cf.constant_pool[0], ConstantKind::Empty(_)));
    match &cf.constant_pool[1] {
        ConstantKind::Utf8(u) => {
            assert_eq!(u.base.tag, 1);
            assert_eq!(u.length, 5);
            assert_eq!(u.text.as_str(), "Hello");
        }
        other => panic!("slot 1: expected Utf8, got {:?}", other),
    }
    match &cf.constant_pool[2] {
        ConstantKind::Integer(i) => assert_eq!(i.bytes, 0xDEADBEEF),
        other => panic!("slot 2: expected Integer, got {:?}", other),
    }
    match &cf.constant_pool[3] {
        ConstantKind::Long(l) => {
            assert_eq!(l.high_bytes, 1);
            assert_eq!(l.low_bytes, 2);
        }
        other => panic!("slot 3: expected Long, got {:?}", other),
    }
    match &cf.constant_pool[4] {
        ConstantKind::Class(c) => assert_eq!(c.name_index, 1),
        other => panic!("slot 4: expected Class, got {:?}", other),
    }
    match &cf.constant_pool[5] {
        ConstantKind::NameAndType(n) => {
            assert_eq!(n.name_index, 1);
            assert_eq!(n.descriptor_index, 1);
        }
        other => panic!("slot 5: expected NameAndType, got {:?}", other),
    }
    match &cf.constant_pool[6] {
        ConstantKind::MethodHandle(m) => {
            assert_eq!(m.reference_kind, 6);
            assert_eq!(m.reference_index, 4);
        }
        other => panic!("slot 6: expected MethodHandle, got {:?}", other),
    }
}

#[test]
fn declared_count_zero_is_rejected() {
    // The wire count is "entries + 1", so 0 is malformed: the decoder
    // rejects it rather than inventing a default pool.
    let mut b = header(52, 0);
    push_empty_tail(&mut b);
    assert_eq!(define_class(&b).unwrap_err(), DecodeError::InvalidConstantPoolCount);
}

#[test]
fn declared_count_one_yields_only_the_sentinel() {
    let mut b = header(52, 1);
    push_empty_tail(&mut b);
    let cf = define_class(&b).unwrap();
    assert_eq!(cf.constant_pool_count, 1);
    assert_eq!(cf.constant_pool.len(), 1);
    assert!(matches!(cf.constant_pool[0], ConstantKind::Empty(_)));
}

#[test]
fn remaining_constant_pool_tags_decode() {
    let mut b = header(52, 11);
    b.push(4); // slot 1: Float bytes, kept uninterpreted
    push_u32(&mut b, 0x3F800000);
    b.push(6); // slot 2: Double halves, kept uninterpreted
    push_u32(&mut b, 0x3FF00000);
    push_u32(&mut b, 0);
    b.push(8); // slot 3: String
    push_u16(&mut b, 1);
    b.push(9); // slot 4: Fieldref
    push_u16(&mut b, 2);
    push_u16(&mut b, 3);
    b.push(10); // slot 5: Methodref
    push_u16(&mut b, 4);
    push_u16(&mut b, 5);
    b.push(11); // slot 6: InterfaceMethodref
    push_u16(&mut b, 6);
    push_u16(&mut b, 7);
    b.push(16); // slot 7: MethodType
    push_u16(&mut b, 8);
    b.push(18); // slot 8: InvokeDynamic
    push_u16(&mut b, 9);
    push_u16(&mut b, 10);
    b.push(19); // slot 9: Module
    push_u16(&mut b, 11);
    b.push(20); // slot 10: Package
    push_u16(&mut b, 12);
    push_empty_tail(&mut b);

    let cf = define_class(&b).unwrap();
    assert_eq!(cf.constant_pool.len(), 11);
    match &cf.constant_pool[1] {
        ConstantKind::Float(f) => assert_eq!(f.bytes, 0x3F800000),
        other => panic!("slot 1: expected Float, got {:?}", other),
    }
    match &cf.constant_pool[2] {
        ConstantKind::Double(d) => {
            assert_eq!(d.high_bytes, 0x3FF00000);
            assert_eq!(d.low_bytes, 0);
        }
        other => panic!("slot 2: expected Double, got {:?}", other),
    }
    match &cf.constant_pool[3] {
        ConstantKind::String(s) => assert_eq!(s.string_index, 1),
        other => panic!("slot 3: expected String, got {:?}", other),
    }
    match &cf.constant_pool[4] {
        ConstantKind::Fieldref(r) => {
            assert_eq!(r.class_index, 2);
            assert_eq!(r.name_and_type_index, 3);
        }
        other => panic!("slot 4: expected Fieldref, got {:?}", other),
    }
    match &cf.constant_pool[5] {
        ConstantKind::Methodref(r) => {
            assert_eq!(r.class_index, 4);
            assert_eq!(r.name_and_type_index, 5);
        }
        other => panic!("slot 5: expected Methodref, got {:?}", other),
    }
    match &cf.constant_pool[6] {
        ConstantKind::InterfaceMethodref(r) => {
            assert_eq!(r.class_index, 6);
            assert_eq!(r.name_and_type_index, 7);
        }
        other => panic!("slot 6: expected InterfaceMethodref, got {:?}", other),
    }
    match &cf.constant_pool[7] {
        ConstantKind::MethodType(t) => assert_eq!(t.descriptor_index, 8),
        other => panic!("slot 7: expected MethodType, got {:?}", other),
    }
    match &cf.constant_pool[8] {
        ConstantKind::InvokeDynamic(i) => {
            assert_eq!(i.bootstrap_method_attr_index, 9);
            assert_eq!(i.name_and_type_index, 10);
        }
        other => panic!("slot 8: expected InvokeDynamic, got {:?}", other),
    }
    match &cf.constant_pool[9] {
        ConstantKind::Module(m) => assert_eq!(m.name_index, 11),
        other => panic!("slot 9: expected Module, got {:?}", other),
    }
    match &cf.constant_pool[10] {
        ConstantKind::Package(p) => assert_eq!(p.name_index, 12),
        other => panic!("slot 10: expected Package, got {:?}", other),
    }
}

#[test]
fn utf8_entry_round_trips_hello() {
    let mut b = header(52, 2);
    push_utf8_entry(&mut b, b"Hello");
    push_empty_tail(&mut b);
    let cf = define_class(&b).unwrap();
    match &cf.constant_pool[1] {
        ConstantKind::Utf8(u) => {
            assert_eq!(u.length, 5);
            assert_eq!(u.text.as_str(), "Hello");
        }
        other => panic!("expected Utf8, got {:?}", other),
    }
}

#[test]
fn utf8_entry_decodes_multibyte_text() {
    // Two bytes, one character: the decoder must really decode UTF-8,
    // not hand the bytes back.
    let mut b = header(52, 2);
    push_utf8_entry(&mut b, "é".as_bytes());
    push_empty_tail(&mut b);
    let cf = define_class(&b).unwrap();
    match &cf.constant_pool[1] {
        ConstantKind::Utf8(u) => {
            assert_eq!(u.length, 2);
            assert_eq!(u.text.as_str(), "é");
            assert_eq!(u.text.chars().count(), 1);
        }
        other => panic!("expected Utf8, got {:?}", other),
    }
}

#[test]
fn invalid_utf8_is_rejected() {
    let mut b = header(52, 2);
    b.push(1);
    push_u16(&mut b, 2);
    b.push(0xFF);
    b.push(0xFE);
    push_empty_tail(&mut b);
    assert_eq!(define_class(&b).unwrap_err(), DecodeError::InvalidUtf8);
}

#[test]
fn major_version_44_is_unsupported() {
    let b = minimal_class(44);
    assert_eq!(define_class(&b).unwrap_err(), DecodeError::UnsupportedVersion(44));
}

#[test]
fn major_version_45_is_supported() {
    let b = minimal_class(45);
    assert_eq!(define_class(&b).unwrap().major_version, 45);
}

#[test]
fn major_version_61_is_supported() {
    let b = minimal_class(61);
    assert_eq!(define_class(&b).unwrap().major_version, 61);
}

#[test]
fn major_version_62_is_unsupported() {
    let b = minimal_class(62);
    assert_eq!(define_class(&b).unwrap_err(), DecodeError::UnsupportedVersion(62));
}

#[test]
fn wrong_magic_is_rejected() {
    let mut b = minimal_class(52);
    b[0] = 0x12;
    b[1] = 0x34;
    b[2] = 0x56;
    b[3] = 0x78;
    assert_eq!(define_class(&b).unwrap_err(), DecodeError::InvalidMagic);
}

#[test]
fn correct_magic_proceeds_to_version_check() {
    // The magic passes; the version gate is what rejects the input.
    let b = minimal_class(44);
    assert_eq!(define_class(&b).unwrap_err(), DecodeError::UnsupportedVersion(44));
}

#[test]
fn unknown_constant_pool_tag_is_rejected() {
    let mut b = header(52, 2);
    b.push(2); // tag 2 is not assigned
    push_empty_tail(&mut b);
    // The tag byte sits immediately after the 10 header bytes.
    assert_eq!(define_class(&b).unwrap_err(), DecodeError::InvalidConstantPoolTag(2, 10));
}

#[test]
fn attribute_name_must_resolve_to_utf8() {
    // Slot 1 is an Integer; a class-level attribute names it.
    let mut b = header(52, 2);
    b.push(3);
    push_u32(&mut b, 7);
    push_u16(&mut b, 0x0021);
    push_u16(&mut b, 0);
    push_u16(&mut b, 0);
    push_u16(&mut b, 0); // interfaces_count
    push_u16(&mut b, 0); // fields_count
    push_u16(&mut b, 0); // methods_count
    push_u16(&mut b, 1); // attributes_count
    push_u16(&mut b, 1); // attribute_name_index -> Integer
    push_u32(&mut b, 0); // attribute_length
    assert_eq!(define_class(&b).unwrap_err(), DecodeError::InvalidConstantPoolReference(1, 1));
}

#[test]
fn attribute_name_is_resolved_before_the_length_is_read() {
    // The buffer ends right after the attribute's name index, and that
    // index does not resolve to a Utf8 entry: the reference failure is
    // reported, not the exhausted buffer, because resolution comes
    // before the length read.
    let mut b = header(52, 2);
    b.push(3); // slot 1: Integer
    push_u32(&mut b, 7);
    push_u16(&mut b, 0x0021);
    push_u16(&mut b, 0);
    push_u16(&mut b, 0);
    push_u16(&mut b, 0); // interfaces_count
    push_u16(&mut b, 0); // fields_count
    push_u16(&mut b, 0); // methods_count
    push_u16(&mut b, 1); // attributes_count
    push_u16(&mut b, 1); // attribute_name_index -> Integer; buffer ends here
    assert_eq!(define_class(&b).unwrap_err(), DecodeError::InvalidConstantPoolReference(1, 1));
}

#[test]
fn unknown_attribute_skip_preserves_alignment() {
    // Two class-level attributes named "Foo": the first declares length
    // 3 and payload AA BB CC; the second, length 0. Decoding must
    // consume exactly the declared payload and read the second
    // attribute's fields from the right place.
    let mut b = header(52, 2);
    push_utf8_entry(&mut b, b"Foo");
    push_u16(&mut b, 0x0021);
    push_u16(&mut b, 0);
    push_u16(&mut b, 0);
    push_u16(&mut b, 0); // interfaces_count
    push_u16(&mut b, 0); // fields_count
    push_u16(&mut b, 0); // methods_count
    push_u16(&mut b, 2); // attributes_count
    push_u16(&mut b, 1); // name_index -> "Foo"
    push_u32(&mut b, 3); // declared length
    b.extend_from_slice(&[0xAA, 0xBB, 0xCC]);
    push_u16(&mut b, 1); // second attribute's name_index
    push_u32(&mut b, 0); // second attribute's length

    let cf = define_class(&b).unwrap();
    assert_eq!(cf.attributes_count, 2);
    assert_eq!(cf.attributes.len(), 2);
    match &cf.attributes[0] {
        AttributeKind::Skipped(base) => {
            assert_eq!(base.attribute_name_index, 1);
            assert_eq!(base.attribute_length, 3);
        }
        other => panic!("expected Skipped, got {:?}", other),
    }
    match &cf.attributes[1] {
        AttributeKind::Skipped(base) => {
            assert_eq!(base.attribute_name_index, 1);
            assert_eq!(base.attribute_length, 0);
        }
        other => panic!("expected Skipped, got {:?}", other),
    }
}

/// A method whose Code attribute has one exception-table entry and one
/// nested unknown attribute, followed by a class-level attribute that
/// must still be read correctly afterwards.
fn class_with_code_attribute() -> Vec<u8> {
    let mut b = header(52, 3);
    push_utf8_entry(&mut b, b"Code"); // slot 1
    push_utf8_entry(&mut b, b"Foo"); // slot 2
    push_u16(&mut b, 0x0021);
    push_u16(&mut b, 0);
    push_u16(&mut b, 0);
    push_u16(&mut b, 0); // interfaces_count
    push_u16(&mut b, 0); // fields_count
    push_u16(&mut b, 1); // methods_count
    // method_info
    push_u16(&mut b, 0x0001); // access_flags
    push_u16(&mut b, 2); // name_index
    push_u16(&mut b, 2); // descriptor_index
    push_u16(&mut b, 1); // attributes_count
    // Code attribute
    push_u16(&mut b, 1); // name_index -> "Code"
    push_u32(&mut b, 0); // declared length (not used to parse the body)
    push_u16(&mut b, 2); // max_stack
    push_u16(&mut b, 3); // max_locals
    push_u32(&mut b, 4); // code_length
    b.extend_from_slice(&[0x2A, 0xB7, 0x00, 0xB1]); // bytecode, kept opaque
    push_u16(&mut b, 1); // exception_table_length
    push_u16(&mut b, 0); // start_pc
    push_u16(&mut b, 4); // end_pc
    push_u16(&mut b, 2); // handler_pc
    push_u16(&mut b, 0); // catch_type ("catch all")
    push_u16(&mut b, 1); // nested attributes_count
    push_u16(&mut b, 2); // nested name_index -> "Foo"
    push_u32(&mut b, 3); // nested declared length
    b.extend_from_slice(&[0x01, 0x02, 0x03]);
    // class-level attributes
    push_u16(&mut b, 1); // attributes_count
    push_u16(&mut b, 2); // name_index -> "Foo"
    push_u32(&mut b, 1);
    b.push(0x7F);
    b
}

#[test]
fn recursive_code_attribute_decodes() {
    let b = class_with_code_attribute();
    let cf = define_class(&b).unwrap();
    assert_eq!(cf.methods.len(), 1);
    let m = &cf.methods[0];
    assert_eq!(m.access_flags, 0x0001);
    assert_eq!(m.attributes.len(), 1);
    match &m.attributes[0] {
        AttributeKind::Code(code) => {
            assert_eq!(code.base.attribute_name_index, 1);
            assert_eq!(code.max_stack, 2);
            assert_eq!(code.max_locals, 3);
            assert_eq!(code.code_length, 4);
            assert_eq!(code.code, vec![0x2A, 0xB7, 0x00, 0xB1]);
            assert_eq!(code.exception_table_length, 1);
            assert_eq!(code.exception_table.len(), 1);
            let entry = &code.exception_table[0];
            assert_eq!(entry.start_pc, 0);
            assert_eq!(entry.end_pc, 4);
            assert_eq!(entry.handler_pc, 2);
            assert_eq!(entry.catch_type, 0);
            assert_eq!(code.attributes_count, 1);
            match &code.attributes[0] {
                AttributeKind::Skipped(base) => {
                    assert_eq!(base.attribute_name_index, 2);
                    assert_eq!(base.attribute_length, 3);
                }
                other => panic!("expected nested Skipped, got {:?}", other),
            }
        }
        other => panic!("expected Code, got {:?}", other),
    }
    // The reads after the Code attribute are still aligned.
    assert_eq!(cf.attributes.len(), 1);
    match &cf.attributes[0] {
        AttributeKind::Skipped(base) => {
            assert_eq!(base.attribute_name_index, 2);
            assert_eq!(base.attribute_length, 1);
        }
        other => panic!("expected Skipped, got {:?}", other),
    }
}

#[test]
fn truncated_input_always_reports_eof() {
    // Every strict prefix of a class file that decodes must fail with
    // UnexpectedEof: never a panic, never another error.
    let b = class_with_code_attribute();
    assert!(define_class(&b).is_ok());
    for k in 0..b.len() {
        assert_eq!(define_class(&b[..k]).unwrap_err(), DecodeError::UnexpectedEof, "prefix length {}", k);
    }
}

#[test]
fn empty_input_reports_eof() {
    assert_eq!(define_class(&[]).unwrap_err(), DecodeError::UnexpectedEof);
}

#[test]
fn trailing_bytes_are_ignored() {
    let mut b = class_with_code_attribute();
    let cf1 = define_class(&b).unwrap();
    b.extend_from_slice(&[0x00, 0xFF, 0x42]);
    let cf2 = define_class(&b).unwrap();
    assert_eq!(cf2.major_version, cf1.major_version);
    assert_eq!(cf2.methods.len(), cf1.methods.len());
    assert_eq!(cf2.attributes.len(), cf1.attributes.len());
}

#[test]
fn deeply_nested_code_attributes_are_refused() {
    // 65 Code attributes nested inside one another exceed the decoder's
    // recursion budget of 64.
    let mut body: Vec<u8> = Vec::new();
    push_u16(&mut body, 0); // innermost: attributes_count 0
    for _ in 0..65 {
        let mut outer: Vec<u8> = Vec::new();
        push_u16(&mut outer, 1); // attributes_count 1
        push_u16(&mut outer, 1); // name_index -> "Code"
        push_u32(&mut outer, 0); // declared length
        push_u16(&mut outer, 0); // max_stack
        push_u16(&mut outer, 0); // max_locals
        push_u32(&mut outer, 0); // code_length
        push_u16(&mut outer, 0); // exception_table_length
        outer.extend_from_slice(&body); // nested attributes
        body = outer;
    }
    let mut b = header(52, 2);
    push_utf8_entry(&mut b, b"Code");
    push_u16(&mut b, 0x0021);
    push_u16(&mut b, 0);
    push_u16(&mut b, 0);
    push_u16(&mut b, 0); // interfaces_count
    push_u16(&mut b, 0); // fields_count
    push_u16(&mut b, 0); // methods_count
    b.extend_from_slice(&body); // class attributes: the 65-deep chain
    assert_eq!(define_class(&b).unwrap_err(), DecodeError::NestingTooDeep);
}

#[test]
fn fields_use_their_own_attribute_counts() {
    // Two fields, the first with one attribute: decoding must consume
    // the first field's single attribute and then read the second field
    // from the right place.
    let mut b = header(52, 2);
    push_utf8_entry(&mut b, b"Foo");
    push_u16(&mut b, 0x0021);
    push_u16(&mut b, 0);
    push_u16(&mut b, 0);
    push_u16(&mut b, 0); // interfaces_count
    push_u16(&mut b, 2); // fields_count
    // first field, one attribute
    push_u16(&mut b, 0x0002);
    push_u16(&mut b, 1);
    push_u16(&mut b, 1);
    push_u16(&mut b, 1);
    push_u16(&mut b, 1); // name_index -> "Foo"
    push_u32(&mut b, 2);
    b.extend_from_slice(&[0x11, 0x22]);
    // second field, no attributes
    push_u16(&mut b, 0x0004);
    push_u16(&mut b, 1);
    push_u16(&mut b, 1);
    push_u16(&mut b, 0);
    push_u16(&mut b, 0); // methods_count
    push_u16(&mut b, 0); // attributes_count

    let cf = define_class(&b).unwrap();
    assert_eq!(cf.fields.len(), 2);
    assert_eq!(cf.fields[0].access_flags, 0x0002);
    assert_eq!(cf.fields[0].attributes.len(), 1);
    assert_eq!(cf.fields[1].access_flags, 0x0004);
    assert_eq!(cf.fields[1].attributes.len(), 0);
}

#[test]
fn interfaces_are_read_in_order() {
    let mut b = header(52, 1);
    push_u16(&mut b, 0x0021);
    push_u16(&mut b, 0);
    push_u16(&mut b, 0);
    push_u16(&mut b, 3); // interfaces_count
    push_u16(&mut b, 7);
    push_u16(&mut b, 11);
    push_u16(&mut b, 13);
    push_u16(&mut b, 0); // fields_count
    push_u16(&mut b, 0); // methods_count
    push_u16(&mut b, 0); // attributes_count
    let cf = define_class(&b).unwrap();
    assert_eq!(cf.interfaces_count, 3);
    assert_eq!(cf.interfaces, vec![7, 11, 13]);
}
