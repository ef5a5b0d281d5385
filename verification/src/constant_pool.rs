//! The tagged constant-pool entry sequence and its decoder.
//!
//! The pool is decoded from a declared count `N` (the wire value, which
//! is "number of entries + 1", so at least 1 in any well-formed file; a
//! declared count of 0 is malformed and rejected). Slot 0 is always an
//! `Empty` sentinel so that constant-pool indices address the sequence
//! directly, 1-based. Slots `1..N-1` are decoded by reading one tag
//! byte and dispatching on it; an unknown tag is a decode failure.
//!
//! `Long` and `Double` entries occupy a single slot each: the decoder
//! reads exactly `N - 1` tagged records. This is a deliberate decision,
//! documented here, not an application of the two-slot convention some
//! class-file producers assume for those kinds.

use vstd::prelude::*;
use vstd::utf8::decode_utf8;
use vstd::utf8::valid_utf8;

use crate::error::DecodeError;
use crate::error::is_header_error;
use crate::reader::Reader;
use crate::reader::u16_be;
use crate::reader::u32_be;

verus! {

/// What every constant-pool entry carries: its tag byte.
#[derive(Debug, Clone)]
pub struct ConstantInfoBase {
    pub tag: u8,
}

/// Tag 1: a length-prefixed run of bytes interpreted as UTF-8 text.
#[derive(Debug, Clone)]
pub struct ConstantUtf8Info {
    pub base: ConstantInfoBase,
    pub length: u16,
    pub text: String,
}

/// Tag 3: a 32-bit integer constant.
#[derive(Debug, Clone)]
pub struct ConstantIntegerInfo {
    pub base: ConstantInfoBase,
    pub bytes: u32,
}

/// Tag 4: the raw bytes of a 32-bit floating-point constant. The bytes
/// are stored uninterpreted.
#[derive(Debug, Clone)]
pub struct ConstantFloatInfo {
    pub base: ConstantInfoBase,
    pub bytes: u32,
}

/// Tag 5: a 64-bit integer constant in two 32-bit halves.
#[derive(Debug, Clone)]
pub struct ConstantLongInfo {
    pub base: ConstantInfoBase,
    pub high_bytes: u32,
    pub low_bytes: u32,
}

/// Tag 6: the raw bytes of a 64-bit floating-point constant in two
/// 32-bit halves. The bytes are stored uninterpreted.
#[derive(Debug, Clone)]
pub struct ConstantDoubleInfo {
    pub base: ConstantInfoBase,
    pub high_bytes: u32,
    pub low_bytes: u32,
}

/// Tag 7: a class reference by name index.
#[derive(Debug, Clone)]
pub struct ConstantClassInfo {
    pub base: ConstantInfoBase,
    pub name_index: u16,
}

/// Tag 8: a string constant by Utf8 index.
#[derive(Debug, Clone)]
pub struct ConstantStringInfo {
    pub base: ConstantInfoBase,
    pub string_index: u16,
}

/// Tag 9: a field reference.
#[derive(Debug, Clone)]
pub struct ConstantFieldrefInfo {
    pub base: ConstantInfoBase,
    pub class_index: u16,
    pub name_and_type_index: u16,
}

/// Tag 10: a method reference.
#[derive(Debug, Clone)]
pub struct ConstantMethodrefInfo {
    pub base: ConstantInfoBase,
    pub class_index: u16,
    pub name_and_type_index: u16,
}

/// Tag 11: an interface method reference.
#[derive(Debug, Clone)]
pub struct ConstantInterfaceMethodrefInfo {
    pub base: ConstantInfoBase,
    pub class_index: u16,
    pub name_and_type_index: u16,
}

/// Tag 12: a name-and-type pair.
#[derive(Debug, Clone)]
pub struct ConstantNameAndTypeInfo {
    pub base: ConstantInfoBase,
    pub name_index: u16,
    pub descriptor_index: u16,
}

/// Tag 15: a method handle.
#[derive(Debug, Clone)]
pub struct ConstantMethodHandleInfo {
    pub base: ConstantInfoBase,
    pub reference_kind: u8,
    pub reference_index: u16,
}

/// Tag 16: a method type by descriptor index.
#[derive(Debug, Clone)]
pub struct ConstantMethodTypeInfo {
    pub base: ConstantInfoBase,
    pub descriptor_index: u16,
}

/// Tag 18: an invokedynamic call site.
#[derive(Debug, Clone)]
pub struct ConstantInvokeDynamicInfo {
    pub base: ConstantInfoBase,
    pub bootstrap_method_attr_index: u16,
    pub name_and_type_index: u16,
}

/// Tag 19: a module by name index.
#[derive(Debug, Clone)]
pub struct ConstantModuleInfo {
    pub base: ConstantInfoBase,
    pub name_index: u16,
}

/// Tag 20: a package by name index.
#[derive(Debug, Clone)]
pub struct ConstantPackageInfo {
    pub base: ConstantInfoBase,
    pub name_index: u16,
}

/// One constant-pool slot: the `Empty` sentinel or one of the sixteen
/// tagged record kinds.
#[derive(Debug, Clone)]
pub enum ConstantKind {
    Empty(ConstantInfoBase),
    Utf8(ConstantUtf8Info),
    Integer(ConstantIntegerInfo),
    Float(ConstantFloatInfo),
    Long(ConstantLongInfo),
    Double(ConstantDoubleInfo),
    Class(ConstantClassInfo),
    String(ConstantStringInfo),
    Fieldref(ConstantFieldrefInfo),
    Methodref(ConstantMethodrefInfo),
    InterfaceMethodref(ConstantInterfaceMethodrefInfo),
    NameAndType(ConstantNameAndTypeInfo),
    MethodHandle(ConstantMethodHandleInfo),
    MethodType(ConstantMethodTypeInfo),
    InvokeDynamic(ConstantInvokeDynamicInfo),
    Module(ConstantModuleInfo),
    Package(ConstantPackageInfo),
}

/// The mathematical value of one constant-pool slot: the same variants
/// as `ConstantKind`, with text as a character sequence.
#[verifier::ext_equal]
pub enum ConstantModel {
    Empty,
    Utf8 { length: u16, text: Seq<char> },
    Integer { bytes: u32 },
    Float { bytes: u32 },
    Long { high_bytes: u32, low_bytes: u32 },
    Double { high_bytes: u32, low_bytes: u32 },
    Class { name_index: u16 },
    String { string_index: u16 },
    Fieldref { class_index: u16, name_and_type_index: u16 },
    Methodref { class_index: u16, name_and_type_index: u16 },
    InterfaceMethodref { class_index: u16, name_and_type_index: u16 },
    NameAndType { name_index: u16, descriptor_index: u16 },
    MethodHandle { reference_kind: u8, reference_index: u16 },
    MethodType { descriptor_index: u16 },
    InvokeDynamic { bootstrap_method_attr_index: u16, name_and_type_index: u16 },
    Module { name_index: u16 },
    Package { name_index: u16 },
}

impl View for ConstantKind {
    type V = ConstantModel;

    open spec fn view(&self) -> ConstantModel {
        match self {
            ConstantKind::Empty(_) => ConstantModel::Empty,
            ConstantKind::Utf8(c) => ConstantModel::Utf8 { length: c.length, text: c.text@ },
            ConstantKind::Integer(c) => ConstantModel::Integer { bytes: c.bytes },
            ConstantKind::Float(c) => ConstantModel::Float { bytes: c.bytes },
            ConstantKind::Long(c) => ConstantModel::Long {
                high_bytes: c.high_bytes,
                low_bytes: c.low_bytes,
            },
            ConstantKind::Double(c) => ConstantModel::Double {
                high_bytes: c.high_bytes,
                low_bytes: c.low_bytes,
            },
            ConstantKind::Class(c) => ConstantModel::Class { name_index: c.name_index },
            ConstantKind::String(c) => ConstantModel::String { string_index: c.string_index },
            ConstantKind::Fieldref(c) => ConstantModel::Fieldref {
                class_index: c.class_index,
                name_and_type_index: c.name_and_type_index,
            },
            ConstantKind::Methodref(c) => ConstantModel::Methodref {
                class_index: c.class_index,
                name_and_type_index: c.name_and_type_index,
            },
            ConstantKind::InterfaceMethodref(c) => ConstantModel::InterfaceMethodref {
                class_index: c.class_index,
                name_and_type_index: c.name_and_type_index,
            },
            ConstantKind::NameAndType(c) => ConstantModel::NameAndType {
                name_index: c.name_index,
                descriptor_index: c.descriptor_index,
            },
            ConstantKind::MethodHandle(c) => ConstantModel::MethodHandle {
                reference_kind: c.reference_kind,
                reference_index: c.reference_index,
            },
            ConstantKind::MethodType(c) => ConstantModel::MethodType {
                descriptor_index: c.descriptor_index,
            },
            ConstantKind::InvokeDynamic(c) => ConstantModel::InvokeDynamic {
                bootstrap_method_attr_index: c.bootstrap_method_attr_index,
                name_and_type_index: c.name_and_type_index,
            },
            ConstantKind::Module(c) => ConstantModel::Module { name_index: c.name_index },
            ConstantKind::Package(c) => ConstantModel::Package { name_index: c.name_index },
        }
    }
}

/// The tag stored in an entry's base agrees with its variant.
pub open spec fn wf_constant(c: ConstantKind) -> bool {
    match c {
        ConstantKind::Empty(b) => b.tag == 0,
        ConstantKind::Utf8(i) => i.base.tag == 1,
        ConstantKind::Integer(i) => i.base.tag == 3,
        ConstantKind::Float(i) => i.base.tag == 4,
        ConstantKind::Long(i) => i.base.tag == 5,
        ConstantKind::Double(i) => i.base.tag == 6,
        ConstantKind::Class(i) => i.base.tag == 7,
        ConstantKind::String(i) => i.base.tag == 8,
        ConstantKind::Fieldref(i) => i.base.tag == 9,
        ConstantKind::Methodref(i) => i.base.tag == 10,
        ConstantKind::InterfaceMethodref(i) => i.base.tag == 11,
        ConstantKind::NameAndType(i) => i.base.tag == 12,
        ConstantKind::MethodHandle(i) => i.base.tag == 15,
        ConstantKind::MethodType(i) => i.base.tag == 16,
        ConstantKind::InvokeDynamic(i) => i.base.tag == 18,
        ConstantKind::Module(i) => i.base.tag == 19,
        ConstantKind::Package(i) => i.base.tag == 20,
    }
}

/// The models of a sequence of decoded entries.
pub open spec fn cp_view(s: Seq<ConstantKind>) -> Seq<ConstantModel> {
    s.map_values(|c: ConstantKind| c@)
}

/// One tagged entry decoded at `pos`: the entry's value and the position
/// past it, or the exact failure. This function is the tag-to-field
/// table: each tag reads exactly the fields listed for its kind.
pub open spec fn spec_cp_entry(d: Seq<u8>, pos: int) -> Result<(ConstantModel, int), DecodeError> {
    if pos + 1 > d.len() {
        Err(DecodeError::UnexpectedEof)
    } else {
        let tag = d[pos];
        let p = pos + 1;
        if tag == 1 {
            if p + 2 > d.len() {
                Err(DecodeError::UnexpectedEof)
            } else {
                let n = u16_be(d, p) as int;
                if p + 2 + n > d.len() {
                    Err(DecodeError::UnexpectedEof)
                } else {
                    let raw = d.subrange(p + 2, p + 2 + n);
                    if valid_utf8(raw) {
                        Ok(
                            (
                                ConstantModel::Utf8 {
                                    length: u16_be(d, p),
                                    text: decode_utf8(raw),
                                },
                                p + 2 + n,
                            ),
                        )
                    } else {
                        Err(DecodeError::InvalidUtf8)
                    }
                }
            }
        } else if tag == 3 {
            if p + 4 > d.len() {
                Err(DecodeError::UnexpectedEof)
            } else {
                Ok((ConstantModel::Integer { bytes: u32_be(d, p) }, p + 4))
            }
        } else if tag == 4 {
            if p + 4 > d.len() {
                Err(DecodeError::UnexpectedEof)
            } else {
                Ok((ConstantModel::Float { bytes: u32_be(d, p) }, p + 4))
            }
        } else if tag == 5 {
            if p + 8 > d.len() {
                Err(DecodeError::UnexpectedEof)
            } else {
                Ok(
                    (
                        ConstantModel::Long {
                            high_bytes: u32_be(d, p),
                            low_bytes: u32_be(d, p + 4),
                        },
                        p + 8,
                    ),
                )
            }
        } else if tag == 6 {
            if p + 8 > d.len() {
                Err(DecodeError::UnexpectedEof)
            } else {
                Ok(
                    (
                        ConstantModel::Double {
                            high_bytes: u32_be(d, p),
                            low_bytes: u32_be(d, p + 4),
                        },
                        p + 8,
                    ),
                )
            }
        } else if tag == 7 {
            if p + 2 > d.len() {
                Err(DecodeError::UnexpectedEof)
            } else {
                Ok((ConstantModel::Class { name_index: u16_be(d, p) }, p + 2))
            }
        } else if tag == 8 {
            if p + 2 > d.len() {
                Err(DecodeError::UnexpectedEof)
            } else {
                Ok((ConstantModel::String { string_index: u16_be(d, p) }, p + 2))
            }
        } else if tag == 9 {
            if p + 4 > d.len() {
                Err(DecodeError::UnexpectedEof)
            } else {
                Ok(
                    (
                        ConstantModel::Fieldref {
                            class_index: u16_be(d, p),
                            name_and_type_index: u16_be(d, p + 2),
                        },
                        p + 4,
                    ),
                )
            }
        } else if tag == 10 {
            if p + 4 > d.len() {
                Err(DecodeError::UnexpectedEof)
            } else {
                Ok(
                    (
                        ConstantModel::Methodref {
                            class_index: u16_be(d, p),
                            name_and_type_index: u16_be(d, p + 2),
                        },
                        p + 4,
                    ),
                )
            }
        } else if tag == 11 {
            if p + 4 > d.len() {
                Err(DecodeError::UnexpectedEof)
            } else {
                Ok(
                    (
                        ConstantModel::InterfaceMethodref {
                            class_index: u16_be(d, p),
                            name_and_type_index: u16_be(d, p + 2),
                        },
                        p + 4,
                    ),
                )
            }
        } else if tag == 12 {
            if p + 4 > d.len() {
                Err(DecodeError::UnexpectedEof)
            } else {
                Ok(
                    (
                        ConstantModel::NameAndType {
                            name_index: u16_be(d, p),
                            descriptor_index: u16_be(d, p + 2),
                        },
                        p + 4,
                    ),
                )
            }
        } else if tag == 15 {
            if p + 3 > d.len() {
                Err(DecodeError::UnexpectedEof)
            } else {
                Ok(
                    (
                        ConstantModel::MethodHandle {
                            reference_kind: d[p],
                            reference_index: u16_be(d, p + 1),
                        },
                        p + 3,
                    ),
                )
            }
        } else if tag == 16 {
            if p + 2 > d.len() {
                Err(DecodeError::UnexpectedEof)
            } else {
                Ok((ConstantModel::MethodType { descriptor_index: u16_be(d, p) }, p + 2))
            }
        } else if tag == 18 {
            if p + 4 > d.len() {
                Err(DecodeError::UnexpectedEof)
            } else {
                Ok(
                    (
                        ConstantModel::InvokeDynamic {
                            bootstrap_method_attr_index: u16_be(d, p),
                            name_and_type_index: u16_be(d, p + 2),
                        },
                        p + 4,
                    ),
                )
            }
        } else if tag == 19 {
            if p + 2 > d.len() {
                Err(DecodeError::UnexpectedEof)
            } else {
                Ok((ConstantModel::Module { name_index: u16_be(d, p) }, p + 2))
            }
        } else if tag == 20 {
            if p + 2 > d.len() {
                Err(DecodeError::UnexpectedEof)
            } else {
                Ok((ConstantModel::Package { name_index: u16_be(d, p) }, p + 2))
            }
        } else {
            Err(DecodeError::InvalidConstantPoolTag(tag, pos as usize))
        }
    }
}

/// `n` consecutive tagged entries decoded at `pos`.
pub open spec fn spec_cp_entries(d: Seq<u8>, pos: int, n: nat) -> Result<
    (Seq<ConstantModel>, int),
    DecodeError,
>
    decreases n,
{
    if n == 0 {
        Ok((Seq::empty(), pos))
    } else {
        match spec_cp_entry(d, pos) {
            Err(e) => Err(e),
            Ok((c, p2)) => match spec_cp_entries(d, p2, (n - 1) as nat) {
                Err(e) => Err(e),
                Ok((s, p3)) => Ok((seq![c] + s, p3)),
            },
        }
    }
}

/// The whole pool for a declared count: the `Empty` sentinel in slot 0
/// followed by `count - 1` decoded entries. A declared count of 0 is
/// malformed wire data and fails with `InvalidConstantPoolCount`.
pub open spec fn spec_constant_pool(d: Seq<u8>, pos: int, count: u16) -> Result<
    (Seq<ConstantModel>, int),
    DecodeError,
> {
    if count == 0 {
        Err(DecodeError::InvalidConstantPoolCount)
    } else {
        match spec_cp_entries(d, pos, (count - 1) as nat) {
            Err(e) => Err(e),
            Ok((s, p)) => Ok((seq![ConstantModel::Empty] + s, p)),
        }
    }
}

/// Builds a `String` from the bytes of a `Utf8` entry.
///
/// Relies on `String::from_utf8`: it returns `Ok` exactly when the bytes
/// are valid UTF-8, and the resulting string's characters are the
/// decoding of those bytes, as vstd's `valid_utf8` and `decode_utf8`
/// state it.
#[verifier::external_body]
fn utf8_to_string(bytes: Vec<u8>) -> (r: Option<String>)
    ensures
        r is Some <==> valid_utf8(bytes@),
        r is Some ==> r->Some_0@ == decode_utf8(bytes@),
{
    match String::from_utf8(bytes) {
        Ok(s) => Some(s),
        Err(_) => None,
    }
}

/// Decodes one tagged constant-pool entry at the reader's position.
pub fn load_constant(reader: &mut Reader<'_>) -> (r: Result<ConstantKind, DecodeError>)
    requires
        old(reader).wf(),
    ensures
        final(reader).wf(),
        final(reader).bytes() == old(reader).bytes(),
        match spec_cp_entry(old(reader).bytes(), old(reader).position()) {
            Ok((m, p)) => r is Ok && r->Ok_0@ == m && wf_constant(r->Ok_0) && final(reader).position() == p,
            Err(e) => r is Err && r->Err_0 == e,
        },
{
    let ghost start = reader.position();
    let tag = match reader.read_u8() {
        Ok(t) => t,
        Err(e) => { return Err(e) },
    };
    match tag {
        1 => {
            let length = match reader.read_u16() {
                Ok(v) => v,
                Err(e) => { return Err(e) },
            };
            let raw = match reader.read_bytes(length as usize) {
                Ok(v) => v,
                Err(e) => { return Err(e) },
            };
            match utf8_to_string(raw) {
                Some(text) => Ok(
                    ConstantKind::Utf8(
                        ConstantUtf8Info { base: ConstantInfoBase { tag }, length, text },
                    ),
                ),
                None => Err(DecodeError::InvalidUtf8),
            }
        },
        3 => {
            let bytes = match reader.read_u32() {
                Ok(v) => v,
                Err(e) => { return Err(e) },
            };
            Ok(ConstantKind::Integer(ConstantIntegerInfo { base: ConstantInfoBase { tag }, bytes }))
        },
        4 => {
            let bytes = match reader.read_u32() {
                Ok(v) => v,
                Err(e) => { return Err(e) },
            };
            Ok(ConstantKind::Float(ConstantFloatInfo { base: ConstantInfoBase { tag }, bytes }))
        },
        5 => {
            let high_bytes = match reader.read_u32() {
                Ok(v) => v,
                Err(e) => { return Err(e) },
            };
            let low_bytes = match reader.read_u32() {
                Ok(v) => v,
                Err(e) => { return Err(e) },
            };
            Ok(
                ConstantKind::Long(
                    ConstantLongInfo { base: ConstantInfoBase { tag }, high_bytes, low_bytes },
                ),
            )
        },
        6 => {
            let high_bytes = match reader.read_u32() {
                Ok(v) => v,
                Err(e) => { return Err(e) },
            };
            let low_bytes = match reader.read_u32() {
                Ok(v) => v,
                Err(e) => { return Err(e) },
            };
            Ok(
                ConstantKind::Double(
                    ConstantDoubleInfo { base: ConstantInfoBase { tag }, high_bytes, low_bytes },
                ),
            )
        },
        7 => {
            let name_index = match reader.read_u16() {
                Ok(v) => v,
                Err(e) => { return Err(e) },
            };
            Ok(ConstantKind::Class(ConstantClassInfo { base: ConstantInfoBase { tag }, name_index }))
        },
        8 => {
            let string_index = match reader.read_u16() {
                Ok(v) => v,
                Err(e) => { return Err(e) },
            };
            Ok(
                ConstantKind::String(
                    ConstantStringInfo { base: ConstantInfoBase { tag }, string_index },
                ),
            )
        },
        9 => {
            let class_index = match reader.read_u16() {
                Ok(v) => v,
                Err(e) => { return Err(e) },
            };
            let name_and_type_index = match reader.read_u16() {
                Ok(v) => v,
                Err(e) => { return Err(e) },
            };
            Ok(
                ConstantKind::Fieldref(
                    ConstantFieldrefInfo {
                        base: ConstantInfoBase { tag },
                        class_index,
                        name_and_type_index,
                    },
                ),
            )
        },
        10 => {
            let class_index = match reader.read_u16() {
                Ok(v) => v,
                Err(e) => { return Err(e) },
            };
            let name_and_type_index = match reader.read_u16() {
                Ok(v) => v,
                Err(e) => { return Err(e) },
            };
            Ok(
                ConstantKind::Methodref(
                    ConstantMethodrefInfo {
                        base: ConstantInfoBase { tag },
                        class_index,
                        name_and_type_index,
                    },
                ),
            )
        },
        11 => {
            let class_index = match reader.read_u16() {
                Ok(v) => v,
                Err(e) => { return Err(e) },
            };
            let name_and_type_index = match reader.read_u16() {
                Ok(v) => v,
                Err(e) => { return Err(e) },
            };
            Ok(
                ConstantKind::InterfaceMethodref(
                    ConstantInterfaceMethodrefInfo {
                        base: ConstantInfoBase { tag },
                        class_index,
                        name_and_type_index,
                    },
                ),
            )
        },
        12 => {
            let name_index = match reader.read_u16() {
                Ok(v) => v,
                Err(e) => { return Err(e) },
            };
            let descriptor_index = match reader.read_u16() {
                Ok(v) => v,
                Err(e) => { return Err(e) },
            };
            Ok(
                ConstantKind::NameAndType(
                    ConstantNameAndTypeInfo {
                        base: ConstantInfoBase { tag },
                        name_index,
                        descriptor_index,
                    },
                ),
            )
        },
        15 => {
            let reference_kind = match reader.read_u8() {
                Ok(v) => v,
                Err(e) => { return Err(e) },
            };
            let reference_index = match reader.read_u16() {
                Ok(v) => v,
                Err(e) => { return Err(e) },
            };
            Ok(
                ConstantKind::MethodHandle(
                    ConstantMethodHandleInfo {
                        base: ConstantInfoBase { tag },
                        reference_kind,
                        reference_index,
                    },
                ),
            )
        },
        16 => {
            let descriptor_index = match reader.read_u16() {
                Ok(v) => v,
                Err(e) => { return Err(e) },
            };
            Ok(
                ConstantKind::MethodType(
                    ConstantMethodTypeInfo { base: ConstantInfoBase { tag }, descriptor_index },
                ),
            )
        },
        18 => {
            let bootstrap_method_attr_index = match reader.read_u16() {
                Ok(v) => v,
                Err(e) => { return Err(e) },
            };
            let name_and_type_index = match reader.read_u16() {
                Ok(v) => v,
                Err(e) => { return Err(e) },
            };
            Ok(
                ConstantKind::InvokeDynamic(
                    ConstantInvokeDynamicInfo {
                        base: ConstantInfoBase { tag },
                        bootstrap_method_attr_index,
                        name_and_type_index,
                    },
                ),
            )
        },
        19 => {
            let name_index = match reader.read_u16() {
                Ok(v) => v,
                Err(e) => { return Err(e) },
            };
            Ok(
                ConstantKind::Module(
                    ConstantModuleInfo { base: ConstantInfoBase { tag }, name_index },
                ),
            )
        },
        20 => {
            let name_index = match reader.read_u16() {
                Ok(v) => v,
                Err(e) => { return Err(e) },
            };
            Ok(
                ConstantKind::Package(
                    ConstantPackageInfo { base: ConstantInfoBase { tag }, name_index },
                ),
            )
        },
        _ => {
            // The tag byte sits one position back from where its read
            // left the reader.
            let tag_pos = reader.pos() - 1;
            proof {
                assert(tag_pos == start as usize);
            }
            Err(DecodeError::InvalidConstantPoolTag(tag, tag_pos))
        },
    }
}

/// Decodes the whole constant pool for a declared count.
///
/// On success the result holds exactly `count` slots: the `Empty`
/// sentinel (tag 0) in slot 0, so that wire indices address the vector
/// directly as 1-based offsets, and one decoded entry per remaining
/// slot, each matching the tag-to-field table. A declared count of 0 is
/// rejected.
pub fn load_constant_pool(count: u16, reader: &mut Reader<'_>) -> (r: Result<
    Vec<ConstantKind>,
    DecodeError,
>)
    requires
        old(reader).wf(),
    ensures
        final(reader).wf(),
        final(reader).bytes() == old(reader).bytes(),
        match spec_constant_pool(old(reader).bytes(), old(reader).position(), count) {
            Ok((s, p)) => r is Ok && cp_view(r->Ok_0@) == s && final(reader).position() == p
                && r->Ok_0@.len() == count && r->Ok_0@[0] == ConstantKind::Empty(
                ConstantInfoBase { tag: 0 },
            ) && (forall|i: int|
                0 <= i < r->Ok_0@.len() ==> wf_constant(#[trigger] r->Ok_0@[i])),
            Err(e) => r is Err && r->Err_0 == e,
        },
{
    if count == 0 {
        return Err(DecodeError::InvalidConstantPoolCount);
    }
    let ghost d = reader.bytes();
    let ghost pos1 = reader.position();
    let ghost n0: nat = (count - 1) as nat;

    let mut pool: Vec<ConstantKind> = Vec::new();
    pool.push(ConstantKind::Empty(ConstantInfoBase { tag: 0 }));
    proof {
        assert(pool@.skip(1) =~= Seq::<ConstantKind>::empty());
        assert(cp_view(pool@.skip(1)) =~= Seq::<ConstantModel>::empty());
        match spec_cp_entries(d, pos1, n0) {
            Ok((s, p)) => {
                assert(cp_view(pool@.skip(1)) + s =~= s);
            },
            Err(_) => {},
        }
    }

    let mut i: u16 = 1;
    while i < count
        invariant
            d == old(reader).bytes(),
            pos1 == old(reader).position(),
            n0 == (count - 1) as nat,
            count >= 1,
            1 <= i <= count,
            reader.wf(),
            reader.bytes() == d,
            pool@.len() == i as int,
            pool@[0] == ConstantKind::Empty(ConstantInfoBase { tag: 0 }),
            forall|k: int| 0 <= k < pool@.len() ==> wf_constant(#[trigger] pool@[k]),
            n0 >= i - 1,
            match spec_cp_entries(d, reader.position(), (n0 - (i - 1)) as nat) {
                Ok((s, p)) => spec_cp_entries(d, pos1, n0) == Ok::<
                    (Seq<ConstantModel>, int),
                    DecodeError,
                >((cp_view(pool@.skip(1)) + s, p)),
                Err(e) => spec_cp_entries(d, pos1, n0) == Err::<
                    (Seq<ConstantModel>, int),
                    DecodeError,
                >(e),
            },
        decreases count - i,
    {
        let ghost rem: nat = (n0 - (i - 1)) as nat;
        let ghost pos_i = reader.position();
        let ghost pre = pool@;
        proof {
            assert(rem > 0);
        }
        let c = match load_constant(reader) {
            Ok(c) => c,
            Err(e) => {
                proof {
                    assert(spec_cp_entries(d, pos_i, rem) == Err::<
                        (Seq<ConstantModel>, int),
                        DecodeError,
                    >(e));
                }
                return Err(e);
            },
        };
        pool.push(c);
        i = i + 1;
        proof {
            let (m, p2) = spec_cp_entry(d, pos_i)->Ok_0;
            assert(c@ == m && reader.position() == p2);
            assert(pool@.skip(1) =~= pre.skip(1).push(c));
            assert(cp_view(pool@.skip(1)) =~= cp_view(pre.skip(1)) + seq![c@]);
            match spec_cp_entries(d, p2, (rem - 1) as nat) {
                Ok((s, p)) => {
                    assert(spec_cp_entries(d, pos_i, rem) == Ok::<
                        (Seq<ConstantModel>, int),
                        DecodeError,
                    >((seq![m] + s, p)));
                    assert(cp_view(pre.skip(1)) + (seq![c@] + s) =~= cp_view(pool@.skip(1)) + s);
                },
                Err(e) => {
                    assert(spec_cp_entries(d, pos_i, rem) == Err::<
                        (Seq<ConstantModel>, int),
                        DecodeError,
                    >(e));
                },
            }
        }
    }
    proof {
        assert(n0 - (i - 1) == 0);
        match spec_cp_entries(d, pos1, n0) {
            Ok((s, p)) => {
                assert(seq![ConstantModel::Empty] + cp_view(pool@.skip(1)) =~= cp_view(pool@));
            },
            Err(_) => {},
        }
    }
    Ok(pool)
}

/// A failed entry decode never reports a header failure.
proof fn lemma_cp_entry_errors(d: Seq<u8>, pos: int)
    ensures
        spec_cp_entry(d, pos) matches Err(e) ==> !is_header_error(e),
{
}

/// A failed pool-tail decode never reports a header failure.
proof fn lemma_cp_entries_errors(d: Seq<u8>, pos: int, n: nat)
    ensures
        spec_cp_entries(d, pos, n) matches Err(e) ==> !is_header_error(e),
    decreases n,
{
    if n > 0 {
        lemma_cp_entry_errors(d, pos);
        match spec_cp_entry(d, pos) {
            Ok((c, p2)) => {
                lemma_cp_entries_errors(d, p2, (n - 1) as nat);
            },
            Err(_) => {},
        }
    }
}

/// A failed constant-pool decode never reports a header failure.
pub proof fn lemma_constant_pool_errors(d: Seq<u8>, pos: int, count: u16)
    ensures
        spec_constant_pool(d, pos, count) matches Err(e) ==> !is_header_error(e),
{
    if count > 0 {
        lemma_cp_entries_errors(d, pos, (count - 1) as nat);
    }
}

/// Truncation at the entry level: a successful entry decode ends past
/// where it began and within the buffer; truncating the buffer at or
/// past that end changes nothing, and truncating inside the entry makes
/// it fail with `UnexpectedEof`.
proof fn lemma_cp_entry_prefix(d: Seq<u8>, k: int, pos: int)
    requires
        spec_cp_entry(d, pos) is Ok,
        0 <= pos,
        0 <= k <= d.len(),
    ensures
        ({
            let (m, e) = spec_cp_entry(d, pos)->Ok_0;
            &&& pos < e <= d.len()
            &&& (k >= e ==> spec_cp_entry(d.take(k), pos) == spec_cp_entry(d, pos))
            &&& (pos <= k < e ==> spec_cp_entry(d.take(k), pos) == Err::<
                (ConstantModel, int),
                DecodeError,
            >(DecodeError::UnexpectedEof))
        }),
{
    let t = d.take(k);
    if d[pos] == 1 && k >= pos + 3 {
        let n = u16_be(d, pos + 1) as int;
        if k >= pos + 3 + n {
            assert(t.subrange(pos + 3, pos + 3 + n) =~= d.subrange(pos + 3, pos + 3 + n));
        }
    }
}

/// Truncation at the pool-tail level: see `lemma_cp_entry_prefix`.
proof fn lemma_cp_entries_prefix(d: Seq<u8>, k: int, pos: int, n: nat)
    requires
        spec_cp_entries(d, pos, n) is Ok,
        0 <= pos <= d.len(),
        0 <= k <= d.len(),
    ensures
        ({
            let (s, e) = spec_cp_entries(d, pos, n)->Ok_0;
            &&& pos <= e <= d.len()
            &&& (k >= e ==> spec_cp_entries(d.take(k), pos, n) == spec_cp_entries(d, pos, n))
            &&& (pos <= k < e ==> spec_cp_entries(d.take(k), pos, n) == Err::<
                (Seq<ConstantModel>, int),
                DecodeError,
            >(DecodeError::UnexpectedEof))
        }),
    decreases n,
{
    if n > 0 {
        lemma_cp_entry_prefix(d, k, pos);
        let (c, p2) = spec_cp_entry(d, pos)->Ok_0;
        lemma_cp_entries_prefix(d, k, p2, (n - 1) as nat);
        let t = d.take(k);
        let (s, e) = spec_cp_entries(d, pos, n)->Ok_0;
        let (rest, e2) = spec_cp_entries(d, p2, (n - 1) as nat)->Ok_0;
        if k >= e {
            assert(spec_cp_entry(t, pos) == spec_cp_entry(d, pos));
            assert(spec_cp_entries(t, p2, (n - 1) as nat) == spec_cp_entries(
                d,
                p2,
                (n - 1) as nat,
            ));
            assert(spec_cp_entries(t, pos, n) == spec_cp_entries(d, pos, n));
        } else if pos <= k {
            if k < p2 {
                assert(spec_cp_entry(t, pos) == Err::<(ConstantModel, int), DecodeError>(
                    DecodeError::UnexpectedEof,
                ));
            } else {
                assert(spec_cp_entry(t, pos) == spec_cp_entry(d, pos));
                assert(spec_cp_entries(t, p2, (n - 1) as nat) == Err::<
                    (Seq<ConstantModel>, int),
                    DecodeError,
                >(DecodeError::UnexpectedEof));
            }
            assert(spec_cp_entries(t, pos, n) == Err::<(Seq<ConstantModel>, int), DecodeError>(
                DecodeError::UnexpectedEof,
            ));
        }
    }
}

/// Truncation at the whole-pool level: see `lemma_cp_entry_prefix`.
pub proof fn lemma_constant_pool_prefix(d: Seq<u8>, k: int, pos: int, count: u16)
    requires
        spec_constant_pool(d, pos, count) is Ok,
        0 <= pos <= d.len(),
        0 <= k <= d.len(),
    ensures
        ({
            let (s, e) = spec_constant_pool(d, pos, count)->Ok_0;
            &&& pos <= e <= d.len()
            &&& (k >= e ==> spec_constant_pool(d.take(k), pos, count) == spec_constant_pool(
                d,
                pos,
                count,
            ))
            &&& (pos <= k < e ==> spec_constant_pool(d.take(k), pos, count) == Err::<
                (Seq<ConstantModel>, int),
                DecodeError,
            >(DecodeError::UnexpectedEof))
        }),
{
    lemma_cp_entries_prefix(d, k, pos, (count - 1) as nat);
}

/// Whether some position decodes to exactly this entry: the entry was
/// produced by the tag-to-field table.
pub open spec fn entry_from_table(d: Seq<u8>, e: ConstantModel) -> bool {
    exists|q: int| (#[trigger] spec_cp_entry(d, q)) matches Ok(pr) && pr.0 == e
}

/// Each entry of a successfully decoded pool tail was produced by the
/// tag-to-field table at some position.
proof fn lemma_cp_entries_shape(d: Seq<u8>, pos: int, n: nat)
    requires
        spec_cp_entries(d, pos, n) is Ok,
    ensures
        ({
            let (s, p) = spec_cp_entries(d, pos, n)->Ok_0;
            &&& s.len() == n
            &&& forall|i: int| 0 <= i < s.len() ==> entry_from_table(d, #[trigger] s[i])
        }),
    decreases n,
{
    if n > 0 {
        let (c, p2) = spec_cp_entry(d, pos)->Ok_0;
        lemma_cp_entries_shape(d, p2, (n - 1) as nat);
        let (s, _) = spec_cp_entries(d, pos, n)->Ok_0;
        let (rest, _) = spec_cp_entries(d, p2, (n - 1) as nat)->Ok_0;
        assert(entry_from_table(d, c)) by {
            assert((spec_cp_entry(d, pos)) matches Ok(pr) && pr.0 == c);
        }
        assert forall|i: int| 0 <= i < s.len() implies entry_from_table(d, #[trigger] s[i]) by {
            if i == 0 {
                assert(s[0] == c);
            } else {
                assert(s[i] == rest[i - 1]);
            }
        }
    }
}

/// The shape of a successfully decoded constant pool: a declared count
/// of at least 1, exactly that many slots, the `Empty` sentinel in slot
/// 0 (so wire indices address the sequence directly, 1-based), and
/// every later slot produced by the tag-to-field table.
pub proof fn lemma_constant_pool_shape(d: Seq<u8>, pos: int, count: u16)
    requires
        spec_constant_pool(d, pos, count) is Ok,
    ensures
        count >= 1,
        ({
            let (s, p) = spec_constant_pool(d, pos, count)->Ok_0;
            &&& s.len() == count as int
            &&& s[0] == ConstantModel::Empty
            &&& forall|i: int| 1 <= i < s.len() ==> entry_from_table(d, #[trigger] s[i])
        }),
{
    let n = (count - 1) as nat;
    lemma_cp_entries_shape(d, pos, n);
    let (s, _) = spec_constant_pool(d, pos, count)->Ok_0;
    let (tail, _) = spec_cp_entries(d, pos, n)->Ok_0;
    assert forall|i: int| 1 <= i < s.len() implies entry_from_table(d, #[trigger] s[i]) by {
        assert(s[i] == tail[i - 1]);
    }
}

} // verus!
