//! The top-level class file decoder.
//!
//! A strictly linear pass over the buffer with no backtracking: magic,
//! versions, constant pool, flags and class references, interfaces,
//! fields, methods, and class-level attributes. Any failure aborts the
//! whole decode and yields no value. Trailing bytes after the last
//! class-level attribute are not an error; the decoder reads exactly
//! what the declared counts require.

use vstd::prelude::*;

use crate::attribute_info::attrs_view;
use crate::attribute_info::lemma_load_attributes_errors;
use crate::attribute_info::lemma_load_attributes_prefix;
use crate::attribute_info::load_attributes;
use crate::attribute_info::spec_load_attributes;
use crate::constant_pool::cp_view;
use crate::constant_pool::lemma_constant_pool_errors;
use crate::constant_pool::lemma_constant_pool_prefix;
use crate::constant_pool::load_constant_pool;
use crate::constant_pool::spec_constant_pool;
use crate::error::DecodeError;
use crate::error::is_header_error;
use crate::field_info::fields_view;
use crate::field_info::lemma_fields_errors;
use crate::field_info::lemma_fields_prefix;
use crate::field_info::load_fields;
use crate::field_info::spec_fields;
use crate::java_class_file::ClassFileModel;
use crate::java_class_file::JavaClassFileFormat;
use crate::method_info::lemma_methods_errors;
use crate::method_info::lemma_methods_prefix;
use crate::method_info::load_methods;
use crate::method_info::methods_view;
use crate::method_info::spec_methods;
use crate::reader::Reader;
use crate::reader::u16_be;
use crate::reader::u32_be;

verus! {

/// The fixed magic number that opens every class file.
pub const CLASS_FILE_MAGIC: u32 = 0xCAFEBABE;

/// The lowest supported major version.
pub const MIN_MAJOR_VERSION: u16 = 45;

/// The highest supported major version.
pub const MAX_MAJOR_VERSION: u16 = 61;

/// `n` consecutive 16-bit interface indices decoded at `pos`.
pub open spec fn spec_interfaces(d: Seq<u8>, pos: int, n: nat) -> Result<
    (Seq<u16>, int),
    DecodeError,
>
    decreases n,
{
    if n == 0 {
        Ok((Seq::empty(), pos))
    } else if pos + 2 > d.len() {
        Err(DecodeError::UnexpectedEof)
    } else {
        match spec_interfaces(d, pos + 2, (n - 1) as nat) {
            Err(e) => Err(e),
            Ok((s, p)) => Ok((seq![u16_be(d, pos)] + s, p)),
        }
    }
}

/// One whole class file decoded from the start of `d`: the model and
/// the position past the last class-level attribute, or the exact
/// failure.
///
/// The magic number is checked before anything else is read; the major
/// version must lie in `MIN_MAJOR_VERSION ..= MAX_MAJOR_VERSION`.
pub open spec fn spec_class_file(d: Seq<u8>) -> Result<(ClassFileModel, int), DecodeError> {
    if 4 > d.len() {
        Err(DecodeError::UnexpectedEof)
    } else if u32_be(d, 0) != CLASS_FILE_MAGIC {
        Err(DecodeError::InvalidMagic)
    } else if 8 > d.len() {
        Err(DecodeError::UnexpectedEof)
    } else {
        let minor_version = u16_be(d, 4);
        let major_version = u16_be(d, 6);
        if major_version < MIN_MAJOR_VERSION || MAX_MAJOR_VERSION < major_version {
            Err(DecodeError::UnsupportedVersion(major_version))
        } else if 10 > d.len() {
            Err(DecodeError::UnexpectedEof)
        } else {
            let constant_pool_count = u16_be(d, 8);
            match spec_constant_pool(d, 10, constant_pool_count) {
                Err(e) => Err(e),
                Ok((constant_pool, p1)) => {
                    if p1 + 8 > d.len() {
                        Err(DecodeError::UnexpectedEof)
                    } else {
                        let access_flags = u16_be(d, p1);
                        let this_class = u16_be(d, p1 + 2);
                        let super_class = u16_be(d, p1 + 4);
                        let interfaces_count = u16_be(d, p1 + 6);
                        match spec_interfaces(d, p1 + 8, interfaces_count as nat) {
                            Err(e) => Err(e),
                            Ok((interfaces, p2)) => {
                                if p2 + 2 > d.len() {
                                    Err(DecodeError::UnexpectedEof)
                                } else {
                                    let fields_count = u16_be(d, p2);
                                    match spec_fields(
                                        d,
                                        p2 + 2,
                                        constant_pool,
                                        fields_count as nat,
                                    ) {
                                        Err(e) => Err(e),
                                        Ok((fields, p3)) => {
                                            if p3 + 2 > d.len() {
                                                Err(DecodeError::UnexpectedEof)
                                            } else {
                                                let methods_count = u16_be(d, p3);
                                                match spec_methods(
                                                    d,
                                                    p3 + 2,
                                                    constant_pool,
                                                    methods_count as nat,
                                                ) {
                                                    Err(e) => Err(e),
                                                    Ok((methods, p4)) => {
                                                        if p4 + 2 > d.len() {
                                                            Err(DecodeError::UnexpectedEof)
                                                        } else {
                                                            let attributes_count = u16_be(d, p4);
                                                            match spec_load_attributes(
                                                                d,
                                                                p4 + 2,
                                                                constant_pool,
                                                                attributes_count as nat,
                                                            ) {
                                                                Err(e) => Err(e),
                                                                Ok((attributes, p5)) => Ok(
                                                                    (
                                                                        ClassFileModel {
                                                                            minor_version,
                                                                            major_version,
                                                                            constant_pool_count,
                                                                            constant_pool,
                                                                            access_flags,
                                                                            this_class,
                                                                            super_class,
                                                                            interfaces_count,
                                                                            interfaces,
                                                                            fields_count,
                                                                            fields,
                                                                            methods_count,
                                                                            methods,
                                                                            attributes_count,
                                                                            attributes,
                                                                        },
                                                                        p5,
                                                                    ),
                                                                ),
                                                            }
                                                        }
                                                    },
                                                }
                                            }
                                        },
                                    }
                                }
                            },
                        }
                    }
                },
            }
        }
    }
}

/// One whole class file decoded from `d`, keeping only the value.
pub open spec fn spec_define_class(d: Seq<u8>) -> Result<ClassFileModel, DecodeError> {
    match spec_class_file(d) {
        Err(e) => Err(e),
        Ok((m, _)) => Ok(m),
    }
}

/// A failed interface-list decode reports only an exhausted buffer.
proof fn lemma_interfaces_errors(d: Seq<u8>, pos: int, n: nat)
    ensures
        spec_interfaces(d, pos, n) matches Err(e) ==> e == DecodeError::UnexpectedEof,
    decreases n,
{
    if n > 0 && pos + 2 <= d.len() {
        lemma_interfaces_errors(d, pos + 2, (n - 1) as nat);
    }
}

/// Nothing past the two header gates produces a header failure: every
/// error of the body decoders is `UnexpectedEof` or one of the
/// constant-pool, reference, text or nesting failures.
proof fn lemma_class_file_body_errors(d: Seq<u8>)
    requires
        d.len() >= 10,
        u32_be(d, 0) == CLASS_FILE_MAGIC,
        MIN_MAJOR_VERSION <= u16_be(d, 6) <= MAX_MAJOR_VERSION,
    ensures
        spec_class_file(d) matches Err(e) ==> !is_header_error(e),
{
    let constant_pool_count = u16_be(d, 8);
    lemma_constant_pool_errors(d, 10, constant_pool_count);
    match spec_constant_pool(d, 10, constant_pool_count) {
        Err(_) => {},
        Ok((pool, p1)) => {
            if p1 + 8 <= d.len() {
                lemma_interfaces_errors(d, p1 + 8, u16_be(d, p1 + 6) as nat);
                match spec_interfaces(d, p1 + 8, u16_be(d, p1 + 6) as nat) {
                    Err(_) => {},
                    Ok((interfaces, p2)) => {
                        if p2 + 2 <= d.len() {
                            lemma_fields_errors(d, p2 + 2, pool, u16_be(d, p2) as nat);
                            match spec_fields(d, p2 + 2, pool, u16_be(d, p2) as nat) {
                                Err(_) => {},
                                Ok((fields, p3)) => {
                                    if p3 + 2 <= d.len() {
                                        lemma_methods_errors(d, p3 + 2, pool, u16_be(d, p3) as nat);
                                        match spec_methods(d, p3 + 2, pool, u16_be(d, p3) as nat) {
                                            Err(_) => {},
                                            Ok((methods, p4)) => {
                                                if p4 + 2 <= d.len() {
                                                    lemma_load_attributes_errors(
                                                        d,
                                                        p4 + 2,
                                                        pool,
                                                        u16_be(d, p4) as nat,
                                                    );
                                                }
                                            },
                                        }
                                    }
                                },
                            }
                        }
                    },
                }
            }
        },
    }
}

/// Truncation at the interface-list level: a successful decode ends
/// within the buffer; truncating at or past that end changes nothing,
/// and truncating inside the list makes it fail with `UnexpectedEof`.
proof fn lemma_interfaces_prefix(d: Seq<u8>, k: int, pos: int, n: nat)
    requires
        spec_interfaces(d, pos, n) is Ok,
        0 <= pos <= d.len(),
        0 <= k <= d.len(),
    ensures
        ({
            let (s, e) = spec_interfaces(d, pos, n)->Ok_0;
            &&& pos <= e <= d.len()
            &&& (k >= e ==> spec_interfaces(d.take(k), pos, n) == spec_interfaces(d, pos, n))
            &&& (pos <= k < e ==> spec_interfaces(d.take(k), pos, n) == Err::<
                (Seq<u16>, int),
                DecodeError,
            >(DecodeError::UnexpectedEof))
        }),
    decreases n,
{
    if n > 0 && pos + 2 <= d.len() {
        lemma_interfaces_prefix(d, k, pos + 2, (n - 1) as nat);
    }
}

/// Truncation never reads out of bounds and always reads as exhaustion:
/// when a buffer decodes to a class file, every prefix cut short of the
/// bytes the decode consumed fails with `UnexpectedEof` and nothing
/// else, and every prefix that keeps those bytes decodes to the same
/// class file.
pub proof fn lemma_truncated_prefix(d: Seq<u8>, k: int)
    requires
        spec_class_file(d) is Ok,
        0 <= k <= d.len(),
    ensures
        ({
            let (m, e) = spec_class_file(d)->Ok_0;
            &&& 0 <= e <= d.len()
            &&& (k >= e ==> spec_class_file(d.take(k)) == spec_class_file(d))
            &&& (k < e ==> spec_class_file(d.take(k)) == Err::<
                (ClassFileModel, int),
                DecodeError,
            >(DecodeError::UnexpectedEof))
        }),
{
    let t = d.take(k);
    let constant_pool_count = u16_be(d, 8);
    lemma_constant_pool_prefix(d, k, 10, constant_pool_count);
    let (pool, p1) = spec_constant_pool(d, 10, constant_pool_count)->Ok_0;
    let interfaces_count = u16_be(d, p1 + 6);
    lemma_interfaces_prefix(d, k, p1 + 8, interfaces_count as nat);
    let (interfaces, p2) = spec_interfaces(d, p1 + 8, interfaces_count as nat)->Ok_0;
    lemma_fields_prefix(d, k, p2 + 2, pool, u16_be(d, p2) as nat);
    let (fields, p3) = spec_fields(d, p2 + 2, pool, u16_be(d, p2) as nat)->Ok_0;
    lemma_methods_prefix(d, k, p3 + 2, pool, u16_be(d, p3) as nat);
    let (methods, p4) = spec_methods(d, p3 + 2, pool, u16_be(d, p3) as nat)->Ok_0;
    lemma_load_attributes_prefix(d, k, p4 + 2, pool, u16_be(d, p4) as nat);
}

/// The magic gate, exactly: with the four magic bytes present, the
/// decode fails with `InvalidMagic` precisely when the buffer does not
/// open with the magic number. Nothing past those four bytes has any
/// part in that failure.
pub proof fn lemma_magic_boundary(d: Seq<u8>)
    requires
        d.len() >= 4,
    ensures
        (u32_be(d, 0) != CLASS_FILE_MAGIC) <==> spec_class_file(d) == Err::<
            (ClassFileModel, int),
            DecodeError,
        >(DecodeError::InvalidMagic),
{
    if u32_be(d, 0) == CLASS_FILE_MAGIC && d.len() >= 10 {
        let major_version = u16_be(d, 6);
        if MIN_MAJOR_VERSION <= major_version <= MAX_MAJOR_VERSION {
            lemma_class_file_body_errors(d);
        }
    }
}

/// The version gate, exactly: once the magic has passed and both
/// version fields are present, the decode fails with
/// `UnsupportedVersion` precisely when the major version lies outside
/// `MIN_MAJOR_VERSION ..= MAX_MAJOR_VERSION`, and the failure carries
/// that major version.
pub proof fn lemma_version_boundary(d: Seq<u8>)
    requires
        d.len() >= 8,
        u32_be(d, 0) == CLASS_FILE_MAGIC,
    ensures
        (u16_be(d, 6) < MIN_MAJOR_VERSION || MAX_MAJOR_VERSION < u16_be(d, 6)) <==> spec_class_file(
            d,
        ) == Err::<(ClassFileModel, int), DecodeError>(
            DecodeError::UnsupportedVersion(u16_be(d, 6)),
        ),
        spec_class_file(d) matches Err(e) ==> (e is UnsupportedVersion ==> e
            == DecodeError::UnsupportedVersion(u16_be(d, 6))),
{
    let major_version = u16_be(d, 6);
    if MIN_MAJOR_VERSION <= major_version <= MAX_MAJOR_VERSION && d.len() >= 10 {
        lemma_class_file_body_errors(d);
    }
}

/// Decodes `count` 16-bit interface indices.
pub fn load_interfaces(count: u16, reader: &mut Reader<'_>) -> (r: Result<Vec<u16>, DecodeError>)
    requires
        old(reader).wf(),
    ensures
        final(reader).wf(),
        final(reader).bytes() == old(reader).bytes(),
        match spec_interfaces(old(reader).bytes(), old(reader).position(), count as nat) {
            Ok((s, p)) => r is Ok && r->Ok_0@ == s && final(reader).position() == p,
            Err(e) => r is Err && r->Err_0 == e,
        },
{
    let ghost d = reader.bytes();
    let ghost pos0 = reader.position();
    let mut interfaces: Vec<u16> = Vec::new();
    let mut i: u16 = 0;
    while i < count
        invariant
            d == old(reader).bytes(),
            pos0 == old(reader).position(),
            i <= count,
            reader.wf(),
            reader.bytes() == d,
            interfaces@.len() == i as int,
            match spec_interfaces(d, reader.position(), (count - i) as nat) {
                Ok((s, p)) => spec_interfaces(d, pos0, count as nat) == Ok::<
                    (Seq<u16>, int),
                    DecodeError,
                >((interfaces@ + s, p)),
                Err(e) => spec_interfaces(d, pos0, count as nat) == Err::<
                    (Seq<u16>, int),
                    DecodeError,
                >(e),
            },
        decreases count - i,
    {
        let ghost pre = interfaces@;
        let v = match reader.read_u16() {
            Ok(v) => v,
            Err(e) => { return Err(e) },
        };
        interfaces.push(v);
        i = i + 1;
        proof {
            match spec_interfaces(d, reader.position(), (count - i) as nat) {
                Ok((s, p)) => {
                    assert(pre + (seq![v] + s) =~= interfaces@ + s);
                },
                Err(_) => {},
            }
        }
    }
    proof {
        match spec_interfaces(d, pos0, count as nat) {
            Ok((s, p)) => {
                assert(interfaces@ + Seq::<u16>::empty() =~= interfaces@);
            },
            Err(_) => {},
        }
    }
    Ok(interfaces)
}

/// Decodes one whole class file from an immutable byte buffer.
///
/// Returns exactly what `spec_define_class` says: the fully populated
/// value on well-formed input, and on malformed or truncated input the
/// error that names what was wrong, with no partial value escaping.
pub fn define_class(bytes: &[u8]) -> (r: Result<JavaClassFileFormat, DecodeError>)
    ensures
        match spec_define_class(bytes@) {
            Ok(m) => r is Ok && r->Ok_0@ == m,
            Err(e) => r is Err && r->Err_0 == e,
        },
{
    let mut reader = Reader::new(bytes);

    let magic = match reader.read_u32() {
        Ok(v) => v,
        Err(e) => { return Err(e) },
    };
    if magic != CLASS_FILE_MAGIC {
        return Err(DecodeError::InvalidMagic);
    }
    let minor_version = match reader.read_u16() {
        Ok(v) => v,
        Err(e) => { return Err(e) },
    };
    let major_version = match reader.read_u16() {
        Ok(v) => v,
        Err(e) => { return Err(e) },
    };
    if major_version < MIN_MAJOR_VERSION || MAX_MAJOR_VERSION < major_version {
        return Err(DecodeError::UnsupportedVersion(major_version));
    }
    let constant_pool_count = match reader.read_u16() {
        Ok(v) => v,
        Err(e) => { return Err(e) },
    };
    let constant_pool = match load_constant_pool(constant_pool_count, &mut reader) {
        Ok(v) => v,
        Err(e) => { return Err(e) },
    };
    let access_flags = match reader.read_u16() {
        Ok(v) => v,
        Err(e) => { return Err(e) },
    };
    let this_class = match reader.read_u16() {
        Ok(v) => v,
        Err(e) => { return Err(e) },
    };
    let super_class = match reader.read_u16() {
        Ok(v) => v,
        Err(e) => { return Err(e) },
    };
    let interfaces_count = match reader.read_u16() {
        Ok(v) => v,
        Err(e) => { return Err(e) },
    };
    let interfaces = match load_interfaces(interfaces_count, &mut reader) {
        Ok(v) => v,
        Err(e) => { return Err(e) },
    };
    let fields_count = match reader.read_u16() {
        Ok(v) => v,
        Err(e) => { return Err(e) },
    };
    let fields = match load_fields(fields_count, &mut reader, &constant_pool) {
        Ok(v) => v,
        Err(e) => { return Err(e) },
    };
    let methods_count = match reader.read_u16() {
        Ok(v) => v,
        Err(e) => { return Err(e) },
    };
    let methods = match load_methods(methods_count, &mut reader, &constant_pool) {
        Ok(v) => v,
        Err(e) => { return Err(e) },
    };
    let attributes_count = match reader.read_u16() {
        Ok(v) => v,
        Err(e) => { return Err(e) },
    };
    let attributes = match load_attributes(attributes_count, &mut reader, &constant_pool) {
        Ok(v) => v,
        Err(e) => { return Err(e) },
    };

    Ok(
        JavaClassFileFormat {
            minor_version,
            major_version,
            constant_pool_count,
            constant_pool,
            access_flags,
            this_class,
            super_class,
            interfaces_count,
            interfaces,
            fields_count,
            fields,
            methods_count,
            methods,
            attributes_count,
            attributes,
        },
    )
}

} // verus!
