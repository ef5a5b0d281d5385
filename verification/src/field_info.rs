//! field_info records and their decoder.
//!
//! Each record is access flags, a name index, a descriptor index, and
//! its own attribute list. The attribute count handed to the attribute
//! decoder is the record's own just-read `attributes_count`, never the
//! outer record count: anything else would misalign the stream on any
//! class with more than one field or a nonzero attribute count.

use vstd::prelude::*;

use crate::attribute_info::AttributeKind;
use crate::attribute_info::AttributeModel;
use crate::attribute_info::attrs_view;
use crate::attribute_info::load_attributes;
use crate::attribute_info::lemma_load_attributes_errors;
use crate::attribute_info::lemma_load_attributes_prefix;
use crate::attribute_info::spec_load_attributes;
use crate::constant_pool::ConstantKind;
use crate::constant_pool::ConstantModel;
use crate::constant_pool::cp_view;
use crate::error::DecodeError;
use crate::error::is_header_error;
use crate::reader::Reader;
use crate::reader::u16_be;

verus! {

/// One field of a class.
#[derive(Debug)]
pub struct FieldInfo {
    pub access_flags: u16,
    pub name_index: u16,
    pub descriptor_index: u16,
    pub attributes_count: u16,
    pub attributes: Vec<AttributeKind>,
}

/// The mathematical value of one field.
#[verifier::ext_equal]
pub struct FieldModel {
    pub access_flags: u16,
    pub name_index: u16,
    pub descriptor_index: u16,
    pub attributes_count: u16,
    pub attributes: Seq<AttributeModel>,
}

impl View for FieldInfo {
    type V = FieldModel;

    open spec fn view(&self) -> FieldModel {
        FieldModel {
            access_flags: self.access_flags,
            name_index: self.name_index,
            descriptor_index: self.descriptor_index,
            attributes_count: self.attributes_count,
            attributes: attrs_view(self.attributes@),
        }
    }
}

/// The models of a sequence of fields.
pub open spec fn fields_view(s: Seq<FieldInfo>) -> Seq<FieldModel> {
    s.map_values(|f: FieldInfo| f@)
}

/// One field_info record decoded at `pos`: four 16-bit fields, then the
/// record's own attributes.
pub open spec fn spec_field(d: Seq<u8>, pos: int, pool: Seq<ConstantModel>) -> Result<
    (FieldModel, int),
    DecodeError,
> {
    if pos + 8 > d.len() {
        Err(DecodeError::UnexpectedEof)
    } else {
        let attributes_count = u16_be(d, pos + 6);
        match spec_load_attributes(d, pos + 8, pool, attributes_count as nat) {
            Err(e) => Err(e),
            Ok((attrs, p)) => Ok(
                (
                    FieldModel {
                        access_flags: u16_be(d, pos),
                        name_index: u16_be(d, pos + 2),
                        descriptor_index: u16_be(d, pos + 4),
                        attributes_count,
                        attributes: attrs,
                    },
                    p,
                ),
            ),
        }
    }
}

/// `n` consecutive field_info records decoded at `pos`.
pub open spec fn spec_fields(d: Seq<u8>, pos: int, pool: Seq<ConstantModel>, n: nat) -> Result<
    (Seq<FieldModel>, int),
    DecodeError,
>
    decreases n,
{
    if n == 0 {
        Ok((Seq::empty(), pos))
    } else {
        match spec_field(d, pos, pool) {
            Err(e) => Err(e),
            Ok((f, p2)) => match spec_fields(d, p2, pool, (n - 1) as nat) {
                Err(e) => Err(e),
                Ok((s, p3)) => Ok((seq![f] + s, p3)),
            },
        }
    }
}

/// A failed field decode never reports a header failure.
proof fn lemma_field_errors(d: Seq<u8>, pos: int, pool: Seq<ConstantModel>)
    ensures
        spec_field(d, pos, pool) matches Err(e) ==> !is_header_error(e),
{
    if pos + 8 <= d.len() {
        lemma_load_attributes_errors(d, pos + 8, pool, u16_be(d, pos + 6) as nat);
    }
}

/// A failed field-list decode never reports a header failure.
pub proof fn lemma_fields_errors(d: Seq<u8>, pos: int, pool: Seq<ConstantModel>, n: nat)
    ensures
        spec_fields(d, pos, pool, n) matches Err(e) ==> !is_header_error(e),
    decreases n,
{
    if n > 0 {
        lemma_field_errors(d, pos, pool);
        match spec_field(d, pos, pool) {
            Ok((f, p2)) => {
                lemma_fields_errors(d, p2, pool, (n - 1) as nat);
            },
            Err(_) => {},
        }
    }
}

/// Truncation at the single-field level: a successful decode ends
/// within the buffer; truncating at or past that end changes nothing,
/// and truncating inside the record makes it fail with `UnexpectedEof`.
proof fn lemma_field_prefix(d: Seq<u8>, k: int, pos: int, pool: Seq<ConstantModel>)
    requires
        spec_field(d, pos, pool) is Ok,
        0 <= pos,
        0 <= k <= d.len(),
    ensures
        ({
            let (m, e) = spec_field(d, pos, pool)->Ok_0;
            &&& pos < e <= d.len()
            &&& (k >= e ==> spec_field(d.take(k), pos, pool) == spec_field(d, pos, pool))
            &&& (pos <= k < e ==> spec_field(d.take(k), pos, pool) == Err::<
                (FieldModel, int),
                DecodeError,
            >(DecodeError::UnexpectedEof))
        }),
{
    lemma_load_attributes_prefix(d, k, pos + 8, pool, u16_be(d, pos + 6) as nat);
}

/// Truncation at the field-list level: see `lemma_field_prefix`.
pub proof fn lemma_fields_prefix(d: Seq<u8>, k: int, pos: int, pool: Seq<ConstantModel>, n: nat)
    requires
        spec_fields(d, pos, pool, n) is Ok,
        0 <= pos <= d.len(),
        0 <= k <= d.len(),
    ensures
        ({
            let (s, e) = spec_fields(d, pos, pool, n)->Ok_0;
            &&& pos <= e <= d.len()
            &&& (k >= e ==> spec_fields(d.take(k), pos, pool, n) == spec_fields(d, pos, pool, n))
            &&& (pos <= k < e ==> spec_fields(d.take(k), pos, pool, n) == Err::<
                (Seq<FieldModel>, int),
                DecodeError,
            >(DecodeError::UnexpectedEof))
        }),
    decreases n,
{
    if n > 0 {
        lemma_field_prefix(d, k, pos, pool);
        let (f, p2) = spec_field(d, pos, pool)->Ok_0;
        lemma_fields_prefix(d, k, p2, pool, (n - 1) as nat);
    }
}

/// Decodes one field_info record at the reader's position.
pub fn load_field(reader: &mut Reader<'_>, constant_pool: &Vec<ConstantKind>) -> (r: Result<
    FieldInfo,
    DecodeError,
>)
    requires
        old(reader).wf(),
    ensures
        final(reader).wf(),
        final(reader).bytes() == old(reader).bytes(),
        match spec_field(old(reader).bytes(), old(reader).position(), cp_view(constant_pool@)) {
            Ok((m, p)) => r is Ok && r->Ok_0@ == m && final(reader).position() == p,
            Err(e) => r is Err && r->Err_0 == e,
        },
{
    let access_flags = match reader.read_u16() {
        Ok(v) => v,
        Err(e) => { return Err(e) },
    };
    let name_index = match reader.read_u16() {
        Ok(v) => v,
        Err(e) => { return Err(e) },
    };
    let descriptor_index = match reader.read_u16() {
        Ok(v) => v,
        Err(e) => { return Err(e) },
    };
    let attributes_count = match reader.read_u16() {
        Ok(v) => v,
        Err(e) => { return Err(e) },
    };
    let attributes = match load_attributes(attributes_count, reader, constant_pool) {
        Ok(v) => v,
        Err(e) => { return Err(e) },
    };
    Ok(FieldInfo { access_flags, name_index, descriptor_index, attributes_count, attributes })
}

/// Decodes `count` field_info records.
pub fn load_fields(count: u16, reader: &mut Reader<'_>, constant_pool: &Vec<ConstantKind>) -> (r:
    Result<Vec<FieldInfo>, DecodeError>)
    requires
        old(reader).wf(),
    ensures
        final(reader).wf(),
        final(reader).bytes() == old(reader).bytes(),
        match spec_fields(
            old(reader).bytes(),
            old(reader).position(),
            cp_view(constant_pool@),
            count as nat,
        ) {
            Ok((s, p)) => r is Ok && fields_view(r->Ok_0@) == s && final(reader).position() == p,
            Err(e) => r is Err && r->Err_0 == e,
        },
{
    let ghost d = reader.bytes();
    let ghost pos0 = reader.position();
    let ghost pool = cp_view(constant_pool@);

    let mut fields: Vec<FieldInfo> = Vec::new();
    proof {
        assert(fields_view(fields@) =~= Seq::<FieldModel>::empty());
        match spec_fields(d, pos0, pool, count as nat) {
            Ok((s, p)) => {
                assert(fields_view(fields@) + s =~= s);
            },
            Err(_) => {},
        }
    }
    let mut i: u16 = 0;
    while i < count
        invariant
            d == old(reader).bytes(),
            pos0 == old(reader).position(),
            pool == cp_view(constant_pool@),
            i <= count,
            reader.wf(),
            reader.bytes() == d,
            fields@.len() == i as int,
            match spec_fields(d, reader.position(), pool, (count - i) as nat) {
                Ok((s, p)) => spec_fields(d, pos0, pool, count as nat) == Ok::<
                    (Seq<FieldModel>, int),
                    DecodeError,
                >((fields_view(fields@) + s, p)),
                Err(e) => spec_fields(d, pos0, pool, count as nat) == Err::<
                    (Seq<FieldModel>, int),
                    DecodeError,
                >(e),
            },
        decreases count - i,
    {
        let ghost pre = fields@;
        let f = match load_field(reader, constant_pool) {
            Ok(f) => f,
            Err(e) => { return Err(e) },
        };
        fields.push(f);
        i = i + 1;
        proof {
            assert(fields_view(fields@) =~= fields_view(pre) + seq![f@]);
            match spec_fields(d, reader.position(), pool, (count - i) as nat) {
                Ok((s, p)) => {
                    assert(fields_view(pre) + (seq![f@] + s) =~= fields_view(fields@) + s);
                },
                Err(_) => {},
            }
        }
    }
    proof {
        match spec_fields(d, pos0, pool, count as nat) {
            Ok((s, p)) => {
                assert(fields_view(fields@) + Seq::<FieldModel>::empty() =~= fields_view(fields@));
            },
            Err(_) => {},
        }
    }
    Ok(fields)
}

} // verus!
