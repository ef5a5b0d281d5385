//! method_info records and their decoder.
//!
//! Each record is access flags, a name index, a descriptor index, and
//! its own attribute list. The attribute count handed to the attribute
//! decoder is the record's own just-read `attributes_count`, never the
//! outer record count: anything else would misalign the stream on any
//! class with more than one method or a nonzero attribute count.

use vstd::prelude::*;

use crate::attribute_info::AttributeKind;
use crate::attribute_info::AttributeModel;
use crate::attribute_info::attrs_view;
use crate::attribute_info::load_attributes;
use crate::attribute_info::lemma_load_attributes_errors;
use crate::attribute_info::lemma_load_attributes_prefix;
use crate::attribute_info::spec_load_attributes;
use crate::constant_pool::ConstantKind;
use crate::constant_pool::ConstantModel;
use crate::constant_pool::cp_view;
use crate::error::DecodeError;
use crate::error::is_header_error;
use crate::reader::Reader;
use crate::reader::u16_be;

verus! {

/// One method of a class.
#[derive(Debug)]
pub struct MethodInfo {
    pub access_flags: u16,
    pub name_index: u16,
    pub descriptor_index: u16,
    pub attributes_count: u16,
    pub attributes: Vec<AttributeKind>,
}

/// The mathematical value of one method.
#[verifier::ext_equal]
pub struct MethodModel {
    pub access_flags: u16,
    pub name_index: u16,
    pub descriptor_index: u16,
    pub attributes_count: u16,
    pub attributes: Seq<AttributeModel>,
}

impl View for MethodInfo {
    type V = MethodModel;

    open spec fn view(&self) -> MethodModel {
        MethodModel {
            access_flags: self.access_flags,
            name_index: self.name_index,
            descriptor_index: self.descriptor_index,
            attributes_count: self.attributes_count,
            attributes: attrs_view(self.attributes@),
        }
    }
}

/// The models of a sequence of methods.
pub open spec fn methods_view(s: Seq<MethodInfo>) -> Seq<MethodModel> {
    s.map_values(|f: MethodInfo| f@)
}

/// One method_info record decoded at `pos`: four 16-bit fields, then
/// the record's own attributes.
pub open spec fn spec_method(d: Seq<u8>, pos: int, pool: Seq<ConstantModel>) -> Result<
    (MethodModel, int),
    DecodeError,
> {
    if pos + 8 > d.len() {
        Err(DecodeError::UnexpectedEof)
    } else {
        let attributes_count = u16_be(d, pos + 6);
        match spec_load_attributes(d, pos + 8, pool, attributes_count as nat) {
            Err(e) => Err(e),
            Ok((attrs, p)) => Ok(
                (
                    MethodModel {
                        access_flags: u16_be(d, pos),
                        name_index: u16_be(d, pos + 2),
                        descriptor_index: u16_be(d, pos + 4),
                        attributes_count,
                        attributes: attrs,
                    },
                    p,
                ),
            ),
        }
    }
}

/// `n` consecutive method_info records decoded at `pos`.
pub open spec fn spec_methods(d: Seq<u8>, pos: int, pool: Seq<ConstantModel>, n: nat) -> Result<
    (Seq<MethodModel>, int),
    DecodeError,
>
    decreases n,
{
    if n == 0 {
        Ok((Seq::empty(), pos))
    } else {
        match spec_method(d, pos, pool) {
            Err(e) => Err(e),
            Ok((f, p2)) => match spec_methods(d, p2, pool, (n - 1) as nat) {
                Err(e) => Err(e),
                Ok((s, p3)) => Ok((seq![f] + s, p3)),
            },
        }
    }
}

/// A failed method decode never reports a header failure.
proof fn lemma_method_errors(d: Seq<u8>, pos: int, pool: Seq<ConstantModel>)
    ensures
        spec_method(d, pos, pool) matches Err(e) ==> !is_header_error(e),
{
    if pos + 8 <= d.len() {
        lemma_load_attributes_errors(d, pos + 8, pool, u16_be(d, pos + 6) as nat);
    }
}

/// A failed method-list decode never reports a header failure.
pub proof fn lemma_methods_errors(d: Seq<u8>, pos: int, pool: Seq<ConstantModel>, n: nat)
    ensures
        spec_methods(d, pos, pool, n) matches Err(e) ==> !is_header_error(e),
    decreases n,
{
    if n > 0 {
        lemma_method_errors(d, pos, pool);
        match spec_method(d, pos, pool) {
            Ok((f, p2)) => {
                lemma_methods_errors(d, p2, pool, (n - 1) as nat);
            },
            Err(_) => {},
        }
    }
}

/// Truncation at the single-method level: a successful decode ends
/// within the buffer; truncating at or past that end changes nothing,
/// and truncating inside the record makes it fail with `UnexpectedEof`.
proof fn lemma_method_prefix(d: Seq<u8>, k: int, pos: int, pool: Seq<ConstantModel>)
    requires
        spec_method(d, pos, pool) is Ok,
        0 <= pos,
        0 <= k <= d.len(),
    ensures
        ({
            let (m, e) = spec_method(d, pos, pool)->Ok_0;
            &&& pos < e <= d.len()
            &&& (k >= e ==> spec_method(d.take(k), pos, pool) == spec_method(d, pos, pool))
            &&& (pos <= k < e ==> spec_method(d.take(k), pos, pool) == Err::<
                (MethodModel, int),
                DecodeError,
            >(DecodeError::UnexpectedEof))
        }),
{
    lemma_load_attributes_prefix(d, k, pos + 8, pool, u16_be(d, pos + 6) as nat);
}

/// Truncation at the method-list level: see `lemma_method_prefix`.
pub proof fn lemma_methods_prefix(d: Seq<u8>, k: int, pos: int, pool: Seq<ConstantModel>, n: nat)
    requires
        spec_methods(d, pos, pool, n) is Ok,
        0 <= pos <= d.len(),
        0 <= k <= d.len(),
    ensures
        ({
            let (s, e) = spec_methods(d, pos, pool, n)->Ok_0;
            &&& pos <= e <= d.len()
            &&& (k >= e ==> spec_methods(d.take(k), pos, pool, n) == spec_methods(d, pos, pool, n))
            &&& (pos <= k < e ==> spec_methods(d.take(k), pos, pool, n) == Err::<
                (Seq<MethodModel>, int),
                DecodeError,
            >(DecodeError::UnexpectedEof))
        }),
    decreases n,
{
    if n > 0 {
        lemma_method_prefix(d, k, pos, pool);
        let (f, p2) = spec_method(d, pos, pool)->Ok_0;
        lemma_methods_prefix(d, k, p2, pool, (n - 1) as nat);
    }
}

/// Decodes one method_info record at the reader's position.
pub fn load_method(reader: &mut Reader<'_>, constant_pool: &Vec<ConstantKind>) -> (r: Result<
    MethodInfo,
    DecodeError,
>)
    requires
        old(reader).wf(),
    ensures
        final(reader).wf(),
        final(reader).bytes() == old(reader).bytes(),
        match spec_method(old(reader).bytes(), old(reader).position(), cp_view(constant_pool@)) {
            Ok((m, p)) => r is Ok && r->Ok_0@ == m && final(reader).position() == p,
            Err(e) => r is Err && r->Err_0 == e,
        },
{
    let access_flags = match reader.read_u16() {
        Ok(v) => v,
        Err(e) => { return Err(e) },
    };
    let name_index = match reader.read_u16() {
        Ok(v) => v,
        Err(e) => { return Err(e) },
    };
    let descriptor_index = match reader.read_u16() {
        Ok(v) => v,
        Err(e) => { return Err(e) },
    };
    let attributes_count = match reader.read_u16() {
        Ok(v) => v,
        Err(e) => { return Err(e) },
    };
    let attributes = match load_attributes(attributes_count, reader, constant_pool) {
        Ok(v) => v,
        Err(e) => { return Err(e) },
    };
    Ok(MethodInfo { access_flags, name_index, descriptor_index, attributes_count, attributes })
}

/// Decodes `count` method_info records.
pub fn load_methods(count: u16, reader: &mut Reader<'_>, constant_pool: &Vec<ConstantKind>) -> (r:
    Result<Vec<MethodInfo>, DecodeError>)
    requires
        old(reader).wf(),
    ensures
        final(reader).wf(),
        final(reader).bytes() == old(reader).bytes(),
        match spec_methods(
            old(reader).bytes(),
            old(reader).position(),
            cp_view(constant_pool@),
            count as nat,
        ) {
            Ok((s, p)) => r is Ok && methods_view(r->Ok_0@) == s && final(reader).position() == p,
            Err(e) => r is Err && r->Err_0 == e,
        },
{
    let ghost d = reader.bytes();
    let ghost pos0 = reader.position();
    let ghost pool = cp_view(constant_pool@);

    let mut methods: Vec<MethodInfo> = Vec::new();
    proof {
        assert(methods_view(methods@) =~= Seq::<MethodModel>::empty());
        match spec_methods(d, pos0, pool, count as nat) {
            Ok((s, p)) => {
                assert(methods_view(methods@) + s =~= s);
            },
            Err(_) => {},
        }
    }
    let mut i: u16 = 0;
    while i < count
        invariant
            d == old(reader).bytes(),
            pos0 == old(reader).position(),
            pool == cp_view(constant_pool@),
            i <= count,
            reader.wf(),
            reader.bytes() == d,
            methods@.len() == i as int,
            match spec_methods(d, reader.position(), pool, (count - i) as nat) {
                Ok((s, p)) => spec_methods(d, pos0, pool, count as nat) == Ok::<
                    (Seq<MethodModel>, int),
                    DecodeError,
                >((methods_view(methods@) + s, p)),
                Err(e) => spec_methods(d, pos0, pool, count as nat) == Err::<
                    (Seq<MethodModel>, int),
                    DecodeError,
                >(e),
            },
        decreases count - i,
    {
        let ghost pre = methods@;
        let f = match load_method(reader, constant_pool) {
            Ok(f) => f,
            Err(e) => { return Err(e) },
        };
        methods.push(f);
        i = i + 1;
        proof {
            assert(methods_view(methods@) =~= methods_view(pre) + seq![f@]);
            match spec_methods(d, reader.position(), pool, (count - i) as nat) {
                Ok((s, p)) => {
                    assert(methods_view(pre) + (seq![f@] + s) =~= methods_view(methods@) + s);
                },
                Err(_) => {},
            }
        }
    }
    proof {
        match spec_methods(d, pos0, pool, count as nat) {
            Ok((s, p)) => {
                assert(methods_view(methods@) + Seq::<MethodModel>::empty() =~= methods_view(methods@));
            },
            Err(_) => {},
        }
    }
    Ok(methods)
}

} // verus!
