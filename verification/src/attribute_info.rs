//! Named, length-prefixed attribute blocks and their recursive decoder.
//!
//! For each attribute the decoder reads a `u16` name index, resolves it
//! against the constant pool (it must be a `Utf8` entry), reads a `u32`
//! declared length, and dispatches on the resolved name. `"Code"` is
//! decoded structurally, including its exception table and its own
//! nested attribute list; every other name is kept as an opaque
//! `Skipped` marker and its payload is skipped by the declared length,
//! which preserves stream alignment whether or not the attribute's
//! internal shape is understood.
//!
//! Nesting is bounded by an explicit recursion budget,
//! `ATTRIBUTE_DEPTH_LIMIT`: a crafted input with `Code` attributes
//! nested deeper than the budget fails with `NestingTooDeep` instead of
//! exhausting the call stack.

use vstd::prelude::*;

use crate::constant_pool::ConstantKind;
use crate::constant_pool::ConstantModel;
use crate::constant_pool::cp_view;
use crate::error::CONSTANT_UTF8_TAG;
use crate::error::DecodeError;
use crate::error::is_header_error;
use crate::reader::Reader;
use crate::reader::u16_be;
use crate::reader::u32_be;

verus! {

/// How deep `Code` attributes may nest before the decoder refuses the
/// input with `NestingTooDeep`.
pub const ATTRIBUTE_DEPTH_LIMIT: u32 = 64;

/// What every attribute carries: its name index and declared length.
#[derive(Debug, Clone, PartialEq, Eq, Structural)]
pub struct AttributeInfoBase {
    pub attribute_name_index: u16,
    pub attribute_length: u32,
}

/// A `ConstantValue` attribute.
#[derive(Debug, Clone)]
pub struct ConstantValueAttribute {
    pub base: AttributeInfoBase,
    pub constant_value_index: u16,
}

/// A `Code` attribute: stack and local sizing, the raw bytecode (kept
/// opaque, not interpreted), the exception table, and its own nested
/// attributes.
#[derive(Debug)]
pub struct CodeAttribute {
    pub base: AttributeInfoBase,
    pub max_stack: u16,
    pub max_locals: u16,
    pub code_length: u32,
    pub code: Vec<u8>,
    pub exception_table_length: u16,
    pub exception_table: Vec<ExceptionTableEntry>,
    pub attributes_count: u16,
    pub attributes: Vec<AttributeKind>,
}

/// One exception-table record: a bytecode range, its handler, and the
/// catch type (a constant-pool index, or 0 meaning "catch all").
#[derive(Debug, Clone, PartialEq, Eq, Structural)]
pub struct ExceptionTableEntry {
    pub start_pc: u16,
    pub end_pc: u16,
    pub handler_pc: u16,
    pub catch_type: u16,
}

/// A `StackMapTable` attribute.
#[derive(Debug, Clone)]
pub struct StackMapTableAttribute {
    pub base: AttributeInfoBase,
    pub number_of_entries: u16,
    pub entries: Vec<StackMapFrame>,
}

/// One stack-map frame, holding each of the frame shapes.
#[derive(Debug, Clone)]
pub struct StackMapFrame {
    pub frame_type: u8,
    pub same_frame: SameFrame,
    pub same_locals_1_stack_item_frame: SameLocals1StackItemFrame,
    pub same_locals_1_stack_item_frame_extended: SameLocals1StackItemFrameExtended,
    pub chop_frame: ChopFrame,
    pub same_frame_extended: SameFrameExtended,
    pub append_frame: AppendFrame,
    pub full_frame: FullFrame,
}

/// The frame shape that repeats the previous frame.
#[derive(Debug, Clone, PartialEq, Eq, Structural)]
pub struct SameFrame {
    pub frame_type: u8,
}

/// One verification-type record of a stack-map frame.
#[derive(Debug, Clone, PartialEq, Eq, Structural)]
pub struct VerificationTypeInfo {
    pub tag: u8,
    pub value: u16,
}

/// The frame shape with one stack item.
#[derive(Debug, Clone, PartialEq, Eq, Structural)]
pub struct SameLocals1StackItemFrame {
    pub frame_type: u8,
    pub stack: VerificationTypeInfo,
}

/// The frame shape with one stack item and an explicit offset delta.
#[derive(Debug, Clone, PartialEq, Eq, Structural)]
pub struct SameLocals1StackItemFrameExtended {
    pub frame_type: u8,
    pub offset_delta: u16,
    pub stack: VerificationTypeInfo,
}

/// The frame shape that chops locals.
#[derive(Debug, Clone, PartialEq, Eq, Structural)]
pub struct ChopFrame {
    pub frame_type: u8,
    pub offset_delta: u16,
}

/// The frame shape that repeats the previous frame with an explicit
/// offset delta.
#[derive(Debug, Clone, PartialEq, Eq, Structural)]
pub struct SameFrameExtended {
    pub frame_type: u8,
    pub offset_delta: u16,
}

/// The frame shape that appends locals.
#[derive(Debug, Clone)]
pub struct AppendFrame {
    pub frame_type: u8,
    pub offset_delta: u16,
    pub locals: Vec<VerificationTypeInfo>,
}

/// The frame shape that lists all locals and stack items.
#[derive(Debug, Clone)]
pub struct FullFrame {
    pub frame_type: u8,
    pub offset_delta: u16,
    pub number_of_locals: u16,
    pub locals: Vec<VerificationTypeInfo>,
    pub number_of_stack_items: u16,
    pub stack: Vec<VerificationTypeInfo>,
}

/// A `BootstrapMethods` attribute.
#[derive(Debug, Clone)]
pub struct BootstrapMethodsAttribute {
    pub base: AttributeInfoBase,
    pub num_bootstrap_methods: u16,
    pub bootstrap_methods: Vec<BootstrapMethod>,
}

/// One bootstrap-method record.
#[derive(Debug, Clone)]
pub struct BootstrapMethod {
    pub bootstrap_method_ref: u16,
    pub num_bootstrap_arguments: u16,
    pub bootstrap_arguments: Vec<u16>,
}

/// A `NestHost` attribute.
#[derive(Debug, Clone, PartialEq, Eq, Structural)]
pub struct NestHostAttribute {
    pub base: AttributeInfoBase,
    pub host_class_index: u16,
}

/// A `NestMembers` attribute.
#[derive(Debug, Clone)]
pub struct NestMembersAttribute {
    pub base: AttributeInfoBase,
    pub number_of_classes: u16,
    pub classes: Vec<u16>,
}

/// A `PermittedSubclasses` attribute.
#[derive(Debug, Clone)]
pub struct PermittedSubclassesAttribute {
    pub base: AttributeInfoBase,
    pub number_of_classes: u16,
    pub classes: Vec<u16>,
}

/// One attribute: a known kind, or the opaque `Skipped` marker kept for
/// any attribute name the decoder does not understand.
#[derive(Debug)]
pub enum AttributeKind {
    ConstantValue(ConstantValueAttribute),
    Code(CodeAttribute),
    StackMapTable(StackMapTableAttribute),
    BootstrapMethods(BootstrapMethodsAttribute),
    NestHost(NestHostAttribute),
    NestMembers(NestMembersAttribute),
    PermittedSubclasses(PermittedSubclassesAttribute),
    Skipped(AttributeInfoBase),
}

/// The mathematical value of an `AppendFrame`.
#[verifier::ext_equal]
pub struct AppendFrameModel {
    pub frame_type: u8,
    pub offset_delta: u16,
    pub locals: Seq<VerificationTypeInfo>,
}

/// The mathematical value of a `FullFrame`.
#[verifier::ext_equal]
pub struct FullFrameModel {
    pub frame_type: u8,
    pub offset_delta: u16,
    pub number_of_locals: u16,
    pub locals: Seq<VerificationTypeInfo>,
    pub number_of_stack_items: u16,
    pub stack: Seq<VerificationTypeInfo>,
}

/// The mathematical value of a `StackMapFrame`.
#[verifier::ext_equal]
pub struct StackMapFrameModel {
    pub frame_type: u8,
    pub same_frame: SameFrame,
    pub same_locals_1_stack_item_frame: SameLocals1StackItemFrame,
    pub same_locals_1_stack_item_frame_extended: SameLocals1StackItemFrameExtended,
    pub chop_frame: ChopFrame,
    pub same_frame_extended: SameFrameExtended,
    pub append_frame: AppendFrameModel,
    pub full_frame: FullFrameModel,
}

/// The mathematical value of a `BootstrapMethod`.
#[verifier::ext_equal]
pub struct BootstrapMethodModel {
    pub bootstrap_method_ref: u16,
    pub num_bootstrap_arguments: u16,
    pub bootstrap_arguments: Seq<u16>,
}

/// The mathematical value of one attribute.
#[verifier::ext_equal]
pub enum AttributeModel {
    ConstantValue { name_index: u16, length: u32, constant_value_index: u16 },
    Code {
        name_index: u16,
        length: u32,
        max_stack: u16,
        max_locals: u16,
        code_length: u32,
        code: Seq<u8>,
        exception_table_length: u16,
        exception_table: Seq<ExceptionTableEntry>,
        attributes_count: u16,
        attributes: Seq<AttributeModel>,
    },
    StackMapTable { name_index: u16, length: u32, number_of_entries: u16, entries: Seq<
        StackMapFrameModel,
    > },
    BootstrapMethods { name_index: u16, length: u32, num_bootstrap_methods: u16, bootstrap_methods: Seq<
        BootstrapMethodModel,
    > },
    NestHost { name_index: u16, length: u32, host_class_index: u16 },
    NestMembers { name_index: u16, length: u32, number_of_classes: u16, classes: Seq<u16> },
    PermittedSubclasses { name_index: u16, length: u32, number_of_classes: u16, classes: Seq<u16> },
    Skipped { name_index: u16, length: u32 },
}

/// The model of an `AppendFrame`.
pub open spec fn append_frame_view(f: AppendFrame) -> AppendFrameModel {
    AppendFrameModel { frame_type: f.frame_type, offset_delta: f.offset_delta, locals: f.locals@ }
}

/// The model of a `FullFrame`.
pub open spec fn full_frame_view(f: FullFrame) -> FullFrameModel {
    FullFrameModel {
        frame_type: f.frame_type,
        offset_delta: f.offset_delta,
        number_of_locals: f.number_of_locals,
        locals: f.locals@,
        number_of_stack_items: f.number_of_stack_items,
        stack: f.stack@,
    }
}

/// The model of a `StackMapFrame`.
pub open spec fn frame_view(f: StackMapFrame) -> StackMapFrameModel {
    StackMapFrameModel {
        frame_type: f.frame_type,
        same_frame: f.same_frame,
        same_locals_1_stack_item_frame: f.same_locals_1_stack_item_frame,
        same_locals_1_stack_item_frame_extended: f.same_locals_1_stack_item_frame_extended,
        chop_frame: f.chop_frame,
        same_frame_extended: f.same_frame_extended,
        append_frame: append_frame_view(f.append_frame),
        full_frame: full_frame_view(f.full_frame),
    }
}

/// The model of a `BootstrapMethod`.
pub open spec fn bootstrap_method_view(m: BootstrapMethod) -> BootstrapMethodModel {
    BootstrapMethodModel {
        bootstrap_method_ref: m.bootstrap_method_ref,
        num_bootstrap_arguments: m.num_bootstrap_arguments,
        bootstrap_arguments: m.bootstrap_arguments@,
    }
}

/// The model of one attribute. Recursive through the nested attribute
/// list of a `Code` attribute.
pub open spec fn attr_view(a: AttributeKind) -> AttributeModel
    decreases a,
{
    match a {
        AttributeKind::ConstantValue(c) => AttributeModel::ConstantValue {
            name_index: c.base.attribute_name_index,
            length: c.base.attribute_length,
            constant_value_index: c.constant_value_index,
        },
        AttributeKind::Code(c) => AttributeModel::Code {
            name_index: c.base.attribute_name_index,
            length: c.base.attribute_length,
            max_stack: c.max_stack,
            max_locals: c.max_locals,
            code_length: c.code_length,
            code: c.code@,
            exception_table_length: c.exception_table_length,
            exception_table: c.exception_table@,
            attributes_count: c.attributes_count,
            attributes: attrs_view(c.attributes@),
        },
        AttributeKind::StackMapTable(c) => AttributeModel::StackMapTable {
            name_index: c.base.attribute_name_index,
            length: c.base.attribute_length,
            number_of_entries: c.number_of_entries,
            entries: c.entries@.map_values(|f: StackMapFrame| frame_view(f)),
        },
        AttributeKind::BootstrapMethods(c) => AttributeModel::BootstrapMethods {
            name_index: c.base.attribute_name_index,
            length: c.base.attribute_length,
            num_bootstrap_methods: c.num_bootstrap_methods,
            bootstrap_methods: c.bootstrap_methods@.map_values(
                |m: BootstrapMethod| bootstrap_method_view(m),
            ),
        },
        AttributeKind::NestHost(c) => AttributeModel::NestHost {
            name_index: c.base.attribute_name_index,
            length: c.base.attribute_length,
            host_class_index: c.host_class_index,
        },
        AttributeKind::NestMembers(c) => AttributeModel::NestMembers {
            name_index: c.base.attribute_name_index,
            length: c.base.attribute_length,
            number_of_classes: c.number_of_classes,
            classes: c.classes@,
        },
        AttributeKind::PermittedSubclasses(c) => AttributeModel::PermittedSubclasses {
            name_index: c.base.attribute_name_index,
            length: c.base.attribute_length,
            number_of_classes: c.number_of_classes,
            classes: c.classes@,
        },
        AttributeKind::Skipped(b) => AttributeModel::Skipped {
            name_index: b.attribute_name_index,
            length: b.attribute_length,
        },
    }
}

/// The models of a sequence of attributes.
pub open spec fn attrs_view(s: Seq<AttributeKind>) -> Seq<AttributeModel>
    decreases s,
{
    Seq::new(
        s.len(),
        |i: int|
            if 0 <= i < s.len() {
                attr_view(s[i])
            } else {
                AttributeModel::Skipped { name_index: 0, length: 0 }
            },
    )
}

impl View for AttributeKind {
    type V = AttributeModel;

    open spec fn view(&self) -> AttributeModel {
        attr_view(*self)
    }
}

/// `n` consecutive exception-table records decoded at `pos`, each four
/// 16-bit fields: start_pc, end_pc, handler_pc, catch_type.
pub open spec fn spec_exception_table(d: Seq<u8>, pos: int, n: nat) -> Result<
    (Seq<ExceptionTableEntry>, int),
    DecodeError,
>
    decreases n,
{
    if n == 0 {
        Ok((Seq::empty(), pos))
    } else if pos + 8 > d.len() {
        Err(DecodeError::UnexpectedEof)
    } else {
        let entry = ExceptionTableEntry {
            start_pc: u16_be(d, pos),
            end_pc: u16_be(d, pos + 2),
            handler_pc: u16_be(d, pos + 4),
            catch_type: u16_be(d, pos + 6),
        };
        match spec_exception_table(d, pos + 8, (n - 1) as nat) {
            Err(e) => Err(e),
            Ok((s, p)) => Ok((seq![entry] + s, p)),
        }
    }
}

/// One attribute decoded at `pos`: read the name index, resolve it
/// against the pool (it must address a `Utf8` entry), read the declared
/// length, then either decode a `Code` attribute structurally or skip
/// exactly the declared length and keep a `Skipped` marker.
pub open spec fn spec_attribute(d: Seq<u8>, pos: int, pool: Seq<ConstantModel>, depth: nat) -> Result<
    (AttributeModel, int),
    DecodeError,
>
    decreases depth, 0nat, 1nat,
{
    if pos + 2 > d.len() {
        Err(DecodeError::UnexpectedEof)
    } else {
        let ni = u16_be(d, pos);
        if ni as int >= pool.len() {
            Err(DecodeError::InvalidConstantPoolReference(ni, CONSTANT_UTF8_TAG))
        } else {
            match pool[ni as int] {
                ConstantModel::Utf8 { length: _, text } => {
                    if pos + 6 > d.len() {
                        Err(DecodeError::UnexpectedEof)
                    } else {
                        let alen = u32_be(d, pos + 2);
                        if text == "Code"@ {
                            spec_code_attribute(d, pos, ni, alen, pool, depth)
                        } else {
                            if pos + 6 + alen > d.len() {
                                Err(DecodeError::UnexpectedEof)
                            } else {
                                Ok(
                                    (
                                        AttributeModel::Skipped { name_index: ni, length: alen },
                                        pos + 6 + alen,
                                    ),
                                )
                            }
                        }
                    }
                },
                _ => Err(DecodeError::InvalidConstantPoolReference(ni, CONSTANT_UTF8_TAG)),
            }
        }
    }
}

/// The body of a `Code` attribute whose header starts at `pos`: sizing,
/// the raw bytecode run, the exception table, and the nested attribute
/// list, decoded with one level of recursion budget spent. A budget of
/// zero refuses the input before any of the body is read.
pub open spec fn spec_code_attribute(
    d: Seq<u8>,
    pos: int,
    ni: u16,
    alen: u32,
    pool: Seq<ConstantModel>,
    depth: nat,
) -> Result<(AttributeModel, int), DecodeError>
    decreases depth, 0nat, 0nat,
{
    let p = pos + 6;
    if depth == 0 {
        Err(DecodeError::NestingTooDeep)
    } else if p + 8 > d.len() {
        Err(DecodeError::UnexpectedEof)
    } else {
        let max_stack = u16_be(d, p);
        let max_locals = u16_be(d, p + 2);
        let clen = u32_be(d, p + 4);
        if p + 8 + clen > d.len() {
            Err(DecodeError::UnexpectedEof)
        } else {
            let code = d.subrange(p + 8, p + 8 + clen);
            let q0 = p + 8 + clen;
            if q0 + 2 > d.len() {
                Err(DecodeError::UnexpectedEof)
            } else {
                let etl = u16_be(d, q0);
                match spec_exception_table(d, q0 + 2, etl as nat) {
                    Err(e) => Err(e),
                    Ok((table, q1)) => {
                        if q1 + 2 > d.len() {
                            Err(DecodeError::UnexpectedEof)
                        } else {
                            let ac = u16_be(d, q1);
                            match spec_attributes(d, q1 + 2, pool, ac as nat, (depth - 1) as nat) {
                                Err(e) => Err(e),
                                Ok((nested, q2)) => Ok(
                                    (
                                        AttributeModel::Code {
                                            name_index: ni,
                                            length: alen,
                                            max_stack,
                                            max_locals,
                                            code_length: clen,
                                            code,
                                            exception_table_length: etl,
                                            exception_table: table,
                                            attributes_count: ac,
                                            attributes: nested,
                                        },
                                        q2,
                                    ),
                                ),
                            }
                        }
                    },
                }
            }
        }
    }
}

/// `n` consecutive attributes decoded at `pos`.
pub open spec fn spec_attributes(
    d: Seq<u8>,
    pos: int,
    pool: Seq<ConstantModel>,
    n: nat,
    depth: nat,
) -> Result<(Seq<AttributeModel>, int), DecodeError>
    decreases depth, n, 2nat,
{
    if n == 0 {
        Ok((Seq::empty(), pos))
    } else {
        match spec_attribute(d, pos, pool, depth) {
            Err(e) => Err(e),
            Ok((a, p2)) => match spec_attributes(d, p2, pool, (n - 1) as nat, depth) {
                Err(e) => Err(e),
                Ok((s, p3)) => Ok((seq![a] + s, p3)),
            },
        }
    }
}

/// `n` attributes decoded with the full recursion budget: what the
/// class, field and method decoders invoke.
pub open spec fn spec_load_attributes(d: Seq<u8>, pos: int, pool: Seq<ConstantModel>, n: nat) -> Result<
    (Seq<AttributeModel>, int),
    DecodeError,
> {
    spec_attributes(d, pos, pool, n, ATTRIBUTE_DEPTH_LIMIT as nat)
}

/// Skipping is exact: an attribute whose name resolves to a `Utf8`
/// entry other than `"Code"`, with its declared payload present,
/// decodes to its `Skipped` marker and leaves the position exactly six
/// header bytes plus the declared length past where it began — so the
/// next attribute is read from the right place whether or not this one
/// was understood.
pub proof fn lemma_skip_preserves_alignment(
    d: Seq<u8>,
    pos: int,
    pool: Seq<ConstantModel>,
    depth: nat,
)
    requires
        pos + 6 <= d.len(),
        (u16_be(d, pos) as int) < pool.len(),
        pool[u16_be(d, pos) as int] matches ConstantModel::Utf8 { text, .. } && text != "Code"@,
        pos + 6 + u32_be(d, pos + 2) <= d.len(),
    ensures
        spec_attribute(d, pos, pool, depth) == Ok::<(AttributeModel, int), DecodeError>(
            (
                AttributeModel::Skipped { name_index: u16_be(d, pos), length: u32_be(d, pos + 2) },
                pos + 6 + u32_be(d, pos + 2),
            ),
        ),
{
}

/// A failed exception-table decode reports only an exhausted buffer.
proof fn lemma_exception_table_errors(d: Seq<u8>, pos: int, n: nat)
    ensures
        spec_exception_table(d, pos, n) matches Err(e) ==> e == DecodeError::UnexpectedEof,
    decreases n,
{
    if n > 0 && pos + 8 <= d.len() {
        lemma_exception_table_errors(d, pos + 8, (n - 1) as nat);
    }
}

/// A failed attribute decode never reports a header failure.
proof fn lemma_attribute_errors(d: Seq<u8>, pos: int, pool: Seq<ConstantModel>, depth: nat)
    ensures
        spec_attribute(d, pos, pool, depth) matches Err(e) ==> !is_header_error(e),
    decreases depth, 0nat, 1nat,
{
    if pos + 6 <= d.len() {
        let ni = u16_be(d, pos);
        if (ni as int) < pool.len() {
            match pool[ni as int] {
                ConstantModel::Utf8 { length: _, text } => {
                    if text == "Code"@ {
                        lemma_code_attribute_errors(d, pos, ni, u32_be(d, pos + 2), pool, depth);
                    }
                },
                _ => {},
            }
        }
    }
}

/// A failed `Code` attribute decode never reports a header failure.
proof fn lemma_code_attribute_errors(
    d: Seq<u8>,
    pos: int,
    ni: u16,
    alen: u32,
    pool: Seq<ConstantModel>,
    depth: nat,
)
    ensures
        spec_code_attribute(d, pos, ni, alen, pool, depth) matches Err(e) ==> !is_header_error(e),
    decreases depth, 0nat, 0nat,
{
    let p = pos + 6;
    if depth > 0 && p + 8 <= d.len() {
        let clen = u32_be(d, p + 4);
        if p + 8 + clen <= d.len() {
            let q0 = p + 8 + clen;
            if q0 + 2 <= d.len() {
                let etl = u16_be(d, q0);
                lemma_exception_table_errors(d, q0 + 2, etl as nat);
                match spec_exception_table(d, q0 + 2, etl as nat) {
                    Ok((table, q1)) => {
                        if q1 + 2 <= d.len() {
                            lemma_attributes_errors(
                                d,
                                q1 + 2,
                                pool,
                                u16_be(d, q1) as nat,
                                (depth - 1) as nat,
                            );
                        }
                    },
                    Err(_) => {},
                }
            }
        }
    }
}

/// A failed attribute-list decode never reports a header failure.
proof fn lemma_attributes_errors(
    d: Seq<u8>,
    pos: int,
    pool: Seq<ConstantModel>,
    n: nat,
    depth: nat,
)
    ensures
        spec_attributes(d, pos, pool, n, depth) matches Err(e) ==> !is_header_error(e),
    decreases depth, n, 2nat,
{
    if n > 0 {
        lemma_attribute_errors(d, pos, pool, depth);
        match spec_attribute(d, pos, pool, depth) {
            Ok((a, p2)) => {
                lemma_attributes_errors(d, p2, pool, (n - 1) as nat, depth);
            },
            Err(_) => {},
        }
    }
}

/// A failed attribute-list decode at the full budget never reports a
/// header failure.
pub proof fn lemma_load_attributes_errors(d: Seq<u8>, pos: int, pool: Seq<ConstantModel>, n: nat)
    ensures
        spec_load_attributes(d, pos, pool, n) matches Err(e) ==> !is_header_error(e),
{
    lemma_attributes_errors(d, pos, pool, n, ATTRIBUTE_DEPTH_LIMIT as nat);
}

/// Truncation at the exception-table level: a successful decode ends
/// within the buffer; truncating at or past that end changes nothing,
/// and truncating inside the table makes it fail with `UnexpectedEof`.
proof fn lemma_exception_table_prefix(d: Seq<u8>, k: int, pos: int, n: nat)
    requires
        spec_exception_table(d, pos, n) is Ok,
        0 <= pos <= d.len(),
        0 <= k <= d.len(),
    ensures
        ({
            let (s, e) = spec_exception_table(d, pos, n)->Ok_0;
            &&& pos <= e <= d.len()
            &&& (k >= e ==> spec_exception_table(d.take(k), pos, n) == spec_exception_table(
                d,
                pos,
                n,
            ))
            &&& (pos <= k < e ==> spec_exception_table(d.take(k), pos, n) == Err::<
                (Seq<ExceptionTableEntry>, int),
                DecodeError,
            >(DecodeError::UnexpectedEof))
        }),
    decreases n,
{
    if n > 0 {
        lemma_exception_table_prefix(d, k, pos + 8, (n - 1) as nat);
    }
}

/// Truncation at the single-attribute level: see
/// `lemma_exception_table_prefix`.
proof fn lemma_attribute_prefix(d: Seq<u8>, k: int, pos: int, pool: Seq<ConstantModel>, depth: nat)
    requires
        spec_attribute(d, pos, pool, depth) is Ok,
        0 <= pos,
        0 <= k <= d.len(),
    ensures
        ({
            let (m, e) = spec_attribute(d, pos, pool, depth)->Ok_0;
            &&& pos < e <= d.len()
            &&& (k >= e ==> spec_attribute(d.take(k), pos, pool, depth) == spec_attribute(
                d,
                pos,
                pool,
                depth,
            ))
            &&& (pos <= k < e ==> spec_attribute(d.take(k), pos, pool, depth) == Err::<
                (AttributeModel, int),
                DecodeError,
            >(DecodeError::UnexpectedEof))
        }),
    decreases depth, 0nat, 1nat,
{
    let ni = u16_be(d, pos);
    match pool[ni as int] {
        ConstantModel::Utf8 { length: _, text } => {
            if text == "Code"@ {
                lemma_code_attribute_prefix(d, k, pos, ni, u32_be(d, pos + 2), pool, depth);
            }
        },
        _ => {},
    }
}

/// Truncation at the `Code`-attribute level: see
/// `lemma_exception_table_prefix`.
proof fn lemma_code_attribute_prefix(
    d: Seq<u8>,
    k: int,
    pos: int,
    ni: u16,
    alen: u32,
    pool: Seq<ConstantModel>,
    depth: nat,
)
    requires
        spec_code_attribute(d, pos, ni, alen, pool, depth) is Ok,
        0 <= pos,
        0 <= k <= d.len(),
    ensures
        ({
            let (m, e) = spec_code_attribute(d, pos, ni, alen, pool, depth)->Ok_0;
            &&& pos < e <= d.len()
            &&& (k >= e ==> spec_code_attribute(d.take(k), pos, ni, alen, pool, depth)
                == spec_code_attribute(d, pos, ni, alen, pool, depth))
            &&& (pos <= k < e ==> spec_code_attribute(d.take(k), pos, ni, alen, pool, depth)
                == Err::<(AttributeModel, int), DecodeError>(DecodeError::UnexpectedEof))
        }),
    decreases depth, 0nat, 0nat,
{
    let t = d.take(k);
    let p = pos + 6;
    let clen = u32_be(d, p + 4);
    let q0 = p + 8 + clen;
    let etl = u16_be(d, q0);
    lemma_exception_table_prefix(d, k, q0 + 2, etl as nat);
    let (table, q1) = spec_exception_table(d, q0 + 2, etl as nat)->Ok_0;
    let ac = u16_be(d, q1);
    lemma_attributes_prefix(d, k, q1 + 2, pool, ac as nat, (depth - 1) as nat);
    if k >= p + 8 + clen {
        assert(t.subrange(p + 8, p + 8 + clen) =~= d.subrange(p + 8, p + 8 + clen));
    }
}

/// Truncation at the attribute-list level: see
/// `lemma_exception_table_prefix`.
proof fn lemma_attributes_prefix(
    d: Seq<u8>,
    k: int,
    pos: int,
    pool: Seq<ConstantModel>,
    n: nat,
    depth: nat,
)
    requires
        spec_attributes(d, pos, pool, n, depth) is Ok,
        0 <= pos <= d.len(),
        0 <= k <= d.len(),
    ensures
        ({
            let (s, e) = spec_attributes(d, pos, pool, n, depth)->Ok_0;
            &&& pos <= e <= d.len()
            &&& (k >= e ==> spec_attributes(d.take(k), pos, pool, n, depth) == spec_attributes(
                d,
                pos,
                pool,
                n,
                depth,
            ))
            &&& (pos <= k < e ==> spec_attributes(d.take(k), pos, pool, n, depth) == Err::<
                (Seq<AttributeModel>, int),
                DecodeError,
            >(DecodeError::UnexpectedEof))
        }),
    decreases depth, n, 2nat,
{
    if n > 0 {
        lemma_attribute_prefix(d, k, pos, pool, depth);
        let (a, p2) = spec_attribute(d, pos, pool, depth)->Ok_0;
        lemma_attributes_prefix(d, k, p2, pool, (n - 1) as nat, depth);
    }
}

/// Truncation at the full-budget attribute-list level: see
/// `lemma_exception_table_prefix`.
pub proof fn lemma_load_attributes_prefix(
    d: Seq<u8>,
    k: int,
    pos: int,
    pool: Seq<ConstantModel>,
    n: nat,
)
    requires
        spec_load_attributes(d, pos, pool, n) is Ok,
        0 <= pos <= d.len(),
        0 <= k <= d.len(),
    ensures
        ({
            let (s, e) = spec_load_attributes(d, pos, pool, n)->Ok_0;
            &&& pos <= e <= d.len()
            &&& (k >= e ==> spec_load_attributes(d.take(k), pos, pool, n) == spec_load_attributes(
                d,
                pos,
                pool,
                n,
            ))
            &&& (pos <= k < e ==> spec_load_attributes(d.take(k), pos, pool, n) == Err::<
                (Seq<AttributeModel>, int),
                DecodeError,
            >(DecodeError::UnexpectedEof))
        }),
{
    lemma_attributes_prefix(d, k, pos, pool, n, ATTRIBUTE_DEPTH_LIMIT as nat);
}

/// Decodes the exception table of a `Code` attribute.
fn load_exception_table(count: u16, reader: &mut Reader<'_>) -> (r: Result<
    Vec<ExceptionTableEntry>,
    DecodeError,
>)
    requires
        old(reader).wf(),
    ensures
        final(reader).wf(),
        final(reader).bytes() == old(reader).bytes(),
        match spec_exception_table(old(reader).bytes(), old(reader).position(), count as nat) {
            Ok((s, p)) => r is Ok && r->Ok_0@ == s && final(reader).position() == p,
            Err(e) => r is Err && r->Err_0 == e,
        },
{
    let ghost d = reader.bytes();
    let ghost pos0 = reader.position();
    let mut table: Vec<ExceptionTableEntry> = Vec::new();
    let mut i: u16 = 0;
    while i < count
        invariant
            d == old(reader).bytes(),
            pos0 == old(reader).position(),
            i <= count,
            reader.wf(),
            reader.bytes() == d,
            table@.len() == i as int,
            match spec_exception_table(d, reader.position(), (count - i) as nat) {
                Ok((s, p)) => spec_exception_table(d, pos0, count as nat) == Ok::<
                    (Seq<ExceptionTableEntry>, int),
                    DecodeError,
                >((table@ + s, p)),
                Err(e) => spec_exception_table(d, pos0, count as nat) == Err::<
                    (Seq<ExceptionTableEntry>, int),
                    DecodeError,
                >(e),
            },
        decreases count - i,
    {
        let ghost pos_i = reader.position();
        let ghost pre = table@;
        let start_pc = match reader.read_u16() {
            Ok(v) => v,
            Err(e) => { return Err(e) },
        };
        let end_pc = match reader.read_u16() {
            Ok(v) => v,
            Err(e) => { return Err(e) },
        };
        let handler_pc = match reader.read_u16() {
            Ok(v) => v,
            Err(e) => { return Err(e) },
        };
        let catch_type = match reader.read_u16() {
            Ok(v) => v,
            Err(e) => { return Err(e) },
        };
        let entry = ExceptionTableEntry { start_pc, end_pc, handler_pc, catch_type };
        table.push(entry);
        i = i + 1;
        proof {
            match spec_exception_table(d, reader.position(), (count - i) as nat) {
                Ok((s, p)) => {
                    assert(pre + (seq![entry] + s) =~= table@ + s);
                },
                Err(_) => {},
            }
        }
    }
    proof {
        match spec_exception_table(d, pos0, count as nat) {
            Ok((s, p)) => {
                assert(table@ + Seq::<ExceptionTableEntry>::empty() =~= table@);
            },
            Err(_) => {},
        }
    }
    Ok(table)
}

/// Decodes one attribute at the reader's position, spending recursion
/// budget `depth` on any nested attribute list.
pub fn load_attribute(
    reader: &mut Reader<'_>,
    constant_pool: &Vec<ConstantKind>,
    depth: u32,
) -> (r: Result<AttributeKind, DecodeError>)
    requires
        old(reader).wf(),
    ensures
        final(reader).wf(),
        final(reader).bytes() == old(reader).bytes(),
        match spec_attribute(
            old(reader).bytes(),
            old(reader).position(),
            cp_view(constant_pool@),
            depth as nat,
        ) {
            Ok((m, p)) => r is Ok && r->Ok_0@ == m && final(reader).position() == p,
            Err(e) => r is Err && r->Err_0 == e,
        },
    decreases depth, 0nat,
{
    let ghost d = reader.bytes();
    let ghost pos0 = reader.position();
    let ghost pool = cp_view(constant_pool@);

    let attribute_name_index = match reader.read_u16() {
        Ok(v) => v,
        Err(e) => { return Err(e) },
    };
    if attribute_name_index as usize >= constant_pool.len() {
        return Err(
            DecodeError::InvalidConstantPoolReference(attribute_name_index, CONSTANT_UTF8_TAG),
        );
    }
    let is_code = match &constant_pool[attribute_name_index as usize] {
        ConstantKind::Utf8(u) => {
            let code_name: String = "Code".to_owned();
            u.text == code_name
        },
        _ => {
            return Err(
                DecodeError::InvalidConstantPoolReference(attribute_name_index, CONSTANT_UTF8_TAG),
            );
        },
    };
    let attribute_length = match reader.read_u32() {
        Ok(v) => v,
        Err(e) => { return Err(e) },
    };
    if is_code {
        if depth == 0 {
            return Err(DecodeError::NestingTooDeep);
        }
        let max_stack = match reader.read_u16() {
            Ok(v) => v,
            Err(e) => { return Err(e) },
        };
        let max_locals = match reader.read_u16() {
            Ok(v) => v,
            Err(e) => { return Err(e) },
        };
        let code_length = match reader.read_u32() {
            Ok(v) => v,
            Err(e) => { return Err(e) },
        };
        let code = match reader.read_bytes(code_length as usize) {
            Ok(v) => v,
            Err(e) => { return Err(e) },
        };
        let exception_table_length = match reader.read_u16() {
            Ok(v) => v,
            Err(e) => { return Err(e) },
        };
        let exception_table = match load_exception_table(exception_table_length, reader) {
            Ok(v) => v,
            Err(e) => { return Err(e) },
        };
        let attributes_count = match reader.read_u16() {
            Ok(v) => v,
            Err(e) => { return Err(e) },
        };
        let attributes = match load_attributes_bounded(
            attributes_count,
            reader,
            constant_pool,
            depth - 1,
        ) {
            Ok(v) => v,
            Err(e) => { return Err(e) },
        };
        Ok(
            AttributeKind::Code(
                CodeAttribute {
                    base: AttributeInfoBase { attribute_name_index, attribute_length },
                    max_stack,
                    max_locals,
                    code_length,
                    code,
                    exception_table_length,
                    exception_table,
                    attributes_count,
                    attributes,
                },
            ),
        )
    } else {
        match reader.skip(attribute_length as usize) {
            Ok(_) => {},
            Err(e) => { return Err(e) },
        }
        Ok(AttributeKind::Skipped(AttributeInfoBase { attribute_name_index, attribute_length }))
    }
}

/// Decodes `count` attributes with recursion budget `depth`.
pub fn load_attributes_bounded(
    count: u16,
    reader: &mut Reader<'_>,
    constant_pool: &Vec<ConstantKind>,
    depth: u32,
) -> (r: Result<Vec<AttributeKind>, DecodeError>)
    requires
        old(reader).wf(),
    ensures
        final(reader).wf(),
        final(reader).bytes() == old(reader).bytes(),
        match spec_attributes(
            old(reader).bytes(),
            old(reader).position(),
            cp_view(constant_pool@),
            count as nat,
            depth as nat,
        ) {
            Ok((s, p)) => r is Ok && attrs_view(r->Ok_0@) == s && final(reader).position() == p,
            Err(e) => r is Err && r->Err_0 == e,
        },
    decreases depth, 1nat,
{
    let ghost d = reader.bytes();
    let ghost pos0 = reader.position();
    let ghost pool = cp_view(constant_pool@);

    let mut attributes: Vec<AttributeKind> = Vec::new();
    proof {
        assert(attrs_view(attributes@) =~= Seq::<AttributeModel>::empty());
        match spec_attributes(d, pos0, pool, count as nat, depth as nat) {
            Ok((s, p)) => {
                assert(attrs_view(attributes@) + s =~= s);
            },
            Err(_) => {},
        }
    }
    let mut i: u16 = 0;
    while i < count
        invariant
            d == old(reader).bytes(),
            pos0 == old(reader).position(),
            pool == cp_view(constant_pool@),
            i <= count,
            reader.wf(),
            reader.bytes() == d,
            attributes@.len() == i as int,
            match spec_attributes(d, reader.position(), pool, (count - i) as nat, depth as nat) {
                Ok((s, p)) => spec_attributes(d, pos0, pool, count as nat, depth as nat) == Ok::<
                    (Seq<AttributeModel>, int),
                    DecodeError,
                >((attrs_view(attributes@) + s, p)),
                Err(e) => spec_attributes(d, pos0, pool, count as nat, depth as nat) == Err::<
                    (Seq<AttributeModel>, int),
                    DecodeError,
                >(e),
            },
        decreases count - i,
    {
        let ghost pos_i = reader.position();
        let ghost pre = attributes@;
        let a = match load_attribute(reader, constant_pool, depth) {
            Ok(a) => a,
            Err(e) => { return Err(e) },
        };
        attributes.push(a);
        i = i + 1;
        proof {
            assert(attrs_view(attributes@) =~= attrs_view(pre) + seq![a@]);
            match spec_attributes(d, reader.position(), pool, (count - i) as nat, depth as nat) {
                Ok((s, p)) => {
                    assert(attrs_view(pre) + (seq![a@] + s) =~= attrs_view(attributes@) + s);
                },
                Err(_) => {},
            }
        }
    }
    proof {
        match spec_attributes(d, pos0, pool, count as nat, depth as nat) {
            Ok((s, p)) => {
                assert(attrs_view(attributes@) + Seq::<AttributeModel>::empty() =~= attrs_view(
                    attributes@,
                ));
            },
            Err(_) => {},
        }
    }
    Ok(attributes)
}

/// Decodes `count` attributes with the full recursion budget: the entry
/// point used at the class, field and method level.
pub fn load_attributes(count: u16, reader: &mut Reader<'_>, constant_pool: &Vec<ConstantKind>) -> (r:
    Result<Vec<AttributeKind>, DecodeError>)
    requires
        old(reader).wf(),
    ensures
        final(reader).wf(),
        final(reader).bytes() == old(reader).bytes(),
        match spec_load_attributes(
            old(reader).bytes(),
            old(reader).position(),
            cp_view(constant_pool@),
            count as nat,
        ) {
            Ok((s, p)) => r is Ok && attrs_view(r->Ok_0@) == s && final(reader).position() == p,
            Err(e) => r is Err && r->Err_0 == e,
        },
{
    load_attributes_bounded(count, reader, constant_pool, ATTRIBUTE_DEPTH_LIMIT)
}

} // verus!
