//! The closed taxonomy of decode failures.

use vstd::prelude::*;

verus! {

/// Constant-pool tag of a `Utf8` entry, the kind expected wherever an
/// attribute name index is resolved.
pub const CONSTANT_UTF8_TAG: u8 = 1;

/// Everything that can go wrong while decoding a class file.
///
/// Every decode operation is all-or-nothing: on failure one of these is
/// propagated to the caller and no partially built value escapes.
#[derive(Clone, Copy, Debug, PartialEq, Eq, Structural)]
pub enum DecodeError {
    /// The leading four bytes are not the class-file magic number.
    InvalidMagic,
    /// The major version lies outside the supported range; carries the
    /// major version that was read.
    UnsupportedVersion(u16),
    /// Fewer bytes remain than a read or a declared length requires.
    UnexpectedEof,
    /// An unknown constant-pool tag byte; carries the tag and the byte
    /// offset at which it was read.
    InvalidConstantPoolTag(u8, usize),
    /// An index did not resolve to a constant-pool entry of the expected
    /// kind; carries the index and the expected tag.
    InvalidConstantPoolReference(u16, u8),
    /// A `Utf8` entry whose bytes are not valid UTF-8.
    InvalidUtf8,
    /// A declared constant-pool count of zero. The wire count is
    /// "number of entries + 1", so any well-formed class file declares
    /// at least 1; zero is malformed data, rejected rather than padded
    /// out with a default pool.
    InvalidConstantPoolCount,
    /// Attributes nested deeper than the decoder's recursion budget.
    /// This guard is a deliberate addition: without it a crafted input
    /// with deeply nested `Code` attributes could exhaust the call stack.
    NestingTooDeep,
}

/// The failures that only the class-file header gates produce. Nothing
/// past the version check fails with either of these, which is what
/// pins each of them to its gate.
pub open spec fn is_header_error(e: DecodeError) -> bool {
    e is InvalidMagic || e is UnsupportedVersion
}

} // verus!
