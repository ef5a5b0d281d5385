//! Decoder for the binary Java class file format.
//!
//! The decoder turns an immutable byte buffer into a structured
//! `JavaClassFileFormat` value: a big-endian byte cursor, a tagged
//! constant-pool decoder, a recursive attribute decoder (including the
//! `Code` attribute with its exception table and nested attributes),
//! field and method decoders, and a memoizing class registry keyed by
//! logical class name.
//!
//! Every decode is all-or-nothing: on malformed or truncated input the
//! decoder returns a `DecodeError` and no partially built value escapes.

pub mod attribute_info;
pub mod bootstrap_class_loader;
pub mod class_registry;
pub mod constant_pool;
pub mod error;
pub mod field_info;
pub mod java_class_file;
pub mod method_info;
pub mod reader;
