//! The decoded class file value.

use vstd::prelude::*;

use crate::attribute_info::AttributeKind;
use crate::attribute_info::AttributeModel;
use crate::attribute_info::attrs_view;
use crate::constant_pool::ConstantKind;
use crate::constant_pool::ConstantModel;
use crate::constant_pool::cp_view;
use crate::field_info::FieldInfo;
use crate::field_info::FieldModel;
use crate::field_info::fields_view;
use crate::method_info::MethodInfo;
use crate::method_info::MethodModel;
use crate::method_info::methods_view;

verus! {

/// One fully decoded class file. Immutable once constructed: the
/// decoder either populates every field or fails, and nothing mutates a
/// value afterwards.
#[derive(Debug)]
pub struct JavaClassFileFormat {
    pub minor_version: u16,
    pub major_version: u16,
    pub constant_pool_count: u16,
    pub constant_pool: Vec<ConstantKind>,
    pub access_flags: u16,
    pub this_class: u16,
    pub super_class: u16,
    pub interfaces_count: u16,
    pub interfaces: Vec<u16>,
    pub fields_count: u16,
    pub fields: Vec<FieldInfo>,
    pub methods_count: u16,
    pub methods: Vec<MethodInfo>,
    pub attributes_count: u16,
    pub attributes: Vec<AttributeKind>,
}

/// The mathematical value of a decoded class file.
#[verifier::ext_equal]
pub struct ClassFileModel {
    pub minor_version: u16,
    pub major_version: u16,
    pub constant_pool_count: u16,
    pub constant_pool: Seq<ConstantModel>,
    pub access_flags: u16,
    pub this_class: u16,
    pub super_class: u16,
    pub interfaces_count: u16,
    pub interfaces: Seq<u16>,
    pub fields_count: u16,
    pub fields: Seq<FieldModel>,
    pub methods_count: u16,
    pub methods: Seq<MethodModel>,
    pub attributes_count: u16,
    pub attributes: Seq<AttributeModel>,
}

impl View for JavaClassFileFormat {
    type V = ClassFileModel;

    open spec fn view(&self) -> ClassFileModel {
        ClassFileModel {
            minor_version: self.minor_version,
            major_version: self.major_version,
            constant_pool_count: self.constant_pool_count,
            constant_pool: cp_view(self.constant_pool@),
            access_flags: self.access_flags,
            this_class: self.this_class,
            super_class: self.super_class,
            interfaces_count: self.interfaces_count,
            interfaces: self.interfaces@,
            fields_count: self.fields_count,
            fields: fields_view(self.fields@),
            methods_count: self.methods_count,
            methods: methods_view(self.methods@),
            attributes_count: self.attributes_count,
            attributes: attrs_view(self.attributes@),
        }
    }
}

/// A decoded class file, whatever representation holds it.
pub trait JavaClassFile {

}

impl JavaClassFile for JavaClassFileFormat {

}

} // verus!
