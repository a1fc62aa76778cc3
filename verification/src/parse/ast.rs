//! The parsed form of one source file.

use crate::{F32Bits, F64Bits};
use crate::identifier::Identifier;
use vstd::prelude::*;

verus! {

/// A range as written in the source: a single value, both bounds, or one bound only.
#[derive(Debug, Clone, Copy, PartialEq)]
pub enum Range<T> {
    Single(T),
    Both(T, T),
    Low(T),
    High(T),
}

/// One segment of a dotted path.
#[derive(Debug, PartialEq)]
pub enum PathPart {
    /// The scope above all root modules.
    Root,
    /// The parent of the current module.
    Super,
    /// A plain name.
    Regular(String),
}

/// One step of the path of an index type, which leads to a sibling field.
#[derive(Debug, PartialEq)]
pub enum FieldPath {
    Super,
    Child(String),
}

/// A numeric type with the range of its values, if one is declared.
#[derive(Debug, PartialEq)]
pub enum NumberPrimitiveType {
    Byte(Option<Range<i8>>),
    Short(Option<Range<i16>>),
    Int(Option<Range<i32>>),
    Long(Option<Range<i64>>),
    Float(Option<Range<F32Bits>>),
    Double(Option<Range<F64Bits>>),
}

/// An array type with the ranges of its elements and of its length, where
/// they are declared.
#[derive(Debug, PartialEq)]
pub enum NumberArrayType {
    Byte { value_range: Option<Range<i8>>, len_range: Option<Range<i32>> },
    Int { value_range: Option<Range<i32>>, len_range: Option<Range<i32>> },
    Long { value_range: Option<Range<i64>>, len_range: Option<Range<i32>> },
}

/// The type of a field as written in the source.
#[derive(Debug, PartialEq)]
pub enum FieldType {
    BooleanType,
    StringType,
    NamedType(Vec<PathPart>),
    ArrayType(NumberArrayType),
    NumberType(NumberPrimitiveType),
    ListType { item_type: Box<FieldType>, len_range: Option<Range<i32>> },
    IndexType { target: Identifier, path: Vec<FieldPath> },
    IdType(Identifier),
    OrType(Vec<FieldType>),
}

/// The declaration of a field.
#[derive(Debug, PartialEq)]
pub struct Field {
    pub description: String,
    pub field_type: FieldType,
}

/// The declaration of a compound: its fields in declared order, and the
/// path of its supertype, if it has one.
#[derive(Debug, PartialEq)]
pub struct CompoundDef {
    pub description: String,
    pub fields: Vec<(String, Field)>,
    pub supers: Option<Vec<PathPart>>,
}

/// The declaration of one option of an enum.
#[derive(Debug, PartialEq)]
pub struct EnumValue<T> {
    pub description: String,
    pub value: T,
}

/// The options of an enum, under the primitive kind that backs it.
#[derive(Debug, PartialEq)]
pub enum EnumType {
    Byte(Vec<(String, EnumValue<i8>)>),
    Short(Vec<(String, EnumValue<i16>)>),
    Int(Vec<(String, EnumValue<i32>)>),
    Long(Vec<(String, EnumValue<i64>)>),
    Float(Vec<(String, EnumValue<F32Bits>)>),
    Double(Vec<(String, EnumValue<F64Bits>)>),
    String(Vec<(String, EnumValue<String>)>),
}

/// The declaration of an enum.
#[derive(Debug, PartialEq)]
pub struct EnumDef {
    pub description: String,
    pub values: EnumType,
}

/// A binding of a compound to a registry: to the listed targets, or, with no
/// list, as the registry's default.
#[derive(Debug, PartialEq)]
pub struct DescribeDef {
    pub describe_type: Identifier,
    pub targets: Option<Vec<Identifier>>,
}

/// One parsed source file.
#[derive(Debug, PartialEq)]
pub struct NbtDocFile {
    /// Imports: whether it is a re-export, and the path.
    pub uses: Vec<(bool, Vec<PathPart>)>,
    pub compounds: Vec<(String, CompoundDef)>,
    pub enums: Vec<(String, EnumDef)>,
    pub describes: Vec<(Vec<PathPart>, DescribeDef)>,
    pub mods: Vec<String>,
}

} // verus!
