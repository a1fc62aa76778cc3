//! What a declared field type resolves to.

use super::arena::Index;
use super::error::ValidationErrorTypeView;
use super::format::{
    field_path_view, ItemIndex, ItemType, Module, NbtValueView, NumberArrayTag, NumberTag,
};
use super::model::{item_at, part_name, RootView};
use crate::{
    range_of, F32_INFINITY, F32_NEG_INFINITY, F32Bits, F64_INFINITY, F64_NEG_INFINITY, F64Bits,
    Range,
};
use crate::parse::ast;
use vstd::prelude::*;

verus! {

/// A declared range, if there is one, with its open side filled by `min` or `max`.
pub open spec fn bounded<T>(range: Option<ast::Range<T>>, min: T, max: T) -> Option<Range<T>> {
    match range {
        Some(x) => Some(range_of(x, min, max)),
        None => None,
    }
}

/// The range of a length: lengths go from 0 to the largest `i32`.
pub open spec fn length_bounded(range: Option<ast::Range<i32>>) -> Option<Range<i32>> {
    bounded(range, 0i32, i32::MAX)
}

/// A numeric type, its range narrowed to what its kind can hold. The natural
/// bounds of the two float kinds are the infinities.
pub open spec fn number_type(v: ast::NumberPrimitiveType) -> NbtValueView {
    match v {
        ast::NumberPrimitiveType::Byte(range) => NbtValueView::Byte(
            NumberTag { range: bounded(range, i8::MIN, i8::MAX) },
        ),
        ast::NumberPrimitiveType::Short(range) => NbtValueView::Short(
            NumberTag { range: bounded(range, i16::MIN, i16::MAX) },
        ),
        ast::NumberPrimitiveType::Int(range) => NbtValueView::Int(
            NumberTag { range: bounded(range, i32::MIN, i32::MAX) },
        ),
        ast::NumberPrimitiveType::Long(range) => NbtValueView::Long(
            NumberTag { range: bounded(range, i64::MIN, i64::MAX) },
        ),
        ast::NumberPrimitiveType::Float(range) => NbtValueView::Float(
            NumberTag { range: bounded(range, F32Bits(F32_NEG_INFINITY), F32Bits(F32_INFINITY)) },
        ),
        ast::NumberPrimitiveType::Double(range) => NbtValueView::Double(
            NumberTag { range: bounded(range, F64Bits(F64_NEG_INFINITY), F64Bits(F64_INFINITY)) },
        ),
    }
}

/// An array type, the ranges of its length and of its elements narrowed.
pub open spec fn array_type(v: ast::NumberArrayType) -> NbtValueView {
    match v {
        ast::NumberArrayType::Byte { value_range, len_range } => NbtValueView::ByteArray(
            NumberArrayTag {
                length_range: length_bounded(len_range),
                value_range: bounded(value_range, i8::MIN, i8::MAX),
            },
        ),
        ast::NumberArrayType::Int { value_range, len_range } => NbtValueView::IntArray(
            NumberArrayTag {
                length_range: length_bounded(len_range),
                value_range: bounded(value_range, i32::MIN, i32::MAX),
            },
        ),
        ast::NumberArrayType::Long { value_range, len_range } => NbtValueView::LongArray(
            NumberArrayTag {
                length_range: length_bounded(len_range),
                value_range: bounded(value_range, i64::MIN, i64::MAX),
            },
        ),
    }
}

/// A type given by name: the compound or the enum that the path denotes.
/// A path that denotes a module is no type.
pub open spec fn named_type(
    r: RootView,
    path: Seq<ast::PathPart>,
    m: Index<Module>,
    imports: Map<Seq<char>, ItemIndex>,
) -> Result<NbtValueView, ValidationErrorTypeView> {
    match item_at(r, path, Some(m), imports) {
        Err(e) => Err(e),
        Ok(ItemIndex::Module(_)) => Err(
            ValidationErrorTypeView::InvalidType {
                name: part_name(path.last()),
                ex: seq![ItemType::Compound, ItemType::Enum],
                ty: ItemType::Module,
            },
        ),
        Ok(ItemIndex::Compound(v)) => Ok(NbtValueView::Compound(v)),
        Ok(ItemIndex::Enum(v)) => Ok(NbtValueView::Enum(v)),
    }
}

/// What the declared type `ft` of a field in the module `m` resolves to.
pub open spec fn field_type(
    r: RootView,
    ft: ast::FieldType,
    m: Index<Module>,
    imports: Map<Seq<char>, ItemIndex>,
) -> Result<NbtValueView, ValidationErrorTypeView>
    decreases ft, 0nat,
{
    match ft {
        ast::FieldType::BooleanType => Ok(NbtValueView::Boolean),
        ast::FieldType::StringType => Ok(NbtValueView::String),
        ast::FieldType::NamedType(v) => named_type(r, v@, m, imports),
        ast::FieldType::ArrayType(v) => Ok(array_type(v)),
        ast::FieldType::NumberType(v) => Ok(number_type(v)),
        ast::FieldType::ListType { item_type, len_range } => match field_type(
            r,
            *item_type,
            m,
            imports,
        ) {
            Err(e) => Err(e),
            Ok(t) => Ok(
                NbtValueView::List {
                    length_range: length_bounded(len_range),
                    value_type: Box::new(t),
                },
            ),
        },
        ast::FieldType::IndexType { target, path } => Ok(
            NbtValueView::Index { target: target@, path: field_path_view(path@) },
        ),
        ast::FieldType::IdType(v) => Ok(NbtValueView::Id(v@)),
        ast::FieldType::OrType(v) => match member_types(r, v@, 0, m, imports) {
            Err(e) => Err(e),
            Ok(s) => Ok(NbtValueView::Or(s)),
        },
    }
}

/// What the members of a union from position `i` on resolve to, in order.
/// The first member that fails decides the failure.
pub open spec fn member_types(
    r: RootView,
    v: Seq<ast::FieldType>,
    i: int,
    m: Index<Module>,
    imports: Map<Seq<char>, ItemIndex>,
) -> Result<Seq<NbtValueView>, ValidationErrorTypeView>
    decreases v, v.len() - i,
{
    if i < 0 || i >= v.len() {
        Ok(Seq::empty())
    } else {
        match field_type(r, v[i], m, imports) {
            Err(e) => Err(e),
            Ok(t) => match member_types(r, v, i + 1, m, imports) {
                Err(e) => Err(e),
                Ok(rest) => Ok(seq![t] + rest),
            },
        }
    }
}

/// `rest` with `done` in front of what it holds.
pub open spec fn after<A, E>(done: Seq<A>, rest: Result<Seq<A>, E>) -> Result<Seq<A>, E> {
    match rest {
        Ok(s) => Ok(done + s),
        Err(e) => Err(e),
    }
}

} // verus!
