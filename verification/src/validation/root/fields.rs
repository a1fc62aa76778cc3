//! The types of fields.

use crate::{
    convert_range, F32_INFINITY, F32_NEG_INFINITY, F32Bits, F64_INFINITY, F64_NEG_INFINITY, F64Bits,
    Range,
};
use crate::parse::ast;
use crate::table::Table;
use crate::validation::arena::Index;
use crate::validation::convert::{after, bounded, field_type, member_types};
use crate::validation::error::{
    names_of, ValidationError, ValidationErrorType, ValidationErrorTypeView,
};
use crate::validation::format::{
    member_views, value_within, ItemIndex, ItemType, Module, NbtValue, NbtValueView, NumberArrayTag,
    NumberTag,
};
use crate::validation::root::Root;
use crate::validation::root::paths::{imports_ok, name_of_part};
use vstd::prelude::*;

verus! {

/// A declared range, if there is one, with its open side filled by `min` or `max`.
pub fn bound<T: Copy>(range: Option<ast::Range<T>>, min: T, max: T) -> (r: Option<Range<T>>)
    ensures
        r == bounded(range, min, max),
{
    match range {
        Some(x) => Some(convert_range(x, min, max)),
        None => None,
    }
}

/// Whether `r` is the outcome `expected`, a value by its view, and its
/// failure, if it is one, raised in `module`.
pub open spec fn raised_view<T: View>(
    r: Result<T, ValidationError>,
    expected: Result<T::V, ValidationErrorTypeView>,
    module: Seq<String>,
) -> bool {
    match r {
        Ok(v) => expected == Ok::<T::V, ValidationErrorTypeView>(v@),
        Err(e) => expected == Err::<T::V, ValidationErrorTypeView>(e@.ety) && e@.module
            == names_of(module),
    }
}

impl Root {
    /// Resolves the declared type of a field of the module `root`.
    pub fn convert_field_type(
        &self,
        ft: ast::FieldType,
        root: Index<Module>,
        imports: &Table<String, ItemIndex>,
        module: &Vec<String>,
    ) -> (r: Result<NbtValue, ValidationError>)
        requires
            self.wf(),
            self@.has_module(root),
            imports_ok(self@, imports@),
        ensures
            raised_view(r, field_type(self@, ft, root, imports@), module@),
            r matches Ok(v) ==> value_within(v@, self@.compounds.len(), self@.enums.len()),
        decreases ft,
    {
        match ft {
            ast::FieldType::BooleanType => Ok(NbtValue::Boolean),
            ast::FieldType::StringType => Ok(NbtValue::String),
            ast::FieldType::NamedType(v) => {
                match self.get_item_path(&v, Some(root), imports, module) {
                    Err(e) => Err(e),
                    Ok(ItemIndex::Module(_)) => {
                        let mut ex: Vec<ItemType> = Vec::new();
                        ex.push(ItemType::Compound);
                        ex.push(ItemType::Enum);
                        assert(ex@ =~= seq![ItemType::Compound, ItemType::Enum]);
                        Err(
                            ValidationError::at(
                                module,
                                ValidationErrorType::InvalidType {
                                    name: name_of_part(&v[v.len() - 1]),
                                    ex,
                                    ty: ItemType::Module,
                                },
                            ),
                        )
                    },
                    Ok(ItemIndex::Compound(c)) => Ok(NbtValue::Compound(c)),
                    Ok(ItemIndex::Enum(e)) => Ok(NbtValue::Enum(e)),
                }
            },
            ast::FieldType::ArrayType(v) => Ok(
                match v {
                    ast::NumberArrayType::Byte { value_range, len_range } => NbtValue::ByteArray(
                        NumberArrayTag {
                            length_range: bound(len_range, 0, i32::MAX),
                            value_range: bound(value_range, i8::MIN, i8::MAX),
                        },
                    ),
                    ast::NumberArrayType::Int { value_range, len_range } => NbtValue::IntArray(
                        NumberArrayTag {
                            length_range: bound(len_range, 0, i32::MAX),
                            value_range: bound(value_range, i32::MIN, i32::MAX),
                        },
                    ),
                    ast::NumberArrayType::Long { value_range, len_range } => NbtValue::LongArray(
                        NumberArrayTag {
                            length_range: bound(len_range, 0, i32::MAX),
                            value_range: bound(value_range, i64::MIN, i64::MAX),
                        },
                    ),
                },
            ),
            ast::FieldType::NumberType(v) => Ok(
                match v {
                    ast::NumberPrimitiveType::Byte(range) => NbtValue::Byte(
                        NumberTag { range: bound(range, i8::MIN, i8::MAX) },
                    ),
                    ast::NumberPrimitiveType::Short(range) => NbtValue::Short(
                        NumberTag { range: bound(range, i16::MIN, i16::MAX) },
                    ),
                    ast::NumberPrimitiveType::Int(range) => NbtValue::Int(
                        NumberTag { range: bound(range, i32::MIN, i32::MAX) },
                    ),
                    ast::NumberPrimitiveType::Long(range) => NbtValue::Long(
                        NumberTag { range: bound(range, i64::MIN, i64::MAX) },
                    ),
                    ast::NumberPrimitiveType::Float(range) => NbtValue::Float(
                        NumberTag {
                            range: bound(range, F32Bits(F32_NEG_INFINITY), F32Bits(F32_INFINITY)),
                        },
                    ),
                    ast::NumberPrimitiveType::Double(range) => NbtValue::Double(
                        NumberTag {
                            range: bound(range, F64Bits(F64_NEG_INFINITY), F64Bits(F64_INFINITY)),
                        },
                    ),
                },
            ),
            ast::FieldType::ListType { item_type, len_range } => {
                match self.convert_field_type(*item_type, root, imports, module) {
                    Err(e) => Err(e),
                    Ok(t) => Ok(
                        NbtValue::List {
                            length_range: bound(len_range, 0, i32::MAX),
                            value_type: Box::new(t),
                        },
                    ),
                }
            },
            ast::FieldType::IndexType { target, path } => Ok(NbtValue::Index { path, target }),
            ast::FieldType::IdType(v) => Ok(NbtValue::Id(v)),
            ast::FieldType::OrType(v) => {
                let ghost members = v;
                let ghost vs = v@;
                let mut out: Vec<NbtValue> = Vec::new();
                for x in it: v.into_iter()
                    invariant
                        self.wf(),
                        self@.has_module(root),
                        imports_ok(self@, imports@),
                        it.seq() == vs,
                        vs == members@,
                        ft == ast::FieldType::OrType(members),
                        out@.len() == it.index(),
                        forall|j: int|
                            0 <= j < out@.len() ==> value_within(
                                (#[trigger] out@[j])@,
                                self@.compounds.len(),
                                self@.enums.len(),
                            ),
                        member_types(self@, vs, 0, root, imports@) == after(
                            member_views(out@),
                            member_types(self@, vs, it.index() as int, root, imports@),
                        ),
                {
                    match self.convert_field_type(x, root, imports, module) {
                        Err(e) => {
                            return Err(e);
                        },
                        Ok(t) => {
                            let ghost before = member_views(out@);
                            out.push(t);
                            proof {
                                let rest = member_types(
                                    self@,
                                    vs,
                                    it.index() as int + 1,
                                    root,
                                    imports@,
                                );
                                if rest is Ok {
                                    assert(member_views(out@) + rest->Ok_0 =~= before + (seq![t@]
                                        + rest->Ok_0));
                                }
                            }
                        },
                    }
                }
                proof {
                    assert(member_views(out@) + Seq::<NbtValueView>::empty() =~= member_views(
                        out@,
                    ));
                }
                Ok(NbtValue::Or(out))
            },
        }
    }
}

} // verus!
