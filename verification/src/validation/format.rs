//! The resolved forms: what a module tree becomes once every name in it has
//! been linked to its definition.

use super::arena::Index;
use crate::{F32Bits, F64Bits, Range};
use crate::identifier::{Identifier, IdentifierView};
use crate::parse::ast::FieldPath;
use crate::table::Table;
use vstd::prelude::*;

verus! {

/// The kind of thing that a name can denote.
#[derive(Debug, Clone, Copy, PartialEq, Eq)]
pub enum ItemType {
    Compound,
    Enum,
    Module,
}

/// What a name denotes: a handle to a module, a compound or an enum.
#[derive(Debug, Clone, Copy, PartialEq, Eq)]
pub enum ItemIndex {
    Module(Index<Module>),
    Compound(Index<CompoundTag>),
    Enum(Index<EnumItem>),
}

impl ItemIndex {
    /// The kind of the item that the handle leads to.
    pub open spec fn kind(self) -> ItemType {
        match self {
            ItemIndex::Module(_) => ItemType::Module,
            ItemIndex::Compound(_) => ItemType::Compound,
            ItemIndex::Enum(_) => ItemType::Enum,
        }
    }

    /// The kind of the item that the handle leads to.
    pub fn item_type(&self) -> (r: ItemType)
        ensures
            r == self.kind(),
    {
        match self {
            ItemIndex::Module(_) => ItemType::Module,
            ItemIndex::Compound(_) => ItemType::Compound,
            ItemIndex::Enum(_) => ItemType::Enum,
        }
    }
}

/// A named scope.
#[derive(Debug, PartialEq)]
pub struct Module {
    pub children: Table<String, ItemIndex>,
    pub parent: Option<Index<Module>>,
}

/// What a [`Module`] stands for.
pub struct ModuleView {
    pub children: Map<Seq<char>, ItemIndex>,
    pub parent: Option<Index<Module>>,
}

impl View for Module {
    type V = ModuleView;

    open spec fn view(&self) -> ModuleView {
        ModuleView { children: self.children@, parent: self.parent }
    }
}

impl Module {
    /// A module without children.
    pub fn new(parent: Option<Index<Module>>) -> (r: Self)
        ensures
            r@ == (ModuleView { children: Map::empty(), parent }),
    {
        Module { children: Table::new(), parent }
    }
}

/// A numeric type with the range of its values, if one was declared.
#[derive(Debug, Clone, Copy, PartialEq)]
pub struct NumberTag<T> {
    pub range: Option<Range<T>>,
}

/// An array type with the ranges of its length and of its elements, where declared.
#[derive(Debug, Clone, Copy, PartialEq)]
pub struct NumberArrayTag<T> {
    pub length_range: Option<Range<i32>>,
    pub value_range: Option<Range<T>>,
}

/// The resolved type of a field.
#[derive(Debug, PartialEq)]
pub enum NbtValue {
    Boolean,
    Byte(NumberTag<i8>),
    Short(NumberTag<i16>),
    Int(NumberTag<i32>),
    Long(NumberTag<i64>),
    Float(NumberTag<F32Bits>),
    Double(NumberTag<F64Bits>),
    String,
    ByteArray(NumberArrayTag<i8>),
    IntArray(NumberArrayTag<i32>),
    LongArray(NumberArrayTag<i64>),
    Compound(Index<CompoundTag>),
    Enum(Index<EnumItem>),
    List { length_range: Option<Range<i32>>, value_type: Box<NbtValue> },
    Index { target: Identifier, path: Vec<FieldPath> },
    Id(Identifier),
    Or(Vec<NbtValue>),
}

/// What a step of the path of an index type stands for.
pub enum FieldPathView {
    Super,
    Child(Seq<char>),
}

impl View for FieldPath {
    type V = FieldPathView;

    open spec fn view(&self) -> FieldPathView {
        match self {
            FieldPath::Super => FieldPathView::Super,
            FieldPath::Child(s) => FieldPathView::Child(s@),
        }
    }
}

/// The path of an index type, each step by its view.
pub open spec fn field_path_view(path: Seq<FieldPath>) -> Seq<FieldPathView> {
    Seq::new(path.len(), |i: int| path[i]@)
}

/// What an [`NbtValue`] stands for.
pub enum NbtValueView {
    Boolean,
    Byte(NumberTag<i8>),
    Short(NumberTag<i16>),
    Int(NumberTag<i32>),
    Long(NumberTag<i64>),
    Float(NumberTag<F32Bits>),
    Double(NumberTag<F64Bits>),
    String,
    ByteArray(NumberArrayTag<i8>),
    IntArray(NumberArrayTag<i32>),
    LongArray(NumberArrayTag<i64>),
    Compound(Index<CompoundTag>),
    Enum(Index<EnumItem>),
    List { length_range: Option<Range<i32>>, value_type: Box<NbtValueView> },
    Index { target: IdentifierView, path: Seq<FieldPathView> },
    Id(IdentifierView),
    Or(Seq<NbtValueView>),
}

/// What a resolved type stands for.
pub open spec fn value_view(value: NbtValue) -> NbtValueView
    decreases value, 0nat,
{
    match value {
        NbtValue::Boolean => NbtValueView::Boolean,
        NbtValue::Byte(t) => NbtValueView::Byte(t),
        NbtValue::Short(t) => NbtValueView::Short(t),
        NbtValue::Int(t) => NbtValueView::Int(t),
        NbtValue::Long(t) => NbtValueView::Long(t),
        NbtValue::Float(t) => NbtValueView::Float(t),
        NbtValue::Double(t) => NbtValueView::Double(t),
        NbtValue::String => NbtValueView::String,
        NbtValue::ByteArray(t) => NbtValueView::ByteArray(t),
        NbtValue::IntArray(t) => NbtValueView::IntArray(t),
        NbtValue::LongArray(t) => NbtValueView::LongArray(t),
        NbtValue::Compound(i) => NbtValueView::Compound(i),
        NbtValue::Enum(i) => NbtValueView::Enum(i),
        NbtValue::List { length_range, value_type } => NbtValueView::List {
            length_range,
            value_type: Box::new(value_view(*value_type)),
        },
        NbtValue::Index { target, path } => NbtValueView::Index {
            target: target@,
            path: field_path_view(path@),
        },
        NbtValue::Id(i) => NbtValueView::Id(i@),
        NbtValue::Or(v) => NbtValueView::Or(member_views(v@)),
    }
}

/// The members of a union, each by its view.
pub open spec fn member_views(members: Seq<NbtValue>) -> Seq<NbtValueView>
    decreases members, 1nat,
{
    Seq::new(
        members.len(),
        |i: int|
            if 0 <= i < members.len() {
                value_view(members[i])
            } else {
                NbtValueView::Boolean
            },
    )
}

impl View for NbtValue {
    type V = NbtValueView;

    open spec fn view(&self) -> NbtValueView {
        value_view(*self)
    }
}

/// A field of a compound.
#[derive(Debug, PartialEq)]
pub struct Field {
    pub description: String,
    pub nbttype: NbtValue,
}

/// What a [`Field`] stands for.
pub struct FieldView {
    pub description: Seq<char>,
    pub nbttype: NbtValueView,
}

impl View for Field {
    type V = FieldView;

    open spec fn view(&self) -> FieldView {
        FieldView { description: self.description@, nbttype: self.nbttype@ }
    }
}

/// A structured record type.
#[derive(Debug, PartialEq)]
pub struct CompoundTag {
    pub description: String,
    pub supers: Option<Index<CompoundTag>>,
    pub fields: Table<String, Field>,
}

/// What a [`CompoundTag`] stands for.
pub struct CompoundView {
    pub description: Seq<char>,
    pub supers: Option<Index<CompoundTag>>,
    pub fields: Map<Seq<char>, FieldView>,
}

impl View for CompoundTag {
    type V = CompoundView;

    open spec fn view(&self) -> CompoundView {
        CompoundView {
            description: self.description@,
            supers: self.supers,
            fields: self.fields@.map_values(|f: Field| f@),
        }
    }
}

impl CompoundTag {
    /// A compound without description, supertype or fields.
    pub fn new() -> (r: Self)
        ensures
            r@ == (CompoundView { description: Seq::empty(), supers: None, fields: Map::empty() }),
    {
        let r = CompoundTag { description: String::new(), supers: None, fields: Table::new() };
        assert(r@.fields =~= Map::empty());
        r
    }
}

/// Whether every handle in the type `v` leads to one of the first
/// `compounds` compounds or of the first `enums` enums.
pub open spec fn value_within(v: NbtValueView, compounds: nat, enums: nat) -> bool
    decreases v,
{
    match v {
        NbtValueView::Compound(c) => c.pos() < compounds,
        NbtValueView::Enum(e) => e.pos() < enums,
        NbtValueView::List { length_range, value_type } => value_within(
            *value_type,
            compounds,
            enums,
        ),
        NbtValueView::Or(s) => forall|i: int|
            0 <= i < s.len() ==> value_within(#[trigger] s[i], compounds, enums),
        _ => true,
    }
}

/// Whether the supertype of the compound `c` and every handle in the types
/// of its fields lead to one of the first `compounds` compounds or of the
/// first `enums` enums.
pub open spec fn compound_within(c: CompoundView, compounds: nat, enums: nat) -> bool {
    &&& c.supers matches Some(s) ==> s.pos() < compounds
    &&& forall|n: Seq<char>| #[trigger]
        c.fields.contains_key(n) ==> value_within(c.fields[n].nbttype, compounds, enums)
}

/// A handle that leads to an entry still does when the arenas have grown.
pub proof fn lemma_value_within_grows(
    v: NbtValueView,
    compounds: nat,
    enums: nat,
    more_compounds: nat,
    more_enums: nat,
)
    requires
        value_within(v, compounds, enums),
        compounds <= more_compounds,
        enums <= more_enums,
    ensures
        value_within(v, more_compounds, more_enums),
    decreases v,
{
    match v {
        NbtValueView::List { length_range, value_type } => {
            lemma_value_within_grows(*value_type, compounds, enums, more_compounds, more_enums);
        },
        NbtValueView::Or(s) => {
            assert forall|i: int| 0 <= i < s.len() implies value_within(
                #[trigger] s[i],
                more_compounds,
                more_enums,
            ) by {
                lemma_value_within_grows(s[i], compounds, enums, more_compounds, more_enums);
            }
        },
        _ => {},
    }
}

/// The same of a compound.
pub proof fn lemma_compound_within_grows(
    c: CompoundView,
    compounds: nat,
    enums: nat,
    more_compounds: nat,
    more_enums: nat,
)
    requires
        compound_within(c, compounds, enums),
        compounds <= more_compounds,
        enums <= more_enums,
    ensures
        compound_within(c, more_compounds, more_enums),
{
    assert forall|n: Seq<char>| #[trigger] c.fields.contains_key(n) implies value_within(
        c.fields[n].nbttype,
        more_compounds,
        more_enums,
    ) by {
        lemma_value_within_grows(c.fields[n].nbttype, compounds, enums, more_compounds, more_enums);
    }
}

/// One option of an enum.
#[derive(Debug, PartialEq)]
pub struct EnumOption<T> {
    pub value: T,
    pub name: String,
    pub description: String,
}

/// What an [`EnumOption`] stands for.
pub struct EnumOptionView<T> {
    pub value: T,
    pub name: Seq<char>,
    pub description: Seq<char>,
}

/// The options of an enum, under the primitive kind that backs it.
#[derive(Debug, PartialEq)]
pub enum EnumType {
    Byte(Vec<EnumOption<i8>>),
    Short(Vec<EnumOption<i16>>),
    Int(Vec<EnumOption<i32>>),
    Long(Vec<EnumOption<i64>>),
    Float(Vec<EnumOption<F32Bits>>),
    Double(Vec<EnumOption<F64Bits>>),
    String(Vec<EnumOption<String>>),
}

/// What an [`EnumType`] stands for.
pub enum EnumTypeView {
    Byte(Seq<EnumOptionView<i8>>),
    Short(Seq<EnumOptionView<i16>>),
    Int(Seq<EnumOptionView<i32>>),
    Long(Seq<EnumOptionView<i64>>),
    Float(Seq<EnumOptionView<F32Bits>>),
    Double(Seq<EnumOptionView<F64Bits>>),
    String(Seq<EnumOptionView<Seq<char>>>),
}

/// Options whose values are plain, each by its view.
pub open spec fn options_view<T>(s: Seq<EnumOption<T>>) -> Seq<EnumOptionView<T>> {
    Seq::new(
        s.len(),
        |i: int| EnumOptionView { value: s[i].value, name: s[i].name@, description: s[i].description@ },
    )
}

/// Options whose values are strings, each by its view.
pub open spec fn string_options_view(s: Seq<EnumOption<String>>) -> Seq<
    EnumOptionView<Seq<char>>,
> {
    Seq::new(
        s.len(),
        |i: int|
            EnumOptionView { value: s[i].value@, name: s[i].name@, description: s[i].description@ },
    )
}

impl View for EnumType {
    type V = EnumTypeView;

    open spec fn view(&self) -> EnumTypeView {
        match self {
            EnumType::Byte(v) => EnumTypeView::Byte(options_view(v@)),
            EnumType::Short(v) => EnumTypeView::Short(options_view(v@)),
            EnumType::Int(v) => EnumTypeView::Int(options_view(v@)),
            EnumType::Long(v) => EnumTypeView::Long(options_view(v@)),
            EnumType::Float(v) => EnumTypeView::Float(options_view(v@)),
            EnumType::Double(v) => EnumTypeView::Double(options_view(v@)),
            EnumType::String(v) => EnumTypeView::String(string_options_view(v@)),
        }
    }
}

/// A closed set of named values of one primitive kind.
#[derive(Debug, PartialEq)]
pub struct EnumItem {
    pub et: EnumType,
    pub description: String,
}

/// What an [`EnumItem`] stands for.
pub struct EnumItemView {
    pub et: EnumTypeView,
    pub description: Seq<char>,
}

impl View for EnumItem {
    type V = EnumItemView;

    open spec fn view(&self) -> EnumItemView {
        EnumItemView { et: self.et@, description: self.description@ }
    }
}

} // verus!
