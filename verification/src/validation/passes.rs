//! What each pass over a module tree does to a root, as functions on the model.

use super::arena::Index;
use super::convert::field_type;
use super::error::{ValidationErrorTypeView, ValidationErrorView};
use super::format::{
    CompoundTag, CompoundView, EnumItem, EnumItemView, EnumOptionView, EnumTypeView, FieldView,
    ItemIndex, ItemType, Module, ModuleView,
};
use super::model::{item_at, part_name, RegistryView, RootView};
use super::tree::ModuleTree;
use crate::identifier::{Identifier, IdentifierView};
use crate::parse::ast;
use crate::parse::ast::PathPart;
use vstd::prelude::*;

verus! {

/// The compound that stands in for a declaration until its body is resolved.
pub open spec fn empty_compound() -> CompoundView {
    CompoundView { description: Seq::empty(), supers: None, fields: Map::empty() }
}

/// The enum that stands in for a declaration until its body is resolved. It
/// has the primitive kind of the declaration already, and no options.
pub open spec fn empty_enum(values: ast::EnumType) -> EnumItemView {
    EnumItemView {
        description: Seq::empty(),
        et: match values {
            ast::EnumType::Byte(_) => EnumTypeView::Byte(Seq::empty()),
            ast::EnumType::Short(_) => EnumTypeView::Short(Seq::empty()),
            ast::EnumType::Int(_) => EnumTypeView::Int(Seq::empty()),
            ast::EnumType::Long(_) => EnumTypeView::Long(Seq::empty()),
            ast::EnumType::Float(_) => EnumTypeView::Float(Seq::empty()),
            ast::EnumType::Double(_) => EnumTypeView::Double(Seq::empty()),
            ast::EnumType::String(_) => EnumTypeView::String(Seq::empty()),
        },
    }
}

/// A module without children.
pub open spec fn empty_module(parent: Option<Index<Module>>) -> ModuleView {
    ModuleView { children: Map::empty(), parent }
}

impl RootView {
    /// This root with one more compound.
    pub open spec fn push_compound(self, c: CompoundView) -> RootView {
        RootView { compounds: self.compounds.push(c), ..self }
    }

    /// This root with one more enum.
    pub open spec fn push_enum(self, e: EnumItemView) -> RootView {
        RootView { enums: self.enums.push(e), ..self }
    }

    /// This root with one more module.
    pub open spec fn push_module(self, m: ModuleView) -> RootView {
        RootView { modules: self.modules.push(m), ..self }
    }

    /// The handle that the next compound will get.
    pub open spec fn next_compound(self) -> Index<CompoundTag> {
        Index::at(self.compounds.len())
    }

    /// The handle that the next enum will get.
    pub open spec fn next_enum(self) -> Index<EnumItem> {
        Index::at(self.enums.len())
    }

    /// The handle that the next module will get.
    pub open spec fn next_module(self) -> Index<Module> {
        Index::at(self.modules.len())
    }

    /// A slot for a compound, under `name` in the module `m`.
    pub open spec fn declare_compound(self, m: Index<Module>, name: Seq<char>) -> RootView {
        self.push_compound(empty_compound()).with_child(
            m,
            name,
            ItemIndex::Compound(self.next_compound()),
        )
    }

    /// A slot for an enum of the kind of `values`, under `name` in the module `m`.
    pub open spec fn declare_enum(
        self,
        m: Index<Module>,
        name: Seq<char>,
        values: ast::EnumType,
    ) -> RootView {
        self.push_enum(empty_enum(values)).with_child(m, name, ItemIndex::Enum(self.next_enum()))
    }

    /// A new module under `name` in the module `m`.
    pub open spec fn declare_module(self, m: Index<Module>, name: Seq<char>) -> RootView {
        self.push_module(empty_module(Some(m))).with_child(
            m,
            name,
            ItemIndex::Module(self.next_module()),
        )
    }
}

/// Slots for the compounds declared from position `i` on.
pub open spec fn register_compounds(
    r: RootView,
    m: Index<Module>,
    decls: Seq<(String, ast::CompoundDef)>,
    i: int,
) -> RootView
    decreases decls.len() - i,
{
    if i < 0 || i >= decls.len() {
        r
    } else {
        register_compounds(r.declare_compound(m, decls[i].0@), m, decls, i + 1)
    }
}

/// Slots for the enums declared from position `i` on.
pub open spec fn register_enums(
    r: RootView,
    m: Index<Module>,
    decls: Seq<(String, ast::EnumDef)>,
    i: int,
) -> RootView
    decreases decls.len() - i,
{
    if i < 0 || i >= decls.len() {
        r
    } else {
        register_enums(r.declare_enum(m, decls[i].0@, decls[i].1.values), m, decls, i + 1)
    }
}

/// New modules for the submodules from position `i` on.
pub open spec fn register_modules(
    r: RootView,
    m: Index<Module>,
    children: Seq<(String, ModuleTree)>,
    i: int,
) -> RootView
    decreases children.len() - i,
{
    if i < 0 || i >= children.len() {
        r
    } else {
        register_modules(r.declare_module(m, children[i].0@), m, children, i + 1)
    }
}

/// Registers what the submodules of `tree` from position `i` on declare. The
/// module of the submodule at position `j` is the one at `first + j`.
pub open spec fn register_subtrees(r: RootView, first: nat, tree: ModuleTree, i: int) -> RootView
    decreases tree, tree.children@.len() - i,
{
    if i < 0 || i >= tree.children@.len() {
        r
    } else {
        register_subtrees(
            register_tree(r, Index::at((first + i) as nat), tree.children@[i].1),
            first,
            tree,
            i + 1,
        )
    }
}

/// Registers what `tree` declares, in the module `m`: a slot for every
/// compound and enum and a module for every submodule, level by level, so
/// that all names of one level exist before anything below it.
pub open spec fn register_tree(r: RootView, m: Index<Module>, tree: ModuleTree) -> RootView
    decreases tree, tree.children@.len() + 1,
{
    let r1 = register_compounds(r, m, tree.val.compounds@, 0);
    let r2 = register_enums(r1, m, tree.val.enums@, 0);
    let r3 = register_modules(r2, m, tree.children@, 0);
    register_subtrees(r3, r2.modules.len(), tree, 0)
}

/// The outcome of a pass, or of a step of one: the root as it leaves it,
/// and whether it failed. What was done before a failure stays done.
pub type Outcome<E> = (RootView, Result<(), E>);

/// The failure `ety`, raised in the module `module`.
pub open spec fn raise(
    module: Seq<Seq<char>>,
    ety: ValidationErrorTypeView,
) -> ValidationErrorView {
    ValidationErrorView { module, ety }
}

/// The name that an import binds: the last segment of its path, which must
/// be a plain name. A path that ends in `super` names a module's parent, not
/// an item; one that is empty or ends in `root` names nothing.
pub open spec fn import_name(path: Seq<PathPart>) -> Result<Seq<char>, ValidationErrorTypeView> {
    if path.len() == 0 {
        Err(ValidationErrorTypeView::RootAccess)
    } else {
        match path.last() {
            PathPart::Regular(v) => Ok(v@),
            PathPart::Super => Err(ValidationErrorTypeView::SuperImport),
            PathPart::Root => Err(ValidationErrorTypeView::RootAccess),
        }
    }
}

/// The name and the item that an import brings into reach. Its path is
/// resolved without any imports.
pub open spec fn import_of(r: RootView, m: Index<Module>, path: Seq<PathPart>) -> Result<
    (Seq<char>, ItemIndex),
    ValidationErrorTypeView,
> {
    match import_name(path) {
        Err(e) => Err(e),
        Ok(name) => match item_at(r, path, Some(m), Map::empty()) {
            Err(e) => Err(e),
            Ok(item) => Ok((name, item)),
        },
    }
}

/// A re-export: the item that the path denotes becomes a child of the
/// module `m`, under the last name of the path. A module cannot be re-exported.
pub open spec fn reexport(r: RootView, m: Index<Module>, path: Seq<PathPart>) -> Outcome<
    ValidationErrorTypeView,
> {
    match import_of(r, m, path) {
        Err(e) => (r, Err(e)),
        Ok((name, ItemIndex::Module(_))) => (
            r,
            Err(
                ValidationErrorTypeView::InvalidType {
                    name,
                    ex: seq![ItemType::Compound, ItemType::Enum],
                    ty: ItemType::Module,
                },
            ),
        ),
        Ok((name, item)) => (r.with_child(m, name, item), Ok(())),
    }
}

/// The re-exports among the imports from position `i` on, in order.
pub open spec fn preresolve_uses(
    r: RootView,
    m: Index<Module>,
    uses: Seq<(bool, Vec<PathPart>)>,
    i: int,
) -> Outcome<ValidationErrorTypeView>
    decreases uses.len() - i,
{
    if i < 0 || i >= uses.len() {
        (r, Ok(()))
    } else if !uses[i].0 {
        preresolve_uses(r, m, uses, i + 1)
    } else {
        match reexport(r, m, uses[i].1@) {
            (q, Err(e)) => (q, Err(e)),
            (q, Ok(_)) => preresolve_uses(q, m, uses, i + 1),
        }
    }
}

/// The module that `name` denotes among the children of `m`, if it denotes one.
pub open spec fn child_module(r: RootView, m: Index<Module>, name: Seq<char>) -> Option<
    Index<Module>,
> {
    if r.module(m).children.contains_key(name) {
        match r.module(m).children[name] {
            ItemIndex::Module(c) => Some(c),
            _ => None,
        }
    } else {
        None
    }
}

/// The compound that `name` denotes among the children of `m`, if it denotes one.
pub open spec fn child_compound(r: RootView, m: Index<Module>, name: Seq<char>) -> Option<
    Index<CompoundTag>,
> {
    if r.module(m).children.contains_key(name) {
        match r.module(m).children[name] {
            ItemIndex::Compound(c) => Some(c),
            _ => None,
        }
    } else {
        None
    }
}

/// The enum that `name` denotes among the children of `m`, if it denotes one.
pub open spec fn child_enum(r: RootView, m: Index<Module>, name: Seq<char>) -> Option<
    Index<EnumItem>,
> {
    if r.module(m).children.contains_key(name) {
        match r.module(m).children[name] {
            ItemIndex::Enum(c) => Some(c),
            _ => None,
        }
    } else {
        None
    }
}

/// The module of the submodule `name` of `m`. Registration has given every
/// submodule its module.
pub open spec fn submodule(r: RootView, m: Index<Module>, name: Seq<char>) -> Index<Module> {
    child_module(r, m, name)->0
}

/// The slot of the compound that the module `m` declares under `name`.
/// Registration has given every declared compound its slot.
pub open spec fn slot_of_compound(r: RootView, m: Index<Module>, name: Seq<char>) -> Index<
    CompoundTag,
> {
    child_compound(r, m, name)->0
}

/// The slot of the enum that the module `m` declares under `name`.
/// Registration has given every declared enum its slot.
pub open spec fn slot_of_enum(r: RootView, m: Index<Module>, name: Seq<char>) -> Index<EnumItem> {
    child_enum(r, m, name)->0
}

/// The re-exports of the submodules of `tree` from position `i` on.
pub open spec fn preresolve_subtrees(
    r: RootView,
    m: Index<Module>,
    tree: ModuleTree,
    module: Seq<Seq<char>>,
    i: int,
) -> Outcome<ValidationErrorView>
    decreases tree, tree.children@.len() - i,
{
    if i < 0 || i >= tree.children@.len() {
        (r, Ok(()))
    } else {
        let name = tree.children@[i].0@;
        match preresolve_tree(r, submodule(r, m, name), tree.children@[i].1, module.push(name)) {
            (q, Err(e)) => (q, Err(e)),
            (q, Ok(_)) => preresolve_subtrees(q, m, tree, module, i + 1),
        }
    }
}

/// The re-exports of `tree`, whose module is `m` and whose path from its
/// root module is `module`: those of the module itself first, then those of
/// its submodules. The first failure ends the pass.
pub open spec fn preresolve_tree(
    r: RootView,
    m: Index<Module>,
    tree: ModuleTree,
    module: Seq<Seq<char>>,
) -> Outcome<ValidationErrorView>
    decreases tree, tree.children@.len() + 1,
{
    match preresolve_uses(r, m, tree.val.uses@, 0) {
        (q, Err(e)) => (q, Err(raise(module, e))),
        (q, Ok(_)) => preresolve_subtrees(q, m, tree, module, 0),
    }
}

/// The table of imports of a module: every import from position `i` on, in
/// order, added to `found`.
pub open spec fn imports_from(
    r: RootView,
    m: Index<Module>,
    uses: Seq<(bool, Vec<PathPart>)>,
    i: int,
    found: Map<Seq<char>, ItemIndex>,
) -> Result<Map<Seq<char>, ItemIndex>, ValidationErrorTypeView>
    decreases uses.len() - i,
{
    if i < 0 || i >= uses.len() {
        Ok(found)
    } else {
        match import_of(r, m, uses[i].1@) {
            Err(e) => Err(e),
            Ok((name, item)) => imports_from(r, m, uses, i + 1, found.insert(name, item)),
        }
    }
}

impl RootView {
    /// The compound behind `c`.
    pub open spec fn compound(self, c: Index<CompoundTag>) -> CompoundView {
        self.compounds[c.pos() as int]
    }

    /// The enum behind `e`.
    pub open spec fn enum_item(self, e: Index<EnumItem>) -> EnumItemView {
        self.enums[e.pos() as int]
    }

    /// This root with `v` in the place of the compound behind `c`.
    pub open spec fn with_compound(self, c: Index<CompoundTag>, v: CompoundView) -> RootView {
        RootView { compounds: self.compounds.update(c.pos() as int, v), ..self }
    }

    /// This root with `v` in the place of the enum behind `e`.
    pub open spec fn with_enum(self, e: Index<EnumItem>, v: EnumItemView) -> RootView {
        RootView { enums: self.enums.update(e.pos() as int, v), ..self }
    }

    /// This root with the description of the compound behind `c` set.
    pub open spec fn with_description(self, c: Index<CompoundTag>, d: Seq<char>) -> RootView {
        self.with_compound(c, CompoundView { description: d, ..self.compound(c) })
    }

    /// This root with the supertype of the compound behind `c` set.
    pub open spec fn with_supers(
        self,
        c: Index<CompoundTag>,
        supers: Option<Index<CompoundTag>>,
    ) -> RootView {
        self.with_compound(c, CompoundView { supers, ..self.compound(c) })
    }

    /// This root with the field `name` of the compound behind `c` set.
    pub open spec fn with_field(
        self,
        c: Index<CompoundTag>,
        name: Seq<char>,
        f: FieldView,
    ) -> RootView {
        self.with_compound(
            c,
            CompoundView { fields: self.compound(c).fields.insert(name, f), ..self.compound(c) },
        )
    }

    /// The registry `reg`, or one without bindings where the root has none of
    /// that name.
    pub open spec fn registry(self, reg: IdentifierView) -> RegistryView {
        if self.registries.contains_key(reg) {
            self.registries[reg]
        } else {
            RegistryView { targets: Map::empty(), default: None }
        }
    }

    /// This root with `g` as its registry `reg`.
    pub open spec fn with_registry(self, reg: IdentifierView, g: RegistryView) -> RootView {
        RootView { registries: self.registries.insert(reg, g), ..self }
    }
}

/// Resolves the supertype of the compound behind `c`, which was declared
/// under `name`. The path must denote a compound.
pub open spec fn resolve_supers(
    r: RootView,
    m: Index<Module>,
    c: Index<CompoundTag>,
    name: Seq<char>,
    supers: Option<Vec<PathPart>>,
    imports: Map<Seq<char>, ItemIndex>,
) -> Outcome<ValidationErrorTypeView> {
    match supers {
        None => (r.with_supers(c, None), Ok(())),
        Some(v) => match item_at(r, v@, Some(m), imports) {
            Err(e) => (r, Err(e)),
            Ok(ItemIndex::Compound(s)) => (r.with_supers(c, Some(s)), Ok(())),
            Ok(item) => (
                r,
                Err(
                    ValidationErrorTypeView::InvalidType {
                        name,
                        ex: seq![ItemType::Compound],
                        ty: item.kind(),
                    },
                ),
            ),
        },
    }
}

/// Resolves the fields of the compound behind `c` from position `i` on.
pub open spec fn resolve_fields(
    r: RootView,
    m: Index<Module>,
    c: Index<CompoundTag>,
    fields: Seq<(String, ast::Field)>,
    imports: Map<Seq<char>, ItemIndex>,
    i: int,
) -> Outcome<ValidationErrorTypeView>
    decreases fields.len() - i,
{
    if i < 0 || i >= fields.len() {
        (r, Ok(()))
    } else {
        match field_type(r, fields[i].1.field_type, m, imports) {
            Err(e) => (r, Err(e)),
            Ok(t) => resolve_fields(
                r.with_field(
                    c,
                    fields[i].0@,
                    FieldView { description: fields[i].1.description@, nbttype: t },
                ),
                m,
                c,
                fields,
                imports,
                i + 1,
            ),
        }
    }
}

/// Fills the slot of the compound declared under `name`: its description,
/// its supertype and its fields, in this order.
pub open spec fn resolve_compound(
    r: RootView,
    m: Index<Module>,
    name: Seq<char>,
    def: ast::CompoundDef,
    imports: Map<Seq<char>, ItemIndex>,
) -> Outcome<ValidationErrorTypeView> {
    let c = slot_of_compound(r, m, name);
    match resolve_supers(r.with_description(c, def.description@), m, c, name, def.supers, imports) {
        (q, Err(e)) => (q, Err(e)),
        (q, Ok(_)) => resolve_fields(q, m, c, def.fields@, imports, 0),
    }
}

/// Fills the slots of the compounds declared from position `i` on.
pub open spec fn resolve_compounds(
    r: RootView,
    m: Index<Module>,
    decls: Seq<(String, ast::CompoundDef)>,
    imports: Map<Seq<char>, ItemIndex>,
    i: int,
) -> Outcome<ValidationErrorTypeView>
    decreases decls.len() - i,
{
    if i < 0 || i >= decls.len() {
        (r, Ok(()))
    } else {
        match resolve_compound(r, m, decls[i].0@, decls[i].1, imports) {
            (q, Err(e)) => (q, Err(e)),
            (q, Ok(_)) => resolve_compounds(q, m, decls, imports, i + 1),
        }
    }
}

/// The options of an enum whose values are plain, in declared order.
pub open spec fn options_of<T>(s: Seq<(String, ast::EnumValue<T>)>) -> Seq<EnumOptionView<T>> {
    Seq::new(
        s.len(),
        |i: int|
            EnumOptionView { value: s[i].1.value, name: s[i].0@, description: s[i].1.description@ },
    )
}

/// The options of an enum whose values are strings, in declared order.
pub open spec fn string_options_of(s: Seq<(String, ast::EnumValue<String>)>) -> Seq<
    EnumOptionView<Seq<char>>,
> {
    Seq::new(
        s.len(),
        |i: int|
            EnumOptionView { value: s[i].1.value@, name: s[i].0@, description: s[i].1.description@ },
    )
}

/// The options of an enum, under its primitive kind.
pub open spec fn enum_type(values: ast::EnumType) -> EnumTypeView {
    match values {
        ast::EnumType::Byte(v) => EnumTypeView::Byte(options_of(v@)),
        ast::EnumType::Short(v) => EnumTypeView::Short(options_of(v@)),
        ast::EnumType::Int(v) => EnumTypeView::Int(options_of(v@)),
        ast::EnumType::Long(v) => EnumTypeView::Long(options_of(v@)),
        ast::EnumType::Float(v) => EnumTypeView::Float(options_of(v@)),
        ast::EnumType::Double(v) => EnumTypeView::Double(options_of(v@)),
        ast::EnumType::String(v) => EnumTypeView::String(string_options_of(v@)),
    }
}

/// Fills the slot of the enum declared under `name`.
pub open spec fn resolve_enum(
    r: RootView,
    m: Index<Module>,
    name: Seq<char>,
    def: ast::EnumDef,
) -> RootView {
    r.with_enum(
        slot_of_enum(r, m, name),
        EnumItemView { description: def.description@, et: enum_type(def.values) },
    )
}

/// Fills the slots of the enums declared from position `i` on.
pub open spec fn resolve_enums(
    r: RootView,
    m: Index<Module>,
    decls: Seq<(String, ast::EnumDef)>,
    i: int,
) -> RootView
    decreases decls.len() - i,
{
    if i < 0 || i >= decls.len() {
        r
    } else {
        resolve_enums(resolve_enum(r, m, decls[i].0@, decls[i].1), m, decls, i + 1)
    }
}

/// Binds the targets from position `i` on to the compound `target`, in the
/// registry `reg`. A target that is bound already, by an earlier declaration
/// or earlier in this list, is a duplicate.
pub open spec fn bind_targets(
    g: RegistryView,
    reg: IdentifierView,
    targets: Seq<Identifier>,
    target: Index<CompoundTag>,
    i: int,
) -> (RegistryView, Result<(), ValidationErrorTypeView>)
    decreases targets.len() - i,
{
    if i < 0 || i >= targets.len() {
        (g, Ok(()))
    } else if g.targets.contains_key(targets[i]@) {
        (g, Err(ValidationErrorTypeView::DuplicateDescribe { reg, t: Some(targets[i]@) }))
    } else {
        bind_targets(
            RegistryView { targets: g.targets.insert(targets[i]@, target), ..g },
            reg,
            targets,
            target,
            i + 1,
        )
    }
}

/// Binds the compound `target` in the registry `reg`: to each of the listed
/// targets, or, with no list, as the default. A registry has one default at most.
pub open spec fn bind(
    g: RegistryView,
    reg: IdentifierView,
    targets: Option<Vec<Identifier>>,
    target: Index<CompoundTag>,
) -> (RegistryView, Result<(), ValidationErrorTypeView>) {
    match targets {
        Some(v) => bind_targets(g, reg, v@, target, 0),
        None => if g.default is Some {
            (g, Err(ValidationErrorTypeView::DuplicateDescribe { reg, t: None }))
        } else {
            (RegistryView { default: Some(target), ..g }, Ok(()))
        },
    }
}

/// One `describes` declaration: the path must denote a compound, which is
/// then bound in the registry that the declaration names. The registry
/// comes into being with its first declaration.
pub open spec fn describe(
    r: RootView,
    m: Index<Module>,
    path: Seq<PathPart>,
    d: ast::DescribeDef,
    imports: Map<Seq<char>, ItemIndex>,
) -> Outcome<ValidationErrorTypeView> {
    match item_at(r, path, Some(m), imports) {
        Err(e) => (r, Err(e)),
        Ok(ItemIndex::Compound(c)) => {
            let (g, res) = bind(r.registry(d.describe_type@), d.describe_type@, d.targets, c);
            (r.with_registry(d.describe_type@, g), res)
        },
        Ok(item) => (
            r,
            Err(
                ValidationErrorTypeView::InvalidType {
                    name: part_name(path.last()),
                    ex: seq![ItemType::Compound],
                    ty: item.kind(),
                },
            ),
        ),
    }
}

/// The `describes` declarations from position `i` on, in order.
pub open spec fn describes_from(
    r: RootView,
    m: Index<Module>,
    decls: Seq<(Vec<PathPart>, ast::DescribeDef)>,
    imports: Map<Seq<char>, ItemIndex>,
    i: int,
) -> Outcome<ValidationErrorTypeView>
    decreases decls.len() - i,
{
    if i < 0 || i >= decls.len() {
        (r, Ok(()))
    } else {
        match describe(r, m, decls[i].0@, decls[i].1, imports) {
            (q, Err(e)) => (q, Err(e)),
            (q, Ok(_)) => describes_from(q, m, decls, imports, i + 1),
        }
    }
}

/// The bodies of one module: its compounds, its enums and its `describes`
/// declarations, in this order, with `imports` in reach.
pub open spec fn resolve_bodies(
    r: RootView,
    m: Index<Module>,
    file: ast::NbtDocFile,
    imports: Map<Seq<char>, ItemIndex>,
) -> Outcome<ValidationErrorTypeView> {
    match resolve_compounds(r, m, file.compounds@, imports, 0) {
        (q, Err(e)) => (q, Err(e)),
        (q, Ok(_)) => describes_from(
            resolve_enums(q, m, file.enums@, 0),
            m,
            file.describes@,
            imports,
            0,
        ),
    }
}

/// Resolves the submodules of `tree` from position `i` on.
pub open spec fn resolve_subtrees(
    r: RootView,
    m: Index<Module>,
    tree: ModuleTree,
    module: Seq<Seq<char>>,
    i: int,
) -> Outcome<ValidationErrorView>
    decreases tree, tree.children@.len() - i,
{
    if i < 0 || i >= tree.children@.len() {
        (r, Ok(()))
    } else {
        let name = tree.children@[i].0@;
        match resolve_tree(r, submodule(r, m, name), tree.children@[i].1, module.push(name)) {
            (q, Err(e)) => (q, Err(e)),
            (q, Ok(_)) => resolve_subtrees(q, m, tree, module, i + 1),
        }
    }
}

/// Resolves `tree`, whose module is `m` and whose path from its root module
/// is `module`: the imports of the module, then its bodies, then its
/// submodules. The first failure ends the pass.
pub open spec fn resolve_tree(
    r: RootView,
    m: Index<Module>,
    tree: ModuleTree,
    module: Seq<Seq<char>>,
) -> Outcome<ValidationErrorView>
    decreases tree, tree.children@.len() + 1,
{
    match imports_from(r, m, tree.val.uses@, 0, Map::empty()) {
        Err(e) => (r, Err(raise(module, e))),
        Ok(imports) => match resolve_bodies(r, m, tree.val, imports) {
            (q, Err(e)) => (q, Err(raise(module, e))),
            (q, Ok(_)) => resolve_subtrees(q, m, tree, module, 0),
        },
    }
}

/// Whether the pass over the re-exports of the submodules of `tree` from
/// position `i` on finds a module under the name of every submodule that
/// it comes to. It comes to a submodule when nothing before it has failed.
pub open spec fn preresolve_subtrees_find(
    r: RootView,
    m: Index<Module>,
    tree: ModuleTree,
    module: Seq<Seq<char>>,
    i: int,
) -> bool
    decreases tree, tree.children@.len() - i,
{
    if i < 0 || i >= tree.children@.len() {
        true
    } else {
        let name = tree.children@[i].0@;
        let sub = tree.children@[i].1;
        &&& child_module(r, m, name) is Some
        &&& preresolve_tree_finds(r, submodule(r, m, name), sub, module.push(name))
        &&& match preresolve_tree(r, submodule(r, m, name), sub, module.push(name)) {
            (q, Err(_)) => true,
            (q, Ok(_)) => preresolve_subtrees_find(q, m, tree, module, i + 1),
        }
    }
}

/// Whether the pass over the re-exports of `tree` finds a module under the
/// name of every submodule that it comes to, from the module `m` down.
pub open spec fn preresolve_tree_finds(
    r: RootView,
    m: Index<Module>,
    tree: ModuleTree,
    module: Seq<Seq<char>>,
) -> bool
    decreases tree, tree.children@.len() + 1,
{
    match preresolve_uses(r, m, tree.val.uses@, 0) {
        (q, Err(_)) => true,
        (q, Ok(_)) => preresolve_subtrees_find(q, m, tree, module, 0),
    }
}

/// Whether the pass over the bodies finds a compound under the name of
/// every compound, from position `i` on, that it comes to.
pub open spec fn resolve_compounds_find(
    r: RootView,
    m: Index<Module>,
    decls: Seq<(String, ast::CompoundDef)>,
    imports: Map<Seq<char>, ItemIndex>,
    i: int,
) -> bool
    decreases decls.len() - i,
{
    if i < 0 || i >= decls.len() {
        true
    } else {
        &&& child_compound(r, m, decls[i].0@) is Some
        &&& match resolve_compound(r, m, decls[i].0@, decls[i].1, imports) {
            (q, Err(_)) => true,
            (q, Ok(_)) => resolve_compounds_find(q, m, decls, imports, i + 1),
        }
    }
}

/// Whether the pass over the bodies finds an enum under the name of every
/// enum from position `i` on.
pub open spec fn resolve_enums_find(
    r: RootView,
    m: Index<Module>,
    decls: Seq<(String, ast::EnumDef)>,
    i: int,
) -> bool
    decreases decls.len() - i,
{
    if i < 0 || i >= decls.len() {
        true
    } else {
        &&& child_enum(r, m, decls[i].0@) is Some
        &&& resolve_enums_find(resolve_enum(r, m, decls[i].0@, decls[i].1), m, decls, i + 1)
    }
}

/// Whether the pass over the bodies of one module finds an item of its
/// kind under the name of every compound and enum that it comes to.
pub open spec fn resolve_bodies_find(
    r: RootView,
    m: Index<Module>,
    file: ast::NbtDocFile,
    imports: Map<Seq<char>, ItemIndex>,
) -> bool {
    &&& resolve_compounds_find(r, m, file.compounds@, imports, 0)
    &&& match resolve_compounds(r, m, file.compounds@, imports, 0) {
        (q, Err(_)) => true,
        (q, Ok(_)) => resolve_enums_find(q, m, file.enums@, 0),
    }
}

/// Whether the pass over the bodies of the submodules of `tree` from
/// position `i` on finds an item of its kind under every declared name
/// that it comes to.
pub open spec fn resolve_subtrees_find(
    r: RootView,
    m: Index<Module>,
    tree: ModuleTree,
    module: Seq<Seq<char>>,
    i: int,
) -> bool
    decreases tree, tree.children@.len() - i,
{
    if i < 0 || i >= tree.children@.len() {
        true
    } else {
        let name = tree.children@[i].0@;
        let sub = tree.children@[i].1;
        &&& child_module(r, m, name) is Some
        &&& resolve_tree_finds(r, submodule(r, m, name), sub, module.push(name))
        &&& match resolve_tree(r, submodule(r, m, name), sub, module.push(name)) {
            (q, Err(_)) => true,
            (q, Ok(_)) => resolve_subtrees_find(q, m, tree, module, i + 1),
        }
    }
}

/// Whether the pass over the bodies of `tree` finds an item of its kind
/// under every declared name that it comes to: a compound for a compound,
/// an enum for an enum, a module for a submodule; from the module `m` down.
pub open spec fn resolve_tree_finds(
    r: RootView,
    m: Index<Module>,
    tree: ModuleTree,
    module: Seq<Seq<char>>,
) -> bool
    decreases tree, tree.children@.len() + 1,
{
    match imports_from(r, m, tree.val.uses@, 0, Map::empty()) {
        Err(_) => true,
        Ok(imports) => {
            &&& resolve_bodies_find(r, m, tree.val, imports)
            &&& match resolve_bodies(r, m, tree.val, imports) {
                (q, Err(_)) => true,
                (q, Ok(_)) => resolve_subtrees_find(q, m, tree, module, 0),
            }
        },
    }
}

/// Whether the passes over a new root module find an item of its kind
/// under every declared name that they come to. They do not where a name
/// that the tree declares has come to denote an item of another kind: where
/// a module declares two items of different kinds under one name, or
/// re-exports an item under the name of one that it declares with another
/// kind.
pub open spec fn add_root_finds(r: RootView, name: Seq<char>, tree: ModuleTree) -> bool {
    let root = r.next_module();
    let r1 = RootView {
        root_modules: r.root_modules.insert(name, root),
        ..r.push_module(empty_module(None))
    };
    let r2 = register_tree(r1, root, tree);
    &&& preresolve_tree_finds(r2, root, tree, seq![name])
    &&& match preresolve_tree(r2, root, tree, seq![name]) {
        (q, Err(_)) => true,
        (q, Ok(_)) => resolve_tree_finds(q, root, tree, seq![name]),
    }
}

/// A new root module: a module without parent under `name` among the root
/// modules, then the three passes over `tree`.
pub open spec fn add_root(r: RootView, name: Seq<char>, tree: ModuleTree) -> Outcome<
    ValidationErrorView,
> {
    let root = r.next_module();
    let r1 = RootView {
        root_modules: r.root_modules.insert(name, root),
        ..r.push_module(empty_module(None))
    };
    let r2 = register_tree(r1, root, tree);
    match preresolve_tree(r2, root, tree, seq![name]) {
        (q, Err(e)) => (q, Err(e)),
        (q, Ok(_)) => resolve_tree(q, root, tree, seq![name]),
    }
}

} // verus!
