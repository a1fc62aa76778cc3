//! What holds of the resolver on every input: laws, each proved from the
//! definitions that the contracts of the passes speak of.

use super::arena::Index;
use super::convert::field_type;
use super::error::{ValidationErrorTypeView, ValidationErrorView};
use super::exports::{
    exported, has_export, lemma_child_keeps_placed, lemma_exports_tree, lemma_preresolve_tree,
    lemma_uses_keep_placed, level_exported,
};
use super::format::{
    CompoundTag, EnumItem, FieldView, ItemIndex, ItemType, Module, NbtValueView, NumberTag,
};
use super::model::{child_of, item_at, part_name, walk, RegistryView, RootView};
use super::passes::{
    add_root, add_root_finds, bind, bind_targets, child_compound, child_enum, child_module,
    describe, describes_from, empty_module, import_name, import_of, imports_from,
    preresolve_subtrees_find, preresolve_tree, preresolve_tree_finds, preresolve_uses, reexport,
    register_tree, resolve_bodies, resolve_compound, resolve_compounds, resolve_compounds_find,
    resolve_enum, resolve_enums, resolve_enums_find, resolve_fields, resolve_subtrees,
    resolve_subtrees_find, resolve_supers, resolve_tree, resolve_tree_finds, slot_of_compound,
    submodule,
};
use super::placement::{child_lo, lemma_register_tree, lemma_size, marks_of, placed, size, Marks};
use super::tree::ModuleTree;
use crate::{F32_INFINITY, F32Bits, F64_INFINITY, F64Bits, Range};
use crate::identifier::{Identifier, IdentifierView};
use crate::parse::ast;
use crate::parse::ast::PathPart;
use vstd::prelude::*;

verus! {

/// `super` has no meaning in the scope of the root modules: a step of a path
/// that takes it there fails with `RootAccess`.
pub proof fn law_super_needs_a_module(r: RootView, imports: Option<Map<Seq<char>, ItemIndex>>)
    ensures
        child_of(r, PathPart::Super, None, imports) == Err::<
            Option<ItemIndex>,
            ValidationErrorTypeView,
        >(ValidationErrorTypeView::RootAccess),
{
}

/// From a module without parent, `super` leads to the scope of the root
/// modules. So the path `super` alone, and every path that begins with
/// `super.super`, fails there with `RootAccess`; any other path that begins
/// with `super` denotes what the rest of it denotes in the scope of the root
/// modules.
pub proof fn law_super_from_root_module(
    r: RootView,
    path: Seq<PathPart>,
    m: Index<Module>,
    imports: Map<Seq<char>, ItemIndex>,
)
    requires
        path.len() > 0,
        path[0] == PathPart::Super,
        r.module(m).parent is None,
    ensures
        path.len() == 1 ==> item_at(r, path, Some(m), imports) == Err::<
            ItemIndex,
            ValidationErrorTypeView,
        >(ValidationErrorTypeView::RootAccess),
        path.len() > 1 && path[1] == PathPart::Super ==> item_at(r, path, Some(m), imports)
            == Err::<ItemIndex, ValidationErrorTypeView>(ValidationErrorTypeView::RootAccess),
        path.len() > 1 ==> item_at(r, path, Some(m), imports) == walk(r, path, 1, None, imports),
{
    if path.len() > 1 && path[1] == PathPart::Super {
        assert(walk(r, path, 1, None, imports) == Err::<ItemIndex, ValidationErrorTypeView>(
            ValidationErrorTypeView::RootAccess,
        ));
    }
}

/// An import whose path ends in `super` fails with `SuperImport`, as a plain
/// import and as a re-export, whatever the root holds.
pub proof fn law_import_of_super(r: RootView, m: Index<Module>, path: Seq<PathPart>)
    requires
        path.len() > 0,
        path.last() == PathPart::Super,
    ensures
        import_name(path) == Err::<Seq<char>, ValidationErrorTypeView>(
            ValidationErrorTypeView::SuperImport,
        ),
        import_of(r, m, path) == Err::<(Seq<char>, ItemIndex), ValidationErrorTypeView>(
            ValidationErrorTypeView::SuperImport,
        ),
        reexport(r, m, path) == (
            r,
            Err::<(), ValidationErrorTypeView>(ValidationErrorTypeView::SuperImport),
        ),
{
}

/// A field type that names a module is rejected with `InvalidType`: a
/// compound or an enum was expected, a module was found.
pub proof fn law_module_is_no_field_type(
    r: RootView,
    path: Vec<PathPart>,
    m: Index<Module>,
    imports: Map<Seq<char>, ItemIndex>,
)
    requires
        item_at(r, path@, Some(m), imports) matches Ok(ItemIndex::Module(_)),
    ensures
        field_type(r, ast::FieldType::NamedType(path), m, imports) == Err::<
            NbtValueView,
            ValidationErrorTypeView,
        >(
            ValidationErrorTypeView::InvalidType {
                name: part_name(path@.last()),
                ex: seq![ItemType::Compound, ItemType::Enum],
                ty: ItemType::Module,
            },
        ),
{
}

/// A numeric field declared with a low bound only gets the maximum of its
/// kind as its high bound; for the two float kinds that is positive infinity.
pub proof fn law_low_bound_only(
    r: RootView,
    m: Index<Module>,
    imports: Map<Seq<char>, ItemIndex>,
    b: i8,
    s: i16,
    i: i32,
    l: i64,
    f: F32Bits,
    d: F64Bits,
)
    ensures
        field_type(
            r,
            ast::FieldType::NumberType(ast::NumberPrimitiveType::Byte(Some(ast::Range::Low(b)))),
            m,
            imports,
        ) == Ok::<NbtValueView, ValidationErrorTypeView>(
            NbtValueView::Byte(NumberTag { range: Some(Range(b, 127i8)) }),
        ),
        field_type(
            r,
            ast::FieldType::NumberType(ast::NumberPrimitiveType::Short(Some(ast::Range::Low(s)))),
            m,
            imports,
        ) == Ok::<NbtValueView, ValidationErrorTypeView>(
            NbtValueView::Short(NumberTag { range: Some(Range(s, 32767i16)) }),
        ),
        field_type(
            r,
            ast::FieldType::NumberType(ast::NumberPrimitiveType::Int(Some(ast::Range::Low(i)))),
            m,
            imports,
        ) == Ok::<NbtValueView, ValidationErrorTypeView>(
            NbtValueView::Int(NumberTag { range: Some(Range(i, 2147483647i32)) }),
        ),
        field_type(
            r,
            ast::FieldType::NumberType(ast::NumberPrimitiveType::Long(Some(ast::Range::Low(l)))),
            m,
            imports,
        ) == Ok::<NbtValueView, ValidationErrorTypeView>(
            NbtValueView::Long(NumberTag { range: Some(Range(l, 9223372036854775807i64)) }),
        ),
        field_type(
            r,
            ast::FieldType::NumberType(ast::NumberPrimitiveType::Float(Some(ast::Range::Low(f)))),
            m,
            imports,
        ) == Ok::<NbtValueView, ValidationErrorTypeView>(
            NbtValueView::Float(NumberTag { range: Some(Range(f, F32Bits(F32_INFINITY))) }),
        ),
        field_type(
            r,
            ast::FieldType::NumberType(ast::NumberPrimitiveType::Double(Some(ast::Range::Low(d)))),
            m,
            imports,
        ) == Ok::<NbtValueView, ValidationErrorTypeView>(
            NbtValueView::Double(NumberTag { range: Some(Range(d, F64Bits(F64_INFINITY))) }),
        ),
{
}

/// The registry that a declaration without targets leaves behind has a
/// default, so a second such declaration for it fails with
/// `DuplicateDescribe` and no target.
pub proof fn law_second_default(
    g: RegistryView,
    reg: IdentifierView,
    first: Index<CompoundTag>,
    second: Index<CompoundTag>,
)
    requires
        bind(g, reg, None, first).1 is Ok,
    ensures
        bind(bind(g, reg, None, first).0, reg, None, second) == (
            bind(g, reg, None, first).0,
            Err::<(), ValidationErrorTypeView>(
                ValidationErrorTypeView::DuplicateDescribe { reg, t: None },
            ),
        ),
{
}

/// Binding a list of targets that succeeds leaves every one of them bound.
pub proof fn lemma_targets_bound(
    g: RegistryView,
    reg: IdentifierView,
    targets: Seq<Identifier>,
    target: Index<CompoundTag>,
    i: int,
    j: int,
)
    requires
        0 <= i,
        bind_targets(g, reg, targets, target, i).1 is Ok,
        i <= j < targets.len() || g.targets.contains_key(targets[j]@),
    ensures
        bind_targets(g, reg, targets, target, i).0.targets.contains_key(targets[j]@),
    decreases targets.len() - i,
{
    if i < targets.len() {
        let h = RegistryView { targets: g.targets.insert(targets[i]@, target), ..g };
        lemma_targets_bound(h, reg, targets, target, i + 1, j);
    }
}

/// Binding a list of targets fails at the first of them that is bound
/// already, with `DuplicateDescribe` and that target.
pub proof fn lemma_first_bound_target(
    g: RegistryView,
    reg: IdentifierView,
    targets: Seq<Identifier>,
    target: Index<CompoundTag>,
    i: int,
    j: int,
)
    requires
        0 <= i <= j < targets.len(),
        g.targets.contains_key(targets[j]@),
        forall|k: int| i <= k < j ==> !g.targets.contains_key(#[trigger] targets[k]@),
        forall|a: int, b: int| i <= a < b < j ==> (#[trigger] targets[a])@ != (#[trigger] targets[b])@,
    ensures
        bind_targets(g, reg, targets, target, i).1 == Err::<(), ValidationErrorTypeView>(
            ValidationErrorTypeView::DuplicateDescribe { reg, t: Some(targets[j]@) },
        ),
    decreases j - i,
{
    if i < j {
        let h = RegistryView { targets: g.targets.insert(targets[i]@, target), ..g };
        assert forall|k: int| i + 1 <= k < j implies !h.targets.contains_key(
            #[trigger] targets[k]@,
        ) by {
            assert(targets[i]@ != targets[k]@);
        }
        lemma_first_bound_target(h, reg, targets, target, i + 1, j);
    }
}

/// A target that one declaration has bound in a registry cannot be bound
/// there again: a later declaration for the registry that begins its list
/// with that target fails with `DuplicateDescribe` and that target.
pub proof fn law_second_binding(
    g: RegistryView,
    reg: IdentifierView,
    first_targets: Vec<Identifier>,
    first: Index<CompoundTag>,
    second_targets: Vec<Identifier>,
    second: Index<CompoundTag>,
    i: int,
)
    requires
        bind(g, reg, Some(first_targets), first).1 is Ok,
        0 <= i < first_targets@.len(),
        second_targets@.len() > 0,
        second_targets@[0]@ == first_targets@[i]@,
    ensures
        bind(bind(g, reg, Some(first_targets), first).0, reg, Some(second_targets), second).1
            == Err::<(), ValidationErrorTypeView>(
            ValidationErrorTypeView::DuplicateDescribe { reg, t: Some(first_targets@[i]@) },
        ),
{
    lemma_targets_bound(g, reg, first_targets@, first, 0, i);
    let h = bind(g, reg, Some(first_targets), first).0;
    lemma_first_bound_target(h, reg, second_targets@, second, 0, 0);
}

/// A list that names one target twice binds it once at most: the
/// declaration fails with `DuplicateDescribe` and that target, provided no
/// target before its second occurrence is a duplicate itself.
pub proof fn law_target_twice_in_one_list(
    g: RegistryView,
    reg: IdentifierView,
    targets: Vec<Identifier>,
    target: Index<CompoundTag>,
    i: int,
    j: int,
)
    requires
        0 <= i < j < targets@.len(),
        targets@[i]@ == targets@[j]@,
        forall|k: int| 0 <= k < j ==> !g.targets.contains_key(#[trigger] targets@[k]@),
        forall|a: int, b: int|
            0 <= a < b < j ==> (#[trigger] targets@[a])@ != (#[trigger] targets@[b])@,
    ensures
        bind(g, reg, Some(targets), target).1 == Err::<(), ValidationErrorTypeView>(
            ValidationErrorTypeView::DuplicateDescribe { reg, t: Some(targets@[j]@) },
        ),
{
    lemma_bind_until(g, reg, targets@, target, 0, i + 1, j);
}

/// Binding the targets from `i` on, where none before `stop` is bound and
/// the target at `j` equals one in `i..stop`, fails at `j` or before it; with
/// no duplicate before `j`, at `j`.
proof fn lemma_bind_until(
    g: RegistryView,
    reg: IdentifierView,
    targets: Seq<Identifier>,
    target: Index<CompoundTag>,
    i: int,
    stop: int,
    j: int,
)
    requires
        0 <= i <= stop <= j < targets.len(),
        forall|k: int| i <= k < j ==> !g.targets.contains_key(#[trigger] targets[k]@),
        forall|a: int, b: int| i <= a < b < j ==> (#[trigger] targets[a])@ != (#[trigger] targets[b])@,
        g.targets.contains_key(targets[j]@) || exists|a: int|
            i <= a < stop && (#[trigger] targets[a])@ == targets[j]@,
    ensures
        bind_targets(g, reg, targets, target, i).1 == Err::<(), ValidationErrorTypeView>(
            ValidationErrorTypeView::DuplicateDescribe { reg, t: Some(targets[j]@) },
        ),
    decreases j - i,
{
    if g.targets.contains_key(targets[j]@) {
        lemma_first_bound_target(g, reg, targets, target, i, j);
    } else {
        let a = choose|a: int| i <= a < stop && (#[trigger] targets[a])@ == targets[j]@;
        let h = RegistryView { targets: g.targets.insert(targets[i]@, target), ..g };
        assert forall|k: int| i + 1 <= k < j implies !h.targets.contains_key(
            #[trigger] targets[k]@,
        ) by {
            assert(targets[i]@ != targets[k]@);
        }
        if a == i {
            lemma_first_bound_target(h, reg, targets, target, i + 1, j);
        } else {
            lemma_bind_until(h, reg, targets, target, i + 1, stop, j);
        }
    }
}

/// Two `describes` declarations without targets for one registry: where the
/// first succeeds, the second fails with `DuplicateDescribe` and no target,
/// whatever compound it names.
pub proof fn law_two_defaults(
    r: RootView,
    m: Index<Module>,
    first_path: Seq<PathPart>,
    first: ast::DescribeDef,
    second_path: Seq<PathPart>,
    second: ast::DescribeDef,
    imports: Map<Seq<char>, ItemIndex>,
)
    requires
        first.targets is None,
        second.targets is None,
        first.describe_type@ == second.describe_type@,
        describe(r, m, first_path, first, imports).1 is Ok,
        item_at(describe(r, m, first_path, first, imports).0, second_path, Some(m), imports)
            matches Ok(ItemIndex::Compound(_)),
    ensures
        describe(describe(r, m, first_path, first, imports).0, m, second_path, second, imports).1
            == Err::<(), ValidationErrorTypeView>(
            ValidationErrorTypeView::DuplicateDescribe { reg: first.describe_type@, t: None },
        ),
{
}

/// Two `describes` declarations for one registry that list the same
/// target: where the first succeeds, the second fails at that target with
/// `DuplicateDescribe`, provided the targets that it lists before are new to
/// the registry and differ from each other.
pub proof fn law_same_target_twice(
    r: RootView,
    m: Index<Module>,
    first_path: Seq<PathPart>,
    first: ast::DescribeDef,
    second_path: Seq<PathPart>,
    second: ast::DescribeDef,
    imports: Map<Seq<char>, ItemIndex>,
    i: int,
    j: int,
)
    requires
        first.targets is Some,
        second.targets is Some,
        first.describe_type@ == second.describe_type@,
        0 <= i < first.targets->0@.len(),
        0 <= j < second.targets->0@.len(),
        first.targets->0@[i]@ == second.targets->0@[j]@,
        describe(r, m, first_path, first, imports).1 is Ok,
        item_at(describe(r, m, first_path, first, imports).0, second_path, Some(m), imports)
            matches Ok(ItemIndex::Compound(_)),
        forall|k: int|
            0 <= k < j ==> !describe(r, m, first_path, first, imports).0.registry(
                first.describe_type@,
            ).targets.contains_key(#[trigger] second.targets->0@[k]@),
        forall|a: int, b: int|
            0 <= a < b < j ==> (#[trigger] second.targets->0@[a])@ != (
            #[trigger] second.targets->0@[b])@,
    ensures
        describe(describe(r, m, first_path, first, imports).0, m, second_path, second, imports).1
            == Err::<(), ValidationErrorTypeView>(
            ValidationErrorTypeView::DuplicateDescribe {
                reg: first.describe_type@,
                t: Some(second.targets->0@[j]@),
            },
        ),
{
    let reg = first.describe_type@;
    let c = item_at(r, first_path, Some(m), imports)->Ok_0->Compound_0;
    let g = r.registry(reg);
    lemma_targets_bound(g, reg, first.targets->0@, c, 0, i);
    let q = describe(r, m, first_path, first, imports).0;
    let d = item_at(q, second_path, Some(m), imports)->Ok_0->Compound_0;
    lemma_first_bound_target(q.registry(reg), reg, second.targets->0@, d, 0, j);
}

/// A module whose first import ends in `super` fails both passes over it
/// with `SuperImport`: the pass over the re-exports where the import is a
/// re-export, and the pass over the bodies in any case. Neither pass has
/// changed anything by then.
pub proof fn law_first_import_of_super(
    r: RootView,
    m: Index<Module>,
    tree: ModuleTree,
    module: Seq<Seq<char>>,
)
    requires
        tree.val.uses@.len() > 0,
        tree.val.uses@[0].1@.len() > 0,
        tree.val.uses@[0].1@.last() == PathPart::Super,
    ensures
        resolve_tree(r, m, tree, module) == (
            r,
            Err::<(), ValidationErrorView>(
                ValidationErrorView { module, ety: ValidationErrorTypeView::SuperImport },
            ),
        ),
        tree.val.uses@[0].0 ==> preresolve_tree(r, m, tree, module) == (
            r,
            Err::<(), ValidationErrorView>(
                ValidationErrorView { module, ety: ValidationErrorTypeView::SuperImport },
            ),
        ),
{
    law_import_of_super(r, m, tree.val.uses@[0].1@);
    assert(imports_from(r, m, tree.val.uses@, 0, Map::empty()) == Err::<
        Map<Seq<char>, ItemIndex>,
        ValidationErrorTypeView,
    >(ValidationErrorTypeView::SuperImport));
    if tree.val.uses@[0].0 {
        assert(preresolve_uses(r, m, tree.val.uses@, 0) == (
            r,
            Err::<(), ValidationErrorTypeView>(ValidationErrorTypeView::SuperImport),
        ));
    }
}

/// The module `k` levels above `d`, if the chain of parents reaches that far.
pub open spec fn ancestor(r: RootView, d: Index<Module>, k: nat) -> Option<Index<Module>>
    decreases k,
{
    if k == 0 {
        Some(d)
    } else {
        match ancestor(r, d, (k - 1) as nat) {
            Some(x) => r.module(x).parent,
            None => None,
        }
    }
}

/// The path that climbs `k` levels with `super` and then names `name`.
pub open spec fn climb(k: nat, name: String) -> Seq<PathPart> {
    Seq::new(
        k + 1,
        |i: int|
            if i < k {
                PathPart::Super
            } else {
                PathPart::Regular(name)
            },
    )
}

/// From the module that `i` steps of `super` have reached, the rest of a
/// climbing path leads to the child that it names.
proof fn lemma_climb(
    r: RootView,
    d: Index<Module>,
    k: nat,
    name: String,
    imports: Map<Seq<char>, ItemIndex>,
    i: nat,
)
    requires
        i <= k,
        ancestor(r, d, k) matches Some(p) && r.module(p).children.contains_key(name@),
    ensures
        ancestor(r, d, i) is Some,
        walk(r, climb(k, name), i as int, ancestor(r, d, i), imports) == Ok::<
            ItemIndex,
            ValidationErrorTypeView,
        >(r.module(ancestor(r, d, k)->0).children[name@]),
    decreases k - i,
{
    if i < k {
        lemma_climb(r, d, k, name, imports, i + 1);
    } else {
        assert(climb(k, name)[i as int] == PathPart::Regular(name));
    }
}

/// A child of a module can be named from every module below it: the path
/// that climbs to the module with `super` and then gives the name denotes
/// the child, whatever the module below imports.
pub proof fn law_child_visible_below(
    r: RootView,
    d: Index<Module>,
    k: nat,
    name: String,
    imports: Map<Seq<char>, ItemIndex>,
)
    requires
        ancestor(r, d, k) matches Some(p) && r.module(p).children.contains_key(name@),
    ensures
        item_at(r, climb(k, name), Some(d), imports) == Ok::<ItemIndex, ValidationErrorTypeView>(
            r.module(ancestor(r, d, k)->0).children[name@],
        ),
{
    lemma_climb(r, d, k, name, imports, 0);
}

/// What a module re-exports becomes a child of it, and so can be named from
/// every module below it like an item that the module declares: by the path
/// that climbs to the module with `super` and then gives the name. The
/// module below needs no import for that.
pub proof fn law_reexport_visible_below(
    r: RootView,
    m: Index<Module>,
    path: Seq<PathPart>,
    d: Index<Module>,
    k: nat,
    name: String,
    imports: Map<Seq<char>, ItemIndex>,
)
    requires
        r.has_module(m),
        reexport(r, m, path).1 is Ok,
        import_name(path) == Ok::<Seq<char>, ValidationErrorTypeView>(name@),
        ancestor(reexport(r, m, path).0, d, k) == Some(m),
    ensures
        item_at(reexport(r, m, path).0, climb(k, name), Some(d), imports) == item_at(
            r,
            path,
            Some(m),
            Map::empty(),
        ),
{
    law_child_visible_below(reexport(r, m, path).0, d, k, name, imports);
}

/// Whether every name that `tree` declares denotes, among the children of
/// its module, an item of its kind that the arenas hold: a compound for a
/// compound, an enum for an enum, and for a submodule a module whose parent
/// is the module that declares it; from the module `m` down.
pub open spec fn registered(q: RootView, m: Index<Module>, tree: ModuleTree) -> bool
    decreases tree,
{
    &&& q.has_module(m)
    &&& forall|i: int|
        0 <= i < tree.val.compounds@.len() ==> (child_compound(
            q,
            m,
            (#[trigger] tree.val.compounds@[i]).0@,
        ) matches Some(c) && c.pos() < q.compounds.len())
    &&& forall|i: int|
        0 <= i < tree.val.enums@.len() ==> (child_enum(q, m, (#[trigger] tree.val.enums@[i]).0@)
            matches Some(e) && e.pos() < q.enums.len())
    &&& forall|i: int|
        0 <= i < tree.children@.len() ==> (child_module(q, m, (#[trigger] tree.children@[i]).0@)
            matches Some(c) && q.module(c).parent == Some(m) && registered(
            q,
            c,
            tree.children@[i].1,
        ))
}

/// What is placed is registered.
pub proof fn lemma_placed_is_registered(q: RootView, m: Index<Module>, tree: ModuleTree, lo: Marks)
    requires
        placed(q, m, tree, lo),
    ensures
        registered(q, m, tree),
    decreases tree,
{
    reveal(placed);
    lemma_size(tree);
    assert forall|i: int| 0 <= i < tree.val.compounds@.len() implies (child_compound(
        q,
        m,
        (#[trigger] tree.val.compounds@[i]).0@,
    ) matches Some(c) && c.pos() < q.compounds.len()) by {
        Index::<CompoundTag>::lemma_at((lo.compounds + i) as nat);
    }
    assert forall|i: int| 0 <= i < tree.val.enums@.len() implies (child_enum(
        q,
        m,
        (#[trigger] tree.val.enums@[i]).0@,
    ) matches Some(e) && e.pos() < q.enums.len()) by {
        Index::<EnumItem>::lemma_at((lo.enums + i) as nat);
    }
    assert forall|i: int| 0 <= i < tree.children@.len() implies (child_module(
        q,
        m,
        (#[trigger] tree.children@[i]).0@,
    ) matches Some(c) && q.module(c).parent == Some(m) && registered(q, c, tree.children@[i].1)) by {
        lemma_placed_is_registered(
            q,
            Index::<Module>::at((lo.modules + i) as nat),
            tree.children@[i].1,
            child_lo(tree, lo, i),
        );
    }
}

/// Registration gives every name of a well-formed tree its slot before any
/// body is resolved: whatever the order of the declarations, each declared
/// name then denotes an item of its kind in its module. The arenas must stay
/// within what a machine integer can count.
pub proof fn law_registration_declares_every_name(r: RootView, m: Index<Module>, tree: ModuleTree)
    requires
        r.has_module(m),
        tree.well_formed(),
        marks_of(r).plus(size(tree)).fits(),
    ensures
        registered(register_tree(r, m, tree), m, tree),
{
    lemma_register_tree(r, m, tree);
    lemma_placed_is_registered(register_tree(r, m, tree), m, tree, marks_of(r));
}

/// A compound that a module declares can be named in that module by its
/// plain name, wherever in the module it is declared and whatever the
/// module imports.
pub proof fn law_own_compound_resolves(
    q: RootView,
    m: Index<Module>,
    tree: ModuleTree,
    i: int,
    imports: Map<Seq<char>, ItemIndex>,
)
    requires
        registered(q, m, tree),
        0 <= i < tree.val.compounds@.len(),
    ensures
        item_at(q, seq![PathPart::Regular(tree.val.compounds@[i].0)], Some(m), imports)
            == Ok::<ItemIndex, ValidationErrorTypeView>(
            ItemIndex::Compound(child_compound(q, m, tree.val.compounds@[i].0@)->0),
        ),
        q.has_item(ItemIndex::Compound(child_compound(q, m, tree.val.compounds@[i].0@)->0)),
{
    let name = tree.val.compounds@[i].0;
}

/// A compound that a sibling module declares can be named through the
/// parent: `super`, the name of the sibling, the name of the compound. That
/// holds in both directions, whichever of the two modules comes first.
pub proof fn law_sibling_compound_resolves(
    q: RootView,
    m: Index<Module>,
    tree: ModuleTree,
    from: int,
    to: int,
    i: int,
    imports: Map<Seq<char>, ItemIndex>,
)
    requires
        registered(q, m, tree),
        0 <= from < tree.children@.len(),
        0 <= to < tree.children@.len(),
        0 <= i < tree.children@[to].1.val.compounds@.len(),
    ensures
        ({
            let here = child_module(q, m, tree.children@[from].0@)->0;
            let there = child_module(q, m, tree.children@[to].0@)->0;
            let name = tree.children@[to].1.val.compounds@[i].0;
            item_at(
                q,
                seq![PathPart::Super, PathPart::Regular(tree.children@[to].0), PathPart::Regular(name)],
                Some(here),
                imports,
            ) == Ok::<ItemIndex, ValidationErrorTypeView>(
                ItemIndex::Compound(child_compound(q, there, name@)->0),
            )
        }),
{
    let there = child_module(q, m, tree.children@[to].0@)->0;
    let sub = tree.children@[to].1;
    let name = sub.val.compounds@[i].0;
    let path = seq![PathPart::Super, PathPart::Regular(tree.children@[to].0), PathPart::Regular(name)];
    assert(registered(q, there, sub));
    assert(walk(q, path, 2, Some(there), imports) == Ok::<ItemIndex, ValidationErrorTypeView>(
        ItemIndex::Compound(child_compound(q, there, name@)->0),
    ));
    assert(walk(q, path, 1, Some(m), imports) == walk(q, path, 2, Some(there), imports));
}

/// What a path denotes depends on the modules and on the table of root
/// modules only.
pub proof fn lemma_walk_sees_modules_only(
    r: RootView,
    q: RootView,
    path: Seq<PathPart>,
    i: int,
    current: Option<Index<Module>>,
    imports: Map<Seq<char>, ItemIndex>,
)
    requires
        q.modules == r.modules,
        q.root_modules == r.root_modules,
    ensures
        walk(q, path, i, current, imports) == walk(r, path, i, current, imports),
    decreases path.len() - i,
{
    if 0 <= i < path.len() && i + 1 < path.len() {
        lemma_walk_sees_modules_only(r, q, path, i + 1, None, imports);
        let step = child_of(
            r,
            path[i],
            current,
            if i == 0 {
                Some(imports)
            } else {
                None
            },
        );
        match step {
            Ok(Some(ItemIndex::Module(m))) => {
                lemma_walk_sees_modules_only(r, q, path, i + 1, Some(m), imports);
            },
            _ => {},
        }
    }
}

/// While bodies are resolved the names stay as they are: what a path denotes
/// is the same in two roots that differ in their compounds, enums and
/// registries only.
pub proof fn law_resolution_sees_modules_only(
    r: RootView,
    q: RootView,
    path: Seq<PathPart>,
    rel: Option<Index<Module>>,
    imports: Map<Seq<char>, ItemIndex>,
)
    requires
        q.modules == r.modules,
        q.root_modules == r.root_modules,
    ensures
        item_at(q, path, rel, imports) == item_at(r, path, rel, imports),
{
    lemma_walk_sees_modules_only(r, q, path, 0, rel, imports);
}

/// Whether `q` has the modules and the root modules of `r`.
pub open spec fn names_kept(r: RootView, q: RootView) -> bool {
    q.modules == r.modules && q.root_modules == r.root_modules
}

proof fn lemma_fields_keep_names(
    r: RootView,
    m: Index<Module>,
    c: Index<CompoundTag>,
    fields: Seq<(String, ast::Field)>,
    imports: Map<Seq<char>, ItemIndex>,
    i: int,
)
    ensures
        names_kept(r, resolve_fields(r, m, c, fields, imports, i).0),
    decreases fields.len() - i,
{
    if 0 <= i < fields.len() {
        match field_type(r, fields[i].1.field_type, m, imports) {
            Ok(t) => {
                let f = FieldView {
                    description: fields[i].1.description@,
                    nbttype: t,
                };
                lemma_fields_keep_names(
                    r.with_field(c, fields[i].0@, f),
                    m,
                    c,
                    fields,
                    imports,
                    i + 1,
                );
            },
            Err(_) => {},
        }
    }
}

proof fn lemma_compound_keeps_names(
    r: RootView,
    m: Index<Module>,
    name: Seq<char>,
    def: ast::CompoundDef,
    imports: Map<Seq<char>, ItemIndex>,
)
    ensures
        names_kept(r, resolve_compound(r, m, name, def, imports).0),
{
    let c = slot_of_compound(r, m, name);
    let r1 = r.with_description(c, def.description@);
    let o = resolve_supers(r1, m, c, name, def.supers, imports);
    if o.1 is Ok {
        lemma_fields_keep_names(o.0, m, c, def.fields@, imports, 0);
    }
}

proof fn lemma_compounds_keep_names(
    r: RootView,
    m: Index<Module>,
    decls: Seq<(String, ast::CompoundDef)>,
    imports: Map<Seq<char>, ItemIndex>,
    i: int,
)
    ensures
        names_kept(r, resolve_compounds(r, m, decls, imports, i).0),
    decreases decls.len() - i,
{
    if 0 <= i < decls.len() {
        lemma_compound_keeps_names(r, m, decls[i].0@, decls[i].1, imports);
        let o = resolve_compound(r, m, decls[i].0@, decls[i].1, imports);
        if o.1 is Ok {
            lemma_compounds_keep_names(o.0, m, decls, imports, i + 1);
        }
    }
}

proof fn lemma_enums_keep_names(
    r: RootView,
    m: Index<Module>,
    decls: Seq<(String, ast::EnumDef)>,
    i: int,
)
    ensures
        names_kept(r, resolve_enums(r, m, decls, i)),
    decreases decls.len() - i,
{
    if 0 <= i < decls.len() {
        lemma_enums_keep_names(resolve_enum(r, m, decls[i].0@, decls[i].1), m, decls, i + 1);
    }
}

proof fn lemma_describes_keep_names(
    r: RootView,
    m: Index<Module>,
    decls: Seq<(Vec<PathPart>, ast::DescribeDef)>,
    imports: Map<Seq<char>, ItemIndex>,
    i: int,
)
    ensures
        names_kept(r, describes_from(r, m, decls, imports, i).0),
    decreases decls.len() - i,
{
    if 0 <= i < decls.len() {
        let o = describe(r, m, decls[i].0@, decls[i].1, imports);
        if o.1 is Ok {
            lemma_describes_keep_names(o.0, m, decls, imports, i + 1);
        }
    }
}

proof fn lemma_bodies_keep_names(
    r: RootView,
    m: Index<Module>,
    file: ast::NbtDocFile,
    imports: Map<Seq<char>, ItemIndex>,
)
    ensures
        names_kept(r, resolve_bodies(r, m, file, imports).0),
{
    lemma_compounds_keep_names(r, m, file.compounds@, imports, 0);
    let o = resolve_compounds(r, m, file.compounds@, imports, 0);
    if o.1 is Ok {
        lemma_enums_keep_names(o.0, m, file.enums@, 0);
        lemma_describes_keep_names(
            resolve_enums(o.0, m, file.enums@, 0),
            m,
            file.describes@,
            imports,
            0,
        );
    }
}

proof fn lemma_subtrees_keep_names(
    r: RootView,
    m: Index<Module>,
    tree: ModuleTree,
    module: Seq<Seq<char>>,
    i: int,
)
    ensures
        names_kept(r, resolve_subtrees(r, m, tree, module, i).0),
    decreases tree, tree.children@.len() - i,
{
    if 0 <= i < tree.children@.len() {
        let name = tree.children@[i].0@;
        let c = submodule(r, m, name);
        law_bodies_keep_the_names(r, c, tree.children@[i].1, module.push(name));
        let o = resolve_tree(r, c, tree.children@[i].1, module.push(name));
        if o.1 is Ok {
            lemma_subtrees_keep_names(o.0, m, tree, module, i + 1);
        }
    }
}

/// The pass over the bodies binds no name: it leaves every module and the
/// table of root modules as they are, whether it succeeds or fails. So what
/// a name denotes while bodies are resolved is what it denoted when the
/// pass began.
pub proof fn law_bodies_keep_the_names(
    r: RootView,
    m: Index<Module>,
    tree: ModuleTree,
    module: Seq<Seq<char>>,
)
    ensures
        names_kept(r, resolve_tree(r, m, tree, module).0),
    decreases tree, tree.children@.len() + 1,
{
    match imports_from(r, m, tree.val.uses@, 0, Map::empty()) {
        Ok(imports) => {
            lemma_bodies_keep_names(r, m, tree.val, imports);
            let o = resolve_bodies(r, m, tree.val, imports);
            if o.1 is Ok {
                lemma_subtrees_keep_names(o.0, m, tree, module, 0);
            }
        },
        Err(_) => {},
    }
}

/// The root in which the bodies of a new root module are resolved: the one
/// that registration and the pass over the re-exports leave.
pub open spec fn before_bodies(r: RootView, name: Seq<char>, tree: ModuleTree) -> RootView {
    preresolve_tree(
        register_tree(
            RootView {
                root_modules: r.root_modules.insert(name, r.next_module()),
                ..r.push_module(empty_module(None))
            },
            r.next_module(),
            tree,
        ),
        r.next_module(),
        tree,
        seq![name],
    ).0
}

/// Forward references: when a well-formed tree is added as a root module,
/// every name that it declares denotes an item of its kind before the first
/// body is resolved, wherever in the tree the name is declared and in
/// whatever order. The pass over the bodies then leaves all names as they
/// are. So a field or a supertype may name what is declared later in its
/// module, or in a module that is resolved later. The arenas must stay
/// within what a machine integer can count.
pub proof fn law_forward_references(r: RootView, name: Seq<char>, tree: ModuleTree)
    requires
        tree.well_formed(),
        marks_of(r).plus(Marks { modules: 1, compounds: 0, enums: 0 }).plus(size(tree)).fits(),
    ensures
        registered(before_bodies(r, name, tree), r.next_module(), tree),
        names_kept(before_bodies(r, name, tree), add_root(r, name, tree).0),
{
    let root = r.next_module();
    Index::<Module>::lemma_at(r.modules.len());
    let r1 = RootView {
        root_modules: r.root_modules.insert(name, root),
        ..r.push_module(empty_module(None))
    };
    lemma_register_tree(r1, root, tree);
    let r2 = register_tree(r1, root, tree);
    lemma_preresolve_tree(r2, root, tree, marks_of(r1), seq![name]);
    let pre = before_bodies(r, name, tree);
    lemma_placed_is_registered(pre, root, tree, marks_of(r1));
    law_bodies_keep_the_names(pre, root, tree, seq![name]);
}

/// Whatever becomes of the passes, a new root module stands under its name
/// among the root modules, at the handle that follows the modules that were
/// there, and every other root module stays where it was. The arenas must
/// stay within what a machine integer can count.
pub proof fn law_root_module_is_named(r: RootView, name: Seq<char>, tree: ModuleTree)
    requires
        tree.well_formed(),
        marks_of(r).plus(Marks { modules: 1, compounds: 0, enums: 0 }).plus(size(tree)).fits(),
    ensures
        add_root(r, name, tree).0.root_modules == r.root_modules.insert(name, r.next_module()),
        add_root(r, name, tree).0.has_module(r.next_module()),
        r.next_module().pos() == r.modules.len(),
{
    let root = r.next_module();
    Index::<Module>::lemma_at(r.modules.len());
    let r1 = RootView {
        root_modules: r.root_modules.insert(name, root),
        ..r.push_module(empty_module(None))
    };
    lemma_register_tree(r1, root, tree);
    let r2 = register_tree(r1, root, tree);
    lemma_preresolve_tree(r2, root, tree, marks_of(r1), seq![name]);
    let pre = before_bodies(r, name, tree);
    law_bodies_keep_the_names(pre, root, tree, seq![name]);
}

/// Whether every re-export of `tree` is a child of the module that
/// re-exports it: a compound or an enum, under the last name of its path;
/// from the module `m` down.
pub open spec fn reexports_are_children(q: RootView, m: Index<Module>, tree: ModuleTree) -> bool
    decreases tree,
{
    &&& level_exported(q, m, tree.val.uses@)
    &&& forall|i: int|
        0 <= i < tree.children@.len() ==> reexports_are_children(
            q,
            submodule(q, m, (#[trigger] tree.children@[i]).0@),
            tree.children@[i].1,
        )
}

/// What is exported from a placed tree is there under its name.
proof fn lemma_exported_are_children(q: RootView, m: Index<Module>, tree: ModuleTree, lo: Marks)
    requires
        placed(q, m, tree, lo),
        exported(q, m, tree, lo),
    ensures
        reexports_are_children(q, m, tree),
    decreases tree,
{
    reveal(placed);
    reveal(exported);
    assert forall|i: int| 0 <= i < tree.children@.len() implies reexports_are_children(
        q,
        submodule(q, m, (#[trigger] tree.children@[i]).0@),
        tree.children@[i].1,
    ) by {
        lemma_exported_are_children(
            q,
            Index::<Module>::at((lo.modules + i) as nat),
            tree.children@[i].1,
            child_lo(tree, lo, i),
        );
    }
}

/// When a well-formed tree has been added as a root module, every name
/// that one of its modules re-exports was a child of that module, a compound
/// or an enum, before the first body was resolved, and the pass over the
/// bodies has left all names as they are. With what holds of the children
/// of a module, a re-exported name is in reach of every module below: by the
/// path that climbs to the re-exporting module and then gives the name. The
/// arenas must stay within what a machine integer can count.
pub proof fn law_reexports_become_children(r: RootView, name: Seq<char>, tree: ModuleTree)
    requires
        tree.well_formed(),
        marks_of(r).plus(Marks { modules: 1, compounds: 0, enums: 0 }).plus(size(tree)).fits(),
        add_root(r, name, tree).1 is Ok,
    ensures
        reexports_are_children(before_bodies(r, name, tree), r.next_module(), tree),
        names_kept(before_bodies(r, name, tree), add_root(r, name, tree).0),
{
    let root = r.next_module();
    Index::<Module>::lemma_at(r.modules.len());
    let r1 = RootView {
        root_modules: r.root_modules.insert(name, root),
        ..r.push_module(empty_module(None))
    };
    lemma_register_tree(r1, root, tree);
    let r2 = register_tree(r1, root, tree);
    lemma_preresolve_tree(r2, root, tree, marks_of(r1), seq![name]);
    lemma_exports_tree(r2, root, tree, marks_of(r1), seq![name]);
    let pre = before_bodies(r, name, tree);
    lemma_exported_are_children(pre, root, tree, marks_of(r1));
    law_bodies_keep_the_names(pre, root, tree, seq![name]);
}

/// Whether every name that `tree` declares denotes, among the children of
/// its module, an item of its kind, from the module `m` down.
pub open spec fn named(q: RootView, m: Index<Module>, tree: ModuleTree) -> bool
    decreases tree,
{
    &&& forall|i: int|
        0 <= i < tree.val.compounds@.len() ==> child_compound(
            q,
            m,
            (#[trigger] tree.val.compounds@[i]).0@,
        ) is Some
    &&& forall|i: int|
        0 <= i < tree.val.enums@.len() ==> child_enum(q, m, (#[trigger] tree.val.enums@[i]).0@)
            is Some
    &&& forall|i: int|
        0 <= i < tree.children@.len() ==> (child_module(q, m, (#[trigger] tree.children@[i]).0@)
            matches Some(c) && named(q, c, tree.children@[i].1))
}

/// What is placed is named.
proof fn lemma_placed_is_named(q: RootView, m: Index<Module>, tree: ModuleTree, lo: Marks)
    requires
        placed(q, m, tree, lo),
    ensures
        named(q, m, tree),
    decreases tree,
{
    reveal(placed);
    assert forall|i: int| 0 <= i < tree.children@.len() implies (child_module(
        q,
        m,
        (#[trigger] tree.children@[i]).0@,
    ) matches Some(c) && named(q, c, tree.children@[i].1)) by {
        lemma_placed_is_named(
            q,
            Index::<Module>::at((lo.modules + i) as nat),
            tree.children@[i].1,
            child_lo(tree, lo, i),
        );
    }
}

/// What is named stays named while the modules stay as they are.
proof fn lemma_named_kept(r: RootView, q: RootView, m: Index<Module>, tree: ModuleTree)
    requires
        named(r, m, tree),
        q.modules == r.modules,
    ensures
        named(q, m, tree),
    decreases tree,
{
    assert forall|i: int| 0 <= i < tree.children@.len() implies (child_module(
        q,
        m,
        (#[trigger] tree.children@[i]).0@,
    ) matches Some(c) && named(q, c, tree.children@[i].1)) by {
        lemma_named_kept(r, q, child_module(r, m, tree.children@[i].0@)->0, tree.children@[i].1);
    }
}

proof fn lemma_compounds_are_found(
    r: RootView,
    m: Index<Module>,
    decls: Seq<(String, ast::CompoundDef)>,
    imports: Map<Seq<char>, ItemIndex>,
    i: int,
)
    requires
        0 <= i,
        forall|j: int| 0 <= j < decls.len() ==> child_compound(r, m, (#[trigger] decls[j]).0@) is Some,
    ensures
        resolve_compounds_find(r, m, decls, imports, i),
    decreases decls.len() - i,
{
    if i < decls.len() {
        lemma_compound_keeps_names(r, m, decls[i].0@, decls[i].1, imports);
        let o = resolve_compound(r, m, decls[i].0@, decls[i].1, imports);
        assert(child_compound(r, m, decls[i].0@) is Some);
        if o.1 is Ok {
            assert forall|j: int| 0 <= j < decls.len() implies child_compound(
                o.0,
                m,
                (#[trigger] decls[j]).0@,
            ) is Some by {
                assert(child_compound(r, m, decls[j].0@) is Some);
            }
            lemma_compounds_are_found(o.0, m, decls, imports, i + 1);
        }
    }
}

proof fn lemma_enums_are_found(
    r: RootView,
    m: Index<Module>,
    decls: Seq<(String, ast::EnumDef)>,
    i: int,
)
    requires
        0 <= i,
        forall|j: int| 0 <= j < decls.len() ==> child_enum(r, m, (#[trigger] decls[j]).0@) is Some,
    ensures
        resolve_enums_find(r, m, decls, i),
    decreases decls.len() - i,
{
    if i < decls.len() {
        let q = resolve_enum(r, m, decls[i].0@, decls[i].1);
        assert(child_enum(r, m, decls[i].0@) is Some);
        assert forall|j: int| 0 <= j < decls.len() implies child_enum(
            q,
            m,
            (#[trigger] decls[j]).0@,
        ) is Some by {
            assert(child_enum(r, m, decls[j].0@) is Some);
        }
        lemma_enums_are_found(q, m, decls, i + 1);
    }
}

proof fn lemma_subtrees_are_found(
    r: RootView,
    m: Index<Module>,
    tree: ModuleTree,
    module: Seq<Seq<char>>,
    i: int,
)
    requires
        0 <= i,
        named(r, m, tree),
    ensures
        resolve_subtrees_find(r, m, tree, module, i),
    decreases tree, tree.children@.len() - i,
{
    if i < tree.children@.len() {
        let name = tree.children@[i].0@;
        let sub = tree.children@[i].1;
        assert(child_module(r, m, name) is Some && named(r, submodule(r, m, name), sub));
        let c = submodule(r, m, name);
        lemma_bodies_are_found(r, c, sub, module.push(name));
        law_bodies_keep_the_names(r, c, sub, module.push(name));
        let o = resolve_tree(r, c, sub, module.push(name));
        if o.1 is Ok {
            lemma_named_kept(r, o.0, m, tree);
            lemma_subtrees_are_found(o.0, m, tree, module, i + 1);
        }
    }
}

/// The pass over the bodies finds what it looks up where every declared
/// name denotes an item of its kind.
proof fn lemma_bodies_are_found(
    r: RootView,
    m: Index<Module>,
    tree: ModuleTree,
    module: Seq<Seq<char>>,
)
    requires
        named(r, m, tree),
    ensures
        resolve_tree_finds(r, m, tree, module),
    decreases tree, tree.children@.len() + 1,
{
    match imports_from(r, m, tree.val.uses@, 0, Map::empty()) {
        Ok(imports) => {
            lemma_compounds_are_found(r, m, tree.val.compounds@, imports, 0);
            lemma_compounds_keep_names(r, m, tree.val.compounds@, imports, 0);
            let o = resolve_compounds(r, m, tree.val.compounds@, imports, 0);
            if o.1 is Ok {
                assert forall|j: int| 0 <= j < tree.val.enums@.len() implies child_enum(
                    o.0,
                    m,
                    (#[trigger] tree.val.enums@[j]).0@,
                ) is Some by {
                    assert(child_enum(r, m, tree.val.enums@[j].0@) is Some);
                }
                lemma_enums_are_found(o.0, m, tree.val.enums@, 0);
            }
            lemma_bodies_keep_names(r, m, tree.val, imports);
            let b = resolve_bodies(r, m, tree.val, imports);
            if b.1 is Ok {
                lemma_named_kept(r, b.0, m, tree);
                lemma_subtrees_are_found(b.0, m, tree, module, 0);
            }
        },
        Err(_) => {},
    }
}

proof fn lemma_reexports_below_are_found(
    s: RootView,
    m: Index<Module>,
    tree: ModuleTree,
    lo: Marks,
    module: Seq<Seq<char>>,
    i: int,
)
    requires
        0 <= i,
        placed(s, m, tree, lo),
        forall|j: int|
            0 <= j < tree.children@.len() ==> (#[trigger] tree.children@[j]).1.well_formed(),
    ensures
        preresolve_subtrees_find(s, m, tree, module, i),
    decreases tree, tree.children@.len() - i,
{
    if i < tree.children@.len() {
        let name = tree.children@[i].0@;
        let sub = tree.children@[i].1;
        let c = Index::<Module>::at((lo.modules + i) as nat);
        lemma_child_keeps_placed(s, m, tree, lo, module, i);
        lemma_reexports_are_found(s, c, sub, child_lo(tree, lo, i), module.push(name));
        let o = preresolve_tree(s, c, sub, module.push(name));
        if o.1 is Ok {
            lemma_reexports_below_are_found(o.0, m, tree, lo, module, i + 1);
        }
    }
}

/// The pass over the re-exports of a well-formed tree finds a module under
/// the name of every submodule.
proof fn lemma_reexports_are_found(
    r: RootView,
    m: Index<Module>,
    tree: ModuleTree,
    lo: Marks,
    module: Seq<Seq<char>>,
)
    requires
        placed(r, m, tree, lo),
        tree.well_formed(),
    ensures
        preresolve_tree_finds(r, m, tree, module),
    decreases tree, tree.children@.len() + 1,
{
    lemma_uses_keep_placed(r, m, tree, lo);
    let o = preresolve_uses(r, m, tree.val.uses@, 0);
    if o.1 is Ok {
        assert forall|j: int| 0 <= j < tree.children@.len() implies (
        #[trigger] tree.children@[j]).1.well_formed() by {}
        lemma_reexports_below_are_found(o.0, m, tree, lo, module, 0);
    }
}

/// In a well-formed tree no declared name comes to denote an item of
/// another kind: the passes over it find an item of the declared kind
/// wherever they look a declared name up. So a tree that
/// `ModuleTree::is_well_formed` accepts can be added. The arenas must stay
/// within what a machine integer can count.
pub proof fn law_well_formed_trees_are_found(r: RootView, name: Seq<char>, tree: ModuleTree)
    requires
        tree.well_formed(),
        marks_of(r).plus(Marks { modules: 1, compounds: 0, enums: 0 }).plus(size(tree)).fits(),
    ensures
        add_root_finds(r, name, tree),
{
    let root = r.next_module();
    Index::<Module>::lemma_at(r.modules.len());
    let r1 = RootView {
        root_modules: r.root_modules.insert(name, root),
        ..r.push_module(empty_module(None))
    };
    lemma_register_tree(r1, root, tree);
    let r2 = register_tree(r1, root, tree);
    lemma_reexports_are_found(r2, root, tree, marks_of(r1), seq![name]);
    lemma_preresolve_tree(r2, root, tree, marks_of(r1), seq![name]);
    let pre = before_bodies(r, name, tree);
    lemma_placed_is_named(pre, root, tree, marks_of(r1));
    lemma_bodies_are_found(pre, root, tree, seq![name]);
}

/// A re-export whose path denotes a module fails with `InvalidType`: a
/// compound or an enum was expected, a module was found. The module is
/// bound under no new name: the root stays as it was.
pub proof fn law_module_cannot_be_reexported(r: RootView, m: Index<Module>, path: Seq<PathPart>)
    requires
        import_name(path) is Ok,
        item_at(r, path, Some(m), Map::empty()) matches Ok(ItemIndex::Module(_)),
    ensures
        reexport(r, m, path) == (
            r,
            Err::<(), ValidationErrorTypeView>(
                ValidationErrorTypeView::InvalidType {
                    name: import_name(path)->Ok_0,
                    ex: seq![ItemType::Compound, ItemType::Enum],
                    ty: ItemType::Module,
                },
            ),
        ),
{
}

/// Where every import before position `k` can be resolved, and the path of
/// the import at `k` ends in `super`, the table of imports fails with
/// `SuperImport`.
proof fn lemma_imports_fail_at(
    r: RootView,
    m: Index<Module>,
    uses: Seq<(bool, Vec<PathPart>)>,
    i: int,
    k: int,
    found: Map<Seq<char>, ItemIndex>,
)
    requires
        0 <= i <= k < uses.len(),
        uses[k].1@.len() > 0,
        uses[k].1@.last() == PathPart::Super,
        forall|j: int| i <= j < k ==> import_of(r, m, (#[trigger] uses[j]).1@) is Ok,
    ensures
        imports_from(r, m, uses, i, found) == Err::<
            Map<Seq<char>, ItemIndex>,
            ValidationErrorTypeView,
        >(ValidationErrorTypeView::SuperImport),
    decreases k - i,
{
    if i < k {
        assert(import_of(r, m, uses[i].1@) is Ok);
        let step = import_of(r, m, uses[i].1@)->Ok_0;
        lemma_imports_fail_at(r, m, uses, i + 1, k, found.insert(step.0, step.1));
    }
}

/// An import whose path ends in `super` makes the pass over the bodies of
/// its module fail with `SuperImport`, be it a re-export or not, where
/// every import before it can be resolved. The pass has then changed
/// nothing: no compound, no enum and no registry.
pub proof fn law_super_import_fails_the_bodies(
    r: RootView,
    m: Index<Module>,
    tree: ModuleTree,
    module: Seq<Seq<char>>,
    k: int,
)
    requires
        0 <= k < tree.val.uses@.len(),
        tree.val.uses@[k].1@.len() > 0,
        tree.val.uses@[k].1@.last() == PathPart::Super,
        forall|j: int| 0 <= j < k ==> import_of(r, m, (#[trigger] tree.val.uses@[j]).1@) is Ok,
    ensures
        resolve_tree(r, m, tree, module) == (
            r,
            Err::<(), ValidationErrorView>(
                ValidationErrorView { module, ety: ValidationErrorTypeView::SuperImport },
            ),
        ),
{
    lemma_imports_fail_at(r, m, tree.val.uses@, 0, k, Map::empty());
}

/// The root that the re-exports among the first `k` imports leave, where
/// each of them succeeds.
pub open spec fn after_reexports(
    r: RootView,
    m: Index<Module>,
    uses: Seq<(bool, Vec<PathPart>)>,
    k: int,
) -> RootView {
    preresolve_uses(r, m, uses.take(k), 0).0
}

/// The re-exports among the imports are resolved in order: the pass over
/// all of them goes on from where the pass over the first `k` ends.
proof fn lemma_reexports_in_order(
    r: RootView,
    m: Index<Module>,
    uses: Seq<(bool, Vec<PathPart>)>,
    i: int,
    k: int,
)
    requires
        0 <= i <= k <= uses.len(),
        preresolve_uses(r, m, uses.take(k), i).1 is Ok,
    ensures
        preresolve_uses(r, m, uses, i) == preresolve_uses(
            preresolve_uses(r, m, uses.take(k), i).0,
            m,
            uses,
            k,
        ),
    decreases k - i,
{
    let first = uses.take(k);
    if i < k {
        assert(first[i] == uses[i]);
        if !uses[i].0 {
            lemma_reexports_in_order(r, m, uses, i + 1, k);
        } else {
            let o = reexport(r, m, uses[i].1@);
            lemma_reexports_in_order(o.0, m, uses, i + 1, k);
        }
    }
}

/// A re-export whose path ends in `super` makes the pass over the
/// re-exports fail in its module with `SuperImport`, where every re-export
/// before it succeeds. The root is then as the re-exports before it left
/// it: this one has bound no name, and no submodule has been visited.
pub proof fn law_super_reexport_fails_the_pass(
    r: RootView,
    m: Index<Module>,
    tree: ModuleTree,
    module: Seq<Seq<char>>,
    k: int,
)
    requires
        0 <= k < tree.val.uses@.len(),
        tree.val.uses@[k].0,
        tree.val.uses@[k].1@.len() > 0,
        tree.val.uses@[k].1@.last() == PathPart::Super,
        preresolve_uses(r, m, tree.val.uses@.take(k), 0).1 is Ok,
    ensures
        preresolve_tree(r, m, tree, module) == (
            after_reexports(r, m, tree.val.uses@, k),
            Err::<(), ValidationErrorView>(
                ValidationErrorView { module, ety: ValidationErrorTypeView::SuperImport },
            ),
        ),
{
    let uses = tree.val.uses@;
    lemma_reexports_in_order(r, m, uses, 0, k);
    law_import_of_super(after_reexports(r, m, uses, k), m, uses[k].1@);
}

/// A re-export that succeeds binds a compound or an enum: no re-export
/// ever makes a module the child of another module.
pub proof fn law_reexport_binds_no_module(r: RootView, m: Index<Module>, path: Seq<PathPart>)
    requires
        r.has_module(m),
        reexport(r, m, path).1 is Ok,
    ensures
        import_name(path) is Ok,
        has_export(reexport(r, m, path).0, m, import_name(path)->Ok_0),
        reexport(r, m, path).0.module(m).children[import_name(path)->Ok_0] == item_at(
            r,
            path,
            Some(m),
            Map::empty(),
        )->Ok_0,
{
}

} // verus!
