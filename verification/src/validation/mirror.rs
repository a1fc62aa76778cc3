//! Trees without cross-references: what they resolve to can be read off
//! their declarations.

use super::arena::Index;
use super::convert::{array_type, field_type, length_bounded, member_types, number_type};
use super::error::{ValidationErrorTypeView, ValidationErrorView};
use super::format::{
    field_path_view, CompoundTag, CompoundView, EnumItem, EnumItemView, FieldView, ItemIndex,
    Module, NbtValueView,
};
use super::model::RootView;
use super::passes::{
    add_root, child_compound, child_enum, child_module, empty_compound, empty_module, enum_type,
    imports_from, preresolve_subtrees, preresolve_tree, register_tree, resolve_bodies,
    resolve_compound, resolve_compounds, resolve_enums, resolve_fields, resolve_subtrees,
    resolve_tree, submodule,
};
use super::placement::{
    child_lo, lemma_placed_frame, lemma_register_tree, lemma_size, lemma_size_upto_grows,
    lemma_size_upto_step, marks_of, placed, size, Marks,
};
use super::tree::ModuleTree;
use crate::parse::ast;
use vstd::prelude::*;

verus! {

/// Whether a declared type names no compound and no enum, so that it
/// resolves to the same type wherever it stands.
pub open spec fn plain(ft: ast::FieldType) -> bool
    decreases ft,
{
    match ft {
        ast::FieldType::NamedType(_) => false,
        ast::FieldType::ListType { item_type, len_range } => plain(*item_type),
        ast::FieldType::OrType(v) => forall|i: int| 0 <= i < v@.len() ==> plain(#[trigger] v@[i]),
        _ => true,
    }
}

/// What a plain declared type says: the type that it resolves to.
pub open spec fn declared_type(ft: ast::FieldType) -> NbtValueView
    decreases ft, 0nat,
{
    match ft {
        ast::FieldType::BooleanType => NbtValueView::Boolean,
        ast::FieldType::StringType => NbtValueView::String,
        ast::FieldType::NamedType(_) => NbtValueView::Boolean,
        ast::FieldType::ArrayType(v) => array_type(v),
        ast::FieldType::NumberType(v) => number_type(v),
        ast::FieldType::ListType { item_type, len_range } => NbtValueView::List {
            length_range: length_bounded(len_range),
            value_type: Box::new(declared_type(*item_type)),
        },
        ast::FieldType::IndexType { target, path } => NbtValueView::Index {
            target: target@,
            path: field_path_view(path@),
        },
        ast::FieldType::IdType(v) => NbtValueView::Id(v@),
        ast::FieldType::OrType(v) => NbtValueView::Or(declared_members(v@, 0)),
    }
}

/// What the members of a plain union from position `i` on say, in order.
pub open spec fn declared_members(v: Seq<ast::FieldType>, i: int) -> Seq<NbtValueView>
    decreases v, v.len() - i,
{
    if i < 0 || i >= v.len() {
        Seq::empty()
    } else {
        seq![declared_type(v[i])] + declared_members(v, i + 1)
    }
}

/// A plain type resolves to what it says, whatever the root holds.
pub proof fn lemma_plain_type(
    r: RootView,
    ft: ast::FieldType,
    m: Index<Module>,
    imports: Map<Seq<char>, ItemIndex>,
)
    requires
        plain(ft),
    ensures
        field_type(r, ft, m, imports) == Ok::<NbtValueView, ValidationErrorTypeView>(
            declared_type(ft),
        ),
    decreases ft, 0nat,
{
    match ft {
        ast::FieldType::ListType { item_type, len_range } => {
            lemma_plain_type(r, *item_type, m, imports);
        },
        ast::FieldType::OrType(v) => {
            lemma_plain_members(r, v@, 0, m, imports);
        },
        _ => {},
    }
}

/// The members of a plain union resolve to what they say.
pub proof fn lemma_plain_members(
    r: RootView,
    v: Seq<ast::FieldType>,
    i: int,
    m: Index<Module>,
    imports: Map<Seq<char>, ItemIndex>,
)
    requires
        forall|k: int| 0 <= k < v.len() ==> plain(#[trigger] v[k]),
    ensures
        member_types(r, v, i, m, imports) == Ok::<Seq<NbtValueView>, ValidationErrorTypeView>(
            declared_members(v, i),
        ),
    decreases v, v.len() - i,
{
    if 0 <= i < v.len() {
        lemma_plain_type(r, v[i], m, imports);
        lemma_plain_members(r, v, i + 1, m, imports);
    }
}

/// The fields that the declarations from position `i` on add to `found`: each
/// under its name, with its description and what its type says. Where a
/// name is declared twice, the later declaration counts.
pub open spec fn declared_fields(
    fields: Seq<(String, ast::Field)>,
    i: int,
    found: Map<Seq<char>, FieldView>,
) -> Map<Seq<char>, FieldView>
    decreases fields.len() - i,
{
    if i < 0 || i >= fields.len() {
        found
    } else {
        declared_fields(
            fields,
            i + 1,
            found.insert(
                fields[i].0@,
                FieldView {
                    description: fields[i].1.description@,
                    nbttype: declared_type(fields[i].1.field_type),
                },
            ),
        )
    }
}

/// Whether a compound refers to nothing outside itself: it has no
/// supertype, and the types of its fields are plain.
pub open spec fn self_contained_compound(def: ast::CompoundDef) -> bool {
    &&& def.supers is None
    &&& forall|j: int| 0 <= j < def.fields@.len() ==> plain((#[trigger] def.fields@[j]).1.field_type)
}

/// What the declaration of a compound without cross-references says.
pub open spec fn declared_compound(def: ast::CompoundDef) -> CompoundView {
    CompoundView {
        description: def.description@,
        supers: None,
        fields: declared_fields(def.fields@, 0, Map::empty()),
    }
}

/// What the declaration of an enum says: its description, and its options in
/// declared order.
pub open spec fn declared_enum(def: ast::EnumDef) -> EnumItemView {
    EnumItemView { description: def.description@, et: enum_type(def.values) }
}

/// Plain fields resolve to what they say, one after the other.
pub proof fn lemma_resolve_fields(
    s: RootView,
    m: Index<Module>,
    c: Index<CompoundTag>,
    fields: Seq<(String, ast::Field)>,
    imports: Map<Seq<char>, ItemIndex>,
    i: int,
)
    requires
        0 <= i <= fields.len(),
        c.pos() < s.compounds.len(),
        forall|j: int| 0 <= j < fields.len() ==> plain((#[trigger] fields[j]).1.field_type),
    ensures
        resolve_fields(s, m, c, fields, imports, i) == (
            s.with_compound(
                c,
                CompoundView {
                    fields: declared_fields(fields, i, s.compound(c).fields),
                    ..s.compound(c)
                },
            ),
            Ok::<(), ValidationErrorTypeView>(()),
        ),
    decreases fields.len() - i,
{
    if i < fields.len() {
        lemma_plain_type(s, fields[i].1.field_type, m, imports);
        let f = FieldView {
            description: fields[i].1.description@,
            nbttype: declared_type(fields[i].1.field_type),
        };
        let s1 = s.with_field(c, fields[i].0@, f);
        lemma_resolve_fields(s1, m, c, fields, imports, i + 1);
        assert(s1.with_compound(
            c,
            CompoundView {
                fields: declared_fields(fields, i + 1, s1.compound(c).fields),
                ..s1.compound(c)
            },
        ).compounds =~= s.with_compound(
            c,
            CompoundView {
                fields: declared_fields(fields, i, s.compound(c).fields),
                ..s.compound(c)
            },
        ).compounds);
    } else {
        assert(s.with_compound(c, s.compound(c)).compounds =~= s.compounds);
    }
}

/// A compound without cross-references, resolved into an empty slot, is what
/// its declaration says.
pub proof fn lemma_resolve_compound(
    s: RootView,
    m: Index<Module>,
    name: Seq<char>,
    def: ast::CompoundDef,
    imports: Map<Seq<char>, ItemIndex>,
    c: Index<CompoundTag>,
)
    requires
        child_compound(s, m, name) == Some(c),
        c.pos() < s.compounds.len(),
        s.compound(c) == empty_compound(),
        self_contained_compound(def),
    ensures
        resolve_compound(s, m, name, def, imports) == (
            s.with_compound(c, declared_compound(def)),
            Ok::<(), ValidationErrorTypeView>(()),
        ),
{
    let s1 = s.with_description(c, def.description@);
    let s2 = s1.with_supers(c, None);
    lemma_resolve_fields(s2, m, c, def.fields@, imports, 0);
    assert(s2.with_compound(
        c,
        CompoundView {
            fields: declared_fields(def.fields@, 0, s2.compound(c).fields),
            ..s2.compound(c)
        },
    ).compounds =~= s.with_compound(c, declared_compound(def)).compounds);
}

/// The compounds `s` with what the declarations from position `i` on say in
/// their slots, the slot of the declaration at position `j` being `lo + j`.
pub open spec fn compounds_filled(
    s: Seq<CompoundView>,
    decls: Seq<(String, ast::CompoundDef)>,
    lo: int,
    i: int,
) -> Seq<CompoundView> {
    Seq::new(
        s.len(),
        |k: int|
            if lo + i <= k < lo + decls.len() {
                declared_compound(decls[k - lo].1)
            } else {
                s[k]
            },
    )
}

/// The enums `s` with what the declarations from position `i` on say in
/// their slots, the slot of the declaration at position `j` being `lo + j`.
pub open spec fn enums_filled(
    s: Seq<EnumItemView>,
    decls: Seq<(String, ast::EnumDef)>,
    lo: int,
    i: int,
) -> Seq<EnumItemView> {
    Seq::new(
        s.len(),
        |k: int|
            if lo + i <= k < lo + decls.len() {
                declared_enum(decls[k - lo].1)
            } else {
                s[k]
            },
    )
}

/// Compounds without cross-references, resolved into empty slots, are what
/// their declarations say.
pub proof fn lemma_resolve_compounds(
    s: RootView,
    m: Index<Module>,
    decls: Seq<(String, ast::CompoundDef)>,
    imports: Map<Seq<char>, ItemIndex>,
    i: int,
    lo: nat,
)
    requires
        0 <= i <= decls.len(),
        lo + decls.len() <= s.compounds.len() <= usize::MAX,
        forall|j: int|
            i <= j < decls.len() ==> child_compound(s, m, (#[trigger] decls[j]).0@) == Some(
                Index::<CompoundTag>::at((lo + j) as nat),
            ),
        forall|k: int| lo + i <= k < lo + decls.len() ==> #[trigger] s.compounds[k] == empty_compound(),
        forall|j: int| 0 <= j < decls.len() ==> self_contained_compound((#[trigger] decls[j]).1),
    ensures
        resolve_compounds(s, m, decls, imports, i) == (
            RootView { compounds: compounds_filled(s.compounds, decls, lo as int, i), ..s },
            Ok::<(), ValidationErrorTypeView>(()),
        ),
    decreases decls.len() - i,
{
    if i < decls.len() {
        let c = Index::<CompoundTag>::at((lo + i) as nat);
        Index::<CompoundTag>::lemma_at((lo + i) as nat);
        let first = decls[i];
        lemma_resolve_compound(s, m, first.0@, first.1, imports, c);
        let s1 = s.with_compound(c, declared_compound(first.1));
        assert forall|j: int| i + 1 <= j < decls.len() implies child_compound(
            s1,
            m,
            (#[trigger] decls[j]).0@,
        ) == Some(Index::<CompoundTag>::at((lo + j) as nat)) by {
            assert(child_compound(s, m, decls[j].0@) == Some(
                Index::<CompoundTag>::at((lo + j) as nat),
            ));
        }
        lemma_resolve_compounds(s1, m, decls, imports, i + 1, lo);
        assert(compounds_filled(s1.compounds, decls, lo as int, i + 1) =~= compounds_filled(
            s.compounds,
            decls,
            lo as int,
            i,
        ));
    } else {
        assert(compounds_filled(s.compounds, decls, lo as int, i) =~= s.compounds);
    }
}

/// Enums, resolved into their slots, are what their declarations say.
pub proof fn lemma_resolve_enums(
    s: RootView,
    m: Index<Module>,
    decls: Seq<(String, ast::EnumDef)>,
    i: int,
    lo: nat,
)
    requires
        0 <= i <= decls.len(),
        lo + decls.len() <= s.enums.len() <= usize::MAX,
        forall|j: int|
            i <= j < decls.len() ==> child_enum(s, m, (#[trigger] decls[j]).0@) == Some(
                Index::<EnumItem>::at((lo + j) as nat),
            ),
    ensures
        resolve_enums(s, m, decls, i) == (RootView {
            enums: enums_filled(s.enums, decls, lo as int, i),
            ..s
        }),
    decreases decls.len() - i,
{
    if i < decls.len() {
        let e = Index::<EnumItem>::at((lo + i) as nat);
        Index::<EnumItem>::lemma_at((lo + i) as nat);
        let first = decls[i];
        let s1 = s.with_enum(e, declared_enum(first.1));
        assert forall|j: int| i + 1 <= j < decls.len() implies child_enum(
            s1,
            m,
            (#[trigger] decls[j]).0@,
        ) == Some(Index::<EnumItem>::at((lo + j) as nat)) by {
            assert(child_enum(s, m, decls[j].0@) == Some(Index::<EnumItem>::at((lo + j) as nat)));
        }
        lemma_resolve_enums(s1, m, decls, i + 1, lo);
        assert(enums_filled(s1.enums, decls, lo as int, i + 1) =~= enums_filled(
            s.enums,
            decls,
            lo as int,
            i,
        ));
    } else {
        assert(enums_filled(s.enums, decls, lo as int, i) =~= s.enums);
    }
}

/// Whether nothing in `tree` refers to anything outside its own
/// declaration: no module imports or describes anything, no compound has a
/// supertype, and the types of all fields are plain.
pub open spec fn self_contained(tree: ModuleTree) -> bool
    decreases tree,
{
    &&& tree.val.uses@.len() == 0
    &&& tree.val.describes@.len() == 0
    &&& forall|i: int|
        0 <= i < tree.val.compounds@.len() ==> self_contained_compound(
            (#[trigger] tree.val.compounds@[i]).1,
        )
    &&& forall|i: int|
        0 <= i < tree.children@.len() ==> self_contained((#[trigger] tree.children@[i]).1)
}

/// Whether the slots that a registration which began at `lo` gave to the
/// compounds and enums of `tree` hold what their declarations say.
#[verifier::opaque]
pub open spec fn filled(q: RootView, tree: ModuleTree, lo: Marks) -> bool
    decreases tree,
{
    &&& forall|i: int|
        0 <= i < tree.val.compounds@.len() ==> q.compounds[lo.compounds + i] == declared_compound(
            (#[trigger] tree.val.compounds@[i]).1,
        )
    &&& forall|i: int|
        0 <= i < tree.val.enums@.len() ==> q.enums[lo.enums + i] == declared_enum(
            (#[trigger] tree.val.enums@[i]).1,
        )
    &&& forall|i: int|
        0 <= i < tree.children@.len() ==> filled(
            q,
            (#[trigger] tree.children@[i]).1,
            child_lo(tree, lo, i),
        )
}

/// What is filled stays filled while its slots stay as they are.
pub proof fn lemma_filled_frame(q: RootView, q2: RootView, tree: ModuleTree, lo: Marks)
    requires
        filled(q, tree, lo),
        forall|k: int|
            lo.compounds <= k < lo.compounds + size(tree).compounds ==> #[trigger] q2.compounds[k]
                == q.compounds[k],
        forall|k: int|
            lo.enums <= k < lo.enums + size(tree).enums ==> #[trigger] q2.enums[k] == q.enums[k],
    ensures
        filled(q2, tree, lo),
    decreases tree,
{
    reveal(filled);
    lemma_size(tree);
    assert forall|i: int| 0 <= i < tree.val.compounds@.len() implies q2.compounds[lo.compounds + i]
        == declared_compound((#[trigger] tree.val.compounds@[i]).1) by {
        assert(q2.compounds[lo.compounds + i] == q.compounds[lo.compounds + i]);
    }
    assert forall|i: int| 0 <= i < tree.val.enums@.len() implies q2.enums[lo.enums + i]
        == declared_enum((#[trigger] tree.val.enums@[i]).1) by {
        assert(q2.enums[lo.enums + i] == q.enums[lo.enums + i]);
    }
    assert forall|i: int| 0 <= i < tree.children@.len() implies filled(
        q2,
        (#[trigger] tree.children@[i]).1,
        child_lo(tree, lo, i),
    ) by {
        lemma_size_upto_grows(tree, i + 1, tree.children@.len() as int);
        lemma_size_upto_step(tree, i);
        lemma_filled_frame(q, q2, tree.children@[i].1, child_lo(tree, lo, i));
    }
}

/// Whether `q` is `r` but for the compounds and enums in the slots from `lo`
/// up to `hi`.
pub open spec fn same_outside(r: RootView, q: RootView, lo: Marks, hi: Marks) -> bool {
    &&& q.modules == r.modules
    &&& q.registries == r.registries
    &&& q.root_modules == r.root_modules
    &&& q.compounds.len() == r.compounds.len()
    &&& q.enums.len() == r.enums.len()
    &&& forall|k: int|
        0 <= k < r.compounds.len() && !(lo.compounds <= k < hi.compounds)
            ==> #[trigger] q.compounds[k] == r.compounds[k]
    &&& forall|k: int|
        0 <= k < r.enums.len() && !(lo.enums <= k < hi.enums) ==> #[trigger] q.enums[k]
            == r.enums[k]
}

/// The bodies of a module without cross-references resolve into their
/// slots, and nothing else changes.
pub proof fn lemma_resolve_bodies(
    r: RootView,
    m: Index<Module>,
    tree: ModuleTree,
    lo: Marks,
    imports: Map<Seq<char>, ItemIndex>,
)
    requires
        placed(r, m, tree, lo),
        self_contained(tree),
        forall|k: int|
            lo.compounds <= k < lo.compounds + tree.val.compounds@.len()
                ==> #[trigger] r.compounds[k] == empty_compound(),
    ensures
        resolve_bodies(r, m, tree.val, imports) == (
            RootView {
                compounds: compounds_filled(r.compounds, tree.val.compounds@, lo.compounds as int, 0),
                enums: enums_filled(r.enums, tree.val.enums@, lo.enums as int, 0),
                ..r
            },
            Ok::<(), ValidationErrorTypeView>(()),
        ),
{
    reveal(placed);
    lemma_size(tree);
    lemma_resolve_compounds(r, m, tree.val.compounds@, imports, 0, lo.compounds);
    let r1 = RootView {
        compounds: compounds_filled(r.compounds, tree.val.compounds@, lo.compounds as int, 0),
        ..r
    };
    assert forall|j: int| 0 <= j < tree.val.enums@.len() implies child_enum(
        r1,
        m,
        (#[trigger] tree.val.enums@[j]).0@,
    ) == Some(Index::<EnumItem>::at((lo.enums + j) as nat)) by {
        assert(child_enum(r, m, tree.val.enums@[j].0@) == Some(
            Index::<EnumItem>::at((lo.enums + j) as nat),
        ));
    }
    lemma_resolve_enums(r1, m, tree.val.enums@, 0, lo.enums);
}

/// Resolving the submodules of a tree without cross-references from
/// position `i` on fills their slots and changes nothing else.
pub proof fn lemma_resolve_subtrees(
    s: RootView,
    m: Index<Module>,
    tree: ModuleTree,
    lo: Marks,
    module: Seq<Seq<char>>,
    i: int,
)
    requires
        0 <= i <= tree.children@.len(),
        placed(s, m, tree, lo),
        self_contained(tree),
        forall|k: int|
            child_lo(tree, lo, i).compounds <= k < lo.compounds + size(tree).compounds
                ==> #[trigger] s.compounds[k] == empty_compound(),
    ensures
        resolve_subtrees(s, m, tree, module, i).1 == Ok::<(), ValidationErrorView>(()),
        same_outside(
            s,
            resolve_subtrees(s, m, tree, module, i).0,
            child_lo(tree, lo, i),
            lo.plus(size(tree)),
        ),
        forall|j: int|
            i <= j < tree.children@.len() ==> filled(
                resolve_subtrees(s, m, tree, module, i).0,
                (#[trigger] tree.children@[j]).1,
                child_lo(tree, lo, j),
            ),
    decreases tree, tree.children@.len() - i,
{
    let n = tree.children@.len() as int;
    lemma_size(tree);
    lemma_size_upto_grows(tree, i, n);
    if i < n {
        let name = tree.children@[i].0@;
        let sub = tree.children@[i].1;
        let c = Index::<Module>::at((lo.modules + i) as nat);
        let at_i = child_lo(tree, lo, i);
        let at_next = child_lo(tree, lo, i + 1);
        lemma_size_upto_step(tree, i);
        lemma_size_upto_grows(tree, i + 1, n);
        assert(child_module(s, m, name) == Some(c) && placed(s, c, sub, at_i)) by {
            reveal(placed);
        }
        lemma_resolve_tree(s, c, sub, at_i, module.push(name));
        let s1 = resolve_tree(s, c, sub, module.push(name)).0;
        assert(marks_of(s).fits() && lo.plus(size(tree)).within(marks_of(s))) by {
            reveal(placed);
        }
        lemma_placed_frame(s, s1, m, tree, lo);
        assert forall|k: int|
            at_next.compounds <= k < lo.compounds + size(tree).compounds implies #[trigger] s1.compounds[k]
            == empty_compound() by {
            assert(s.compounds[k] == empty_compound());
        }
        lemma_resolve_subtrees(s1, m, tree, lo, module, i + 1);
        let q = resolve_subtrees(s1, m, tree, module, i + 1).0;
        assert(resolve_subtrees(s, m, tree, module, i) == resolve_subtrees(
            s1,
            m,
            tree,
            module,
            i + 1,
        ));
        assert forall|k: int|
            0 <= k < s.compounds.len() && !(at_i.compounds <= k < lo.plus(
                size(tree),
            ).compounds) implies #[trigger] q.compounds[k] == s.compounds[k] by {
            assert(q.compounds[k] == s1.compounds[k]);
        }
        assert forall|k: int|
            0 <= k < s.enums.len() && !(at_i.enums <= k < lo.plus(size(tree)).enums) implies #[trigger] q.enums[k]
            == s.enums[k] by {
            assert(q.enums[k] == s1.enums[k]);
        }
        assert forall|j: int| i <= j < n implies filled(
            q,
            (#[trigger] tree.children@[j]).1,
            child_lo(tree, lo, j),
        ) by {
            if j == i {
                assert forall|k: int|
                    at_i.compounds <= k < at_i.compounds + size(sub).compounds implies #[trigger] q.compounds[k]
                    == s1.compounds[k] by {}
                assert forall|k: int|
                    at_i.enums <= k < at_i.enums + size(sub).enums implies #[trigger] q.enums[k]
                    == s1.enums[k] by {}
                lemma_filled_frame(s1, q, sub, at_i);
            }
        }
    }
}

/// Resolving a tree without cross-references, whose slots are placed and
/// empty, fills every slot with what its declaration says and changes
/// nothing else.
pub proof fn lemma_resolve_tree(
    r: RootView,
    m: Index<Module>,
    tree: ModuleTree,
    lo: Marks,
    module: Seq<Seq<char>>,
)
    requires
        placed(r, m, tree, lo),
        self_contained(tree),
        forall|k: int|
            lo.compounds <= k < lo.compounds + size(tree).compounds ==> #[trigger] r.compounds[k]
                == empty_compound(),
    ensures
        resolve_tree(r, m, tree, module).1 == Ok::<(), ValidationErrorView>(()),
        same_outside(r, resolve_tree(r, m, tree, module).0, lo, lo.plus(size(tree))),
        filled(resolve_tree(r, m, tree, module).0, tree, lo),
    decreases tree, tree.children@.len() + 1,
{
    let n = tree.children@.len() as int;
    lemma_size(tree);
    lemma_size_upto_grows(tree, 0, n);
    lemma_size_upto_step(tree, 0);
    let imports = Map::<Seq<char>, ItemIndex>::empty();
    assert(imports_from(r, m, tree.val.uses@, 0, Map::empty()) == Ok::<
        Map<Seq<char>, ItemIndex>,
        ValidationErrorTypeView,
    >(imports));
    lemma_resolve_bodies(r, m, tree, lo, imports);
    let r1 = resolve_bodies(r, m, tree.val, imports).0;
    assert(marks_of(r).fits() && lo.plus(size(tree)).within(marks_of(r))) by {
        reveal(placed);
    }
    lemma_placed_frame(r, r1, m, tree, lo);
    assert forall|k: int|
        child_lo(tree, lo, 0).compounds <= k < lo.compounds + size(tree).compounds implies #[trigger] r1.compounds[k]
        == empty_compound() by {
        assert(r.compounds[k] == empty_compound());
    }
    lemma_resolve_subtrees(r1, m, tree, lo, module, 0);
    let q = resolve_subtrees(r1, m, tree, module, 0).0;
    assert forall|k: int|
        0 <= k < r.compounds.len() && !(lo.compounds <= k < lo.plus(size(tree)).compounds) implies #[trigger] q.compounds[k]
        == r.compounds[k] by {
        assert(q.compounds[k] == r1.compounds[k]);
    }
    assert forall|k: int|
        0 <= k < r.enums.len() && !(lo.enums <= k < lo.plus(size(tree)).enums) implies #[trigger] q.enums[k]
        == r.enums[k] by {
        assert(q.enums[k] == r1.enums[k]);
    }
    assert(filled(q, tree, lo)) by {
        reveal(filled);
        assert forall|i: int| 0 <= i < tree.val.compounds@.len() implies q.compounds[lo.compounds
            + i] == declared_compound((#[trigger] tree.val.compounds@[i]).1) by {
            assert(q.compounds[lo.compounds + i] == r1.compounds[lo.compounds + i]);
        }
        assert forall|i: int| 0 <= i < tree.val.enums@.len() implies q.enums[lo.enums + i]
            == declared_enum((#[trigger] tree.val.enums@[i]).1) by {
            assert(q.enums[lo.enums + i] == r1.enums[lo.enums + i]);
        }
    }
}

/// Whether every compound and enum that `tree` declares is, under its name
/// in its module, what its declaration says, from the module `m` down.
pub open spec fn mirrors(q: RootView, m: Index<Module>, tree: ModuleTree) -> bool
    decreases tree,
{
    &&& forall|i: int|
        0 <= i < tree.val.compounds@.len() ==> (child_compound(
            q,
            m,
            (#[trigger] tree.val.compounds@[i]).0@,
        ) matches Some(c) && c.pos() < q.compounds.len() && q.compound(c) == declared_compound(
            tree.val.compounds@[i].1,
        ))
    &&& forall|i: int|
        0 <= i < tree.val.enums@.len() ==> (child_enum(q, m, (#[trigger] tree.val.enums@[i]).0@)
            matches Some(e) && e.pos() < q.enums.len() && q.enum_item(e) == declared_enum(
            tree.val.enums@[i].1,
        ))
    &&& forall|i: int|
        0 <= i < tree.children@.len() ==> (child_module(q, m, (#[trigger] tree.children@[i]).0@)
            matches Some(c) && q.has_module(c) && mirrors(q, c, tree.children@[i].1))
}

/// What is placed and filled mirrors its declarations.
pub proof fn lemma_mirrors(q: RootView, m: Index<Module>, tree: ModuleTree, lo: Marks)
    requires
        placed(q, m, tree, lo),
        filled(q, tree, lo),
    ensures
        mirrors(q, m, tree),
    decreases tree,
{
    reveal(placed);
    reveal(filled);
    lemma_size(tree);
    assert forall|i: int| 0 <= i < tree.val.compounds@.len() implies (child_compound(
        q,
        m,
        (#[trigger] tree.val.compounds@[i]).0@,
    ) matches Some(c) && c.pos() < q.compounds.len() && q.compound(c) == declared_compound(
        tree.val.compounds@[i].1,
    )) by {
        Index::<CompoundTag>::lemma_at((lo.compounds + i) as nat);
    }
    assert forall|i: int| 0 <= i < tree.val.enums@.len() implies (child_enum(
        q,
        m,
        (#[trigger] tree.val.enums@[i]).0@,
    ) matches Some(e) && e.pos() < q.enums.len() && q.enum_item(e) == declared_enum(
        tree.val.enums@[i].1,
    )) by {
        Index::<EnumItem>::lemma_at((lo.enums + i) as nat);
    }
    assert forall|i: int| 0 <= i < tree.children@.len() implies (child_module(
        q,
        m,
        (#[trigger] tree.children@[i]).0@,
    ) matches Some(c) && q.has_module(c) && mirrors(q, c, tree.children@[i].1)) by {
        let c = Index::<Module>::at((lo.modules + i) as nat);
        Index::<Module>::lemma_at((lo.modules + i) as nat);
        lemma_mirrors(q, c, tree.children@[i].1, child_lo(tree, lo, i));
    }
}

/// The pass over the re-exports does nothing to the submodules of a tree
/// that has no imports.
pub proof fn lemma_no_reexports_below(
    r: RootView,
    m: Index<Module>,
    tree: ModuleTree,
    module: Seq<Seq<char>>,
    i: int,
)
    requires
        self_contained(tree),
    ensures
        preresolve_subtrees(r, m, tree, module, i) == (r, Ok::<(), ValidationErrorView>(())),
    decreases tree, tree.children@.len() - i,
{
    if 0 <= i < tree.children@.len() {
        let name = tree.children@[i].0@;
        lemma_no_reexports(
            r,
            submodule(r, m, name),
            tree.children@[i].1,
            module.push(name),
        );
        lemma_no_reexports_below(r, m, tree, module, i + 1);
    }
}

/// The pass over the re-exports does nothing to a tree that has no imports.
pub proof fn lemma_no_reexports(
    r: RootView,
    m: Index<Module>,
    tree: ModuleTree,
    module: Seq<Seq<char>>,
)
    requires
        self_contained(tree),
    ensures
        preresolve_tree(r, m, tree, module) == (r, Ok::<(), ValidationErrorView>(())),
    decreases tree, tree.children@.len() + 1,
{
    lemma_no_reexports_below(r, m, tree, module, 0);
}

/// A well-formed tree without cross-references, added as a root module,
/// resolves without failure, and every compound and enum that it declares
/// is then, under its name in its module, exactly what its declaration
/// says: the description, the fields with their types, and the options of
/// an enum in declared order. The arenas must stay within what a machine
/// integer can count.
pub proof fn law_declarations_are_mirrored(r: RootView, name: Seq<char>, tree: ModuleTree)
    requires
        tree.well_formed(),
        self_contained(tree),
        marks_of(r).plus(Marks { modules: 1, compounds: 0, enums: 0 }).plus(size(tree)).fits(),
    ensures
        add_root(r, name, tree).1 == Ok::<(), ValidationErrorView>(()),
        mirrors(add_root(r, name, tree).0, r.next_module(), tree),
{
    let root = r.next_module();
    Index::<Module>::lemma_at(r.modules.len());
    let r1 = RootView {
        root_modules: r.root_modules.insert(name, root),
        ..r.push_module(empty_module(None))
    };
    lemma_register_tree(r1, root, tree);
    let r2 = register_tree(r1, root, tree);
    let lo = marks_of(r1);
    lemma_no_reexports(r2, root, tree, seq![name]);
    lemma_resolve_tree(r2, root, tree, lo, seq![name]);
    let q = resolve_tree(r2, root, tree, seq![name]).0;
    lemma_placed_frame(r2, q, root, tree, lo);
    lemma_mirrors(q, root, tree, lo);
}

} // verus!
