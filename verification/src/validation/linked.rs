//! Trees with cross-references: where such a tree has been added, every
//! compound holds what its declaration resolves to in the root in which the
//! bodies were resolved.

use super::arena::Index;
use super::convert::{field_type, member_types};
use super::error::ValidationErrorTypeView;
use super::exports::lemma_preresolve_tree;
use super::format::{
    CompoundTag, CompoundView, EnumItem, FieldView, ItemIndex, Module, NbtValueView,
};
use super::laws::{
    before_bodies, law_forward_references, law_resolution_sees_modules_only, names_kept, registered,
};
use super::mirror::{declared_enum, enums_filled, lemma_resolve_enums};
use super::model::{item_at, walk, RootView};
use super::passes::{
    add_root, child_compound, child_enum, child_module, describe, describes_from, empty_compound,
    empty_module, import_of, imports_from, register_tree, resolve_bodies, resolve_compound,
    resolve_compounds, resolve_enums, resolve_fields, resolve_subtrees, resolve_supers,
    resolve_tree, submodule,
};
use super::placement::{
    child_lo, lemma_placed_frame, lemma_register_tree, lemma_size, lemma_size_upto_grows,
    lemma_size_upto_step, marks_of, placed, size, Marks,
};
use super::tree::ModuleTree;
use crate::parse::ast;
use crate::parse::ast::PathPart;
use vstd::prelude::*;

verus! {

/// What a declared type resolves to depends on the modules and on the table
/// of root modules only.
pub proof fn lemma_field_type_sees_modules_only(
    r: RootView,
    q: RootView,
    ft: ast::FieldType,
    m: Index<Module>,
    imports: Map<Seq<char>, ItemIndex>,
)
    requires
        names_kept(r, q),
    ensures
        field_type(q, ft, m, imports) == field_type(r, ft, m, imports),
    decreases ft, 0nat,
{
    match ft {
        ast::FieldType::NamedType(v) => {
            law_resolution_sees_modules_only(r, q, v@, Some(m), imports);
        },
        ast::FieldType::ListType { item_type, len_range } => {
            lemma_field_type_sees_modules_only(r, q, *item_type, m, imports);
        },
        ast::FieldType::OrType(v) => {
            lemma_members_see_modules_only(r, q, v@, 0, m, imports);
        },
        _ => {},
    }
}

/// The same of the members of a union.
pub proof fn lemma_members_see_modules_only(
    r: RootView,
    q: RootView,
    v: Seq<ast::FieldType>,
    i: int,
    m: Index<Module>,
    imports: Map<Seq<char>, ItemIndex>,
)
    requires
        names_kept(r, q),
    ensures
        member_types(q, v, i, m, imports) == member_types(r, v, i, m, imports),
    decreases v, v.len() - i,
{
    if 0 <= i < v.len() {
        lemma_field_type_sees_modules_only(r, q, v[i], m, imports);
        lemma_members_see_modules_only(r, q, v, i + 1, m, imports);
    }
}

/// The table of imports of a module depends on the modules and on the
/// table of root modules only.
pub proof fn lemma_imports_see_modules_only(
    r: RootView,
    q: RootView,
    m: Index<Module>,
    uses: Seq<(bool, Vec<PathPart>)>,
    i: int,
    found: Map<Seq<char>, ItemIndex>,
)
    requires
        names_kept(r, q),
    ensures
        imports_from(q, m, uses, i, found) == imports_from(r, m, uses, i, found),
    decreases uses.len() - i,
{
    if 0 <= i < uses.len() {
        law_resolution_sees_modules_only(r, q, uses[i].1@, Some(m), Map::empty());
        match import_of(r, m, uses[i].1@) {
            Ok((name, item)) => {
                lemma_imports_see_modules_only(r, q, m, uses, i + 1, found.insert(name, item));
            },
            Err(_) => {},
        }
    }
}

/// The imports of the module `m`, whose file has the imports `uses`, as the
/// root `r` resolves them.
pub open spec fn imports_of(r: RootView, m: Index<Module>, uses: Seq<(bool, Vec<PathPart>)>) -> Map<
    Seq<char>,
    ItemIndex,
> {
    imports_from(r, m, uses, 0, Map::empty())->Ok_0
}

/// The fields that the declarations from position `i` on add to `found`,
/// each with what its type resolves to in the root `pre`. Where a name is
/// declared twice, the later declaration counts.
pub open spec fn resolved_fields(
    pre: RootView,
    m: Index<Module>,
    fields: Seq<(String, ast::Field)>,
    imports: Map<Seq<char>, ItemIndex>,
    i: int,
    found: Map<Seq<char>, FieldView>,
) -> Map<Seq<char>, FieldView>
    decreases fields.len() - i,
{
    if i < 0 || i >= fields.len() {
        found
    } else {
        resolved_fields(
            pre,
            m,
            fields,
            imports,
            i + 1,
            found.insert(
                fields[i].0@,
                FieldView {
                    description: fields[i].1.description@,
                    nbttype: field_type(pre, fields[i].1.field_type, m, imports)->Ok_0,
                },
            ),
        )
    }
}

/// The compound that the path of a supertype denotes in the root `pre`.
pub open spec fn resolved_supers(
    pre: RootView,
    m: Index<Module>,
    supers: Option<Vec<PathPart>>,
    imports: Map<Seq<char>, ItemIndex>,
) -> Option<Index<CompoundTag>> {
    match supers {
        None => None,
        Some(v) => Some(item_at(pre, v@, Some(m), imports)->Ok_0->Compound_0),
    }
}

/// What the declaration of a compound of the module `m` resolves to in the
/// root `pre`: its description, the compound that the path of its
/// supertype denotes, and its own fields, each with the type that its
/// declared type resolves to.
pub open spec fn resolved_compound(
    pre: RootView,
    m: Index<Module>,
    def: ast::CompoundDef,
    imports: Map<Seq<char>, ItemIndex>,
) -> CompoundView {
    CompoundView {
        description: def.description@,
        supers: resolved_supers(pre, m, def.supers, imports),
        fields: resolved_fields(pre, m, def.fields@, imports, 0, Map::empty()),
    }
}

/// Fields that resolve are stored as they resolve in `pre`.
pub proof fn lemma_linked_fields(
    s: RootView,
    pre: RootView,
    m: Index<Module>,
    c: Index<CompoundTag>,
    fields: Seq<(String, ast::Field)>,
    imports: Map<Seq<char>, ItemIndex>,
    i: int,
)
    requires
        0 <= i <= fields.len(),
        c.pos() < s.compounds.len(),
        names_kept(pre, s),
        resolve_fields(s, m, c, fields, imports, i).1 is Ok,
    ensures
        resolve_fields(s, m, c, fields, imports, i).0 == s.with_compound(
            c,
            CompoundView {
                fields: resolved_fields(pre, m, fields, imports, i, s.compound(c).fields),
                ..s.compound(c)
            },
        ),
    decreases fields.len() - i,
{
    if i < fields.len() {
        lemma_field_type_sees_modules_only(pre, s, fields[i].1.field_type, m, imports);
        let f = FieldView {
            description: fields[i].1.description@,
            nbttype: field_type(pre, fields[i].1.field_type, m, imports)->Ok_0,
        };
        let s1 = s.with_field(c, fields[i].0@, f);
        lemma_linked_fields(s1, pre, m, c, fields, imports, i + 1);
        assert(s1.with_compound(
            c,
            CompoundView {
                fields: resolved_fields(pre, m, fields, imports, i + 1, s1.compound(c).fields),
                ..s1.compound(c)
            },
        ).compounds =~= s.with_compound(
            c,
            CompoundView {
                fields: resolved_fields(pre, m, fields, imports, i, s.compound(c).fields),
                ..s.compound(c)
            },
        ).compounds);
    } else {
        assert(s.with_compound(c, s.compound(c)).compounds =~= s.compounds);
    }
}

/// A compound that resolves into an empty slot is stored as it resolves in
/// `pre`.
pub proof fn lemma_linked_compound(
    s: RootView,
    pre: RootView,
    m: Index<Module>,
    name: Seq<char>,
    def: ast::CompoundDef,
    imports: Map<Seq<char>, ItemIndex>,
    c: Index<CompoundTag>,
)
    requires
        child_compound(s, m, name) == Some(c),
        c.pos() < s.compounds.len(),
        s.compound(c) == empty_compound(),
        names_kept(pre, s),
        resolve_compound(s, m, name, def, imports).1 is Ok,
    ensures
        resolve_compound(s, m, name, def, imports).0 == s.with_compound(
            c,
            resolved_compound(pre, m, def, imports),
        ),
{
    let s1 = s.with_description(c, def.description@);
    match def.supers {
        Some(v) => {
            law_resolution_sees_modules_only(pre, s1, v@, Some(m), imports);
        },
        None => {},
    }
    let s2 = resolve_supers(s1, m, c, name, def.supers, imports).0;
    assert(s2 == s1.with_supers(c, resolved_supers(pre, m, def.supers, imports)));
    lemma_linked_fields(s2, pre, m, c, def.fields@, imports, 0);
    assert(s2.with_compound(
        c,
        CompoundView {
            fields: resolved_fields(pre, m, def.fields@, imports, 0, s2.compound(c).fields),
            ..s2.compound(c)
        },
    ).compounds =~= s.with_compound(c, resolved_compound(pre, m, def, imports)).compounds);
}

/// The compounds `s` with what the declarations from position `i` on
/// resolve to in `pre` in their slots, the slot of the declaration at
/// position `j` being `lo + j`.
pub open spec fn compounds_linked(
    s: Seq<CompoundView>,
    pre: RootView,
    m: Index<Module>,
    decls: Seq<(String, ast::CompoundDef)>,
    imports: Map<Seq<char>, ItemIndex>,
    lo: int,
    i: int,
) -> Seq<CompoundView> {
    Seq::new(
        s.len(),
        |k: int|
            if lo + i <= k < lo + decls.len() {
                resolved_compound(pre, m, decls[k - lo].1, imports)
            } else {
                s[k]
            },
    )
}

/// Compounds that resolve into empty slots are stored as they resolve in `pre`.
pub proof fn lemma_linked_compounds(
    s: RootView,
    pre: RootView,
    m: Index<Module>,
    decls: Seq<(String, ast::CompoundDef)>,
    imports: Map<Seq<char>, ItemIndex>,
    i: int,
    lo: nat,
)
    requires
        0 <= i <= decls.len(),
        lo + decls.len() <= s.compounds.len() <= usize::MAX,
        names_kept(pre, s),
        forall|j: int|
            i <= j < decls.len() ==> child_compound(s, m, (#[trigger] decls[j]).0@) == Some(
                Index::<CompoundTag>::at((lo + j) as nat),
            ),
        forall|k: int|
            lo + i <= k < lo + decls.len() ==> #[trigger] s.compounds[k] == empty_compound(),
        resolve_compounds(s, m, decls, imports, i).1 is Ok,
    ensures
        resolve_compounds(s, m, decls, imports, i).0 == (RootView {
            compounds: compounds_linked(s.compounds, pre, m, decls, imports, lo as int, i),
            ..s
        }),
    decreases decls.len() - i,
{
    if i < decls.len() {
        let c = Index::<CompoundTag>::at((lo + i) as nat);
        Index::<CompoundTag>::lemma_at((lo + i) as nat);
        let first = decls[i];
        assert(s.compounds[lo + i] == empty_compound());
        lemma_linked_compound(s, pre, m, first.0@, first.1, imports, c);
        let s1 = s.with_compound(c, resolved_compound(pre, m, first.1, imports));
        assert forall|j: int| i + 1 <= j < decls.len() implies child_compound(
            s1,
            m,
            (#[trigger] decls[j]).0@,
        ) == Some(Index::<CompoundTag>::at((lo + j) as nat)) by {
            assert(child_compound(s, m, decls[j].0@) == Some(
                Index::<CompoundTag>::at((lo + j) as nat),
            ));
        }
        lemma_linked_compounds(s1, pre, m, decls, imports, i + 1, lo);
        assert(compounds_linked(s1.compounds, pre, m, decls, imports, lo as int, i + 1)
            =~= compounds_linked(s.compounds, pre, m, decls, imports, lo as int, i));
    } else {
        assert(compounds_linked(s.compounds, pre, m, decls, imports, lo as int, i) =~= s.compounds);
    }
}

/// The `describes` declarations change the registries only.
pub proof fn lemma_describes_keep_arenas(
    r: RootView,
    m: Index<Module>,
    decls: Seq<(Vec<PathPart>, ast::DescribeDef)>,
    imports: Map<Seq<char>, ItemIndex>,
    i: int,
)
    ensures
        describes_from(r, m, decls, imports, i).0.compounds == r.compounds,
        describes_from(r, m, decls, imports, i).0.enums == r.enums,
        describes_from(r, m, decls, imports, i).0.modules == r.modules,
        describes_from(r, m, decls, imports, i).0.root_modules == r.root_modules,
    decreases decls.len() - i,
{
    if 0 <= i < decls.len() {
        let o = describe(r, m, decls[i].0@, decls[i].1, imports);
        if o.1 is Ok {
            lemma_describes_keep_arenas(o.0, m, decls, imports, i + 1);
        }
    }
}

/// Whether `q` has the modules and root modules of `r`, arenas of the same
/// sizes, and the compounds and enums of `r` but for those in the slots
/// from `lo` up to `hi`.
pub open spec fn kept_outside(r: RootView, q: RootView, lo: Marks, hi: Marks) -> bool {
    &&& q.modules == r.modules
    &&& q.root_modules == r.root_modules
    &&& q.compounds.len() == r.compounds.len()
    &&& q.enums.len() == r.enums.len()
    &&& forall|k: int|
        0 <= k < r.compounds.len() && !(lo.compounds <= k < hi.compounds)
            ==> #[trigger] q.compounds[k] == r.compounds[k]
    &&& forall|k: int|
        0 <= k < r.enums.len() && !(lo.enums <= k < hi.enums) ==> #[trigger] q.enums[k]
            == r.enums[k]
}

/// The bodies of a module that resolve are stored in their slots as they
/// resolve in `pre`, and no other compound or enum changes.
pub proof fn lemma_linked_bodies(
    r: RootView,
    pre: RootView,
    m: Index<Module>,
    tree: ModuleTree,
    lo: Marks,
    imports: Map<Seq<char>, ItemIndex>,
)
    requires
        placed(r, m, tree, lo),
        names_kept(pre, r),
        forall|k: int|
            lo.compounds <= k < lo.compounds + tree.val.compounds@.len()
                ==> #[trigger] r.compounds[k] == empty_compound(),
        resolve_bodies(r, m, tree.val, imports).1 is Ok,
    ensures
        resolve_bodies(r, m, tree.val, imports).0.compounds == compounds_linked(
            r.compounds,
            pre,
            m,
            tree.val.compounds@,
            imports,
            lo.compounds as int,
            0,
        ),
        resolve_bodies(r, m, tree.val, imports).0.enums == enums_filled(
            r.enums,
            tree.val.enums@,
            lo.enums as int,
            0,
        ),
        names_kept(r, resolve_bodies(r, m, tree.val, imports).0),
{
    reveal(placed);
    lemma_size(tree);
    lemma_linked_compounds(r, pre, m, tree.val.compounds@, imports, 0, lo.compounds);
    let r1 = resolve_compounds(r, m, tree.val.compounds@, imports, 0).0;
    assert forall|j: int| 0 <= j < tree.val.enums@.len() implies child_enum(
        r1,
        m,
        (#[trigger] tree.val.enums@[j]).0@,
    ) == Some(Index::<EnumItem>::at((lo.enums + j) as nat)) by {
        assert(child_enum(r, m, tree.val.enums@[j].0@) == Some(
            Index::<EnumItem>::at((lo.enums + j) as nat),
        ));
    }
    lemma_resolve_enums(r1, m, tree.val.enums@, 0, lo.enums);
    let r2 = resolve_enums(r1, m, tree.val.enums@, 0);
    lemma_describes_keep_arenas(r2, m, tree.val.describes@, imports, 0);
}

/// Whether the slots that a registration which began at `lo` gave to the
/// compounds and enums of `tree` hold what their declarations resolve to
/// in the root `pre`, from the module `m` down.
#[verifier::opaque]
pub open spec fn linked(q: RootView, pre: RootView, m: Index<Module>, tree: ModuleTree, lo: Marks) -> bool
    decreases tree,
{
    &&& forall|i: int|
        0 <= i < tree.val.compounds@.len() ==> q.compounds[lo.compounds + i] == resolved_compound(
            pre,
            m,
            (#[trigger] tree.val.compounds@[i]).1,
            imports_of(pre, m, tree.val.uses@),
        )
    &&& forall|i: int|
        0 <= i < tree.val.enums@.len() ==> q.enums[lo.enums + i] == declared_enum(
            (#[trigger] tree.val.enums@[i]).1,
        )
    &&& forall|i: int|
        0 <= i < tree.children@.len() ==> linked(
            q,
            pre,
            Index::<Module>::at((lo.modules + i) as nat),
            (#[trigger] tree.children@[i]).1,
            child_lo(tree, lo, i),
        )
}

/// What is linked stays linked while its slots stay as they are.
pub proof fn lemma_linked_frame(
    q: RootView,
    q2: RootView,
    pre: RootView,
    m: Index<Module>,
    tree: ModuleTree,
    lo: Marks,
)
    requires
        linked(q, pre, m, tree, lo),
        forall|k: int|
            lo.compounds <= k < lo.compounds + size(tree).compounds ==> #[trigger] q2.compounds[k]
                == q.compounds[k],
        forall|k: int|
            lo.enums <= k < lo.enums + size(tree).enums ==> #[trigger] q2.enums[k] == q.enums[k],
    ensures
        linked(q2, pre, m, tree, lo),
    decreases tree,
{
    reveal(linked);
    lemma_size(tree);
    assert forall|i: int| 0 <= i < tree.val.compounds@.len() implies q2.compounds[lo.compounds + i]
        == resolved_compound(
        pre,
        m,
        (#[trigger] tree.val.compounds@[i]).1,
        imports_of(pre, m, tree.val.uses@),
    ) by {
        assert(q2.compounds[lo.compounds + i] == q.compounds[lo.compounds + i]);
    }
    assert forall|i: int| 0 <= i < tree.val.enums@.len() implies q2.enums[lo.enums + i]
        == declared_enum((#[trigger] tree.val.enums@[i]).1) by {
        assert(q2.enums[lo.enums + i] == q.enums[lo.enums + i]);
    }
    assert forall|i: int| 0 <= i < tree.children@.len() implies linked(
        q2,
        pre,
        Index::<Module>::at((lo.modules + i) as nat),
        (#[trigger] tree.children@[i]).1,
        child_lo(tree, lo, i),
    ) by {
        lemma_size_upto_grows(tree, i + 1, tree.children@.len() as int);
        lemma_size_upto_step(tree, i);
        lemma_linked_frame(
            q,
            q2,
            pre,
            Index::<Module>::at((lo.modules + i) as nat),
            tree.children@[i].1,
            child_lo(tree, lo, i),
        );
    }
}

/// Where the bodies of the submodules from position `i` on resolve, they
/// are stored as they resolve in `pre`.
pub proof fn lemma_linked_subtrees(
    s: RootView,
    pre: RootView,
    m: Index<Module>,
    tree: ModuleTree,
    lo: Marks,
    module: Seq<Seq<char>>,
    i: int,
)
    requires
        0 <= i <= tree.children@.len(),
        placed(s, m, tree, lo),
        names_kept(pre, s),
        forall|k: int|
            child_lo(tree, lo, i).compounds <= k < lo.compounds + size(tree).compounds
                ==> #[trigger] s.compounds[k] == empty_compound(),
        resolve_subtrees(s, m, tree, module, i).1 is Ok,
    ensures
        kept_outside(
            s,
            resolve_subtrees(s, m, tree, module, i).0,
            child_lo(tree, lo, i),
            lo.plus(size(tree)),
        ),
        forall|j: int|
            i <= j < tree.children@.len() ==> linked(
                resolve_subtrees(s, m, tree, module, i).0,
                pre,
                Index::<Module>::at((lo.modules + j) as nat),
                (#[trigger] tree.children@[j]).1,
                child_lo(tree, lo, j),
            ),
    decreases tree, tree.children@.len() - i,
{
    let n = tree.children@.len() as int;
    lemma_size(tree);
    lemma_size_upto_grows(tree, i, n);
    if i < n {
        let name = tree.children@[i].0@;
        let sub = tree.children@[i].1;
        let c = Index::<Module>::at((lo.modules + i) as nat);
        let at_i = child_lo(tree, lo, i);
        let at_next = child_lo(tree, lo, i + 1);
        lemma_size_upto_step(tree, i);
        lemma_size_upto_grows(tree, i + 1, n);
        assert(child_module(s, m, name) == Some(c) && placed(s, c, sub, at_i)) by {
            reveal(placed);
        }
        assert(submodule(s, m, name) == c);
        lemma_linked_tree(s, pre, c, sub, at_i, module.push(name));
        let s1 = resolve_tree(s, c, sub, module.push(name)).0;
        assert(marks_of(s).fits() && lo.plus(size(tree)).within(marks_of(s))) by {
            reveal(placed);
        }
        lemma_placed_frame(s, s1, m, tree, lo);
        assert forall|k: int|
            at_next.compounds <= k < lo.compounds + size(tree).compounds implies #[trigger] s1.compounds[k]
            == empty_compound() by {
            assert(s.compounds[k] == empty_compound());
        }
        lemma_linked_subtrees(s1, pre, m, tree, lo, module, i + 1);
        let q = resolve_subtrees(s1, m, tree, module, i + 1).0;
        assert forall|k: int|
            0 <= k < s.compounds.len() && !(at_i.compounds <= k < lo.plus(
                size(tree),
            ).compounds) implies #[trigger] q.compounds[k] == s.compounds[k] by {
            assert(q.compounds[k] == s1.compounds[k]);
        }
        assert forall|k: int|
            0 <= k < s.enums.len() && !(at_i.enums <= k < lo.plus(
                size(tree),
            ).enums) implies #[trigger] q.enums[k] == s.enums[k] by {
            assert(q.enums[k] == s1.enums[k]);
        }
        assert forall|j: int| i <= j < n implies linked(
            q,
            pre,
            Index::<Module>::at((lo.modules + j) as nat),
            (#[trigger] tree.children@[j]).1,
            child_lo(tree, lo, j),
        ) by {
            if j == i {
                assert forall|k: int|
                    at_i.compounds <= k < at_i.compounds + size(
                        sub,
                    ).compounds implies #[trigger] q.compounds[k] == s1.compounds[k] by {}
                assert forall|k: int|
                    at_i.enums <= k < at_i.enums + size(sub).enums implies #[trigger] q.enums[k]
                    == s1.enums[k] by {}
                lemma_linked_frame(s1, q, pre, c, sub, at_i);
            }
        }
    }
}

/// Where the bodies of a placed tree with empty slots resolve, every slot
/// holds what its declaration resolves to in `pre`, and no other compound
/// or enum changes.
pub proof fn lemma_linked_tree(
    r: RootView,
    pre: RootView,
    m: Index<Module>,
    tree: ModuleTree,
    lo: Marks,
    module: Seq<Seq<char>>,
)
    requires
        placed(r, m, tree, lo),
        names_kept(pre, r),
        forall|k: int|
            lo.compounds <= k < lo.compounds + size(tree).compounds ==> #[trigger] r.compounds[k]
                == empty_compound(),
        resolve_tree(r, m, tree, module).1 is Ok,
    ensures
        kept_outside(r, resolve_tree(r, m, tree, module).0, lo, lo.plus(size(tree))),
        linked(resolve_tree(r, m, tree, module).0, pre, m, tree, lo),
    decreases tree, tree.children@.len() + 1,
{
    let n = tree.children@.len() as int;
    lemma_size(tree);
    lemma_size_upto_grows(tree, 0, n);
    lemma_size_upto_step(tree, 0);
    lemma_imports_see_modules_only(pre, r, m, tree.val.uses@, 0, Map::empty());
    let imports = imports_of(pre, m, tree.val.uses@);
    assert(imports_from(r, m, tree.val.uses@, 0, Map::empty()) == Ok::<
        Map<Seq<char>, ItemIndex>,
        ValidationErrorTypeView,
    >(imports));
    lemma_linked_bodies(r, pre, m, tree, lo, imports);
    let r1 = resolve_bodies(r, m, tree.val, imports).0;
    assert(marks_of(r).fits() && lo.plus(size(tree)).within(marks_of(r))) by {
        reveal(placed);
    }
    lemma_placed_frame(r, r1, m, tree, lo);
    assert forall|k: int|
        child_lo(tree, lo, 0).compounds <= k < lo.compounds + size(
            tree,
        ).compounds implies #[trigger] r1.compounds[k] == empty_compound() by {
        assert(r.compounds[k] == empty_compound());
    }
    lemma_linked_subtrees(r1, pre, m, tree, lo, module, 0);
    let q = resolve_subtrees(r1, m, tree, module, 0).0;
    assert forall|k: int|
        0 <= k < r.compounds.len() && !(lo.compounds <= k < lo.plus(
            size(tree),
        ).compounds) implies #[trigger] q.compounds[k] == r.compounds[k] by {
        assert(q.compounds[k] == r1.compounds[k]);
    }
    assert forall|k: int|
        0 <= k < r.enums.len() && !(lo.enums <= k < lo.plus(
            size(tree),
        ).enums) implies #[trigger] q.enums[k] == r.enums[k] by {
        assert(q.enums[k] == r1.enums[k]);
    }
    assert(linked(q, pre, m, tree, lo)) by {
        reveal(linked);
        assert forall|i: int| 0 <= i < tree.val.compounds@.len() implies q.compounds[lo.compounds
            + i] == resolved_compound(
            pre,
            m,
            (#[trigger] tree.val.compounds@[i]).1,
            imports,
        ) by {
            assert(q.compounds[lo.compounds + i] == r1.compounds[lo.compounds + i]);
        }
        assert forall|i: int| 0 <= i < tree.val.enums@.len() implies q.enums[lo.enums + i]
            == declared_enum((#[trigger] tree.val.enums@[i]).1) by {
            assert(q.enums[lo.enums + i] == r1.enums[lo.enums + i]);
        }
    }
}

/// Whether every compound and enum that `tree` declares is, under its name
/// in its module, what its declaration resolves to in the root `pre`: a
/// compound has its declared description, the compound that the path of
/// its supertype denotes, and its own declared fields, each with the type
/// that its declared type resolves to; an enum has its declared
/// description and options. From the module `m` down.
pub open spec fn links(q: RootView, pre: RootView, m: Index<Module>, tree: ModuleTree) -> bool
    decreases tree,
{
    &&& forall|i: int|
        0 <= i < tree.val.compounds@.len() ==> (child_compound(
            q,
            m,
            (#[trigger] tree.val.compounds@[i]).0@,
        ) matches Some(c) && c.pos() < q.compounds.len() && q.compound(c) == resolved_compound(
            pre,
            m,
            tree.val.compounds@[i].1,
            imports_of(pre, m, tree.val.uses@),
        ))
    &&& forall|i: int|
        0 <= i < tree.val.enums@.len() ==> (child_enum(q, m, (#[trigger] tree.val.enums@[i]).0@)
            matches Some(e) && e.pos() < q.enums.len() && q.enum_item(e) == declared_enum(
            tree.val.enums@[i].1,
        ))
    &&& forall|i: int|
        0 <= i < tree.children@.len() ==> (child_module(q, m, (#[trigger] tree.children@[i]).0@)
            matches Some(c) && q.has_module(c) && links(q, pre, c, tree.children@[i].1))
}

/// What is placed and linked links.
pub proof fn lemma_links(q: RootView, pre: RootView, m: Index<Module>, tree: ModuleTree, lo: Marks)
    requires
        placed(q, m, tree, lo),
        linked(q, pre, m, tree, lo),
    ensures
        links(q, pre, m, tree),
    decreases tree,
{
    reveal(placed);
    reveal(linked);
    lemma_size(tree);
    assert forall|i: int| 0 <= i < tree.val.compounds@.len() implies (child_compound(
        q,
        m,
        (#[trigger] tree.val.compounds@[i]).0@,
    ) matches Some(c) && c.pos() < q.compounds.len() && q.compound(c) == resolved_compound(
        pre,
        m,
        tree.val.compounds@[i].1,
        imports_of(pre, m, tree.val.uses@),
    )) by {
        Index::<CompoundTag>::lemma_at((lo.compounds + i) as nat);
    }
    assert forall|i: int| 0 <= i < tree.val.enums@.len() implies (child_enum(
        q,
        m,
        (#[trigger] tree.val.enums@[i]).0@,
    ) matches Some(e) && e.pos() < q.enums.len() && q.enum_item(e) == declared_enum(
        tree.val.enums@[i].1,
    )) by {
        Index::<EnumItem>::lemma_at((lo.enums + i) as nat);
    }
    assert forall|i: int| 0 <= i < tree.children@.len() implies (child_module(
        q,
        m,
        (#[trigger] tree.children@[i]).0@,
    ) matches Some(c) && q.has_module(c) && links(q, pre, c, tree.children@[i].1)) by {
        let c = Index::<Module>::at((lo.modules + i) as nat);
        Index::<Module>::lemma_at((lo.modules + i) as nat);
        lemma_links(q, pre, c, tree.children@[i].1, child_lo(tree, lo, i));
    }
}

/// When a well-formed tree has been added as a root module, every compound
/// that it declares holds what its declaration resolves to in the root in
/// which the bodies were resolved: the description, the compound that the
/// path of its supertype denotes there, and its own declared fields, each
/// with the type that its declared type resolves to there. So a field or a
/// supertype that names a compound declared later, in the same module or
/// in one that is resolved later, holds the very handle under which that
/// compound stands among the children of its module. Every enum holds its
/// description and its options in declared order. The arenas must stay
/// within what a machine integer can count.
pub proof fn law_bodies_are_linked(r: RootView, name: Seq<char>, tree: ModuleTree)
    requires
        tree.well_formed(),
        marks_of(r).plus(Marks { modules: 1, compounds: 0, enums: 0 }).plus(size(tree)).fits(),
        add_root(r, name, tree).1 is Ok,
    ensures
        links(add_root(r, name, tree).0, before_bodies(r, name, tree), r.next_module(), tree),
        names_kept(before_bodies(r, name, tree), add_root(r, name, tree).0),
{
    let root = r.next_module();
    Index::<Module>::lemma_at(r.modules.len());
    let r1 = RootView {
        root_modules: r.root_modules.insert(name, root),
        ..r.push_module(empty_module(None))
    };
    let lo = marks_of(r1);
    lemma_register_tree(r1, root, tree);
    let r2 = register_tree(r1, root, tree);
    lemma_preresolve_tree(r2, root, tree, lo, seq![name]);
    let pre = before_bodies(r, name, tree);
    assert forall|k: int|
        lo.compounds <= k < lo.compounds + size(tree).compounds implies #[trigger] pre.compounds[k]
        == empty_compound() by {
        assert(r2.compounds[k] == empty_compound());
    }
    lemma_linked_tree(pre, pre, root, tree, lo, seq![name]);
    let q = resolve_tree(pre, root, tree, seq![name]).0;
    assert(marks_of(pre).fits()) by {
        reveal(placed);
    }
    lemma_placed_frame(pre, q, root, tree, lo);
    lemma_links(q, pre, root, tree, lo);
}

/// Whether one of the fields from position `i` on is declared under `n`.
pub open spec fn declared_from(fields: Seq<(String, ast::Field)>, i: int, n: Seq<char>) -> bool {
    exists|k: int| i <= k < fields.len() && (#[trigger] fields[k]).0@ == n
}

/// The resolved fields are the declared fields: no name is added that no
/// field declares, and the field at position `j`, where no later field has
/// its name, is stored as it resolves.
pub proof fn lemma_resolved_fields(
    pre: RootView,
    m: Index<Module>,
    fields: Seq<(String, ast::Field)>,
    imports: Map<Seq<char>, ItemIndex>,
    i: int,
    found: Map<Seq<char>, FieldView>,
    j: int,
)
    requires
        0 <= i <= fields.len(),
        i <= j < fields.len() ==> !declared_from(fields, j + 1, fields[j].0@),
    ensures
        forall|n: Seq<char>|
            !(#[trigger] declared_from(fields, i, n)) ==> (resolved_fields(
                pre,
                m,
                fields,
                imports,
                i,
                found,
            ).contains_key(n) <==> found.contains_key(n)),
        forall|n: Seq<char>|
            !(#[trigger] declared_from(fields, i, n)) && found.contains_key(n) ==> resolved_fields(
                pre,
                m,
                fields,
                imports,
                i,
                found,
            )[n] == found[n],
        i <= j < fields.len() ==> resolved_fields(pre, m, fields, imports, i, found).contains_key(
            fields[j].0@,
        ) && resolved_fields(pre, m, fields, imports, i, found)[fields[j].0@] == (FieldView {
            description: fields[j].1.description@,
            nbttype: field_type(pre, fields[j].1.field_type, m, imports)->Ok_0,
        }),
    decreases fields.len() - i,
{
    if i < fields.len() {
        let f = FieldView {
            description: fields[i].1.description@,
            nbttype: field_type(pre, fields[i].1.field_type, m, imports)->Ok_0,
        };
        let next = found.insert(fields[i].0@, f);
        lemma_resolved_fields(pre, m, fields, imports, i + 1, next, j);
        let all = resolved_fields(pre, m, fields, imports, i, found);
        assert forall|n: Seq<char>| !(#[trigger] declared_from(fields, i, n)) implies (
        all.contains_key(n) <==> found.contains_key(n)) && (found.contains_key(n) ==> all[n]
            == found[n]) by {
            if declared_from(fields, i + 1, n) {
                let k = choose|k: int| i + 1 <= k < fields.len() && (#[trigger] fields[k]).0@ == n;
                assert(declared_from(fields, i, n));
            }
            if fields[i].0@ == n {
                assert(declared_from(fields, i, n));
            }
        }
        if j == i {
            assert(!declared_from(fields, i + 1, fields[i].0@));
            assert(next.contains_key(fields[i].0@));
        }
    }
}

/// Whether `path` is the plain name `name` and nothing else.
pub open spec fn is_plain_name(path: Seq<PathPart>, name: Seq<char>) -> bool {
    path.len() == 1 && match path[0] {
        PathPart::Regular(n) => n@ == name,
        _ => false,
    }
}

/// Forward references, as they are stored. When a well-formed tree has been
/// added as a root module, a field of one of the compounds of its root
/// file, whose type is the plain name of a compound of that file, holds
/// the handle under which that compound stands among the children of the
/// root module, whichever of the two is declared first. The field must be
/// the last that the compound declares under its name.
pub proof fn law_field_holds_the_named_compound(
    r: RootView,
    name: Seq<char>,
    tree: ModuleTree,
    of: int,
    field: int,
    to: int,
)
    requires
        tree.well_formed(),
        marks_of(r).plus(Marks { modules: 1, compounds: 0, enums: 0 }).plus(size(tree)).fits(),
        add_root(r, name, tree).1 is Ok,
        0 <= of < tree.val.compounds@.len(),
        0 <= to < tree.val.compounds@.len(),
        0 <= field < tree.val.compounds@[of].1.fields@.len(),
        tree.val.compounds@[of].1.fields@[field].1.field_type is NamedType,
        is_plain_name(
            tree.val.compounds@[of].1.fields@[field].1.field_type->NamedType_0@,
            tree.val.compounds@[to].0@,
        ),
        forall|k: int|
            field < k < tree.val.compounds@[of].1.fields@.len() ==> (
            #[trigger] tree.val.compounds@[of].1.fields@[k]).0@
                != tree.val.compounds@[of].1.fields@[field].0@,
    ensures
        ({
            let q = add_root(r, name, tree).0;
            let holder = child_compound(q, r.next_module(), tree.val.compounds@[of].0@);
            let named = child_compound(q, r.next_module(), tree.val.compounds@[to].0@);
            let field_name = tree.val.compounds@[of].1.fields@[field].0@;
            &&& holder is Some
            &&& named is Some
            &&& q.compound(holder->0).fields.contains_key(field_name)
            &&& q.compound(holder->0).fields[field_name].nbttype == NbtValueView::Compound(
                named->0,
            )
        }),
{
    let root = r.next_module();
    let q = add_root(r, name, tree).0;
    let pre = before_bodies(r, name, tree);
    law_bodies_are_linked(r, name, tree);
    let def = tree.val.compounds@[of].1;
    let imports = imports_of(pre, root, tree.val.uses@);
    let v = def.fields@[field].1.field_type->NamedType_0;
    let bar = tree.val.compounds@[to];
    assert(child_compound(q, root, bar.0@) is Some);
    assert(child_compound(pre, root, bar.0@) == child_compound(q, root, bar.0@));
    assert(item_at(pre, v@, Some(root), imports) == Ok::<ItemIndex, ValidationErrorTypeView>(
        ItemIndex::Compound(child_compound(pre, root, bar.0@)->0),
    ));
    assert(!declared_from(def.fields@, field + 1, def.fields@[field].0@)) by {
        if declared_from(def.fields@, field + 1, def.fields@[field].0@) {
            let k = choose|k: int|
                field + 1 <= k < def.fields@.len() && (#[trigger] def.fields@[k]).0@
                    == def.fields@[field].0@;
            assert(def.fields@[k].0@ != def.fields@[field].0@);
        }
    }
    lemma_resolved_fields(pre, root, def.fields@, imports, 0, Map::empty(), field);
    assert(child_compound(q, root, tree.val.compounds@[of].0@) is Some);
}

/// Forward references to a supertype, as they are stored. When a
/// well-formed tree has been added as a root module, a compound of its root
/// file whose supertype is the plain name of a compound of that file has
/// the handle of that compound as its supertype, whichever of the two is
/// declared first, and its fields are its own declared fields only.
pub proof fn law_supertype_holds_the_named_compound(
    r: RootView,
    name: Seq<char>,
    tree: ModuleTree,
    of: int,
    to: int,
)
    requires
        tree.well_formed(),
        marks_of(r).plus(Marks { modules: 1, compounds: 0, enums: 0 }).plus(size(tree)).fits(),
        add_root(r, name, tree).1 is Ok,
        0 <= of < tree.val.compounds@.len(),
        0 <= to < tree.val.compounds@.len(),
        tree.val.compounds@[of].1.supers is Some,
        is_plain_name(tree.val.compounds@[of].1.supers->0@, tree.val.compounds@[to].0@),
    ensures
        ({
            let q = add_root(r, name, tree).0;
            let holder = child_compound(q, r.next_module(), tree.val.compounds@[of].0@);
            let named = child_compound(q, r.next_module(), tree.val.compounds@[to].0@);
            &&& holder is Some
            &&& named is Some
            &&& q.compound(holder->0).supers == named
            &&& forall|n: Seq<char>|
                !(#[trigger] declared_from(tree.val.compounds@[of].1.fields@, 0, n)) ==> !q.compound(
                    holder->0,
                ).fields.contains_key(n)
        }),
{
    let root = r.next_module();
    let q = add_root(r, name, tree).0;
    let pre = before_bodies(r, name, tree);
    law_bodies_are_linked(r, name, tree);
    let def = tree.val.compounds@[of].1;
    let imports = imports_of(pre, root, tree.val.uses@);
    let v = def.supers->0;
    let bar = tree.val.compounds@[to];
    assert(child_compound(q, root, bar.0@) is Some);
    assert(child_compound(pre, root, bar.0@) == child_compound(q, root, bar.0@));
    assert(item_at(pre, v@, Some(root), imports) == Ok::<ItemIndex, ValidationErrorTypeView>(
        ItemIndex::Compound(child_compound(pre, root, bar.0@)->0),
    ));
    lemma_resolved_fields(pre, root, def.fields@, imports, 0, Map::empty(), -1);
    assert(child_compound(q, root, tree.val.compounds@[of].0@) is Some);
}

/// Whether `path` is `super`, the name `module` and the name `name`.
pub open spec fn is_sibling_path(path: Seq<PathPart>, module: Seq<char>, name: Seq<char>) -> bool {
    &&& path.len() == 3
    &&& path[0] == PathPart::Super
    &&& match path[1] {
        PathPart::Regular(n) => n@ == module,
        _ => false,
    }
    &&& match path[2] {
        PathPart::Regular(n) => n@ == name,
        _ => false,
    }
}

/// Forward references between modules, as they are stored. When a
/// well-formed tree has been added as a root module, a field of a compound
/// of one submodule of the root file, whose type is the path `super`, the
/// name of a submodule, the name of a compound of that submodule, holds the
/// handle under which that compound stands among the children of its
/// module, whichever of the two submodules is resolved first. The field
/// must be the last that the compound declares under its name.
pub proof fn law_field_holds_the_compound_of_a_sibling(
    r: RootView,
    name: Seq<char>,
    tree: ModuleTree,
    from: int,
    of: int,
    field: int,
    to: int,
    named: int,
)
    requires
        tree.well_formed(),
        marks_of(r).plus(Marks { modules: 1, compounds: 0, enums: 0 }).plus(size(tree)).fits(),
        add_root(r, name, tree).1 is Ok,
        0 <= from < tree.children@.len(),
        0 <= to < tree.children@.len(),
        0 <= of < tree.children@[from].1.val.compounds@.len(),
        0 <= named < tree.children@[to].1.val.compounds@.len(),
        0 <= field < tree.children@[from].1.val.compounds@[of].1.fields@.len(),
        tree.children@[from].1.val.compounds@[of].1.fields@[field].1.field_type is NamedType,
        is_sibling_path(
            tree.children@[from].1.val.compounds@[of].1.fields@[field].1.field_type->NamedType_0@,
            tree.children@[to].0@,
            tree.children@[to].1.val.compounds@[named].0@,
        ),
        !declared_from(
            tree.children@[from].1.val.compounds@[of].1.fields@,
            field + 1,
            tree.children@[from].1.val.compounds@[of].1.fields@[field].0@,
        ),
    ensures
        ({
            let q = add_root(r, name, tree).0;
            let here = submodule(q, r.next_module(), tree.children@[from].0@);
            let there = submodule(q, r.next_module(), tree.children@[to].0@);
            let holder = child_compound(q, here, tree.children@[from].1.val.compounds@[of].0@);
            let target = child_compound(q, there, tree.children@[to].1.val.compounds@[named].0@);
            let field_name = tree.children@[from].1.val.compounds@[of].1.fields@[field].0@;
            &&& holder is Some
            &&& target is Some
            &&& q.compound(holder->0).fields.contains_key(field_name)
            &&& q.compound(holder->0).fields[field_name].nbttype == NbtValueView::Compound(
                target->0,
            )
        }),
{
    let root = r.next_module();
    let q = add_root(r, name, tree).0;
    let pre = before_bodies(r, name, tree);
    law_bodies_are_linked(r, name, tree);
    law_forward_references(r, name, tree);
    let a = tree.children@[from];
    let b = tree.children@[to];
    let here = submodule(pre, root, a.0@);
    let there = submodule(pre, root, b.0@);
    assert(child_module(pre, root, a.0@) is Some && registered(pre, here, a.1));
    assert(child_module(pre, root, b.0@) is Some && registered(pre, there, b.1));
    assert(child_module(q, root, a.0@) is Some && links(q, pre, here, a.1));
    assert(child_module(q, root, b.0@) is Some && links(q, pre, there, b.1));
    let def = a.1.val.compounds@[of].1;
    let imports = imports_of(pre, here, a.1.val.uses@);
    let v = def.fields@[field].1.field_type->NamedType_0;
    let bar = b.1.val.compounds@[named];
    assert(child_compound(pre, there, bar.0@) is Some);
    assert(child_compound(q, there, bar.0@) == child_compound(pre, there, bar.0@));
    let h = child_compound(pre, there, bar.0@)->0;
    assert(walk(pre, v@, 2, Some(there), imports) == Ok::<ItemIndex, ValidationErrorTypeView>(
        ItemIndex::Compound(h),
    ));
    assert(walk(pre, v@, 1, Some(root), imports) == walk(pre, v@, 2, Some(there), imports));
    assert(walk(pre, v@, 0, Some(here), imports) == walk(pre, v@, 1, Some(root), imports));
    lemma_resolved_fields(pre, here, def.fields@, imports, 0, Map::empty(), field);
    assert(child_compound(q, here, a.1.val.compounds@[of].0@) is Some);
}

} // verus!
