//! Where registration puts what a module tree declares: every slot is
//! determined by the sizes of the arenas before and by the shape of the tree.

use super::arena::Index;
use super::format::{CompoundTag, EnumItem, EnumItemView, ItemIndex, ItemType, Module, ModuleView};
use super::model::RootView;
use super::passes::{
    child_compound, child_enum, child_module, empty_compound, empty_enum, empty_module,
    register_compounds, register_enums, register_modules, register_subtrees, register_tree,
};
use super::tree::{first_names, ModuleTree};
use crate::parse::ast;
use vstd::prelude::*;

verus! {

/// The handle of kind `kind` to the entry at position `pos`.
pub open spec fn slot(kind: ItemType, pos: int) -> ItemIndex {
    match kind {
        ItemType::Compound => ItemIndex::Compound(Index::at(pos as nat)),
        ItemType::Enum => ItemIndex::Enum(Index::at(pos as nat)),
        ItemType::Module => ItemIndex::Module(Index::at(pos as nat)),
    }
}

/// The children `c` after the names from position `i` on have been bound,
/// in order, the name at position `j` to the slot at `base + j`.
pub open spec fn bound_all(
    c: Map<Seq<char>, ItemIndex>,
    names: Seq<Seq<char>>,
    kind: ItemType,
    base: int,
    i: int,
) -> Map<Seq<char>, ItemIndex>
    decreases names.len() - i,
{
    if i < 0 || i >= names.len() {
        c
    } else {
        bound_all(c.insert(names[i], slot(kind, base + i)), names, kind, base, i + 1)
    }
}

/// Whether `n` is one of the names from position `i` on.
pub open spec fn named_from(names: Seq<Seq<char>>, i: int, n: Seq<char>) -> bool {
    exists|j: int| i <= j < names.len() && #[trigger] names[j] == n
}

/// Binding distinct names gives each its own slot and leaves every other
/// name as it was.
pub proof fn lemma_bound_all(
    c: Map<Seq<char>, ItemIndex>,
    names: Seq<Seq<char>>,
    kind: ItemType,
    base: int,
    i: int,
)
    requires
        0 <= i <= names.len(),
        forall|a: int, b: int| i <= a < b < names.len() ==> #[trigger] names[a] != #[trigger] names[b],
    ensures
        forall|j: int|
            i <= j < names.len() ==> bound_all(c, names, kind, base, i).contains_key(
                #[trigger] names[j],
            ) && bound_all(c, names, kind, base, i)[names[j]] == slot(kind, base + j),
        forall|n: Seq<char>|
            !(#[trigger] named_from(names, i, n)) ==> (bound_all(
                c,
                names,
                kind,
                base,
                i,
            ).contains_key(n) <==> c.contains_key(n)),
        forall|n: Seq<char>|
            !(#[trigger] named_from(names, i, n)) && c.contains_key(n) ==> bound_all(
                c,
                names,
                kind,
                base,
                i,
            )[n] == c[n],
    decreases names.len() - i,
{
    if i < names.len() {
        let c1 = c.insert(names[i], slot(kind, base + i));
        lemma_bound_all(c1, names, kind, base, i + 1);
        let d = bound_all(c, names, kind, base, i);
        assert(d == bound_all(c1, names, kind, base, i + 1));
        assert(!named_from(names, i + 1, names[i])) by {
            if named_from(names, i + 1, names[i]) {
                let j = choose|j: int| i + 1 <= j < names.len() && #[trigger] names[j] == names[i];
                assert(names[i] != names[j]);
            }
        }
        assert(d.contains_key(names[i]) && d[names[i]] == slot(kind, base + i));
        assert forall|n: Seq<char>| !(#[trigger] named_from(names, i, n)) implies (d.contains_key(n)
            <==> c.contains_key(n)) && (c.contains_key(n) ==> d[n] == c[n]) by {
            assert(names[i] != n) by {
                if names[i] == n {
                    assert(named_from(names, i, n));
                }
            }
            assert(!named_from(names, i + 1, n)) by {
                if named_from(names, i + 1, n) {
                    assert(named_from(names, i, n));
                }
            }
        }
    }
}

/// `n` entries, each `v`.
pub open spec fn repeated<A>(n: int, v: A) -> Seq<A> {
    Seq::new(n as nat, |j: int| v)
}

/// The placeholders for the enums declared from position `i` on.
pub open spec fn enum_placeholders(decls: Seq<(String, ast::EnumDef)>, i: int) -> Seq<
    EnumItemView,
> {
    Seq::new((decls.len() - i) as nat, |j: int| empty_enum(decls[i + j].1.values))
}

/// The module `m` of `r` with `children` in the place of its own.
pub open spec fn with_children(
    r: RootView,
    m: Index<Module>,
    children: Map<Seq<char>, ItemIndex>,
) -> Seq<ModuleView> {
    r.modules.update(m.pos() as int, ModuleView { children, parent: r.module(m).parent })
}

/// What registering the compounds of a module comes to.
pub proof fn lemma_register_compounds(
    r: RootView,
    m: Index<Module>,
    decls: Seq<(String, ast::CompoundDef)>,
    i: int,
)
    requires
        r.has_module(m),
        0 <= i <= decls.len(),
    ensures
        register_compounds(r, m, decls, i) == (RootView {
            compounds: r.compounds + repeated(decls.len() - i, empty_compound()),
            modules: with_children(
                r,
                m,
                bound_all(
                    r.module(m).children,
                    first_names(decls),
                    ItemType::Compound,
                    r.compounds.len() - i,
                    i,
                ),
            ),
            ..r
        }),
    decreases decls.len() - i,
{
    let names = first_names(decls);
    if i < decls.len() {
        let r1 = r.declare_compound(m, decls[i].0@);
        lemma_register_compounds(r1, m, decls, i + 1);
        let q = register_compounds(r, m, decls, i);
        assert(names[i] == decls[i].0@);
        assert(q.compounds =~= r.compounds + repeated(decls.len() - i, empty_compound()));
        assert(q.modules =~= with_children(
            r,
            m,
            bound_all(r.module(m).children, names, ItemType::Compound, r.compounds.len() - i, i),
        ));
    } else {
        assert(r.compounds =~= r.compounds + repeated(0, empty_compound()));
        assert(r.modules =~= with_children(r, m, r.module(m).children));
    }
}

/// What registering the enums of a module comes to.
pub proof fn lemma_register_enums(
    r: RootView,
    m: Index<Module>,
    decls: Seq<(String, ast::EnumDef)>,
    i: int,
)
    requires
        r.has_module(m),
        0 <= i <= decls.len(),
    ensures
        register_enums(r, m, decls, i) == (RootView {
            enums: r.enums + enum_placeholders(decls, i),
            modules: with_children(
                r,
                m,
                bound_all(
                    r.module(m).children,
                    first_names(decls),
                    ItemType::Enum,
                    r.enums.len() - i,
                    i,
                ),
            ),
            ..r
        }),
    decreases decls.len() - i,
{
    let names = first_names(decls);
    if i < decls.len() {
        let r1 = r.declare_enum(m, decls[i].0@, decls[i].1.values);
        lemma_register_enums(r1, m, decls, i + 1);
        let q = register_enums(r, m, decls, i);
        assert(names[i] == decls[i].0@);
        assert(q.enums =~= r.enums + enum_placeholders(decls, i));
        assert(q.modules =~= with_children(
            r,
            m,
            bound_all(r.module(m).children, names, ItemType::Enum, r.enums.len() - i, i),
        ));
    } else {
        assert(r.enums =~= r.enums + enum_placeholders(decls, i));
        assert(r.modules =~= with_children(r, m, r.module(m).children));
    }
}

/// What registering the submodules of a module comes to.
pub proof fn lemma_register_modules(
    r: RootView,
    m: Index<Module>,
    children: Seq<(String, ModuleTree)>,
    i: int,
)
    requires
        r.has_module(m),
        0 <= i <= children.len(),
    ensures
        register_modules(r, m, children, i) == (RootView {
            modules: with_children(
                r,
                m,
                bound_all(
                    r.module(m).children,
                    first_names(children),
                    ItemType::Module,
                    r.modules.len() - i,
                    i,
                ),
            ) + repeated(children.len() - i, empty_module(Some(m))),
            ..r
        }),
    decreases children.len() - i,
{
    let names = first_names(children);
    if i < children.len() {
        let r1 = r.declare_module(m, children[i].0@);
        lemma_register_modules(r1, m, children, i + 1);
        let q = register_modules(r, m, children, i);
        assert(names[i] == children[i].0@);
        assert(q.modules =~= with_children(
            r,
            m,
            bound_all(r.module(m).children, names, ItemType::Module, r.modules.len() - i, i),
        ) + repeated(children.len() - i, empty_module(Some(m))));
    } else {
        assert(r.modules =~= with_children(r, m, r.module(m).children) + repeated(
            0,
            empty_module(Some(m)),
        ));
    }
}

/// How many modules, compounds and enums there are: the sizes of the three
/// arenas, or what a module tree adds to them.
pub struct Marks {
    pub modules: nat,
    pub compounds: nat,
    pub enums: nat,
}

impl Marks {
    /// Nothing of anything.
    pub open spec fn zero() -> Marks {
        Marks { modules: 0, compounds: 0, enums: 0 }
    }

    /// The sums, count by count.
    pub open spec fn plus(self, o: Marks) -> Marks {
        Marks {
            modules: self.modules + o.modules,
            compounds: self.compounds + o.compounds,
            enums: self.enums + o.enums,
        }
    }

    /// Whether no count exceeds its counterpart in `o`.
    pub open spec fn within(self, o: Marks) -> bool {
        self.modules <= o.modules && self.compounds <= o.compounds && self.enums <= o.enums
    }

    /// Whether a machine integer can hold every count.
    pub open spec fn fits(self) -> bool {
        self.modules <= usize::MAX && self.compounds <= usize::MAX && self.enums <= usize::MAX
    }
}

/// The sizes of the arenas of `r`.
pub open spec fn marks_of(r: RootView) -> Marks {
    Marks { modules: r.modules.len(), compounds: r.compounds.len(), enums: r.enums.len() }
}

/// What `tree` declares itself, without what its submodules declare.
pub open spec fn own(tree: ModuleTree) -> Marks {
    Marks {
        modules: tree.children@.len(),
        compounds: tree.val.compounds@.len(),
        enums: tree.val.enums@.len(),
    }
}

/// What `tree` and everything below it declare.
pub open spec fn size(tree: ModuleTree) -> Marks
    decreases tree, tree.children@.len() + 1,
{
    own(tree).plus(size_upto(tree, tree.children@.len() as int))
}

/// What the first `k` submodules of `tree` declare, with everything below them.
#[verifier::opaque]
pub open spec fn size_upto(tree: ModuleTree, k: int) -> Marks
    decreases tree, k,
{
    if k <= 0 || k > tree.children@.len() {
        Marks::zero()
    } else {
        size_upto(tree, k - 1).plus(size(tree.children@[k - 1].1))
    }
}

/// A tree declares what it declares itself and what its submodules declare.
pub proof fn lemma_size(tree: ModuleTree)
    ensures
        size(tree) == own(tree).plus(size_upto(tree, tree.children@.len() as int)),
{
    reveal(size_upto);
}

/// No submodules declare nothing, and one more submodule adds its size.
pub proof fn lemma_size_upto_step(tree: ModuleTree, i: int)
    requires
        0 <= i <= tree.children@.len(),
    ensures
        size_upto(tree, 0) == Marks::zero(),
        i < tree.children@.len() ==> size_upto(tree, i + 1) == size_upto(tree, i).plus(
            size(tree.children@[i].1),
        ),
{
    reveal(size_upto);
}

/// More submodules declare no less.
pub proof fn lemma_size_upto_grows(tree: ModuleTree, i: int, j: int)
    requires
        0 <= i <= j <= tree.children@.len(),
    ensures
        size_upto(tree, i).within(size_upto(tree, j)),
    decreases j - i,
{
    if i < j {
        lemma_size_upto_grows(tree, i, j - 1);
        lemma_size_upto_step(tree, j - 1);
    }
}

/// The sizes of the arenas when the registration of the submodule at
/// position `i` begins, where that of `tree` began at `lo`.
pub open spec fn child_lo(tree: ModuleTree, lo: Marks, i: int) -> Marks {
    lo.plus(own(tree)).plus(size_upto(tree, i))
}

/// Whether `q` holds what `tree` declares where a registration that began
/// with arenas of the sizes `lo` puts it: the compounds and enums of the
/// module `m` in the order of their declaration, then its submodules, then
/// what each submodule declares in turn.
#[verifier::opaque]
pub open spec fn placed(q: RootView, m: Index<Module>, tree: ModuleTree, lo: Marks) -> bool
    decreases tree,
{
    &&& q.has_module(m)
    &&& m.pos() < lo.modules
    &&& marks_of(q).fits()
    &&& lo.plus(size(tree)).within(marks_of(q))
    &&& forall|i: int|
        0 <= i < tree.val.compounds@.len() ==> child_compound(
            q,
            m,
            (#[trigger] tree.val.compounds@[i]).0@,
        ) == Some(Index::<CompoundTag>::at((lo.compounds + i) as nat))
    &&& forall|i: int|
        0 <= i < tree.val.enums@.len() ==> child_enum(q, m, (#[trigger] tree.val.enums@[i]).0@)
            == Some(Index::<EnumItem>::at((lo.enums + i) as nat))
    &&& forall|i: int|
        0 <= i < tree.children@.len() ==> {
            &&& child_module(q, m, (#[trigger] tree.children@[i]).0@) == Some(
                Index::<Module>::at((lo.modules + i) as nat),
            )
            &&& q.module(Index::<Module>::at((lo.modules + i) as nat)).parent == Some(m)
            &&& placed(
                q,
                Index::<Module>::at((lo.modules + i) as nat),
                tree.children@[i].1,
                child_lo(tree, lo, i),
            )
        }
}

/// What is placed stays placed while the modules that hold it stay as they are.
pub proof fn lemma_placed_frame(
    q: RootView,
    q2: RootView,
    m: Index<Module>,
    tree: ModuleTree,
    lo: Marks,
)
    requires
        placed(q, m, tree, lo),
        marks_of(q).within(marks_of(q2)),
        marks_of(q2).fits(),
        q2.modules[m.pos() as int] == q.modules[m.pos() as int],
        forall|x: int|
            lo.modules <= x < lo.modules + size(tree).modules ==> #[trigger] q2.modules[x]
                == q.modules[x],
    ensures
        placed(q2, m, tree, lo),
    decreases tree,
{
    reveal(placed);
    assert forall|i: int| 0 <= i < tree.children@.len() implies {
        &&& child_module(q2, m, (#[trigger] tree.children@[i]).0@) == Some(
            Index::<Module>::at((lo.modules + i) as nat),
        )
        &&& q2.module(Index::<Module>::at((lo.modules + i) as nat)).parent == Some(m)
        &&& placed(
            q2,
            Index::<Module>::at((lo.modules + i) as nat),
            tree.children@[i].1,
            child_lo(tree, lo, i),
        )
    } by {
        let c = Index::<Module>::at((lo.modules + i) as nat);
        Index::<Module>::lemma_at((lo.modules + i) as nat);
        lemma_size_upto_grows(tree, i + 1, tree.children@.len() as int);
        lemma_size_upto_grows(tree, 0, i);
        lemma_size_upto_step(tree, i);
        lemma_size(tree);
        assert(q2.modules[c.pos() as int] == q.modules[c.pos() as int]);
        lemma_placed_frame(q, q2, c, tree.children@[i].1, child_lo(tree, lo, i));
    }
}

/// What registration leaves as it was: the registries, the root modules
/// and every compound and enum that was there stay, and the new compounds
/// are empty.
pub open spec fn extends(r: RootView, q: RootView) -> bool {
    &&& q.registries == r.registries
    &&& q.root_modules == r.root_modules
    &&& marks_of(r).within(marks_of(q))
    &&& forall|k: int| 0 <= k < r.compounds.len() ==> #[trigger] q.compounds[k] == r.compounds[k]
    &&& forall|k: int|
        r.compounds.len() <= k < q.compounds.len() ==> #[trigger] q.compounds[k]
            == empty_compound()
    &&& forall|k: int| 0 <= k < r.enums.len() ==> #[trigger] q.enums[k] == r.enums[k]
}

/// Extending twice extends.
pub proof fn lemma_extends_twice(r: RootView, s: RootView, q: RootView)
    requires
        extends(r, s),
        extends(s, q),
    ensures
        extends(r, q),
{
    assert forall|k: int| r.compounds.len() <= k < q.compounds.len() implies #[trigger] q.compounds[k]
        == empty_compound() by {
        if k < s.compounds.len() {
            assert(q.compounds[k] == s.compounds[k]);
        }
    }
    assert forall|k: int| 0 <= k < r.compounds.len() implies #[trigger] q.compounds[k]
        == r.compounds[k] by {
        assert(q.compounds[k] == s.compounds[k]);
    }
    assert forall|k: int| 0 <= k < r.enums.len() implies #[trigger] q.enums[k] == r.enums[k] by {
        assert(q.enums[k] == s.enums[k]);
    }
}

/// The module `m` of `r` after the names that `tree` declares have their
/// slots, before anything below `tree` is registered.
pub open spec fn register_level(r: RootView, m: Index<Module>, tree: ModuleTree) -> RootView {
    register_modules(
        register_enums(register_compounds(r, m, tree.val.compounds@, 0), m, tree.val.enums@, 0),
        m,
        tree.children@,
        0,
    )
}

/// Whether the names that `tree` declares itself denote, among the children
/// of `m`, the slots that a registration which began at `lo` gives them.
pub open spec fn level_placed(q: RootView, m: Index<Module>, tree: ModuleTree, lo: Marks) -> bool {
    &&& forall|i: int|
        0 <= i < tree.val.compounds@.len() ==> child_compound(
            q,
            m,
            (#[trigger] tree.val.compounds@[i]).0@,
        ) == Some(Index::<CompoundTag>::at((lo.compounds + i) as nat))
    &&& forall|i: int|
        0 <= i < tree.val.enums@.len() ==> child_enum(q, m, (#[trigger] tree.val.enums@[i]).0@)
            == Some(Index::<EnumItem>::at((lo.enums + i) as nat))
    &&& forall|i: int|
        0 <= i < tree.children@.len() ==> child_module(q, m, (#[trigger] tree.children@[i]).0@)
            == Some(Index::<Module>::at((lo.modules + i) as nat))
}

/// The children of a module after the names of one level have their slots.
proof fn lemma_level_children(
    c0: Map<Seq<char>, ItemIndex>,
    tree: ModuleTree,
    lo: Marks,
)
    requires
        tree.declared_names().no_duplicates(),
    ensures
        ({
            let c1 = bound_all(
                c0,
                first_names(tree.val.compounds@),
                ItemType::Compound,
                lo.compounds as int,
                0,
            );
            let c2 = bound_all(c1, first_names(tree.val.enums@), ItemType::Enum, lo.enums as int, 0);
            let c3 = bound_all(c2, first_names(tree.children@), ItemType::Module, lo.modules as int, 0);
            &&& forall|i: int|
                0 <= i < tree.val.compounds@.len() ==> c3.contains_key(
                    (#[trigger] tree.val.compounds@[i]).0@,
                ) && c3[tree.val.compounds@[i].0@] == slot(ItemType::Compound, lo.compounds + i)
            &&& forall|i: int|
                0 <= i < tree.val.enums@.len() ==> c3.contains_key(
                    (#[trigger] tree.val.enums@[i]).0@,
                ) && c3[tree.val.enums@[i].0@] == slot(ItemType::Enum, lo.enums + i)
            &&& forall|i: int|
                0 <= i < tree.children@.len() ==> c3.contains_key(
                    (#[trigger] tree.children@[i]).0@,
                ) && c3[tree.children@[i].0@] == slot(ItemType::Module, lo.modules + i)
        }),
{
    let nc = tree.val.compounds@.len() as int;
    let ne = tree.val.enums@.len() as int;
    let nm = tree.children@.len() as int;
    let names_c = first_names(tree.val.compounds@);
    let names_e = first_names(tree.val.enums@);
    let names_m = first_names(tree.children@);
    let all = tree.declared_names();
    let c1 = bound_all(c0, names_c, ItemType::Compound, lo.compounds as int, 0);
    let c2 = bound_all(c1, names_e, ItemType::Enum, lo.enums as int, 0);
    let c3 = bound_all(c2, names_m, ItemType::Module, lo.modules as int, 0);
    assert forall|a: int| 0 <= a < nc implies #[trigger] names_c[a] == all[a] by {}
    assert forall|a: int| 0 <= a < ne implies #[trigger] names_e[a] == all[nc + a] by {}
    assert forall|a: int| 0 <= a < nm implies #[trigger] names_m[a] == all[nc + ne + a] by {}
    assert forall|a: int, b: int| 0 <= a < b < nc implies #[trigger] names_c[a] != #[trigger] names_c[b] by {
        assert(all[a] != all[b]);
    }
    assert forall|a: int, b: int| 0 <= a < b < ne implies #[trigger] names_e[a] != #[trigger] names_e[b] by {
        assert(all[nc + a] != all[nc + b]);
    }
    assert forall|a: int, b: int| 0 <= a < b < nm implies #[trigger] names_m[a] != #[trigger] names_m[b] by {
        assert(all[nc + ne + a] != all[nc + ne + b]);
    }
    lemma_bound_all(c0, names_c, ItemType::Compound, lo.compounds as int, 0);
    lemma_bound_all(c1, names_e, ItemType::Enum, lo.enums as int, 0);
    lemma_bound_all(c2, names_m, ItemType::Module, lo.modules as int, 0);
    assert forall|i: int| 0 <= i < nc implies c3.contains_key(
        (#[trigger] tree.val.compounds@[i]).0@,
    ) && c3[tree.val.compounds@[i].0@] == slot(ItemType::Compound, lo.compounds + i) by {
        let n = names_c[i];
        assert(n == tree.val.compounds@[i].0@);
        assert(!named_from(names_e, 0, n)) by {
            if named_from(names_e, 0, n) {
                let j = choose|j: int| 0 <= j < names_e.len() && #[trigger] names_e[j] == n;
                assert(all[i] != all[nc + j]);
            }
        }
        assert(!named_from(names_m, 0, n)) by {
            if named_from(names_m, 0, n) {
                let j = choose|j: int| 0 <= j < names_m.len() && #[trigger] names_m[j] == n;
                assert(all[i] != all[nc + ne + j]);
            }
        }
        assert(c1.contains_key(n) && c1[n] == slot(ItemType::Compound, lo.compounds + i));
        assert(c2.contains_key(n) && c2[n] == c1[n]);
        assert(c3.contains_key(n) && c3[n] == c2[n]);
    }
    assert forall|i: int| 0 <= i < ne implies c3.contains_key((#[trigger] tree.val.enums@[i]).0@)
        && c3[tree.val.enums@[i].0@] == slot(ItemType::Enum, lo.enums + i) by {
        let n = names_e[i];
        assert(n == tree.val.enums@[i].0@);
        assert(!named_from(names_m, 0, n)) by {
            if named_from(names_m, 0, n) {
                let j = choose|j: int| 0 <= j < names_m.len() && #[trigger] names_m[j] == n;
                assert(all[nc + i] != all[nc + ne + j]);
            }
        }
        assert(c2.contains_key(n) && c2[n] == slot(ItemType::Enum, lo.enums + i));
        assert(c3.contains_key(n) && c3[n] == c2[n]);
    }
    assert forall|i: int| 0 <= i < nm implies c3.contains_key((#[trigger] tree.children@[i]).0@)
        && c3[tree.children@[i].0@] == slot(ItemType::Module, lo.modules + i) by {
        let n = names_m[i];
        assert(n == tree.children@[i].0@);
    }
}

/// What registering the names of one level comes to.
pub proof fn lemma_register_level(r: RootView, m: Index<Module>, tree: ModuleTree)
    requires
        r.has_module(m),
        tree.declared_names().no_duplicates(),
    ensures
        extends(r, register_level(r, m, tree)),
        marks_of(register_level(r, m, tree)) == marks_of(r).plus(own(tree)),
        forall|x: int|
            0 <= x < r.modules.len() && x != m.pos() ==> #[trigger] register_level(
                r,
                m,
                tree,
            ).modules[x] == r.modules[x],
        forall|x: int|
            r.modules.len() <= x < r.modules.len() + tree.children@.len()
                ==> #[trigger] register_level(r, m, tree).modules[x] == empty_module(Some(m)),
        register_level(r, m, tree).module(m).parent == r.module(m).parent,
        level_placed(register_level(r, m, tree), m, tree, marks_of(r)),
        register_tree(r, m, tree) == register_subtrees(
            register_level(r, m, tree),
            r.modules.len(),
            tree,
            0,
        ),
{
    let lo = marks_of(r);
    let r1 = register_compounds(r, m, tree.val.compounds@, 0);
    lemma_register_compounds(r, m, tree.val.compounds@, 0);
    let r2 = register_enums(r1, m, tree.val.enums@, 0);
    lemma_register_enums(r1, m, tree.val.enums@, 0);
    let r3 = register_modules(r2, m, tree.children@, 0);
    lemma_register_modules(r2, m, tree.children@, 0);
    let c0 = r.module(m).children;
    lemma_level_children(c0, tree, lo);
    let c1 = bound_all(c0, first_names(tree.val.compounds@), ItemType::Compound, lo.compounds as int, 0);
    let c2 = bound_all(c1, first_names(tree.val.enums@), ItemType::Enum, lo.enums as int, 0);
    let c3 = bound_all(c2, first_names(tree.children@), ItemType::Module, lo.modules as int, 0);
    assert(r1.module(m).children == c1);
    assert(r2.module(m).children == c2);
    assert(r3.module(m).children == c3);
    assert(r2.modules.len() == r.modules.len());
}

/// What registering the submodules of a tree from position `i` on comes to.
/// `first` is the handle position of the first submodule, and `base` the
/// sizes of the arenas when the registration of the submodules began.
pub proof fn lemma_register_subtrees(
    s: RootView,
    first: nat,
    tree: ModuleTree,
    i: int,
    base: Marks,
)
    requires
        0 <= i <= tree.children@.len(),
        forall|j: int|
            0 <= j < tree.children@.len() ==> (#[trigger] tree.children@[j]).1.well_formed(),
        first + tree.children@.len() <= base.modules,
        marks_of(s) == base.plus(size_upto(tree, i)),
        base.plus(size_upto(tree, tree.children@.len() as int)).fits(),
    ensures
        extends(s, register_subtrees(s, first, tree, i)),
        marks_of(register_subtrees(s, first, tree, i)) == base.plus(
            size_upto(tree, tree.children@.len() as int),
        ),
        forall|x: int|
            0 <= x < s.modules.len() && !(first + i <= x < first + tree.children@.len())
                ==> #[trigger] register_subtrees(s, first, tree, i).modules[x] == s.modules[x],
        forall|x: int|
            first + i <= x < first + tree.children@.len() ==> (#[trigger] register_subtrees(
                s,
                first,
                tree,
                i,
            ).modules[x]).parent == s.modules[x].parent,
        forall|j: int|
            i <= j < tree.children@.len() ==> placed(
                register_subtrees(s, first, tree, i),
                Index::<Module>::at((first + j) as nat),
                (#[trigger] tree.children@[j]).1,
                base.plus(size_upto(tree, j)),
            ),
    decreases tree, tree.children@.len() - i,
{
    let n = tree.children@.len() as int;
    let q = register_subtrees(s, first, tree, i);
    lemma_size_upto_grows(tree, i, n);
    if i < n {
        let c = Index::<Module>::at((first + i) as nat);
        Index::<Module>::lemma_at((first + i) as nat);
        let sub = tree.children@[i].1;
        lemma_size_upto_grows(tree, i + 1, n);
        lemma_size_upto_step(tree, i);
        lemma_register_tree(s, c, sub);
        let s1 = register_tree(s, c, sub);
        lemma_register_subtrees(s1, first, tree, i + 1, base);
        assert(q == register_subtrees(s1, first, tree, i + 1));
        lemma_extends_twice(s, s1, q);
        assert forall|x: int|
            0 <= x < s.modules.len() && !(first + i <= x < first + n) implies #[trigger] q.modules[x]
            == s.modules[x] by {
            assert(s1.modules[x] == s.modules[x]);
            assert(q.modules[x] == s1.modules[x]);
        }
        assert forall|x: int| first + i <= x < first + n implies (#[trigger] q.modules[x]).parent
            == s.modules[x].parent by {
            if x == first + i {
                assert(q.modules[x] == s1.modules[x]);
                assert(s1.modules[x].parent == s.modules[x].parent);
            } else {
                assert(s1.modules[x] == s.modules[x]);
                assert(q.modules[x].parent == s1.modules[x].parent);
            }
        }
        assert forall|j: int| i <= j < n implies placed(
            q,
            Index::<Module>::at((first + j) as nat),
            (#[trigger] tree.children@[j]).1,
            base.plus(size_upto(tree, j)),
        ) by {
            if j == i {
                assert(q.modules[first + i] == s1.modules[first + i]);
                assert forall|x: int|
                    marks_of(s).modules <= x < marks_of(s).modules + size(sub).modules implies #[trigger] q.modules[x]
                    == s1.modules[x] by {}
                lemma_placed_frame(s1, q, c, sub, marks_of(s));
            }
        }
    }
}

/// What registering a well-formed tree comes to: everything that it
/// declares is placed, the arenas grow by its size, and nothing else changes.
pub proof fn lemma_register_tree(r: RootView, m: Index<Module>, tree: ModuleTree)
    requires
        r.has_module(m),
        tree.well_formed(),
        marks_of(r).plus(size(tree)).fits(),
    ensures
        extends(r, register_tree(r, m, tree)),
        marks_of(register_tree(r, m, tree)) == marks_of(r).plus(size(tree)),
        forall|x: int|
            0 <= x < r.modules.len() && x != m.pos() ==> #[trigger] register_tree(
                r,
                m,
                tree,
            ).modules[x] == r.modules[x],
        register_tree(r, m, tree).module(m).parent == r.module(m).parent,
        placed(register_tree(r, m, tree), m, tree, marks_of(r)),
    decreases tree, tree.children@.len() + 1,
{
    let lo = marks_of(r);
    let nm = tree.children@.len() as int;
    let r3 = register_level(r, m, tree);
    lemma_register_level(r, m, tree);
    let q = register_subtrees(r3, r.modules.len(), tree, 0);
    lemma_size_upto_grows(tree, 0, nm);
    lemma_size_upto_step(tree, 0);
    lemma_size(tree);
    lemma_register_subtrees(r3, r.modules.len(), tree, 0, lo.plus(own(tree)));
    lemma_extends_twice(r, r3, q);
    assert(q.modules[m.pos() as int] == r3.modules[m.pos() as int]);
    assert forall|x: int| 0 <= x < r.modules.len() && x != m.pos() implies #[trigger] q.modules[x]
        == r.modules[x] by {
        assert(q.modules[x] == r3.modules[x]);
    }
    assert(placed(q, m, tree, lo)) by {
        reveal(placed);
        assert forall|i: int| 0 <= i < nm implies {
            &&& child_module(q, m, (#[trigger] tree.children@[i]).0@) == Some(
                Index::<Module>::at((lo.modules + i) as nat),
            )
            &&& q.module(Index::<Module>::at((lo.modules + i) as nat)).parent == Some(m)
            &&& placed(
                q,
                Index::<Module>::at((lo.modules + i) as nat),
                tree.children@[i].1,
                child_lo(tree, lo, i),
            )
        } by {
            Index::<Module>::lemma_at((lo.modules + i) as nat);
            assert(r3.modules[lo.modules + i] == empty_module(Some(m)));
            assert(q.modules[lo.modules + i].parent == r3.modules[lo.modules + i].parent);
            assert(tree.children@[i].1.well_formed());
        }
    }
}

} // verus!
