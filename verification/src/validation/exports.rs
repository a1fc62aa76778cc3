//! What the pass over the re-exports leaves as it is, and what it brings
//! about: in a well-formed tree a re-export never takes the place of a
//! declared name, and every re-export becomes a child of its module.

use super::arena::Index;
use super::error::ValidationErrorTypeView;
use super::format::Module;
use super::model::RootView;
use super::passes::{
    child_compound, child_enum, child_module, import_name, preresolve_subtrees, preresolve_tree,
    preresolve_uses, reexport,
};
use super::placement::{
    child_lo, lemma_placed_frame, lemma_size, lemma_size_upto_grows, lemma_size_upto_step, marks_of,
    placed, size, Marks,
};
use super::tree::{reexported_names, ModuleTree};
use crate::parse::ast::PathPart;
use vstd::prelude::*;

verus! {

/// The name of a re-export is among the re-exported names.
pub proof fn lemma_reexported_name(
    uses: Seq<(bool, Vec<PathPart>)>,
    i: int,
    k: int,
    name: Seq<char>,
)
    requires
        0 <= i <= k < uses.len(),
        uses[k].0,
        import_name(uses[k].1@) == Ok::<Seq<char>, ValidationErrorTypeView>(name),
    ensures
        reexported_names(uses, i).contains(name),
    decreases k - i,
{
    let rest = reexported_names(uses, i + 1);
    if i < k {
        lemma_reexported_name(uses, i + 1, k, name);
        let j = choose|j: int| 0 <= j < rest.len() && rest[j] == name;
        if uses[i].0 && uses[i].1@.len() > 0 && uses[i].1@.last() is Regular {
            let all = reexported_names(uses, i);
            assert(all[j + 1] == rest[j]);
        }
    } else {
        assert(reexported_names(uses, i)[0] == name);
    }
}

/// Whether `q` is `r` but for the children of the module `m`, and there but
/// for the names in `changed`.
pub open spec fn rebound(
    r: RootView,
    q: RootView,
    m: Index<Module>,
    changed: Seq<Seq<char>>,
) -> bool {
    &&& q.compounds == r.compounds
    &&& q.enums == r.enums
    &&& q.registries == r.registries
    &&& q.root_modules == r.root_modules
    &&& q.modules.len() == r.modules.len()
    &&& forall|x: int|
        0 <= x < r.modules.len() && x != m.pos() ==> #[trigger] q.modules[x] == r.modules[x]
    &&& q.module(m).parent == r.module(m).parent
    &&& forall|n: Seq<char>|
        !changed.contains(n) ==> (#[trigger] q.module(m).children.contains_key(n)
            <==> r.module(m).children.contains_key(n))
    &&& forall|n: Seq<char>|
        !changed.contains(n) && r.module(m).children.contains_key(n) ==> #[trigger] q.module(
            m,
        ).children[n] == r.module(m).children[n]
}

/// The re-exports of a module bind re-exported names in that module and
/// change nothing else.
pub proof fn lemma_preresolve_uses(
    r: RootView,
    m: Index<Module>,
    uses: Seq<(bool, Vec<PathPart>)>,
    i: int,
)
    requires
        r.has_module(m),
        0 <= i <= uses.len(),
    ensures
        rebound(r, preresolve_uses(r, m, uses, i).0, m, reexported_names(uses, i)),
    decreases uses.len() - i,
{
    let names = reexported_names(uses, i);
    if i < uses.len() {
        let rest = reexported_names(uses, i + 1);
        assert forall|n: Seq<char>| rest.contains(n) implies names.contains(n) by {
            let j = choose|j: int| 0 <= j < rest.len() && rest[j] == n;
            if uses[i].0 && uses[i].1@.len() > 0 && uses[i].1@.last() is Regular {
                assert(names[j + 1] == rest[j]);
            }
        }
        if !uses[i].0 {
            lemma_preresolve_uses(r, m, uses, i + 1);
        } else {
            let o = reexport(r, m, uses[i].1@);
            if o.1 is Ok {
                let name = import_name(uses[i].1@)->Ok_0;
                lemma_reexported_name(uses, i, i, name);
                lemma_preresolve_uses(o.0, m, uses, i + 1);
                let q = preresolve_uses(o.0, m, uses, i + 1).0;
                assert forall|n: Seq<char>| !names.contains(n) implies (#[trigger] q.module(
                    m,
                ).children.contains_key(n) <==> r.module(m).children.contains_key(n)) by {
                    assert(!rest.contains(n));
                }
                assert forall|n: Seq<char>|
                    !names.contains(n) && r.module(m).children.contains_key(
                        n,
                    ) implies #[trigger] q.module(m).children[n] == r.module(m).children[n] by {
                    assert(!rest.contains(n));
                }
                assert forall|x: int|
                    0 <= x < r.modules.len() && x != m.pos() implies #[trigger] q.modules[x]
                    == r.modules[x] by {
                    assert(o.0.modules[x] == r.modules[x]);
                }
            }
        }
    }
}

/// Whether `q` is `r` but for the children of the modules that a tree
/// placed at `lo` declares, `size` of them, and of the module `m`.
pub open spec fn below_kept(
    r: RootView,
    q: RootView,
    m: Index<Module>,
    lo: Marks,
    size: Marks,
) -> bool {
    &&& q.compounds == r.compounds
    &&& q.enums == r.enums
    &&& q.registries == r.registries
    &&& q.root_modules == r.root_modules
    &&& q.modules.len() == r.modules.len()
    &&& forall|x: int|
        0 <= x < r.modules.len() && x != m.pos() && !(lo.modules <= x < lo.modules + size.modules)
            ==> #[trigger] q.modules[x] == r.modules[x]
    &&& forall|x: int| 0 <= x < r.modules.len() ==> (#[trigger] q.modules[x]).parent
        == r.modules[x].parent
}

/// What is placed stays placed when the module keeps its declared names and
/// every submodule stays placed.
proof fn lemma_placed_again(r: RootView, q: RootView, m: Index<Module>, tree: ModuleTree, lo: Marks)
    requires
        placed(r, m, tree, lo),
        marks_of(q) == marks_of(r),
        forall|i: int|
            0 <= i < tree.val.compounds@.len() ==> child_compound(
                q,
                m,
                (#[trigger] tree.val.compounds@[i]).0@,
            ) == child_compound(r, m, tree.val.compounds@[i].0@),
        forall|i: int|
            0 <= i < tree.val.enums@.len() ==> child_enum(q, m, (#[trigger] tree.val.enums@[i]).0@)
                == child_enum(r, m, tree.val.enums@[i].0@),
        forall|i: int|
            0 <= i < tree.children@.len() ==> child_module(q, m, (#[trigger] tree.children@[i]).0@)
                == child_module(r, m, tree.children@[i].0@),
        forall|x: int| 0 <= x < r.modules.len() ==> (#[trigger] q.modules[x]).parent
            == r.modules[x].parent,
        forall|i: int|
            0 <= i < tree.children@.len() ==> placed(
                q,
                Index::<Module>::at((lo.modules + i) as nat),
                (#[trigger] tree.children@[i]).1,
                child_lo(tree, lo, i),
            ),
    ensures
        placed(q, m, tree, lo),
{
    reveal(placed);
    lemma_size(tree);
    assert forall|i: int| 0 <= i < tree.children@.len() implies {
        &&& child_module(q, m, (#[trigger] tree.children@[i]).0@) == Some(
            Index::<Module>::at((lo.modules + i) as nat),
        )
        &&& q.module(Index::<Module>::at((lo.modules + i) as nat)).parent == Some(m)
        &&& placed(
            q,
            Index::<Module>::at((lo.modules + i) as nat),
            tree.children@[i].1,
            child_lo(tree, lo, i),
        )
    } by {
        Index::<Module>::lemma_at((lo.modules + i) as nat);
        lemma_size_upto_grows(tree, 0, i);
        lemma_size_upto_grows(tree, i, tree.children@.len() as int);
    }
}

/// The position of the module of the submodule at position `i`, and where
/// the modules below it lie.
proof fn lemma_child_ranges(tree: ModuleTree, lo: Marks, i: int, j: int)
    requires
        0 <= i < tree.children@.len(),
        0 <= j < tree.children@.len(),
    ensures
        lo.modules + tree.children@.len() <= child_lo(tree, lo, i).modules,
        child_lo(tree, lo, i).modules + size(tree.children@[i].1).modules == child_lo(
            tree,
            lo,
            i + 1,
        ).modules,
        child_lo(tree, lo, i + 1).modules <= lo.modules + size(tree).modules,
        i < j ==> child_lo(tree, lo, i + 1).modules <= child_lo(tree, lo, j).modules,
{
    lemma_size(tree);
    lemma_size_upto_step(tree, i);
    lemma_size_upto_grows(tree, 0, i);
    lemma_size_upto_grows(tree, i + 1, tree.children@.len() as int);
    if i < j {
        lemma_size_upto_grows(tree, i + 1, j);
    }
}

/// The re-exports of a module itself keep its tree placed.
pub proof fn lemma_uses_keep_placed(r: RootView, m: Index<Module>, tree: ModuleTree, lo: Marks)
    requires
        placed(r, m, tree, lo),
        tree.declared_names().no_duplicates(),
    ensures
        placed(preresolve_uses(r, m, tree.val.uses@, 0).0, m, tree, lo),
        rebound(
            r,
            preresolve_uses(r, m, tree.val.uses@, 0).0,
            m,
            reexported_names(tree.val.uses@, 0),
        ),
{
    let n = tree.children@.len() as int;
    assert(r.has_module(m) && m.pos() < lo.modules && marks_of(r).fits() && lo.plus(
        size(tree),
    ).within(marks_of(r))) by {
        reveal(placed);
    }
    lemma_preresolve_uses(r, m, tree.val.uses@, 0);
    let r1 = preresolve_uses(r, m, tree.val.uses@, 0).0;
    let changed = reexported_names(tree.val.uses@, 0);
    let all = tree.declared_names();
    let nc = tree.val.compounds@.len() as int;
    let ne = tree.val.enums@.len() as int;
    assert forall|k: int| 0 <= k < nc + ne + n implies !changed.contains(#[trigger] all[k]) by {
        if changed.contains(all[k]) {
            let j = choose|j: int| 0 <= j < changed.len() && changed[j] == all[k];
            assert(all[nc + ne + n + j] == changed[j]);
        }
    }
    assert forall|i: int| 0 <= i < nc implies child_compound(
        r1,
        m,
        (#[trigger] tree.val.compounds@[i]).0@,
    ) == child_compound(r, m, tree.val.compounds@[i].0@) by {
        assert(all[i] == tree.val.compounds@[i].0@);
    }
    assert forall|i: int| 0 <= i < ne implies child_enum(r1, m, (#[trigger] tree.val.enums@[i]).0@)
        == child_enum(r, m, tree.val.enums@[i].0@) by {
        assert(all[nc + i] == tree.val.enums@[i].0@);
    }
    assert forall|i: int| 0 <= i < n implies child_module(r1, m, (#[trigger] tree.children@[i]).0@)
        == child_module(r, m, tree.children@[i].0@) by {
        assert(all[nc + ne + i] == tree.children@[i].0@);
    }
    assert forall|i: int| 0 <= i < n implies placed(
        r1,
        Index::<Module>::at((lo.modules + i) as nat),
        (#[trigger] tree.children@[i]).1,
        child_lo(tree, lo, i),
    ) by {
        let d = Index::<Module>::at((lo.modules + i) as nat);
        Index::<Module>::lemma_at((lo.modules + i) as nat);
        lemma_child_ranges(tree, lo, i, i);
        assert(placed(r, d, tree.children@[i].1, child_lo(tree, lo, i))) by {
            reveal(placed);
        }
        assert forall|x: int|
            child_lo(tree, lo, i).modules <= x < child_lo(tree, lo, i).modules + size(
                tree.children@[i].1,
            ).modules implies #[trigger] r1.modules[x] == r.modules[x] by {}
        lemma_placed_frame(r, r1, d, tree.children@[i].1, child_lo(tree, lo, i));
    }
    assert forall|x: int| 0 <= x < r.modules.len() implies (#[trigger] r1.modules[x]).parent
        == r.modules[x].parent by {
        if x != m.pos() {
            assert(r1.modules[x] == r.modules[x]);
        }
    }
    lemma_placed_again(r, r1, m, tree, lo);
}

/// The re-exports of one submodule keep the tree of its parent placed.
pub proof fn lemma_child_keeps_placed(
    s: RootView,
    m: Index<Module>,
    tree: ModuleTree,
    lo: Marks,
    module: Seq<Seq<char>>,
    i: int,
)
    requires
        0 <= i < tree.children@.len(),
        placed(s, m, tree, lo),
        forall|j: int|
            0 <= j < tree.children@.len() ==> (#[trigger] tree.children@[j]).1.well_formed(),
    ensures
        child_module(s, m, tree.children@[i].0@) == Some(
            Index::<Module>::at((lo.modules + i) as nat),
        ),
        s.has_module(Index::<Module>::at((lo.modules + i) as nat)),
        placed(
            s,
            Index::<Module>::at((lo.modules + i) as nat),
            tree.children@[i].1,
            child_lo(tree, lo, i),
        ),
        placed(
            preresolve_tree(
                s,
                Index::<Module>::at((lo.modules + i) as nat),
                tree.children@[i].1,
                module.push(tree.children@[i].0@),
            ).0,
            m,
            tree,
            lo,
        ),
        below_kept(
            s,
            preresolve_tree(
                s,
                Index::<Module>::at((lo.modules + i) as nat),
                tree.children@[i].1,
                module.push(tree.children@[i].0@),
            ).0,
            m,
            lo,
            size(tree),
        ),
        preresolve_tree(
            s,
            Index::<Module>::at((lo.modules + i) as nat),
            tree.children@[i].1,
            module.push(tree.children@[i].0@),
        ).0.modules[m.pos() as int] == s.modules[m.pos() as int],
    decreases tree, 0nat,
{
    let n = tree.children@.len() as int;
    let name = tree.children@[i].0@;
    let sub = tree.children@[i].1;
    let c = Index::<Module>::at((lo.modules + i) as nat);
    let at_i = child_lo(tree, lo, i);
    assert(child_module(s, m, name) == Some(c) && placed(s, c, sub, at_i) && m.pos() < lo.modules
        && marks_of(s).fits() && lo.plus(size(tree)).within(marks_of(s))) by {
        reveal(placed);
    }
    assert(s.has_module(c)) by {
        reveal(placed);
    }
    Index::<Module>::lemma_at((lo.modules + i) as nat);
    lemma_child_ranges(tree, lo, i, i);
    lemma_preresolve_tree(s, c, sub, at_i, module.push(name));
    let s1 = preresolve_tree(s, c, sub, module.push(name)).0;
    assert forall|j: int| 0 <= j < n implies placed(
        s1,
        Index::<Module>::at((lo.modules + j) as nat),
        (#[trigger] tree.children@[j]).1,
        child_lo(tree, lo, j),
    ) by {
        if j != i {
            let d = Index::<Module>::at((lo.modules + j) as nat);
            Index::<Module>::lemma_at((lo.modules + j) as nat);
            lemma_child_ranges(tree, lo, j, i);
            lemma_child_ranges(tree, lo, i, j);
            assert(placed(s, d, tree.children@[j].1, child_lo(tree, lo, j))) by {
                reveal(placed);
            }
            assert forall|x: int|
                child_lo(tree, lo, j).modules <= x < child_lo(tree, lo, j).modules + size(
                    tree.children@[j].1,
                ).modules implies #[trigger] s1.modules[x] == s.modules[x] by {}
            lemma_placed_frame(s, s1, d, tree.children@[j].1, child_lo(tree, lo, j));
        }
    }
    lemma_placed_again(s, s1, m, tree, lo);
    assert forall|x: int|
        0 <= x < s.modules.len() && x != m.pos() && !(lo.modules <= x < lo.modules + size(
            tree,
        ).modules) implies #[trigger] s1.modules[x] == s.modules[x] by {}
}

/// The re-exports of the submodules from position `i` on keep a placed tree
/// placed.
pub proof fn lemma_preresolve_subtrees(
    s: RootView,
    m: Index<Module>,
    tree: ModuleTree,
    lo: Marks,
    module: Seq<Seq<char>>,
    i: int,
)
    requires
        0 <= i <= tree.children@.len(),
        placed(s, m, tree, lo),
        forall|j: int|
            0 <= j < tree.children@.len() ==> (#[trigger] tree.children@[j]).1.well_formed(),
    ensures
        placed(preresolve_subtrees(s, m, tree, module, i).0, m, tree, lo),
        below_kept(s, preresolve_subtrees(s, m, tree, module, i).0, m, lo, size(tree)),
        preresolve_subtrees(s, m, tree, module, i).0.modules[m.pos() as int]
            == s.modules[m.pos() as int],
    decreases tree, tree.children@.len() - i,
{
    let n = tree.children@.len() as int;
    if i < n {
        let name = tree.children@[i].0@;
        let sub = tree.children@[i].1;
        let c = Index::<Module>::at((lo.modules + i) as nat);
        lemma_child_keeps_placed(s, m, tree, lo, module, i);
        let o = preresolve_tree(s, c, sub, module.push(name));
        let s1 = o.0;
        if o.1 is Ok {
            lemma_preresolve_subtrees(s1, m, tree, lo, module, i + 1);
            let q = preresolve_subtrees(s1, m, tree, module, i + 1).0;
            assert forall|x: int|
                0 <= x < s.modules.len() && x != m.pos() && !(lo.modules <= x < lo.modules + size(
                    tree,
                ).modules) implies #[trigger] q.modules[x] == s.modules[x] by {
                assert(s1.modules[x] == s.modules[x]);
            }
            assert forall|x: int| 0 <= x < s.modules.len() implies (#[trigger] q.modules[x]).parent
                == s.modules[x].parent by {
                assert(s1.modules[x].parent == s.modules[x].parent);
            }
        }
    }
}

/// The pass over the re-exports keeps a well-formed tree placed: whether it
/// succeeds or fails, every declared name denotes after it what it denoted
/// before, and nothing outside the modules of the tree changes.
pub proof fn lemma_preresolve_tree(
    r: RootView,
    m: Index<Module>,
    tree: ModuleTree,
    lo: Marks,
    module: Seq<Seq<char>>,
)
    requires
        placed(r, m, tree, lo),
        tree.well_formed(),
    ensures
        placed(preresolve_tree(r, m, tree, module).0, m, tree, lo),
        below_kept(r, preresolve_tree(r, m, tree, module).0, m, lo, size(tree)),
    decreases tree, tree.children@.len() + 1,
{
    let n = tree.children@.len() as int;
    lemma_uses_keep_placed(r, m, tree, lo);
    let o = preresolve_uses(r, m, tree.val.uses@, 0);
    let r1 = o.0;
    assert forall|x: int| 0 <= x < r.modules.len() implies (#[trigger] r1.modules[x]).parent
        == r.modules[x].parent by {
        if x != m.pos() {
            assert(r1.modules[x] == r.modules[x]);
        }
    }
    if o.1 is Ok {
        assert forall|j: int| 0 <= j < n implies (#[trigger] tree.children@[j]).1.well_formed() by {}
        lemma_preresolve_subtrees(r1, m, tree, lo, module, 0);
        let q = preresolve_subtrees(r1, m, tree, module, 0).0;
        assert forall|x: int|
            0 <= x < r.modules.len() && x != m.pos() && !(lo.modules <= x < lo.modules + size(
                tree,
            ).modules) implies #[trigger] q.modules[x] == r.modules[x] by {
            assert(r1.modules[x] == r.modules[x]);
        }
        assert forall|x: int| 0 <= x < r.modules.len() implies (#[trigger] q.modules[x]).parent
            == r.modules[x].parent by {
            assert(r1.modules[x].parent == r.modules[x].parent);
        }
    }
}

/// Whether the module `m` has a child `n` that is a compound or an enum.
pub open spec fn has_export(q: RootView, m: Index<Module>, n: Seq<char>) -> bool {
    q.module(m).children.contains_key(n) && !(q.module(m).children[n] is Module)
}

/// Whether every re-export among `uses` is a child of the module `m`, under
/// the last name of its path.
pub open spec fn level_exported(
    q: RootView,
    m: Index<Module>,
    uses: Seq<(bool, Vec<PathPart>)>,
) -> bool {
    forall|k: int|
        0 <= k < uses.len() && (#[trigger] uses[k]).0 && import_name(uses[k].1@) is Ok
            ==> has_export(q, m, import_name(uses[k].1@)->Ok_0)
}

/// Whether every re-export of `tree`, which is placed at `lo`, is a child of
/// the module that re-exports it, from the module `m` down.
#[verifier::opaque]
pub open spec fn exported(q: RootView, m: Index<Module>, tree: ModuleTree, lo: Marks) -> bool
    decreases tree,
{
    &&& level_exported(q, m, tree.val.uses@)
    &&& forall|i: int|
        0 <= i < tree.children@.len() ==> exported(
            q,
            Index::<Module>::at((lo.modules + i) as nat),
            (#[trigger] tree.children@[i]).1,
            child_lo(tree, lo, i),
        )
}

/// The re-exports of a module that succeed are children of it afterwards,
/// and what was a compound or an enum among its children before is one after.
pub proof fn lemma_uses_export(
    r: RootView,
    m: Index<Module>,
    uses: Seq<(bool, Vec<PathPart>)>,
    i: int,
)
    requires
        r.has_module(m),
        0 <= i <= uses.len(),
    ensures
        forall|n: Seq<char>|
            has_export(r, m, n) ==> #[trigger] has_export(preresolve_uses(r, m, uses, i).0, m, n),
        preresolve_uses(r, m, uses, i).1 is Ok ==> forall|k: int|
            i <= k < uses.len() && (#[trigger] uses[k]).0 && import_name(uses[k].1@) is Ok
                ==> has_export(preresolve_uses(r, m, uses, i).0, m, import_name(uses[k].1@)->Ok_0),
    decreases uses.len() - i,
{
    if i < uses.len() {
        if !uses[i].0 {
            lemma_uses_export(r, m, uses, i + 1);
        } else {
            let o = reexport(r, m, uses[i].1@);
            if o.1 is Ok {
                let name = import_name(uses[i].1@)->Ok_0;
                lemma_uses_export(o.0, m, uses, i + 1);
                let q = preresolve_uses(o.0, m, uses, i + 1).0;
                assert forall|n: Seq<char>| has_export(r, m, n) implies #[trigger] has_export(
                    q,
                    m,
                    n,
                ) by {
                    assert(has_export(o.0, m, n));
                }
                if preresolve_uses(r, m, uses, i).1 is Ok {
                    assert forall|k: int|
                        i <= k < uses.len() && (#[trigger] uses[k]).0 && import_name(
                            uses[k].1@,
                        ) is Ok implies has_export(q, m, import_name(uses[k].1@)->Ok_0) by {
                        if k == i {
                            assert(has_export(q, m, name));
                        }
                    }
                }
            }
        }
    }
}

/// What is exported stays exported while the modules that hold it stay as
/// they are.
pub proof fn lemma_exported_frame(
    q: RootView,
    q2: RootView,
    m: Index<Module>,
    tree: ModuleTree,
    lo: Marks,
)
    requires
        exported(q, m, tree, lo),
        lo.plus(size(tree)).fits(),
        q2.modules[m.pos() as int] == q.modules[m.pos() as int],
        forall|x: int|
            lo.modules <= x < lo.modules + size(tree).modules ==> #[trigger] q2.modules[x]
                == q.modules[x],
    ensures
        exported(q2, m, tree, lo),
    decreases tree,
{
    reveal(exported);
    assert forall|i: int| 0 <= i < tree.children@.len() implies exported(
        q2,
        Index::<Module>::at((lo.modules + i) as nat),
        (#[trigger] tree.children@[i]).1,
        child_lo(tree, lo, i),
    ) by {
        let c = Index::<Module>::at((lo.modules + i) as nat);
        lemma_child_ranges(tree, lo, i, i);
        lemma_size(tree);
        lemma_size_upto_step(tree, i);
        lemma_size_upto_grows(tree, i + 1, tree.children@.len() as int);
        Index::<Module>::lemma_at((lo.modules + i) as nat);
        lemma_exported_frame(q, q2, c, tree.children@[i].1, child_lo(tree, lo, i));
    }
}

/// Where the pass over the re-exports of the submodules from position `i`
/// on succeeds, every re-export of every submodule is a child of its module.
pub proof fn lemma_exports_subtrees(
    s: RootView,
    m: Index<Module>,
    tree: ModuleTree,
    lo: Marks,
    module: Seq<Seq<char>>,
    i: int,
)
    requires
        0 <= i <= tree.children@.len(),
        placed(s, m, tree, lo),
        forall|j: int|
            0 <= j < tree.children@.len() ==> (#[trigger] tree.children@[j]).1.well_formed(),
        forall|j: int|
            0 <= j < i ==> exported(
                s,
                Index::<Module>::at((lo.modules + j) as nat),
                (#[trigger] tree.children@[j]).1,
                child_lo(tree, lo, j),
            ),
    ensures
        preresolve_subtrees(s, m, tree, module, i).1 is Ok ==> forall|j: int|
            0 <= j < tree.children@.len() ==> exported(
                preresolve_subtrees(s, m, tree, module, i).0,
                Index::<Module>::at((lo.modules + j) as nat),
                (#[trigger] tree.children@[j]).1,
                child_lo(tree, lo, j),
            ),
    decreases tree, tree.children@.len() - i,
{
    let n = tree.children@.len() as int;
    if i < n {
        let name = tree.children@[i].0@;
        let sub = tree.children@[i].1;
        let c = Index::<Module>::at((lo.modules + i) as nat);
        lemma_child_keeps_placed(s, m, tree, lo, module, i);
        lemma_exports_tree(s, c, sub, child_lo(tree, lo, i), module.push(name));
        lemma_preresolve_tree(s, c, sub, child_lo(tree, lo, i), module.push(name));
        let o = preresolve_tree(s, c, sub, module.push(name));
        let s1 = o.0;
        if o.1 is Ok {
            assert(marks_of(s).fits() && lo.plus(size(tree)).within(marks_of(s))) by {
                reveal(placed);
            }
            lemma_size(tree);
            assert forall|j: int| 0 <= j < i + 1 implies exported(
                s1,
                Index::<Module>::at((lo.modules + j) as nat),
                (#[trigger] tree.children@[j]).1,
                child_lo(tree, lo, j),
            ) by {
                if j < i {
                    let d = Index::<Module>::at((lo.modules + j) as nat);
                    Index::<Module>::lemma_at((lo.modules + j) as nat);
                    Index::<Module>::lemma_at((lo.modules + i) as nat);
                    lemma_child_ranges(tree, lo, j, i);
                    lemma_child_ranges(tree, lo, i, j);
                    lemma_size_upto_step(tree, j);
                    lemma_size_upto_grows(tree, j + 1, n);
                    assert forall|x: int|
                        child_lo(tree, lo, j).modules <= x < child_lo(tree, lo, j).modules + size(
                            tree.children@[j].1,
                        ).modules implies #[trigger] s1.modules[x] == s.modules[x] by {}
                    lemma_exported_frame(s, s1, d, tree.children@[j].1, child_lo(tree, lo, j));
                }
            }
            lemma_exports_subtrees(s1, m, tree, lo, module, i + 1);
        }
    }
}

/// Where the pass over the re-exports of a well-formed tree succeeds, every
/// re-export is a child of the module that re-exports it.
pub proof fn lemma_exports_tree(
    r: RootView,
    m: Index<Module>,
    tree: ModuleTree,
    lo: Marks,
    module: Seq<Seq<char>>,
)
    requires
        placed(r, m, tree, lo),
        tree.well_formed(),
    ensures
        preresolve_tree(r, m, tree, module).1 is Ok ==> exported(
            preresolve_tree(r, m, tree, module).0,
            m,
            tree,
            lo,
        ),
    decreases tree, tree.children@.len() + 1,
{
    let n = tree.children@.len() as int;
    assert(r.has_module(m)) by {
        reveal(placed);
    }
    lemma_uses_keep_placed(r, m, tree, lo);
    lemma_uses_export(r, m, tree.val.uses@, 0);
    let o = preresolve_uses(r, m, tree.val.uses@, 0);
    let r1 = o.0;
    if o.1 is Ok {
        assert forall|j: int| 0 <= j < n implies (#[trigger] tree.children@[j]).1.well_formed() by {}
        lemma_exports_subtrees(r1, m, tree, lo, module, 0);
        lemma_preresolve_subtrees(r1, m, tree, lo, module, 0);
        let q = preresolve_subtrees(r1, m, tree, module, 0).0;
        if preresolve_subtrees(r1, m, tree, module, 0).1 is Ok {
            assert(level_exported(q, m, tree.val.uses@)) by {
                assert forall|k: int|
                    0 <= k < tree.val.uses@.len() && (#[trigger] tree.val.uses@[k]).0
                        && import_name(tree.val.uses@[k].1@) is Ok implies has_export(
                    q,
                    m,
                    import_name(tree.val.uses@[k].1@)->Ok_0,
                ) by {
                    assert(has_export(r1, m, import_name(tree.val.uses@[k].1@)->Ok_0));
                }
            }
            assert(exported(q, m, tree, lo)) by {
                reveal(exported);
            }
        }
    }
}

} // verus!
