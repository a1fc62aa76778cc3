//! The mathematical model of a root: arenas as sequences, tables as maps.
//! The contracts of the resolver are stated over it.

use super::arena::Index;
use super::error::ValidationErrorTypeView;
use super::format::{
    compound_within, lemma_compound_within_grows, CompoundTag, CompoundView, EnumItem, EnumItemView,
    ItemIndex, ItemType, Module, ModuleView,
};
use crate::identifier::IdentifierView;
use crate::parse::ast::PathPart;
use vstd::prelude::*;

verus! {

/// The bindings of one registry.
pub struct RegistryView {
    pub targets: Map<IdentifierView, Index<CompoundTag>>,
    pub default: Option<Index<CompoundTag>>,
}

/// Everything a root holds.
pub struct RootView {
    pub registries: Map<IdentifierView, RegistryView>,
    pub root_modules: Map<Seq<char>, Index<Module>>,
    pub compounds: Seq<CompoundView>,
    pub enums: Seq<EnumItemView>,
    pub modules: Seq<ModuleView>,
}

impl RootView {
    /// The root that holds nothing.
    pub open spec fn empty() -> RootView {
        RootView {
            registries: Map::empty(),
            root_modules: Map::empty(),
            compounds: Seq::empty(),
            enums: Seq::empty(),
            modules: Seq::empty(),
        }
    }

    /// Whether `m` is a handle to one of the modules.
    pub open spec fn has_module(self, m: Index<Module>) -> bool {
        m.pos() < self.modules.len()
    }

    /// Whether `item` is a handle to something that the arenas hold.
    pub open spec fn has_item(self, item: ItemIndex) -> bool {
        match item {
            ItemIndex::Module(i) => i.pos() < self.modules.len(),
            ItemIndex::Compound(i) => i.pos() < self.compounds.len(),
            ItemIndex::Enum(i) => i.pos() < self.enums.len(),
        }
    }

    /// The module behind `m`.
    pub open spec fn module(self, m: Index<Module>) -> ModuleView {
        self.modules[m.pos() as int]
    }

    /// Whether a machine integer can count the entries of each arena.
    pub open spec fn counted(self) -> bool {
        &&& self.modules.len() <= usize::MAX
        &&& self.compounds.len() <= usize::MAX
        &&& self.enums.len() <= usize::MAX
    }

    /// Every handle that the root holds leads to an entry of its arena: the
    /// handles in the modules, in the table of root modules and in the
    /// registries, the supertypes of the compounds and the handles in the
    /// types of their fields. And a machine integer can count the entries of
    /// each arena.
    pub open spec fn wf(self) -> bool {
        &&& self.counted()
        &&& forall|i: int|
            0 <= i < self.compounds.len() ==> compound_within(
                #[trigger] self.compounds[i],
                self.compounds.len(),
                self.enums.len(),
            )
        &&& forall|i: int|
            0 <= i < self.modules.len() ==> match (#[trigger] self.modules[i]).parent {
                Some(p) => self.has_module(p),
                None => true,
            }
        &&& forall|i: int, n: Seq<char>|
            0 <= i < self.modules.len() && (#[trigger] self.modules[i]).children.contains_key(n)
                ==> self.has_item(#[trigger] self.modules[i].children[n])
        &&& forall|n: Seq<char>| #[trigger]
            self.root_modules.contains_key(n) ==> self.has_module(self.root_modules[n])
        &&& forall|id: IdentifierView| #[trigger]
            self.registries.contains_key(id) ==> match self.registries[id].default {
                Some(d) => d.pos() < self.compounds.len(),
                None => true,
            }
        &&& forall|id: IdentifierView, t: IdentifierView|
            self.registries.contains_key(id) && (#[trigger] self.registries[id]).targets.contains_key(
                t,
            ) ==> (#[trigger] self.registries[id].targets[t]).pos() < self.compounds.len()
    }

    /// This root with `name` bound to `item` in the module `m`.
    pub open spec fn with_child(
        self,
        m: Index<Module>,
        name: Seq<char>,
        item: ItemIndex,
    ) -> RootView {
        RootView {
            modules: self.modules.update(
                m.pos() as int,
                ModuleView {
                    children: self.module(m).children.insert(name, item),
                    parent: self.module(m).parent,
                },
            ),
            ..self
        }
    }
}

/// Binding a name to an item that an arena holds keeps a root well-formed.
pub proof fn lemma_with_child_wf(r: RootView, m: Index<Module>, name: Seq<char>, item: ItemIndex)
    requires
        r.wf(),
        r.has_module(m),
        r.has_item(item),
    ensures
        r.with_child(m, name, item).wf(),
{
    let q = r.with_child(m, name, item);
    assert forall|i: int, n: Seq<char>|
        0 <= i < q.modules.len() && (#[trigger] q.modules[i]).children.contains_key(
            n,
        ) implies q.has_item(#[trigger] q.modules[i].children[n]) by {
        if i == m.pos() {
            if n != name {
                assert(r.modules[i].children.contains_key(n));
            }
        } else {
            assert(r.modules[i].children.contains_key(n));
        }
    }
    assert forall|i: int| 0 <= i < q.modules.len() implies match (#[trigger] q.modules[i]).parent {
        Some(p) => q.has_module(p),
        None => true,
    } by {
        assert(q.modules[i].parent == r.modules[i].parent);
    }
}

/// Whether every arena of `q` begins with what the same arena of `r` holds
/// in number: nothing was removed.
pub open spec fn grown(r: RootView, q: RootView) -> bool {
    &&& r.modules.len() <= q.modules.len()
    &&& r.compounds.len() <= q.compounds.len()
    &&& r.enums.len() <= q.enums.len()
}

/// A root stays well-formed when its arenas grow and its modules, root
/// modules and registries stay as they are.
pub proof fn lemma_grown_wf(r: RootView, q: RootView)
    requires
        r.wf(),
        grown(r, q),
        q.counted(),
        q.registries == r.registries,
        q.root_modules == r.root_modules,
        forall|i: int| 0 <= i < r.modules.len() ==> q.modules[i] == r.modules[i],
        forall|i: int|
            r.modules.len() <= i < q.modules.len() ==> (#[trigger] q.modules[i]).children
                == Map::<Seq<char>, ItemIndex>::empty() && match q.modules[i].parent {
                Some(p) => q.has_module(p),
                None => true,
            },
        forall|i: int| 0 <= i < r.compounds.len() ==> q.compounds[i] == r.compounds[i],
        forall|i: int|
            r.compounds.len() <= i < q.compounds.len() ==> compound_within(
                #[trigger] q.compounds[i],
                q.compounds.len(),
                q.enums.len(),
            ),
    ensures
        q.wf(),
{
    assert forall|i: int| 0 <= i < q.compounds.len() implies compound_within(
        #[trigger] q.compounds[i],
        q.compounds.len(),
        q.enums.len(),
    ) by {
        if i < r.compounds.len() {
            lemma_compound_within_grows(
                r.compounds[i],
                r.compounds.len(),
                r.enums.len(),
                q.compounds.len(),
                q.enums.len(),
            );
        }
    }
    assert forall|i: int, n: Seq<char>|
        0 <= i < q.modules.len() && (#[trigger] q.modules[i]).children.contains_key(
            n,
        ) implies q.has_item(#[trigger] q.modules[i].children[n]) by {
        if i < r.modules.len() {
            assert(r.modules[i].children.contains_key(n));
        }
    }
    assert forall|i: int| 0 <= i < q.modules.len() implies match (#[trigger] q.modules[i]).parent {
        Some(p) => q.has_module(p),
        None => true,
    } by {
        if i < r.modules.len() {
            assert(q.modules[i].parent == r.modules[i].parent);
        }
    }
    assert forall|id: IdentifierView, t: IdentifierView|
        q.registries.contains_key(id) && (#[trigger] q.registries[id]).targets.contains_key(
            t,
        ) implies (#[trigger] q.registries[id].targets[t]).pos() < q.compounds.len() by {
        assert(r.registries[id].targets[t].pos() < r.compounds.len());
    }
}

/// A root stays well-formed when a compound is replaced by one whose
/// handles all lead to entries that the root holds.
pub proof fn lemma_with_compound_wf(r: RootView, c: Index<CompoundTag>, v: CompoundView)
    requires
        r.wf(),
        c.pos() < r.compounds.len(),
        compound_within(v, r.compounds.len(), r.enums.len()),
    ensures
        r.with_compound(c, v).wf(),
{
    let q = r.with_compound(c, v);
    assert forall|i: int| 0 <= i < q.compounds.len() implies compound_within(
        #[trigger] q.compounds[i],
        q.compounds.len(),
        q.enums.len(),
    ) by {
        if i != c.pos() {
            assert(q.compounds[i] == r.compounds[i]);
        }
    }
    assert forall|i: int, n: Seq<char>|
        0 <= i < q.modules.len() && (#[trigger] q.modules[i]).children.contains_key(
            n,
        ) implies q.has_item(#[trigger] q.modules[i].children[n]) by {
        assert(r.has_item(r.modules[i].children[n]));
    }
    assert forall|id: IdentifierView, t: IdentifierView|
        q.registries.contains_key(id) && (#[trigger] q.registries[id]).targets.contains_key(
            t,
        ) implies (#[trigger] q.registries[id].targets[t]).pos() < q.compounds.len() by {
        assert(r.registries[id].targets[t].pos() < r.compounds.len());
    }
}

/// A root stays well-formed when an enum is replaced.
pub proof fn lemma_with_enum_wf(r: RootView, e: Index<EnumItem>, v: EnumItemView)
    requires
        r.wf(),
        e.pos() < r.enums.len(),
    ensures
        r.with_enum(e, v).wf(),
{
    let q = r.with_enum(e, v);
    assert forall|i: int| 0 <= i < q.compounds.len() implies compound_within(
        #[trigger] q.compounds[i],
        q.compounds.len(),
        q.enums.len(),
    ) by {
        assert(q.compounds[i] == r.compounds[i]);
    }
    assert forall|i: int, n: Seq<char>|
        0 <= i < q.modules.len() && (#[trigger] q.modules[i]).children.contains_key(
            n,
        ) implies q.has_item(#[trigger] q.modules[i].children[n]) by {
        assert(r.has_item(r.modules[i].children[n]));
    }
}

/// A root stays well-formed when a registry is replaced by one whose
/// bindings all lead to compounds that the root holds.
pub proof fn lemma_registry_wf(r: RootView, reg: IdentifierView, g: RegistryView)
    requires
        r.wf(),
        g.default matches Some(d) ==> d.pos() < r.compounds.len(),
        forall|t: IdentifierView| #[trigger]
            g.targets.contains_key(t) ==> g.targets[t].pos() < r.compounds.len(),
    ensures
        (RootView { registries: r.registries.insert(reg, g), ..r }).wf(),
{
    let q = RootView { registries: r.registries.insert(reg, g), ..r };
    assert forall|id: IdentifierView, t: IdentifierView|
        q.registries.contains_key(id) && (#[trigger] q.registries[id]).targets.contains_key(
            t,
        ) implies (#[trigger] q.registries[id].targets[t]).pos() < q.compounds.len() by {
        if id != reg {
            assert(r.registries[id].targets[t].pos() < r.compounds.len());
        }
    }
    assert forall|i: int, n: Seq<char>|
        0 <= i < q.modules.len() && (#[trigger] q.modules[i]).children.contains_key(
            n,
        ) implies q.has_item(#[trigger] q.modules[i].children[n]) by {
        assert(r.has_item(r.modules[i].children[n]));
    }
}

/// The name under which a path segment is reported.
pub open spec fn part_name(part: PathPart) -> Seq<char> {
    match part {
        PathPart::Regular(s) => s@,
        PathPart::Root => "root"@,
        PathPart::Super => "super"@,
    }
}

/// One step of a path.
///
/// `root` leads to the scope of the root modules, which is no module: `None`.
/// `super` leads from a module to its parent, or to that scope where it has
/// none; from that scope it leads nowhere. A plain name is looked up among the
/// children of the current module and then, where `imports` are given, among
/// them; in the scope of the root modules it names a root module.
pub open spec fn child_of(
    r: RootView,
    part: PathPart,
    current: Option<Index<Module>>,
    imports: Option<Map<Seq<char>, ItemIndex>>,
) -> Result<Option<ItemIndex>, ValidationErrorTypeView> {
    match part {
        PathPart::Root => Ok(None),
        PathPart::Super => match current {
            None => Err(ValidationErrorTypeView::RootAccess),
            Some(m) => match r.module(m).parent {
                Some(p) => Ok(Some(ItemIndex::Module(p))),
                None => Ok(None),
            },
        },
        PathPart::Regular(v) => match current {
            Some(m) => if r.module(m).children.contains_key(v@) {
                Ok(Some(r.module(m).children[v@]))
            } else if imports is Some && imports->0.contains_key(v@) {
                Ok(Some(imports->0[v@]))
            } else {
                Err(ValidationErrorTypeView::UnresolvedName(v@))
            },
            None => if r.root_modules.contains_key(v@) {
                Ok(Some(ItemIndex::Module(r.root_modules[v@])))
            } else {
                Err(ValidationErrorTypeView::UnresolvedName(v@))
            },
        },
    }
}

/// The item that the segments of `path` from position `i` on lead to, when the
/// segments before have led to `current`. Imports count for the first segment only.
/// Every segment but the last must lead to a module or to the scope of the
/// root modules; the last must lead to an item.
pub open spec fn walk(
    r: RootView,
    path: Seq<PathPart>,
    i: int,
    current: Option<Index<Module>>,
    imports: Map<Seq<char>, ItemIndex>,
) -> Result<ItemIndex, ValidationErrorTypeView>
    decreases path.len() - i,
{
    if i < 0 || i >= path.len() {
        Err(ValidationErrorTypeView::RootAccess)
    } else {
        let step = child_of(
            r,
            path[i],
            current,
            if i == 0 {
                Some(imports)
            } else {
                None
            },
        );
        if i + 1 == path.len() {
            match step {
                Err(e) => Err(e),
                Ok(None) => Err(ValidationErrorTypeView::RootAccess),
                Ok(Some(item)) => Ok(item),
            }
        } else {
            match step {
                Err(e) => Err(e),
                Ok(None) => walk(r, path, i + 1, None, imports),
                Ok(Some(ItemIndex::Module(m))) => walk(r, path, i + 1, Some(m), imports),
                Ok(Some(item)) => Err(
                    ValidationErrorTypeView::InvalidType {
                        name: part_name(path[i]),
                        ex: seq![ItemType::Module],
                        ty: item.kind(),
                    },
                ),
            }
        }
    }
}

/// The item that `path` denotes, seen from the module `rel`. The empty path
/// denotes nothing.
pub open spec fn item_at(
    r: RootView,
    path: Seq<PathPart>,
    rel: Option<Index<Module>>,
    imports: Map<Seq<char>, ItemIndex>,
) -> Result<ItemIndex, ValidationErrorTypeView> {
    walk(r, path, 0, rel, imports)
}

} // verus!
