//! The first pass: a slot for every declared name.

use crate::parse::ast;
use crate::validation::arena::Index;
use crate::validation::error::ValidationError;
use crate::validation::format::{CompoundTag, EnumItem, EnumType, EnumTypeView, ItemIndex, Module};
use crate::validation::model::{grown, lemma_grown_wf, lemma_with_child_wf};
use crate::validation::passes::{
    empty_enum, register_compounds, register_enums, register_modules, register_subtrees,
    register_tree,
};
use crate::validation::placement::{
    lemma_size, lemma_size_upto_step, marks_of, size, size_upto, Marks,
};
use crate::validation::root::Root;
use crate::validation::tree::ModuleTree;
use vstd::prelude::*;

verus! {

/// An enum of the primitive kind of `values`, without description or options.
pub fn enum_placeholder(values: &ast::EnumType) -> (r: EnumItem)
    ensures
        r@ == empty_enum(*values),
{
    let et = match values {
        ast::EnumType::Byte(_) => EnumType::Byte(Vec::new()),
        ast::EnumType::Short(_) => EnumType::Short(Vec::new()),
        ast::EnumType::Int(_) => EnumType::Int(Vec::new()),
        ast::EnumType::Long(_) => EnumType::Long(Vec::new()),
        ast::EnumType::Float(_) => EnumType::Float(Vec::new()),
        ast::EnumType::Double(_) => EnumType::Double(Vec::new()),
        ast::EnumType::String(_) => EnumType::String(Vec::new()),
    };
    let r = EnumItem { description: String::new(), et };
    proof {
        match r@.et {
            EnumTypeView::Byte(s) => assert(s =~= Seq::empty()),
            EnumTypeView::Short(s) => assert(s =~= Seq::empty()),
            EnumTypeView::Int(s) => assert(s =~= Seq::empty()),
            EnumTypeView::Long(s) => assert(s =~= Seq::empty()),
            EnumTypeView::Float(s) => assert(s =~= Seq::empty()),
            EnumTypeView::Double(s) => assert(s =~= Seq::empty()),
            EnumTypeView::String(s) => assert(s =~= Seq::empty()),
        }
    }
    r
}

impl Root {
    /// Stores a module and hands out its handle.
    pub(super) fn register_module(&mut self, module: Module) -> (r: Index<Module>)
        ensures
            final(self)@ == old(self)@.push_module(module@),
            r == old(self)@.next_module(),
            r.pos() == old(self)@.modules.len(),
    {
        let r = self.module_arena.push(module);
        assert(self@.modules =~= old(self)@.modules.push(module@));
        r
    }

    /// Stores a compound and hands out its handle.
    fn register_compound(&mut self, item: CompoundTag) -> (r: Index<CompoundTag>)
        ensures
            final(self)@ == old(self)@.push_compound(item@),
            r == old(self)@.next_compound(),
            r.pos() == old(self)@.compounds.len(),
    {
        let r = self.compound_arena.push(item);
        assert(self@.compounds =~= old(self)@.compounds.push(item@));
        r
    }

    /// Stores an enum and hands out its handle.
    fn register_enum(&mut self, item: EnumItem) -> (r: Index<EnumItem>)
        ensures
            final(self)@ == old(self)@.push_enum(item@),
            r == old(self)@.next_enum(),
            r.pos() == old(self)@.enums.len(),
    {
        let r = self.enum_arena.push(item);
        assert(self@.enums =~= old(self)@.enums.push(item@));
        r
    }

    /// Binds `name` to `item` in the module `m`.
    pub(super) fn add_child(&mut self, m: Index<Module>, name: String, item: ItemIndex)
        requires
            old(self)@.has_module(m),
        ensures
            final(self)@ == old(self)@.with_child(m, name@, item),
    {
        self.module_arena.get_mut(m).children.insert(name, item);
        assert(self@.modules =~= old(self)@.with_child(m, name@, item).modules);
    }

    /// Registers what `tree` declares, in the module `rootind`: a slot for
    /// every compound and enum and a module for every submodule, level by
    /// level.
    pub(super) fn register_module_tree(
        &mut self,
        rootind: Index<Module>,
        tree: &ModuleTree,
    ) -> (r: Result<
        (),
        ValidationError,
    >)
        requires
            old(self).wf(),
            old(self)@.has_module(rootind),
        ensures
            r is Ok,
            final(self)@ == register_tree(old(self)@, rootind, *tree),
            final(self).wf(),
            grown(old(self)@, final(self)@),
            marks_of(final(self)@) == marks_of(old(self)@).plus(size(*tree)),
            final(self)@.root_modules == old(self)@.root_modules,
        decreases tree,
    {
        let ghost r0 = self@;
        let cast = &tree.val;
        let mut i: usize = 0;
        while i < cast.compounds.len()
            invariant
                self.wf(),
                self@.has_module(rootind),
                grown(r0, self@),
                self@.root_modules == r0.root_modules,
                0 <= i <= cast.compounds@.len(),
                marks_of(self@) == marks_of(r0).plus(
                    Marks { modules: 0, compounds: i as nat, enums: 0 },
                ),
                register_compounds(self@, rootind, cast.compounds@, i as int) == register_compounds(
                    r0,
                    rootind,
                    cast.compounds@,
                    0,
                ),
            decreases cast.compounds@.len() - i,
        {
            let ghost before = self@;
            let ind = self.register_compound(CompoundTag::new());
            proof {
                self.lemma_counted();
                lemma_grown_wf(before, self@);
                lemma_with_child_wf(
                    self@,
                    rootind,
                    cast.compounds@[i as int].0@,
                    ItemIndex::Compound(ind),
                );
            }
            self.add_child(rootind, cast.compounds[i].0.clone(), ItemIndex::Compound(ind));
            i += 1;
        }
        let ghost r1 = self@;
        let mut i: usize = 0;
        while i < cast.enums.len()
            invariant
                self.wf(),
                self@.has_module(rootind),
                grown(r0, self@),
                self@.root_modules == r0.root_modules,
                0 <= i <= cast.enums@.len(),
                marks_of(self@) == marks_of(r1).plus(Marks { modules: 0, compounds: 0, enums: i as nat }),
                register_enums(self@, rootind, cast.enums@, i as int) == register_enums(
                    r1,
                    rootind,
                    cast.enums@,
                    0,
                ),
            decreases cast.enums@.len() - i,
        {
            let ghost before = self@;
            let ind = self.register_enum(enum_placeholder(&cast.enums[i].1.values));
            proof {
                self.lemma_counted();
                lemma_grown_wf(before, self@);
                lemma_with_child_wf(self@, rootind, cast.enums@[i as int].0@, ItemIndex::Enum(ind));
            }
            self.add_child(rootind, cast.enums[i].0.clone(), ItemIndex::Enum(ind));
            i += 1;
        }
        let ghost r2 = self@;
        let mut next: Vec<Index<Module>> = Vec::new();
        let mut i: usize = 0;
        while i < tree.children.len()
            invariant
                self.wf(),
                self@.has_module(rootind),
                grown(r0, self@),
                self@.root_modules == r0.root_modules,
                0 <= i <= tree.children@.len(),
                next@.len() == i,
                marks_of(self@) == marks_of(r2).plus(Marks { modules: i as nat, compounds: 0, enums: 0 }),
                forall|k: int|
                    0 <= k < i ==> (#[trigger] next@[k]).pos() == r2.modules.len() + k && next@[k]
                        == Index::<Module>::at((r2.modules.len() + k) as nat),
                register_modules(self@, rootind, tree.children@, i as int) == register_modules(
                    r2,
                    rootind,
                    tree.children@,
                    0,
                ),
            decreases tree.children@.len() - i,
        {
            let ghost before = self@;
            let root = self.register_module(Module::new(Some(rootind)));
            proof {
                self.lemma_counted();
                lemma_grown_wf(before, self@);
                lemma_with_child_wf(
                    self@,
                    rootind,
                    tree.children@[i as int].0@,
                    ItemIndex::Module(root),
                );
            }
            self.add_child(rootind, tree.children[i].0.clone(), ItemIndex::Module(root));
            next.push(root);
            i += 1;
        }
        let ghost r3 = self@;
        proof {
            lemma_size_upto_step(*tree, 0);
        }
        let mut i: usize = 0;
        while i < next.len()
            invariant
                self.wf(),
                grown(r3, self@),
                self@.root_modules == r0.root_modules,
                grown(r0, r3),
                0 <= i <= next@.len(),
                next@.len() == tree.children@.len(),
                r3.modules.len() == r2.modules.len() + next@.len(),
                marks_of(self@) == marks_of(r3).plus(size_upto(*tree, i as int)),
                forall|k: int|
                    0 <= k < next@.len() ==> (#[trigger] next@[k]).pos() == r2.modules.len() + k
                        && next@[k] == Index::<Module>::at((r2.modules.len() + k) as nat),
                register_subtrees(self@, r2.modules.len(), *tree, i as int) == register_subtrees(
                    r3,
                    r2.modules.len(),
                    *tree,
                    0,
                ),
            decreases next@.len() - i,
        {
            proof {
                lemma_size_upto_step(*tree, i as int);
            }
            let _ = self.register_module_tree(next[i], &tree.children[i].1);
            i += 1;
        }
        proof {
            lemma_size(*tree);
        }
        Ok(())
    }
}

} // verus!
