//! The second pass: the re-exports.

use crate::parse::ast::PathPart;
use crate::table::Table;
use crate::validation::arena::Index;
use crate::validation::error::{
    clone_names, names_of, ValidationError, ValidationErrorType, ValidationErrorTypeView,
    ValidationErrorView,
};
use crate::validation::format::{ItemIndex, ItemType, Module};
use crate::validation::model::{grown, lemma_with_child_wf};
use crate::validation::passes::{
    child_module, import_name, preresolve_subtrees, preresolve_subtrees_find, preresolve_tree,
    preresolve_tree_finds, preresolve_uses,
};
use crate::validation::placement::marks_of;
use crate::validation::root::Root;
use crate::validation::root::fields::raised_view;
use crate::validation::tree::ModuleTree;
use vstd::prelude::*;

verus! {

/// What the caller of a pass sees of its result.
pub open spec fn result_view(r: Result<(), ValidationError>) -> Result<(), ValidationErrorView> {
    match r {
        Ok(_) => Ok(()),
        Err(e) => Err(e@),
    }
}

/// The name that an import binds: the last segment of its path, which must
/// be a plain name.
pub fn name_of_import(path: &Vec<PathPart>, module: &Vec<String>) -> (r: Result<
    String,
    ValidationError,
>)
    ensures
        raised_view(r, import_name(path@), module@),
{
    if path.len() == 0 {
        return Err(ValidationError::at(module, ValidationErrorType::RootAccess));
    }
    match &path[path.len() - 1] {
        PathPart::Regular(v) => Ok(v.clone()),
        PathPart::Super => Err(ValidationError::at(module, ValidationErrorType::SuperImport)),
        PathPart::Root => Err(ValidationError::at(module, ValidationErrorType::RootAccess)),
    }
}

/// The path of a submodule: the path of its parent and its own name.
pub fn submodule_path(module: &Vec<String>, name: &String) -> (r: Vec<String>)
    ensures
        names_of(r@) == names_of(module@).push(name@),
{
    let mut r = clone_names(module);
    r.push(name.clone());
    r
}

impl Root {
    /// The module that `name` denotes among the children of `m`, if it
    /// denotes one.
    pub(super) fn child_module(&self, m: Index<Module>, name: &String) -> (r: Option<
        Index<Module>,
    >)
        requires
            self.wf(),
            self@.has_module(m),
        ensures
            r == child_module(self@, m, name@),
            r matches Some(c) ==> self@.has_module(c),
    {
        match self.module_arena.get(m).children.get(name) {
            Some(ItemIndex::Module(c)) => {
                assert(self@.has_item(ItemIndex::Module(*c)));
                Some(*c)
            },
            _ => None,
        }
    }

    /// The pass over the re-exports of `tree`, whose module is `rootind` and
    /// whose path from its root module is `module`. Each re-exported item
    /// becomes a child of the module that re-exports it. There is no result
    /// where the name of a submodule that the pass comes to denotes no module.
    pub(super) fn preresolve_module_tree(
        &mut self,
        rootind: Index<Module>,
        tree: &ModuleTree,
        module: &Vec<String>,
    ) -> (r: Option<Result<(), ValidationError>>)
        requires
            old(self).wf(),
            old(self)@.has_module(rootind),
        ensures
            r is Some <==> preresolve_tree_finds(old(self)@, rootind, *tree, names_of(module@)),
            r matches Some(res) ==> (final(self)@, result_view(res)) == preresolve_tree(
                old(self)@,
                rootind,
                *tree,
                names_of(module@),
            ),
            final(self).wf(),
            grown(old(self)@, final(self)@),
            marks_of(final(self)@) == marks_of(old(self)@),
            final(self)@.root_modules == old(self)@.root_modules,
        decreases tree,
    {
        let ghost r0 = self@;
        let cast = &tree.val;
        let mut i: usize = 0;
        while i < cast.uses.len()
            invariant
                self.wf(),
                self@.has_module(rootind),
                marks_of(self@) == marks_of(r0),
                self@.root_modules == r0.root_modules,
                0 <= i <= cast.uses@.len(),
                r0 == old(self)@,
                cast == &tree.val,
                preresolve_uses(self@, rootind, cast.uses@, i as int) == preresolve_uses(
                    r0,
                    rootind,
                    cast.uses@,
                    0,
                ),
            decreases cast.uses@.len() - i,
        {
            if cast.uses[i].0 {
                let n = &cast.uses[i].1;
                let last = match name_of_import(n, module) {
                    Ok(s) => s,
                    Err(e) => {
                        return Some(Err(e));
                    },
                };
                let empty: Table<String, ItemIndex> = Table::new();
                let item = match self.get_item_path(n, Some(rootind), &empty, module) {
                    Ok(item) => item,
                    Err(e) => {
                        return Some(Err(e));
                    },
                };
                if let ItemIndex::Module(_) = item {
                    let mut ex: Vec<ItemType> = Vec::new();
                    ex.push(ItemType::Compound);
                    ex.push(ItemType::Enum);
                    assert(ex@ =~= seq![ItemType::Compound, ItemType::Enum]);
                    return Some(
                        Err(
                            ValidationError::at(
                                module,
                                ValidationErrorType::InvalidType {
                                    name: last,
                                    ex,
                                    ty: ItemType::Module,
                                },
                            ),
                        ),
                    );
                }
                proof {
                    lemma_with_child_wf(self@, rootind, last@, item);
                }
                self.add_child(rootind, last, item);
            }
            i += 1;
        }
        let ghost r1 = self@;
        let mut i: usize = 0;
        while i < tree.children.len()
            invariant
                self.wf(),
                self@.has_module(rootind),
                marks_of(self@) == marks_of(r0),
                self@.root_modules == r0.root_modules,
                0 <= i <= tree.children@.len(),
                r0 == old(self)@,
                preresolve_uses(r0, rootind, tree.val.uses@, 0) == (r1, Ok::<
                    (),
                    ValidationErrorTypeView,
                >(())),
                preresolve_subtrees(self@, rootind, *tree, names_of(module@), i as int)
                    == preresolve_subtrees(r1, rootind, *tree, names_of(module@), 0),
                preresolve_subtrees_find(self@, rootind, *tree, names_of(module@), i as int)
                    == preresolve_subtrees_find(r1, rootind, *tree, names_of(module@), 0),
            decreases tree.children@.len() - i,
        {
            let n = &tree.children[i].0;
            let c = match self.child_module(rootind, n) {
                Some(c) => c,
                None => {
                    return None;
                },
            };
            let m = submodule_path(module, n);
            match self.preresolve_module_tree(c, &tree.children[i].1, &m) {
                None => {
                    return None;
                },
                Some(Err(e)) => {
                    return Some(Err(e));
                },
                Some(Ok(_)) => {},
            }
            i += 1;
        }
        Some(Ok(()))
    }
}

} // verus!
