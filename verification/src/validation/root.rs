//! The root: the arenas, the registries and the root modules.

pub mod bodies;
pub mod fields;
pub mod paths;
pub mod reexport;
pub mod register;

pub use self::bodies::{convert_enum_type, convert_options};
pub use self::fields::{bound, raised_view};
pub use self::paths::{imports_ok, imports_view, name_of_part, raised};
pub use self::reexport::{name_of_import, result_view, submodule_path};
pub use super::registry::Registry;

use super::arena::{Arena, Index};
use super::error::{names_of, ValidationError, ValidationErrorView};
use super::format::{compound_within, CompoundTag, EnumItem, Module};
use super::model::{grown, lemma_grown_wf, RootView};
use super::passes::{add_root, add_root_finds};
use super::placement::{marks_of, size, Marks};
use super::tree::ModuleTree;
use crate::identifier::{Identifier, IdentifierView};
use crate::parse::failure::{diagnose, diagnosis, fits, SyntaxFailure};
use crate::table::Table;
use vstd::pervasive::unreached;
use vstd::prelude::*;
use vstd::std_specs::convert::FromSpecImpl;

verus! {

/// Everything that has been loaded: the arenas of compounds, enums and
/// modules, the registries, and the root modules by name. Root modules
/// that are added one after the other share all of it.
#[derive(Debug)]
pub struct Root {
    registries: Table<Identifier, Registry>,
    root_modules: Table<String, Index<Module>>,
    compound_arena: Arena<CompoundTag>,
    enum_arena: Arena<EnumItem>,
    module_arena: Arena<Module>,
}

impl View for Root {
    type V = RootView;

    closed spec fn view(&self) -> RootView {
        RootView {
            registries: self.registries@.map_values(|g: Registry| g@),
            root_modules: self.root_modules@,
            compounds: Seq::new(self.compound_arena@.len(), |i: int| self.compound_arena@[i]@),
            enums: Seq::new(self.enum_arena@.len(), |i: int| self.enum_arena@[i]@),
            modules: Seq::new(self.module_arena@.len(), |i: int| self.module_arena@[i]@),
        }
    }
}

/// The failure of a file operation, `std::io::Error`. The library carries such
/// a value from where it arose to the caller and claims nothing of it.
#[verifier::external_type_specification]
#[verifier::external_body]
pub struct ExIoError(std::io::Error);

/// Why a root module could not be added.
#[derive(Debug)]
pub enum NbtDocError {
    /// A file of the module could not be read.
    Io(std::io::Error),
    /// A file of the module is not in the language; the diagnostic says where.
    Parse(String),
    /// A name in the module could not be resolved, or was used wrongly.
    Validation(ValidationError),
}

impl From<std::io::Error> for NbtDocError {
    fn from(e: std::io::Error) -> (r: Self) {
        NbtDocError::Io(e)
    }
}

impl FromSpecImpl<std::io::Error> for NbtDocError {
    open spec fn obeys_from_spec() -> bool {
        true
    }

    open spec fn from_spec(e: std::io::Error) -> Self {
        NbtDocError::Io(e)
    }
}

impl From<ValidationError> for NbtDocError {
    fn from(e: ValidationError) -> (r: Self) {
        NbtDocError::Validation(e)
    }
}

impl FromSpecImpl<ValidationError> for NbtDocError {
    open spec fn obeys_from_spec() -> bool {
        true
    }

    open spec fn from_spec(e: ValidationError) -> Self {
        NbtDocError::Validation(e)
    }
}

/// The failure to add a root module of which the file `text` could not be
/// parsed, with its diagnostic. There is none where there is no diagnostic.
pub fn syntax_error(text: &str, failure: SyntaxFailure) -> (r: Option<NbtDocError>)
    ensures
        r is Some <==> fits(text, failure),
        r matches Some(e) ==> e matches NbtDocError::Parse(s) && s@ == diagnosis(text, failure),
{
    match diagnose(text, failure) {
        Some(s) => Some(NbtDocError::Parse(s)),
        None => None,
    }
}

/// The sizes of the arenas of `r` when the root module `tree` has been added
/// to it: one module more for the root module itself, and what the tree declares.
pub open spec fn new_marks(r: RootView, tree: ModuleTree) -> Marks {
    marks_of(r).plus(Marks { modules: 1, compounds: 0, enums: 0 }).plus(size(tree))
}

/// What the caller of `add_root_module` sees of its result: the resolver
/// itself fails with a validation failure only.
pub open spec fn added(
    r: Result<(), NbtDocError>,
    expected: Result<(), ValidationErrorView>,
) -> bool {
    match r {
        Ok(_) => expected is Ok,
        Err(NbtDocError::Validation(e)) => expected == Err::<(), ValidationErrorView>(e@),
        Err(_) => false,
    }
}

impl Root {
    /// Every handle that the root holds leads to an entry of its arena.
    pub open spec fn wf(&self) -> bool {
        self@.wf()
    }

    /// A machine integer can count the entries of each arena.
    pub proof fn lemma_counted(&self)
        ensures
            self@.counted(),
    {
        self.module_arena.lemma_counted();
        self.compound_arena.lemma_counted();
        self.enum_arena.lemma_counted();
    }

    /// A root that holds nothing.
    pub fn new() -> (r: Self)
        ensures
            r@ == RootView::empty(),
            r.wf(),
    {
        let r = Root {
            registries: Table::new(),
            root_modules: Table::new(),
            compound_arena: Arena::new(),
            enum_arena: Arena::new(),
            module_arena: Arena::new(),
        };
        assert(r@.registries =~= Map::empty());
        assert(r@.compounds =~= Seq::empty());
        assert(r@.enums =~= Seq::empty());
        assert(r@.modules =~= Seq::empty());
        r
    }

    /// Adds the root module `module_name`, whose source is `module_tree`:
    /// registers every name that the tree declares, then resolves its
    /// re-exports, then resolves its bodies. The first failure ends the
    /// work, and what was done until then stays in the root.
    ///
    /// The passes look every declared name up again where they need its
    /// item. The tree must be one for which they find an item of the
    /// declared kind each time, as they do for every tree that
    /// `ModuleTree::is_well_formed` accepts. [`Root::try_add_root_module`]
    /// is for the trees of which that is not known.
    pub fn add_root_module(&mut self, module_name: String, module_tree: ModuleTree) -> (r: Result<
        (),
        NbtDocError,
    >)
        requires
            old(self).wf(),
            add_root_finds(old(self)@, module_name@, module_tree),
        ensures
            final(self).wf(),
            grown(old(self)@, final(self)@),
            final(self)@ == add_root(old(self)@, module_name@, module_tree).0,
            added(r, add_root(old(self)@, module_name@, module_tree).1),
            final(self)@.root_modules == old(self)@.root_modules.insert(
                module_name@,
                old(self)@.next_module(),
            ),
            final(self)@.has_module(old(self)@.next_module()),
            marks_of(final(self)@) == new_marks(old(self)@, module_tree),
            new_marks(old(self)@, module_tree).fits(),
    {
        match self.try_add_root_module(module_name, module_tree) {
            Some(r) => r,
            None => unreached(),
        }
    }

    /// Adds the root module `module_name`, whose source is `module_tree`,
    /// as [`Root::add_root_module`] does, for any tree. There is no result
    /// where a pass looks a declared name up and finds no item of the
    /// declared kind; the root then keeps what was done until then.
    pub fn try_add_root_module(&mut self, module_name: String, module_tree: ModuleTree) -> (r:
        Option<Result<(), NbtDocError>>)
        requires
            old(self).wf(),
        ensures
            r is Some <==> add_root_finds(old(self)@, module_name@, module_tree),
            r matches Some(res) ==> final(self)@ == add_root(
                old(self)@,
                module_name@,
                module_tree,
            ).0 && added(res, add_root(old(self)@, module_name@, module_tree).1),
            final(self).wf(),
            grown(old(self)@, final(self)@),
            final(self)@.root_modules == old(self)@.root_modules.insert(
                module_name@,
                old(self)@.next_module(),
            ),
            final(self)@.has_module(old(self)@.next_module()),
            marks_of(final(self)@) == new_marks(old(self)@, module_tree),
            new_marks(old(self)@, module_tree).fits(),
    {
        let ghost r0 = self@;
        let root = self.register_module(Module::new(None));
        proof {
            self.lemma_counted();
            lemma_grown_wf(r0, self@);
        }
        let ghost r1 = self@;
        self.root_modules.insert(module_name.clone(), root);
        proof {
            assert forall|n: Seq<char>| #[trigger]
                self@.root_modules.contains_key(n) implies self@.has_module(
                self@.root_modules[n],
            ) by {
                if n != module_name@ {
                    assert(r1.root_modules.contains_key(n));
                }
            }
            assert forall|i: int, n: Seq<char>|
                0 <= i < self@.modules.len() && (#[trigger] self@.modules[i]).children.contains_key(
                    n,
                ) implies self@.has_item(#[trigger] self@.modules[i].children[n]) by {
                assert(r1.has_item(r1.modules[i].children[n]));
            }
            assert forall|i: int| 0 <= i < self@.compounds.len() implies compound_within(
                #[trigger] self@.compounds[i],
                self@.compounds.len(),
                self@.enums.len(),
            ) by {
                assert(self@.compounds[i] == r1.compounds[i]);
            }
        }
        let mut module: Vec<String> = Vec::new();
        module.push(module_name);
        assert(names_of(module@) =~= seq![module_name@]);
        let _ = self.register_module_tree(root, &module_tree);
        proof {
            self.lemma_counted();
        }
        match self.preresolve_module_tree(root, &module_tree, &module) {
            None => {
                return None;
            },
            Some(Err(e)) => {
                return Some(Err(NbtDocError::from(e)));
            },
            Some(Ok(_)) => {},
        }
        match self.resolve_module_tree(root, module_tree, &module) {
            None => None,
            Some(Err(e)) => Some(Err(NbtDocError::from(e))),
            Some(Ok(_)) => Some(Ok(())),
        }
    }

    /// The bindings of the registry `name`, if there is one.
    pub fn get_registry(&self, name: &Identifier) -> (r: Option<&Registry>)
        ensures
            match r {
                Some(g) => self@.registries.contains_key(name@) && g@ == self@.registries[name@],
                None => !self@.registries.contains_key(name@),
            },
    {
        self.registries.get(name)
    }

    /// The compound that the registry `name` binds to `id`: the one bound to
    /// the target itself or, where the target has none, the default of the
    /// registry.
    pub fn get_regitry_item(&self, name: &Identifier, id: &Identifier) -> (r: Option<&CompoundTag>)
        requires
            self.wf(),
        ensures
            match r {
                Some(c) => bound_compound(self@, name@, id@) matches Some(i) && i.pos()
                    < self@.compounds.len() && c@ == self@.compounds[i.pos() as int],
                None => bound_compound(self@, name@, id@) is None,
            },
    {
        let g = match self.registries.get(name) {
            Some(g) => g,
            None => {
                return None;
            },
        };
        let index = match g.targets.get(id) {
            Some(i) => *i,
            None => match g.default {
                Some(d) => d,
                None => {
                    return None;
                },
            },
        };
        Some(self.compound_arena.get(index))
    }

    /// The compound behind a handle.
    pub fn get_compound(&self, name: Index<CompoundTag>) -> (r: &CompoundTag)
        requires
            name.pos() < self@.compounds.len(),
        ensures
            r@ == self@.compounds[name.pos() as int],
    {
        self.compound_arena.get(name)
    }

    /// The module behind a handle.
    pub fn get_module(&self, name: Index<Module>) -> (r: &Module)
        requires
            self@.has_module(name),
        ensures
            r@ == self@.module(name),
    {
        self.module_arena.get(name)
    }

    /// The enum behind a handle.
    pub fn get_enum(&self, name: Index<EnumItem>) -> (r: &EnumItem)
        requires
            name.pos() < self@.enums.len(),
        ensures
            r@ == self@.enums[name.pos() as int],
    {
        self.enum_arena.get(name)
    }

    /// The root module `name`, if there is one.
    pub fn get_root_module(&self, name: &str) -> (r: Option<Index<Module>>)
        ensures
            match r {
                Some(m) => self@.root_modules.contains_key(name@) && m == self@.root_modules[name@],
                None => !self@.root_modules.contains_key(name@),
            },
    {
        match self.root_modules.get(&name.to_owned()) {
            Some(m) => Some(*m),
            None => None,
        }
    }

    /// All modules, in the order of their handles.
    pub fn get_modules(&self) -> (r: &[Module])
        ensures
            r@.len() == self@.modules.len(),
            forall|i: int| 0 <= i < r@.len() ==> (#[trigger] r@[i])@ == self@.modules[i],
    {
        self.module_arena.as_slice()
    }

    /// All compounds, in the order of their handles.
    pub fn get_compounds(&self) -> (r: &[CompoundTag])
        ensures
            r@.len() == self@.compounds.len(),
            forall|i: int| 0 <= i < r@.len() ==> (#[trigger] r@[i])@ == self@.compounds[i],
    {
        self.compound_arena.as_slice()
    }

    /// All enums, in the order of their handles.
    pub fn get_enums(&self) -> (r: &[EnumItem])
        ensures
            r@.len() == self@.enums.len(),
            forall|i: int| 0 <= i < r@.len() ==> (#[trigger] r@[i])@ == self@.enums[i],
    {
        self.enum_arena.as_slice()
    }
}

/// The compound that the registry `name` of `r` binds to `id`: the one bound
/// to the target itself or, where the target has none, the default of the registry.
pub open spec fn bound_compound(
    r: RootView,
    name: IdentifierView,
    id: IdentifierView,
) -> Option<Index<CompoundTag>> {
    if !r.registries.contains_key(name) {
        None
    } else if r.registries[name].targets.contains_key(id) {
        Some(r.registries[name].targets[id])
    } else {
        r.registries[name].default
    }
}

} // verus!
