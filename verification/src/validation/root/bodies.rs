//! The third pass: the bodies of compounds and enums, and the registries.

use crate::parse::ast;
use crate::parse::ast::PathPart;
use crate::table::Table;
use crate::validation::arena::Index;
use crate::validation::convert::field_type;
use crate::validation::error::{
    names_of, ValidationError, ValidationErrorType, ValidationErrorTypeView,
};
use crate::validation::format::{
    compound_within, options_view, string_options_view, value_within, CompoundTag, CompoundView,
    EnumItem, EnumItemView, EnumOption, EnumType, Field, ItemIndex, ItemType, Module,
};
use crate::validation::model::{
    grown, lemma_registry_wf, lemma_with_compound_wf, lemma_with_enum_wf,
};
use crate::validation::passes::{
    bind, child_compound, child_enum, describe, describes_from, enum_type, imports_from, options_of,
    resolve_bodies, resolve_bodies_find, resolve_compound, resolve_compounds,
    resolve_compounds_find, resolve_enum, resolve_enums, resolve_enums_find, resolve_fields,
    resolve_subtrees, resolve_subtrees_find, resolve_tree, resolve_tree_finds, string_options_of,
};
use crate::validation::placement::marks_of;
use crate::validation::registry::{lemma_bound_in_range, Registry};
use crate::validation::root::Root;
use crate::validation::root::paths::{imports_ok, name_of_part};
use crate::validation::root::reexport::{name_of_import, result_view, submodule_path};
use crate::validation::tree::ModuleTree;
use vstd::prelude::*;

verus! {

/// What the caller of a step sees of its result.
pub open spec fn step_view(r: Result<(), ValidationError>) -> Result<(), ValidationErrorTypeView> {
    match r {
        Ok(_) => Ok(()),
        Err(e) => Err(e@.ety),
    }
}

/// A failure, if there is one, was raised in `module`.
pub open spec fn raised_in(r: Result<(), ValidationError>, module: Seq<String>) -> bool {
    r matches Err(e) ==> e@.module == names_of(module)
}

/// The options of an enum, in declared order.
pub fn convert_options<T>(v: Vec<(String, ast::EnumValue<T>)>) -> (r: Vec<EnumOption<T>>)
    ensures
        r@.len() == v@.len(),
        forall|i: int|
            0 <= i < v@.len() ==> (#[trigger] r@[i]).value == v@[i].1.value && r@[i].name
                == v@[i].0 && r@[i].description == v@[i].1.description,
{
    let ghost vs = v@;
    let mut out: Vec<EnumOption<T>> = Vec::new();
    for entry in it: v.into_iter()
        invariant
            it.seq() == vs,
            out@.len() == it.index(),
            forall|i: int|
                0 <= i < out@.len() ==> (#[trigger] out@[i]).value == vs[i].1.value && out@[i].name
                    == vs[i].0 && out@[i].description == vs[i].1.description,
    {
        let (n, val) = entry;
        out.push(EnumOption { description: val.description, name: n, value: val.value });
    }
    out
}

/// The options of an enum, under its primitive kind.
pub fn convert_enum_type(values: ast::EnumType) -> (r: EnumType)
    ensures
        r@ == enum_type(values),
{
    match values {
        ast::EnumType::Byte(v) => {
            let o = convert_options(v);
            assert(options_view(o@) =~= options_of(v@));
            EnumType::Byte(o)
        },
        ast::EnumType::Short(v) => {
            let o = convert_options(v);
            assert(options_view(o@) =~= options_of(v@));
            EnumType::Short(o)
        },
        ast::EnumType::Int(v) => {
            let o = convert_options(v);
            assert(options_view(o@) =~= options_of(v@));
            EnumType::Int(o)
        },
        ast::EnumType::Long(v) => {
            let o = convert_options(v);
            assert(options_view(o@) =~= options_of(v@));
            EnumType::Long(o)
        },
        ast::EnumType::Float(v) => {
            let o = convert_options(v);
            assert(options_view(o@) =~= options_of(v@));
            EnumType::Float(o)
        },
        ast::EnumType::Double(v) => {
            let o = convert_options(v);
            assert(options_view(o@) =~= options_of(v@));
            EnumType::Double(o)
        },
        ast::EnumType::String(v) => {
            let o = convert_options(v);
            assert(string_options_view(o@) =~= string_options_of(v@));
            EnumType::String(o)
        },
    }
}

impl Root {
    /// The compound that `name` denotes among the children of `m`, if it
    /// denotes one.
    fn child_compound(&self, m: Index<Module>, name: &String) -> (r: Option<Index<CompoundTag>>)
        requires
            self.wf(),
            self@.has_module(m),
        ensures
            r == child_compound(self@, m, name@),
            r matches Some(c) ==> c.pos() < self@.compounds.len(),
    {
        match self.module_arena.get(m).children.get(name) {
            Some(ItemIndex::Compound(c)) => {
                assert(self@.has_item(ItemIndex::Compound(*c)));
                Some(*c)
            },
            _ => None,
        }
    }

    /// The enum that `name` denotes among the children of `m`, if it denotes one.
    fn child_enum(&self, m: Index<Module>, name: &String) -> (r: Option<Index<EnumItem>>)
        requires
            self.wf(),
            self@.has_module(m),
        ensures
            r == child_enum(self@, m, name@),
            r matches Some(e) ==> e.pos() < self@.enums.len(),
    {
        match self.module_arena.get(m).children.get(name) {
            Some(ItemIndex::Enum(e)) => {
                assert(self@.has_item(ItemIndex::Enum(*e)));
                Some(*e)
            },
            _ => None,
        }
    }

    fn set_description(&mut self, c: Index<CompoundTag>, description: String)
        requires
            old(self).wf(),
            c.pos() < old(self)@.compounds.len(),
        ensures
            final(self)@ == old(self)@.with_description(c, description@),
            final(self).wf(),
    {
        let item = self.compound_arena.get_mut(c);
        item.description = description;
        proof {
            let r = old(self)@;
            let v = CompoundView { description: description@, ..r.compound(c) };
            assert(self@.compounds =~= r.with_description(c, description@).compounds);
            assert(compound_within(r.compound(c), r.compounds.len(), r.enums.len()));
            lemma_with_compound_wf(r, c, v);
        }
    }

    fn set_supers(&mut self, c: Index<CompoundTag>, supers: Option<Index<CompoundTag>>)
        requires
            old(self).wf(),
            c.pos() < old(self)@.compounds.len(),
            supers matches Some(s) ==> s.pos() < old(self)@.compounds.len(),
        ensures
            final(self)@ == old(self)@.with_supers(c, supers),
            final(self).wf(),
    {
        let item = self.compound_arena.get_mut(c);
        item.supers = supers;
        proof {
            let r = old(self)@;
            let v = CompoundView { supers, ..r.compound(c) };
            assert(self@.compounds =~= r.with_supers(c, supers).compounds);
            assert(compound_within(r.compound(c), r.compounds.len(), r.enums.len()));
            lemma_with_compound_wf(r, c, v);
        }
    }

    fn insert_field(&mut self, c: Index<CompoundTag>, name: String, field: Field)
        requires
            old(self).wf(),
            c.pos() < old(self)@.compounds.len(),
            value_within(
                field@.nbttype,
                old(self)@.compounds.len(),
                old(self)@.enums.len(),
            ),
        ensures
            final(self)@ == old(self)@.with_field(c, name@, field@),
            final(self).wf(),
    {
        let item = self.compound_arena.get_mut(c);
        item.fields.insert(name, field);
        proof {
            let r = old(self)@;
            let p = c.pos() as int;
            let v = CompoundView {
                fields: r.compound(c).fields.insert(name@, field@),
                ..r.compound(c)
            };
            assert(self@.compounds[p].fields =~= r.compounds[p].fields.insert(name@, field@));
            assert(self@.compounds =~= r.with_field(c, name@, field@).compounds);
            assert(compound_within(r.compound(c), r.compounds.len(), r.enums.len()));
            assert forall|n: Seq<char>| #[trigger] v.fields.contains_key(n) implies value_within(
                v.fields[n].nbttype,
                r.compounds.len(),
                r.enums.len(),
            ) by {
                if n != name@ {
                    assert(r.compound(c).fields.contains_key(n));
                }
            }
            lemma_with_compound_wf(r, c, v);
        }
    }

    fn set_enum(&mut self, e: Index<EnumItem>, description: String, et: EnumType)
        requires
            old(self).wf(),
            e.pos() < old(self)@.enums.len(),
        ensures
            final(self)@ == old(self)@.with_enum(
                e,
                EnumItemView { description: description@, et: et@ },
            ),
            final(self).wf(),
    {
        let item = self.enum_arena.get_mut(e);
        item.description = description;
        item.et = et;
        proof {
            assert(self@.enums =~= old(self)@.with_enum(
                e,
                EnumItemView { description: description@, et: et@ },
            ).enums);
            lemma_with_enum_wf(old(self)@, e, EnumItemView { description: description@, et: et@ });
        }
    }

    /// Fills the slot of the compound declared under `name` in the module
    /// `m`. There is no result where the name denotes no compound.
    fn resolve_compound(
        &mut self,
        m: Index<Module>,
        name: String,
        def: ast::CompoundDef,
        imports: &Table<String, ItemIndex>,
        module: &Vec<String>,
    ) -> (r: Option<Result<(), ValidationError>>)
        requires
            old(self).wf(),
            old(self)@.has_module(m),
            imports_ok(old(self)@, imports@),
        ensures
            r is Some <==> child_compound(old(self)@, m, name@) is Some,
            r matches Some(res) ==> (final(self)@, step_view(res)) == resolve_compound(
                old(self)@,
                m,
                name@,
                def,
                imports@,
            ) && raised_in(res, module@),
            final(self).wf(),
            marks_of(final(self)@) == marks_of(old(self)@),
            final(self)@.modules == old(self)@.modules,
            final(self)@.root_modules == old(self)@.root_modules,
    {
        let c = match self.child_compound(m, &name) {
            Some(c) => c,
            None => {
                return None;
            },
        };
        let ast::CompoundDef { description, fields, supers } = def;
        self.set_description(c, description);
        match supers {
            Some(v) => {
                match self.get_item_path(&v, Some(m), imports, module) {
                    Err(e) => {
                        return Some(Err(e));
                    },
                    Ok(ItemIndex::Compound(s)) => {
                        self.set_supers(c, Some(s));
                    },
                    Ok(item) => {
                        let mut ex: Vec<ItemType> = Vec::new();
                        ex.push(ItemType::Compound);
                        assert(ex@ =~= seq![ItemType::Compound]);
                        return Some(
                            Err(
                                ValidationError::at(
                                    module,
                                    ValidationErrorType::InvalidType {
                                        name,
                                        ex,
                                        ty: item.item_type(),
                                    },
                                ),
                            ),
                        );
                    },
                }
            },
            None => {
                self.set_supers(c, None);
            },
        }
        let ghost r1 = self@;
        let ghost fs = fields@;
        for entry in it: fields.into_iter()
            invariant
                it.seq() == fs,
                fs == def.fields@,
                self.wf(),
                self@.has_module(m),
                imports_ok(self@, imports@),
                c.pos() < self@.compounds.len(),
                marks_of(self@) == marks_of(old(self)@),
                self@.modules == old(self)@.modules,
                self@.root_modules == old(self)@.root_modules,
                child_compound(old(self)@, m, name@) is Some,
                resolve_fields(self@, m, c, fs, imports@, it.index() as int) == resolve_fields(
                    r1,
                    m,
                    c,
                    fs,
                    imports@,
                    0,
                ),
                resolve_compound(old(self)@, m, name@, def, imports@) == resolve_fields(
                    r1,
                    m,
                    c,
                    fs,
                    imports@,
                    0,
                ),
        {
            let (n, t) = entry;
            let ast::Field { description, field_type } = t;
            let nbttype = match self.convert_field_type(field_type, m, imports, module) {
                Ok(v) => v,
                Err(e) => {
                    return Some(Err(e));
                },
            };
            self.insert_field(c, n, Field { description, nbttype });
        }
        Some(Ok(()))
    }

    /// Fills the slot of the enum declared under `name` in the module `m`,
    /// and says whether the name denotes an enum.
    fn resolve_enum(&mut self, m: Index<Module>, name: String, def: ast::EnumDef) -> (r: bool)
        requires
            old(self).wf(),
            old(self)@.has_module(m),
        ensures
            r == child_enum(old(self)@, m, name@) is Some,
            r ==> final(self)@ == resolve_enum(old(self)@, m, name@, def),
            final(self).wf(),
            marks_of(final(self)@) == marks_of(old(self)@),
            final(self)@.modules == old(self)@.modules,
            final(self)@.root_modules == old(self)@.root_modules,
            final(self)@.compounds == old(self)@.compounds,
    {
        match self.child_enum(m, &name) {
            Some(e) => {
                let ast::EnumDef { description, values } = def;
                self.set_enum(e, description, convert_enum_type(values));
                true
            },
            None => false,
        }
    }

    /// One `describes` declaration of the module `m`.
    fn describe(
        &mut self,
        m: Index<Module>,
        path: Vec<PathPart>,
        d: ast::DescribeDef,
        imports: &Table<String, ItemIndex>,
        module: &Vec<String>,
    ) -> (r: Result<(), ValidationError>)
        requires
            old(self).wf(),
            old(self)@.has_module(m),
            imports_ok(old(self)@, imports@),
        ensures
            (final(self)@, step_view(r)) == describe(old(self)@, m, path@, d, imports@),
            raised_in(r, module@),
            final(self).wf(),
            grown(old(self)@, final(self)@),
            final(self)@.modules == old(self)@.modules,
            final(self)@.root_modules == old(self)@.root_modules,
            final(self)@.compounds == old(self)@.compounds,
            final(self)@.enums == old(self)@.enums,
            marks_of(final(self)@) == marks_of(old(self)@),
    {
        let target = match self.get_item_path(&path, Some(m), imports, module) {
            Err(e) => {
                return Err(e);
            },
            Ok(ItemIndex::Compound(v)) => v,
            Ok(item) => {
                let mut ex: Vec<ItemType> = Vec::new();
                ex.push(ItemType::Compound);
                return Err(
                    ValidationError::at(
                        module,
                        ValidationErrorType::InvalidType {
                            name: name_of_part(&path[path.len() - 1]),
                            ex,
                            ty: item.item_type(),
                        },
                    ),
                );
            },
        };
        let ast::DescribeDef { describe_type, targets } = d;
        if !self.registries.contains_key(&describe_type) {
            self.registries.insert(describe_type.clone(), Registry::new());
        }
        let res = match self.registries.get_mut(&describe_type) {
            Some(g) => g.bind(&describe_type, targets, target),
            None => Ok(()),
        };
        proof {
            let g = self.registries@[describe_type@]@;
            assert(self@.registries =~= old(self)@.registries.insert(describe_type@, g));
            lemma_bound_in_range(
                old(self)@.registry(describe_type@),
                describe_type@,
                targets,
                target,
                old(self)@.compounds.len(),
            );
            assert(old(self)@.registries.contains_key(describe_type@) ==> old(self)@.registry(
                describe_type@,
            ) == old(self)@.registries[describe_type@]);
            lemma_registry_wf(old(self)@, describe_type@, g);
        }
        match res {
            Ok(_) => Ok(()),
            Err(kind) => Err(ValidationError::at(module, kind)),
        }
    }
}

impl Root {
    /// The pass over the bodies of `tree`, whose module is `rootind` and
    /// whose path from its root module is `module`: the imports of the
    /// module, its compounds, its enums and its `describes` declarations, and
    /// then its submodules. There is no result where a declared name that
    /// the pass comes to denotes no item of its kind.
    pub(super) fn resolve_module_tree(
        &mut self,
        rootind: Index<Module>,
        tree: ModuleTree,
        module: &Vec<String>,
    ) -> (r: Option<Result<(), ValidationError>>)
        requires
            old(self).wf(),
            old(self)@.has_module(rootind),
        ensures
            r is Some <==> resolve_tree_finds(old(self)@, rootind, tree, names_of(module@)),
            r matches Some(res) ==> (final(self)@, result_view(res)) == resolve_tree(
                old(self)@,
                rootind,
                tree,
                names_of(module@),
            ),
            final(self).wf(),
            marks_of(final(self)@) == marks_of(old(self)@),
            final(self)@.modules == old(self)@.modules,
            final(self)@.root_modules == old(self)@.root_modules,
        decreases tree,
    {
        let ghost r0 = self@;
        let ModuleTree { val, children } = tree;
        let ast::NbtDocFile { uses, compounds, enums, describes, mods: _ } = val;
        let mut imports: Table<String, ItemIndex> = Table::new();
        let empty: Table<String, ItemIndex> = Table::new();
        let mut i: usize = 0;
        while i < uses.len()
            invariant
                self.wf(),
                self@ == r0,
                r0 == old(self)@,
                self@.has_module(rootind),
                imports_ok(self@, imports@),
                imports_ok(self@, empty@),
                empty@ == Map::<Seq<char>, ItemIndex>::empty(),
                uses == tree.val.uses,
                0 <= i <= uses@.len(),
                imports_from(self@, rootind, uses@, i as int, imports@) == imports_from(
                    r0,
                    rootind,
                    uses@,
                    0,
                    Map::empty(),
                ),
            decreases uses@.len() - i,
        {
            let name = match name_of_import(&uses[i].1, module) {
                Ok(s) => s,
                Err(e) => {
                    return Some(Err(e));
                },
            };
            let item = match self.get_item_path(&uses[i].1, Some(rootind), &empty, module) {
                Ok(item) => item,
                Err(e) => {
                    return Some(Err(e));
                },
            };
            imports.insert(name, item);
            i += 1;
        }
        let ghost imp = imports@;
        let ghost cs = compounds@;
        for entry in it: compounds.into_iter()
            invariant
                it.seq() == cs,
                cs == tree.val.compounds@,
                r0 == old(self)@,
                imp == imports@,
                imports_from(r0, rootind, tree.val.uses@, 0, Map::empty()) == Ok::<
                    Map<Seq<char>, ItemIndex>,
                    ValidationErrorTypeView,
                >(imp),
                self.wf(),
                self@.has_module(rootind),
                marks_of(self@) == marks_of(r0),
                self@.modules == r0.modules,
                self@.root_modules == r0.root_modules,
                imports_ok(self@, imports@),
                resolve_compounds(self@, rootind, cs, imp, it.index() as int) == resolve_compounds(
                    r0,
                    rootind,
                    cs,
                    imp,
                    0,
                ),
                resolve_compounds_find(self@, rootind, cs, imp, it.index() as int)
                    == resolve_compounds_find(r0, rootind, cs, imp, 0),
        {
            let (n, c) = entry;
            match self.resolve_compound(rootind, n, c, &imports, module) {
                None => {
                    return None;
                },
                Some(Err(e)) => {
                    return Some(Err(e));
                },
                Some(Ok(_)) => {},
            }
        }
        let ghost r1 = self@;
        let ghost es = enums@;
        for entry in it: enums.into_iter()
            invariant
                it.seq() == es,
                es == tree.val.enums@,
                cs == tree.val.compounds@,
                r0 == old(self)@,
                imports_from(r0, rootind, tree.val.uses@, 0, Map::empty()) == Ok::<
                    Map<Seq<char>, ItemIndex>,
                    ValidationErrorTypeView,
                >(imp),
                resolve_compounds(r0, rootind, cs, imp, 0) == (r1, Ok::<
                    (),
                    ValidationErrorTypeView,
                >(())),
                resolve_compounds_find(r0, rootind, cs, imp, 0),
                self.wf(),
                self@.has_module(rootind),
                marks_of(self@) == marks_of(r0),
                self@.modules == r0.modules,
                self@.root_modules == r0.root_modules,
                imports_ok(self@, imports@),
                resolve_enums(self@, rootind, es, it.index() as int) == resolve_enums(
                    r1,
                    rootind,
                    es,
                    0,
                ),
                resolve_enums_find(self@, rootind, es, it.index() as int) == resolve_enums_find(
                    r1,
                    rootind,
                    es,
                    0,
                ),
        {
            let (n, e) = entry;
            if !self.resolve_enum(rootind, n, e) {
                return None;
            }
        }
        let ghost r2 = self@;
        let ghost ds = describes@;
        for entry in it: describes.into_iter()
            invariant
                it.seq() == ds,
                ds == tree.val.describes@,
                es == tree.val.enums@,
                cs == tree.val.compounds@,
                r0 == old(self)@,
                imp == imports@,
                imports_from(r0, rootind, tree.val.uses@, 0, Map::empty()) == Ok::<
                    Map<Seq<char>, ItemIndex>,
                    ValidationErrorTypeView,
                >(imp),
                resolve_compounds(r0, rootind, cs, imp, 0) == (r1, Ok::<
                    (),
                    ValidationErrorTypeView,
                >(())),
                r2 == resolve_enums(r1, rootind, es, 0),
                resolve_bodies_find(r0, rootind, tree.val, imp),
                self.wf(),
                self@.has_module(rootind),
                marks_of(self@) == marks_of(r0),
                self@.modules == r0.modules,
                self@.root_modules == r0.root_modules,
                imports_ok(self@, imports@),
                describes_from(self@, rootind, ds, imp, it.index() as int) == describes_from(
                    r2,
                    rootind,
                    ds,
                    imp,
                    0,
                ),
        {
            let (p, d) = entry;
            match self.describe(rootind, p, d, &imports, module) {
                Err(e) => {
                    return Some(Err(e));
                },
                Ok(_) => {},
            }
        }
        let ghost r3 = self@;
        let ghost subs = children@;
        for entry in it: children.into_iter()
            invariant
                it.seq() == subs,
                subs == tree.children@,
                r0 == old(self)@,
                imports_from(r0, rootind, tree.val.uses@, 0, Map::empty()) == Ok::<
                    Map<Seq<char>, ItemIndex>,
                    ValidationErrorTypeView,
                >(imp),
                resolve_bodies(r0, rootind, tree.val, imp) == (r3, Ok::<
                    (),
                    ValidationErrorTypeView,
                >(())),
                resolve_bodies_find(r0, rootind, tree.val, imp),
                self.wf(),
                self@.has_module(rootind),
                marks_of(self@) == marks_of(r0),
                self@.modules == r0.modules,
                self@.root_modules == r0.root_modules,
                resolve_subtrees(self@, rootind, tree, names_of(module@), it.index() as int)
                    == resolve_subtrees(r3, rootind, tree, names_of(module@), 0),
                resolve_subtrees_find(self@, rootind, tree, names_of(module@), it.index() as int)
                    == resolve_subtrees_find(r3, rootind, tree, names_of(module@), 0),
        {
            let (n, v) = entry;
            let c = match self.child_module(rootind, &n) {
                Some(c) => c,
                None => {
                    return None;
                },
            };
            let m = submodule_path(module, &n);
            match self.resolve_module_tree(c, v, &m) {
                None => {
                    return None;
                },
                Some(Err(e)) => {
                    return Some(Err(e));
                },
                Some(Ok(_)) => {},
            }
        }
        Some(Ok(()))
    }
}

} // verus!
