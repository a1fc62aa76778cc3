//! What a path denotes.

use crate::parse::ast::PathPart;
use crate::table::Table;
use crate::validation::arena::Index;
use crate::validation::error::{
    names_of, ValidationError, ValidationErrorType, ValidationErrorTypeView,
};
use crate::validation::format::{ItemIndex, ItemType, Module};
use crate::validation::model::{child_of, item_at, part_name, walk, RootView};
use crate::validation::root::Root;
use vstd::prelude::*;

verus! {

/// Whether `r` is the outcome `expected`, its failure, if it is one, raised
/// in `module`.
pub open spec fn raised<T>(
    r: Result<T, ValidationError>,
    expected: Result<T, ValidationErrorTypeView>,
    module: Seq<String>,
) -> bool {
    match r {
        Ok(v) => expected == Ok::<T, ValidationErrorTypeView>(v),
        Err(e) => expected == Err::<T, ValidationErrorTypeView>(e@.ety) && e@.module == names_of(
            module,
        ),
    }
}

/// The imports that count for a step of a path, if any do.
pub open spec fn imports_view(imports: Option<&Table<String, ItemIndex>>) -> Option<
    Map<Seq<char>, ItemIndex>,
> {
    match imports {
        Some(t) => Some(t@),
        None => None,
    }
}

/// Every import leads to an entry of its arena.
pub open spec fn imports_ok(r: RootView, imports: Map<Seq<char>, ItemIndex>) -> bool {
    forall|n: Seq<char>| #[trigger] imports.contains_key(n) ==> r.has_item(imports[n])
}

/// The name under which a path segment is reported.
pub fn name_of_part(part: &PathPart) -> (r: String)
    ensures
        r@ == part_name(*part),
{
    match part {
        PathPart::Regular(v) => v.clone(),
        PathPart::Root => "root".to_owned(),
        PathPart::Super => "super".to_owned(),
    }
}

impl Root {
    /// One step of a path: the item that `part` leads to from `path`.
    pub fn get_child(
        &self,
        part: &PathPart,
        path: Option<Index<Module>>,
        imports: Option<&Table<String, ItemIndex>>,
        module: &Vec<String>,
    ) -> (r: Result<Option<ItemIndex>, ValidationError>)
        requires
            self.wf(),
            path matches Some(m) ==> self@.has_module(m),
            imports matches Some(t) ==> imports_ok(self@, t@),
        ensures
            raised(r, child_of(self@, *part, path, imports_view(imports)), module@),
            r matches Ok(Some(item)) ==> self@.has_item(item),
    {
        match part {
            PathPart::Root => Ok(None),
            PathPart::Super => match path {
                None => Err(ValidationError::at(module, ValidationErrorType::RootAccess)),
                Some(m) => match self.module_arena.get(m).parent {
                    Some(p) => Ok(Some(ItemIndex::Module(p))),
                    None => Ok(None),
                },
            },
            PathPart::Regular(v) => match path {
                Some(m) => match self.module_arena.get(m).children.get(v) {
                    Some(item) => Ok(Some(*item)),
                    None => match imports {
                        Some(t) => match t.get(v) {
                            Some(item) => Ok(Some(*item)),
                            None => Err(
                                ValidationError::at(
                                    module,
                                    ValidationErrorType::UnresolvedName(v.clone()),
                                ),
                            ),
                        },
                        None => Err(
                            ValidationError::at(
                                module,
                                ValidationErrorType::UnresolvedName(v.clone()),
                            ),
                        ),
                    },
                },
                None => match self.root_modules.get(v) {
                    Some(m) => Ok(Some(ItemIndex::Module(*m))),
                    None => Err(
                        ValidationError::at(module, ValidationErrorType::UnresolvedName(v.clone())),
                    ),
                },
            },
        }
    }

    /// The item that `path` denotes, seen from the module `rel`, with
    /// `imports` in reach of its first segment.
    pub fn get_item_path(
        &self,
        path: &Vec<PathPart>,
        rel: Option<Index<Module>>,
        imports: &Table<String, ItemIndex>,
        module: &Vec<String>,
    ) -> (r: Result<ItemIndex, ValidationError>)
        requires
            self.wf(),
            rel matches Some(m) ==> self@.has_module(m),
            imports_ok(self@, imports@),
        ensures
            raised(r, item_at(self@, path@, rel, imports@), module@),
            r matches Ok(item) ==> self@.has_item(item),
    {
        if path.len() == 0 {
            return Err(ValidationError::at(module, ValidationErrorType::RootAccess));
        }
        let mut current = rel;
        let mut i: usize = 0;
        while i < path.len() - 1
            invariant
                self.wf(),
                imports_ok(self@, imports@),
                0 <= i < path@.len(),
                current matches Some(m) ==> self@.has_module(m),
                walk(self@, path@, i as int, current, imports@) == item_at(
                    self@,
                    path@,
                    rel,
                    imports@,
                ),
            decreases path@.len() - i,
        {
            let step = self.get_child(
                &path[i],
                current,
                if i == 0 {
                    Some(imports)
                } else {
                    None
                },
                module,
            );
            match step {
                Err(e) => {
                    return Err(e);
                },
                Ok(None) => {
                    current = None;
                },
                Ok(Some(ItemIndex::Module(m))) => {
                    current = Some(m);
                },
                Ok(Some(item)) => {
                    let mut ex: Vec<ItemType> = Vec::new();
                    ex.push(ItemType::Module);
                    return Err(
                        ValidationError::at(
                            module,
                            ValidationErrorType::InvalidType {
                                name: name_of_part(&path[i]),
                                ex,
                                ty: item.item_type(),
                            },
                        ),
                    );
                },
            }
            i += 1;
        }
        let step = self.get_child(
            &path[i],
            current,
            if i == 0 {
                Some(imports)
            } else {
                None
            },
            module,
        );
        match step {
            Err(e) => Err(e),
            Ok(None) => Err(ValidationError::at(module, ValidationErrorType::RootAccess)),
            Ok(Some(item)) => Ok(item),
        }
    }
}

} // verus!
