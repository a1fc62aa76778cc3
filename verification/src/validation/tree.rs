//! The module tree: a parsed file and, under the name of each of its
//! submodules, the tree of that submodule.

use super::error::names_of;
use crate::parse::ast::{NbtDocFile, PathPart};
use crate::table::{
    first_under_key, lemma_map_of_dom, lemma_map_of_push, lemma_map_of_update, map_of,
};
use vstd::prelude::*;

verus! {

/// A module as the source lays it out.
#[derive(Debug, PartialEq)]
pub struct ModuleTree {
    pub val: NbtDocFile,
    /// The submodules, each under its name.
    pub children: Vec<(String, ModuleTree)>,
}

/// Where the source of a module lies, seen from the directory in which its
/// parent looks for its submodules.
#[derive(Debug, PartialEq)]
pub struct Location {
    /// The file of the module: the names that lead to it, the last being the
    /// name of the file.
    pub file: Vec<String>,
    /// The directory in which the module looks for its own submodules: the
    /// names that lead to it.
    pub children: Vec<String>,
}

/// The name of the file that holds the module `name` where the module is a
/// single file.
pub fn flat_file(name: &String) -> (r: String)
    ensures
        r@ == name@ + ".nbtdoc"@,
{
    name.clone().concat(".nbtdoc")
}

/// Where the module `name` lies. A module is a single file `<name>.nbtdoc`,
/// and then looks for its submodules beside that file; or, where there is no
/// such file, the file `mod.nbtdoc` in the directory `<name>`, and then looks
/// for its submodules in that directory. `flat` says whether the single file
/// exists.
pub fn locate(name: &String, flat: bool) -> (r: Location)
    ensures
        flat ==> names_of(r.file@) == seq![name@ + ".nbtdoc"@] && names_of(r.children@)
            == Seq::<Seq<char>>::empty(),
        !flat ==> names_of(r.file@) == seq![name@, "mod.nbtdoc"@] && names_of(r.children@)
            == seq![name@],
{
    let mut file: Vec<String> = Vec::new();
    let mut children: Vec<String> = Vec::new();
    if flat {
        file.push(flat_file(name));
        assert(names_of(file@) =~= seq![name@ + ".nbtdoc"@]);
        assert(names_of(children@) =~= Seq::<Seq<char>>::empty());
    } else {
        file.push(name.clone());
        file.push("mod.nbtdoc".to_owned());
        children.push(name.clone());
        assert(names_of(file@) =~= seq![name@, "mod.nbtdoc"@]);
        assert(names_of(children@) =~= seq![name@]);
    }
    Location { file, children }
}

/// The names under which the entries of `s` stand.
pub open spec fn first_names<T>(s: Seq<(String, T)>) -> Seq<Seq<char>> {
    Seq::new(s.len(), |i: int| s[i].0@)
}

/// The names that the re-exports among the imports from position `i` on
/// bring into their module: the last segment of each path, where it is a
/// plain name.
pub open spec fn reexported_names(uses: Seq<(bool, Vec<PathPart>)>, i: int) -> Seq<Seq<char>>
    decreases uses.len() - i,
{
    if i < 0 || i >= uses.len() {
        Seq::empty()
    } else if uses[i].0 && uses[i].1@.len() > 0 {
        match uses[i].1@.last() {
            PathPart::Regular(v) => seq![v@] + reexported_names(uses, i + 1),
            _ => reexported_names(uses, i + 1),
        }
    } else {
        reexported_names(uses, i + 1)
    }
}

/// Whether some name occurs twice in `names`.
pub fn has_duplicates(names: &Vec<String>) -> (r: bool)
    ensures
        r == !names_of(names@).no_duplicates(),
{
    let mut i: usize = 0;
    while i < names.len()
        invariant
            0 <= i <= names@.len(),
            forall|a: int, b: int| 0 <= a < i && a < b < names@.len() ==> names@[a]@ != names@[b]@,
        decreases names@.len() - i,
    {
        let mut j: usize = i + 1;
        while j < names.len()
            invariant
                0 <= i < names@.len(),
                i < j <= names@.len(),
                forall|b: int| i < b < j ==> names@[i as int]@ != names@[b]@,
            decreases names@.len() - j,
        {
            if names[i] == names[j] {
                assert(names_of(names@)[i as int] == names_of(names@)[j as int]);
                return true;
            }
            j += 1;
        }
        i += 1;
    }
    assert forall|a: int, b: int|
        0 <= a < names_of(names@).len() && 0 <= b < names_of(names@).len() && a != b implies names_of(
        names@,
    )[a] != names_of(names@)[b] by {
        if a < b {
            assert(names@[a]@ != names@[b]@);
        } else {
            assert(names@[b]@ != names@[a]@);
        }
    }
    false
}

impl ModuleTree {
    /// A module without submodules.
    pub fn new(val: NbtDocFile) -> (r: Self)
        ensures
            r.val == val,
            r.children@ == Seq::<(String, ModuleTree)>::empty(),
    {
        ModuleTree { val, children: Vec::new() }
    }

    /// The submodules, each under the view of its name, in order.
    pub open spec fn entries(&self) -> Seq<(Seq<char>, ModuleTree)> {
        Seq::new(self.children@.len(), |i: int| (self.children@[i].0@, self.children@[i].1))
    }

    /// The submodules as a map from names. Where a name stands twice, its
    /// first entry counts.
    pub open spec fn submodules(&self) -> Map<Seq<char>, ModuleTree> {
        map_of(self.entries())
    }

    /// Puts the tree `child` under `name` among the submodules. A submodule
    /// that is there under that name already is replaced and keeps its place.
    pub fn insert_child(&mut self, name: String, child: ModuleTree)
        ensures
            final(self).val == old(self).val,
            final(self).submodules() == old(self).submodules().insert(name@, child),
            old(self).submodules().contains_key(name@) ==> final(self).children@.len() == old(
                self,
            ).children@.len(),
            !old(self).submodules().contains_key(name@) ==> final(self).entries() == old(
                self,
            ).entries().push((name@, child)),
    {
        let ghost before = self.entries();
        let mut i: usize = 0;
        while i < self.children.len()
            invariant
                0 <= i <= self.children@.len(),
                *self == *old(self),
                before == self.entries(),
                forall|j: int| 0 <= j < i ==> (#[trigger] before[j]).0 != name@,
            decreases self.children@.len() - i,
        {
            if self.children[i].0 == name {
                proof {
                    assert(first_under_key(before, i as int));
                    lemma_map_of_update(before, i as int, child);
                    lemma_map_of_dom(before, name@);
                }
                self.children[i] = (name, child);
                assert(self.entries() =~= before.update(i as int, (name@, child)));
                return ;
            }
            i += 1;
        }
        proof {
            lemma_map_of_dom(before, name@);
            lemma_map_of_push(before, name@, child);
        }
        self.children.push((name, child));
        assert(self.entries() =~= before.push((name@, child)));
    }

    /// Every name that this module brings into its own scope: its compounds,
    /// its enums, its submodules and what it re-exports.
    pub open spec fn declared_names(&self) -> Seq<Seq<char>> {
        first_names(self.val.compounds@) + first_names(self.val.enums@) + first_names(
            self.children@,
        ) + reexported_names(self.val.uses@, 0)
    }

    /// In this module and in every module below it, no name is brought into
    /// scope twice.
    pub open spec fn well_formed(&self) -> bool
        decreases self,
    {
        &&& self.declared_names().no_duplicates()
        &&& forall|i: int|
            0 <= i < self.children@.len() ==> (#[trigger] self.children@[i]).1.well_formed()
    }

    /// The names that this module brings into its own scope.
    pub fn names(&self) -> (r: Vec<String>)
        ensures
            names_of(r@) == self.declared_names(),
    {
        let mut r: Vec<String> = Vec::new();
        let mut i: usize = 0;
        while i < self.val.compounds.len()
            invariant
                0 <= i <= self.val.compounds@.len(),
                names_of(r@) == first_names(self.val.compounds@).subrange(0, i as int),
            decreases self.val.compounds@.len() - i,
        {
            let ghost before = names_of(r@);
            r.push(self.val.compounds[i].0.clone());
            assert(names_of(r@) =~= before.push(self.val.compounds@[i as int].0@));
            assert(before.push(self.val.compounds@[i as int].0@) =~= first_names(self.val.compounds@).subrange(
                0,
                i + 1,
            ));
            i += 1;
        }
        let ghost a = first_names(self.val.compounds@);
        assert(a.subrange(0, a.len() as int) =~= a);
        let mut i: usize = 0;
        while i < self.val.enums.len()
            invariant
                0 <= i <= self.val.enums@.len(),
                names_of(r@) == a + first_names(self.val.enums@).subrange(0, i as int),
            decreases self.val.enums@.len() - i,
        {
            let ghost before = names_of(r@);
            r.push(self.val.enums[i].0.clone());
            assert(names_of(r@) =~= before.push(self.val.enums@[i as int].0@));
            assert(before.push(self.val.enums@[i as int].0@) =~= a + first_names(self.val.enums@).subrange(
                0,
                i + 1,
            ));
            i += 1;
        }
        let ghost b = first_names(self.val.enums@);
        assert(b.subrange(0, b.len() as int) =~= b);
        let mut i: usize = 0;
        while i < self.children.len()
            invariant
                0 <= i <= self.children@.len(),
                names_of(r@) == a + b + first_names(self.children@).subrange(0, i as int),
            decreases self.children@.len() - i,
        {
            let ghost before = names_of(r@);
            r.push(self.children[i].0.clone());
            assert(names_of(r@) =~= before.push(self.children@[i as int].0@));
            assert(before.push(self.children@[i as int].0@) =~= a + b + first_names(self.children@).subrange(
                0,
                i + 1,
            ));
            i += 1;
        }
        let ghost c = first_names(self.children@);
        assert(c.subrange(0, c.len() as int) =~= c);
        let mut i: usize = 0;
        while i < self.val.uses.len()
            invariant
                0 <= i <= self.val.uses@.len(),
                names_of(r@) + reexported_names(self.val.uses@, i as int) == a + b + c
                    + reexported_names(self.val.uses@, 0),
            decreases self.val.uses@.len() - i,
        {
            let path = &self.val.uses[i].1;
            if self.val.uses[i].0 && path.len() > 0 {
                match &path[path.len() - 1] {
                    PathPart::Regular(v) => {
                        let ghost before = names_of(r@);
                        r.push(v.clone());
                        proof {
                            let rest = reexported_names(self.val.uses@, i + 1);
                            assert(names_of(r@) =~= before + seq![v@]);
                            assert(names_of(r@) + rest =~= before + (seq![v@] + rest));
                        }
                    },
                    _ => {},
                }
            }
            i += 1;
        }
        assert(names_of(r@) + Seq::<Seq<char>>::empty() =~= names_of(r@));
        r
    }

    /// Whether no name is brought into scope twice, in this module and in
    /// every module below it.
    pub fn is_well_formed(&self) -> (r: bool)
        ensures
            r == self.well_formed(),
        decreases self,
    {
        if has_duplicates(&self.names()) {
            return false;
        }
        let mut i: usize = 0;
        while i < self.children.len()
            invariant
                0 <= i <= self.children@.len(),
                self.declared_names().no_duplicates(),
                forall|j: int| 0 <= j < i ==> (#[trigger] self.children@[j]).1.well_formed(),
            decreases self.children@.len() - i,
        {
            if !self.children[i].1.is_well_formed() {
                return false;
            }
            i += 1;
        }
        true
    }
}

} // verus!
