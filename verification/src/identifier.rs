//! Namespaced identifiers, such as the name of a registry or of one of its targets.

use crate::table::Key;
use vstd::prelude::*;

verus! {

/// A namespaced identifier: `namespace:path`.
#[derive(Debug, PartialEq, Eq)]
pub struct Identifier {
    pub namespace: String,
    pub path: String,
}

/// What an [`Identifier`] stands for.
pub struct IdentifierView {
    pub namespace: Seq<char>,
    pub path: Seq<char>,
}

impl View for Identifier {
    type V = IdentifierView;

    open spec fn view(&self) -> IdentifierView {
        IdentifierView { namespace: self.namespace@, path: self.path@ }
    }
}

impl Clone for Identifier {
    fn clone(&self) -> (r: Self)
        ensures
            r@ == self@,
    {
        Identifier { namespace: self.namespace.clone(), path: self.path.clone() }
    }
}

impl Key for Identifier {
    fn same(&self, other: &Self) -> (r: bool) {
        self.namespace == other.namespace && self.path == other.path
    }
}

impl Identifier {
    /// The identifier `namespace:path`.
    pub fn new(namespace: String, path: String) -> (r: Self)
        ensures
            r@ == (IdentifierView { namespace: namespace@, path: path@ }),
    {
        Identifier { namespace, path }
    }
}

} // verus!
