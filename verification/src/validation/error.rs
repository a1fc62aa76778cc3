//! What can go wrong while names are resolved.

use super::format::ItemType;
use crate::identifier::{Identifier, IdentifierView};
use vstd::prelude::*;

verus! {

/// The kinds of failure.
#[derive(Debug, PartialEq)]
pub enum ValidationErrorType {
    /// A path was empty, or led above the scope of the root modules.
    RootAccess,
    /// The path of an import ends in `super`.
    SuperImport,
    /// A path led to an item of a kind that its place does not accept.
    InvalidType { name: String, ex: Vec<ItemType>, ty: ItemType },
    /// A name matched nothing.
    UnresolvedName(String),
    /// A registry got a second binding for one target, or a second default
    /// (`t` is `None`).
    DuplicateDescribe { reg: Identifier, t: Option<Identifier> },
}

/// What a [`ValidationErrorType`] stands for.
pub enum ValidationErrorTypeView {
    RootAccess,
    SuperImport,
    InvalidType { name: Seq<char>, ex: Seq<ItemType>, ty: ItemType },
    UnresolvedName(Seq<char>),
    DuplicateDescribe { reg: IdentifierView, t: Option<IdentifierView> },
}

impl View for ValidationErrorType {
    type V = ValidationErrorTypeView;

    open spec fn view(&self) -> ValidationErrorTypeView {
        match self {
            ValidationErrorType::RootAccess => ValidationErrorTypeView::RootAccess,
            ValidationErrorType::SuperImport => ValidationErrorTypeView::SuperImport,
            ValidationErrorType::InvalidType { name, ex, ty } => ValidationErrorTypeView::InvalidType {
                name: name@,
                ex: ex@,
                ty: *ty,
            },
            ValidationErrorType::UnresolvedName(name) => ValidationErrorTypeView::UnresolvedName(
                name@,
            ),
            ValidationErrorType::DuplicateDescribe { reg, t } => {
                ValidationErrorTypeView::DuplicateDescribe {
                    reg: reg@,
                    t: match t {
                        Some(i) => Some(i@),
                        None => None,
                    },
                }
            },
        }
    }
}

/// The names in `v`, each by its view.
pub open spec fn names_of(v: Seq<String>) -> Seq<Seq<char>> {
    Seq::new(v.len(), |i: int| v[i]@)
}

/// A failure, with the module in which it arose: the names from the root
/// module down.
#[derive(Debug, PartialEq)]
pub struct ValidationError {
    pub module: Vec<String>,
    pub ety: ValidationErrorType,
}

/// What a [`ValidationError`] stands for.
pub struct ValidationErrorView {
    pub module: Seq<Seq<char>>,
    pub ety: ValidationErrorTypeView,
}

impl View for ValidationError {
    type V = ValidationErrorView;

    open spec fn view(&self) -> ValidationErrorView {
        ValidationErrorView { module: names_of(self.module@), ety: self.ety@ }
    }
}

/// A copy of a list of names.
pub fn clone_names(names: &Vec<String>) -> (r: Vec<String>)
    ensures
        names_of(r@) == names_of(names@),
{
    let mut r: Vec<String> = Vec::new();
    let mut i: usize = 0;
    while i < names.len()
        invariant
            0 <= i <= names@.len(),
            r@.len() == i,
            forall|j: int| 0 <= j < i ==> r@[j]@ == names@[j]@,
        decreases names@.len() - i,
    {
        r.push(names[i].clone());
        i += 1;
    }
    r
}

impl ValidationError {
    /// The failure `ety`, raised in the module `module`.
    pub fn new(module: Vec<String>, ety: ValidationErrorType) -> (r: Self)
        ensures
            r@ == (ValidationErrorView { module: names_of(module@), ety: ety@ }),
    {
        ValidationError { module, ety }
    }

    /// The failure `ety`, raised in the module `module`.
    pub fn at(module: &Vec<String>, ety: ValidationErrorType) -> (r: Self)
        ensures
            r@ == (ValidationErrorView { module: names_of(module@), ety: ety@ }),
    {
        ValidationError { module: clone_names(module), ety }
    }
}

} // verus!
