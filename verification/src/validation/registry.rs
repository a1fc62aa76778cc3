//! Registries: which compound describes which target.

use super::arena::Index;
use super::error::{ValidationErrorType, ValidationErrorTypeView};
use super::format::CompoundTag;
use super::model::RegistryView;
use super::passes::{bind, bind_targets};
use crate::identifier::{Identifier, IdentifierView};
use crate::table::Table;
use vstd::prelude::*;

verus! {

/// The bindings of one registry: a compound for each target, and a default
/// for the targets that have none.
#[derive(Debug, PartialEq)]
pub struct Registry {
    pub targets: Table<Identifier, Index<CompoundTag>>,
    pub default: Option<Index<CompoundTag>>,
}

impl View for Registry {
    type V = RegistryView;

    open spec fn view(&self) -> RegistryView {
        RegistryView { targets: self.targets@, default: self.default }
    }
}

/// The kind of a failure, by its view.
pub open spec fn kind_view(r: Result<(), ValidationErrorType>) -> Result<
    (),
    ValidationErrorTypeView,
> {
    match r {
        Ok(_) => Ok(()),
        Err(e) => Err(e@),
    }
}

impl Registry {
    /// A registry without bindings.
    pub fn new() -> (r: Self)
        ensures
            r@ == (RegistryView { targets: Map::empty(), default: None }),
    {
        Registry { targets: Table::new(), default: None }
    }

    /// Binds the compound `target`: to each of the listed targets, or, with
    /// no list, as the default. `reg` is the name of this registry, for the
    /// failure that a second binding raises.
    pub fn bind(
        &mut self,
        reg: &Identifier,
        targets: Option<Vec<Identifier>>,
        target: Index<CompoundTag>,
    ) -> (r: Result<(), ValidationErrorType>)
        ensures
            (final(self)@, kind_view(r)) == bind(old(self)@, reg@, targets, target),
    {
        match targets {
            Some(v) => {
                let ghost vs = v@;
                for n in it: v.into_iter()
                    invariant
                        it.seq() == vs,
                        targets == Some(v),
                        vs == v@,
                        bind_targets(self@, reg@, vs, target, it.index() as int) == bind_targets(
                            old(self)@,
                            reg@,
                            vs,
                            target,
                            0,
                        ),
                {
                    if self.targets.contains_key(&n) {
                        return Err(
                            ValidationErrorType::DuplicateDescribe { reg: reg.clone(), t: Some(n) },
                        );
                    }
                    self.targets.insert(n, target);
                }
                Ok(())
            },
            None => {
                if self.default.is_some() {
                    return Err(ValidationErrorType::DuplicateDescribe { reg: reg.clone(), t: None });
                }
                self.default = Some(target);
                Ok(())
            },
        }
    }
}

/// Whether every binding of `g` leads to one of the first `n` compounds.
pub open spec fn bindings_below(g: RegistryView, n: nat) -> bool {
    &&& g.default matches Some(d) ==> d.pos() < n
    &&& forall|t: IdentifierView| #[trigger]
        g.targets.contains_key(t) ==> g.targets[t].pos() < n
}

/// Binding targets to a compound that the root holds keeps every binding in range.
pub proof fn lemma_targets_in_range(
    g: RegistryView,
    reg: IdentifierView,
    targets: Seq<Identifier>,
    target: Index<CompoundTag>,
    i: int,
    n: nat,
)
    requires
        bindings_below(g, n),
        target.pos() < n,
    ensures
        bindings_below(bind_targets(g, reg, targets, target, i).0, n),
    decreases targets.len() - i,
{
    if 0 <= i < targets.len() && !g.targets.contains_key(targets[i]@) {
        let h = RegistryView { targets: g.targets.insert(targets[i]@, target), ..g };
        lemma_targets_in_range(h, reg, targets, target, i + 1, n);
    }
}

/// Binding a compound that the root holds keeps every binding in range.
pub proof fn lemma_bound_in_range(
    g: RegistryView,
    reg: IdentifierView,
    targets: Option<Vec<Identifier>>,
    target: Index<CompoundTag>,
    n: nat,
)
    requires
        bindings_below(g, n),
        target.pos() < n,
    ensures
        bindings_below(bind(g, reg, targets, target).0, n),
{
    match targets {
        Some(v) => lemma_targets_in_range(g, reg, v@, target, 0, n),
        None => {},
    }
}

} // verus!
