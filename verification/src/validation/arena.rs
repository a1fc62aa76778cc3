//! Append-only storage with stable handles.

use core::marker::PhantomData;
use vstd::prelude::*;
use vstd::std_specs::cmp::PartialEqSpecImpl;

verus! {

/// A handle to one entry of an [`Arena`]: the position at which the entry was pushed.
#[derive(Debug)]
pub struct Index<T> {
    ind: usize,
    marker: PhantomData<T>,
}

impl<T> Clone for Index<T> {
    fn clone(&self) -> (r: Self)
        ensures
            r == *self,
    {
        Index { ind: self.ind, marker: PhantomData }
    }
}

impl<T> Copy for Index<T> {

}

impl<T> PartialEq for Index<T> {
    fn eq(&self, other: &Self) -> (r: bool) {
        self.ind == other.ind
    }
}

impl<T> PartialEqSpecImpl for Index<T> {
    open spec fn obeys_eq_spec() -> bool {
        true
    }

    open spec fn eq_spec(&self, other: &Self) -> bool {
        self.pos() == other.pos()
    }
}

impl<T> Eq for Index<T> {

}

impl<T> Index<T> {
    /// The position of the entry in its arena.
    pub closed spec fn pos(&self) -> nat {
        self.ind as nat
    }

    /// The handle to the entry at position `pos`.
    pub closed spec fn at(pos: nat) -> Self {
        Index { ind: pos as usize, marker: PhantomData }
    }

    /// A handle made from a position that a machine integer can hold keeps it.
    pub proof fn lemma_at(pos: nat)
        requires
            pos <= usize::MAX,
        ensures
            Self::at(pos).pos() == pos,
    {
    }

    /// The position as a machine integer.
    pub fn position(&self) -> (r: usize)
        ensures
            r as nat == self.pos(),
    {
        self.ind
    }
}

/// Append-only storage. Entries are never removed or moved, so a handle
/// stays valid for as long as the arena lives.
#[derive(Debug)]
pub struct Arena<T> {
    items: Vec<T>,
}

impl<T> View for Arena<T> {
    type V = Seq<T>;

    closed spec fn view(&self) -> Seq<T> {
        self.items@
    }
}

impl<T> Arena<T> {
    /// An arena without entries.
    pub fn new() -> (r: Self)
        ensures
            r@ == Seq::<T>::empty(),
    {
        Arena { items: Vec::new() }
    }

    /// The number of entries.
    pub fn len(&self) -> (r: usize)
        ensures
            r as nat == self@.len(),
    {
        self.items.len()
    }

    /// A machine integer can count the entries.
    pub proof fn lemma_counted(&self)
        ensures
            self@.len() <= usize::MAX,
    {
        assert(self.items@.len() == self.items.len());
    }

    /// Whether `index` denotes an entry of this arena.
    pub open spec fn has(&self, index: Index<T>) -> bool {
        index.pos() < self@.len()
    }

    /// Stores `item` behind the entries that are there, and hands out its handle.
    pub fn push(&mut self, item: T) -> (r: Index<T>)
        ensures
            final(self)@ == old(self)@.push(item),
            r.pos() == old(self)@.len(),
            r == Index::<T>::at(old(self)@.len()),
    {
        let ind = self.items.len();
        self.items.push(item);
        Index { ind, marker: PhantomData }
    }

    /// The entry behind a handle.
    pub fn get(&self, index: Index<T>) -> (r: &T)
        requires
            self.has(index),
        ensures
            *r == self@[index.pos() as int],
    {
        &self.items[index.ind]
    }

    /// All entries, in the order in which they were pushed.
    pub fn as_slice(&self) -> (r: &[T])
        ensures
            r@ == self@,
    {
        self.items.as_slice()
    }

    /// The entry behind a handle, for changing it in place.
    pub fn get_mut(&mut self, index: Index<T>) -> (r: &mut T)
        requires
            old(self).has(index),
        ensures
            *r == old(self)@[index.pos() as int],
            final(self)@ == old(self)@.update(index.pos() as int, *final(r)),
    {
        &mut self.items[index.ind]
    }
}

} // verus!
