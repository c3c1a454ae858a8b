//! Storage for what a list holds: a sequence with a fixed capacity.

use vstd::prelude::*;

use crate::result::Error;

verus! {

/// A sequence that can be emptied, extended by one item while there is
/// room, and looked at. Its view is the sequence of its items, oldest
/// first. The capacity is fixed for the life of the storage: no operation
/// changes it.
pub trait Veclike<T>: View<V = Seq<T>> + Sized {
    /// How many items the storage holds at most.
    spec fn capacity(&self) -> nat;

    /// Appends `item` if there is room for it. A full storage refuses it
    /// with [`Error::TooManyRecords`] and stays as it is.
    fn try_push(&mut self, item: T) -> (r: Result<(), Error>)
        ensures
            final(self).capacity() == old(self).capacity(),
            old(self)@.len() < old(self).capacity() ==> r == Ok::<(), Error>(()) && final(self)@
                == old(self)@.push(item),
            old(self)@.len() >= old(self).capacity() ==> r == Err::<(), Error>(
                Error::TooManyRecords,
            ) && final(self)@ == old(self)@,
    ;

    /// The items, oldest first.
    fn as_slice(&self) -> (items: &[T])
        ensures
            items@ == self@,
    ;

    /// Removes every item.
    fn clear(&mut self)
        ensures
            final(self).capacity() == old(self).capacity(),
            final(self)@ == Seq::<T>::empty(),
    ;
}

/// Storage whose capacity is chosen when it is made.
#[derive(Clone, Debug, PartialEq, Eq)]
pub struct BoundedVec<T> {
    items: Vec<T>,
    limit: usize,
}

impl<T> View for BoundedVec<T> {
    type V = Seq<T>;

    closed spec fn view(&self) -> Seq<T> {
        self.items@
    }
}

impl<T> BoundedVec<T> {
    /// Empty storage with room for `capacity` items.
    pub fn new(capacity: usize) -> (storage: Self)
        ensures
            storage@ == Seq::<T>::empty(),
            storage.capacity() == capacity,
    {
        Self { items: Vec::new(), limit: capacity }
    }

    /// The number of items held.
    pub fn len(&self) -> (n: usize)
        ensures
            n == self@.len(),
    {
        self.items.len()
    }
}

impl<T> Veclike<T> for BoundedVec<T> {
    closed spec fn capacity(&self) -> nat {
        self.limit as nat
    }

    fn try_push(&mut self, item: T) -> (r: Result<(), Error>) {
        if self.items.len() < self.limit {
            self.items.push(item);
            Ok(())
        } else {
            Err(Error::TooManyRecords)
        }
    }

    fn as_slice(&self) -> (items: &[T]) {
        self.items.as_slice()
    }

    fn clear(&mut self) {
        self.items.clear();
    }
}

} // verus!
