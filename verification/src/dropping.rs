//! Dropping items, and the record of what was dropped.
use vstd::prelude::*;

verus! {

/// The items that were dropped, the earliest first.
///
/// An item gets into the record by being handed to [`DropRecord::run`], which takes it for good,
/// and in no other way.
pub struct DropRecord<T> {
    items: Ghost<Seq<T>>,
}

impl<T> View for DropRecord<T> {
    type V = Seq<T>;

    closed spec fn view(&self) -> Seq<T> {
        self.items@
    }
}

impl<T> DropRecord<T> {
    /// The record before anything was dropped.
    pub fn new() -> (record: Self)
        ensures
            record@ == Seq::<T>::empty(),
    {
        DropRecord { items: Ghost(Seq::empty()) }
    }

    /// Drops an item.
    pub fn run(&mut self, item: T)
        ensures
            final(self)@ == old(self)@.push(item),
    {
        self.items = Ghost(self.items@.push(item));
        let _dropped: T = item;
    }
}

} // verus!
