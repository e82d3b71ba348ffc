//! Boxes: items that live in the slots of a pool.
use vstd::prelude::*;

use core::cmp::Ordering;
use core::marker::PhantomData;
use core::task::Waker;

use crate::state::{Poll, PoolState, Slot};
use crate::storage::{AllocAsync, PoolStorage};

verus! {

/// A pool of items.
///
/// A type that implements this names a pool, so that a box of one pool is not taken for a box of
/// another.
pub trait Pool: 'static {
    /// What the pool holds.
    type Item: 'static;

    /// Where it holds it.
    type Storage: PoolStorage<Self::Item>;
}

/// An item in a slot of a pool, and the right to that slot.
///
/// The item is in the storage of the pool, so what reads, changes or drops it takes the storage
/// too. One that only goes out of scope keeps its slot: a box ends with [`Box::drop`].
#[must_use]
pub struct Box<P: Pool> {
    slot: usize,
    pool: PhantomData<P>,
}

/// The slot of the box, if there is one.
pub open spec fn slot_of<P: Pool>(boxed: Option<Box<P>>) -> Option<usize> {
    match boxed {
        Some(b) => Some(b.slot()),
        None => None,
    }
}

impl<P: Pool> Box<P> {
    /// The slot of the box.
    pub closed spec fn slot(&self) -> usize {
        self.slot
    }

    /// The slot of the box holds an item.
    pub open spec fn is_live(&self, state: PoolState<P::Item>) -> bool {
        state.holds(self.slot() as int)
    }

    /// The item of the box.
    pub open spec fn item(&self, state: PoolState<P::Item>) -> P::Item {
        state.item(self.slot() as int)
    }

    /// Puts an item into a slot of the pool, if one is available.
    /// Returns `None` if the pool is full. Then the item is dropped.
    pub fn new(storage: &mut P::Storage, item: P::Item) -> (boxed: Option<Self>)
        requires
            old(storage).wf(),
        ensures
            final(storage).wf(),
            crate::state::put_outcome(
                old(storage).state(),
                item,
                final(storage).state(),
                slot_of(boxed),
            ),
            final(storage).unstored() == (match boxed {
                Some(_) => old(storage).unstored(),
                None => old(storage).unstored().push(item),
            }),
    {
        let slot: usize = match storage.alloc_slot() {
            Some(slot) => slot,
            None => {
                storage.drop_unstored(item);
                return None;
            },
        };
        storage.write(slot, item);
        assert(storage.state() =~= old(storage).state().with_slot(slot as int, Slot::Holds(item)));
        Some(Box { slot, pool: PhantomData })
    }

    /// Waits until a slot in the pool is available, then puts the item into it.
    /// Gives `None` if every place for a waiting task is taken.
    pub fn new_async(item: P::Item) -> (future: NewAsync<P, impl FnOnce() -> P::Item>)
        ensures
            future.is_pending(),
            future.place() is None,
            call_requires(future.make(), ()),
            forall|made: P::Item| call_ensures(future.make(), (), made) ==> made == item,
    {
        let make = move || -> (made: P::Item)
            ensures
                made == item,
            { item };
        Self::new_async_with(make)
    }

    /// Waits until a slot in the pool is available, then calls `make` and puts the result into
    /// the slot. This can be smaller than [`Box::new_async`], if the closure is smaller than an
    /// item.
    /// Gives `None` if every place for a waiting task is taken.
    pub fn new_async_with<F: FnOnce() -> P::Item>(make: F) -> (future: NewAsync<P, F>)
        ensures
            future.is_pending(),
            future.place() is None,
            future.make() == make,
    {
        NewAsync { alloc: None, make: Some(make), pool: PhantomData }
    }

    /// Turns the box into the slot it has. The slot stays allocated, and the item stays in it.
    pub fn into_raw(b: Self) -> (slot: usize)
        ensures
            slot == b.slot(),
    {
        b.slot
    }

    /// Makes a box of a slot that [`Box::into_raw`] returned. No two boxes may be made of one
    /// slot.
    pub fn from_raw(slot: usize) -> (b: Self)
        ensures
            b.slot() == slot,
    {
        Box { slot, pool: PhantomData }
    }

    /// Drops the item and gives the slot back to the pool, which wakes the tasks that wait for
    /// one.
    pub fn drop(self, storage: &mut P::Storage)
        requires
            old(storage).wf(),
            self.is_live(old(storage).state()),
        ensures
            final(storage).wf(),
            final(storage).state() == old(storage).state().dropped(self.slot() as int),
            final(storage).unstored() == old(storage).unstored(),
    {
        storage.drop_in_place(self.slot);
        storage.free(self.slot);
    }

    /// The item.
    pub fn deref<'a>(&self, storage: &'a P::Storage) -> (item: &'a P::Item)
        requires
            storage.wf(),
            self.is_live(storage.state()),
        ensures
            *item == self.item(storage.state()),
    {
        storage.item_ref(self.slot)
    }

    /// The item, to change it in place.
    pub fn deref_mut<'a>(&mut self, storage: &'a mut P::Storage) -> (item: &'a mut P::Item)
        requires
            old(storage).wf(),
            old(self).is_live(old(storage).state()),
        ensures
            *final(self) == *old(self),
            *item == old(self).item(old(storage).state()),
            final(storage).wf(),
            final(storage).state() == old(storage).state().with_slot(
                old(self).slot() as int,
                Slot::Holds(*final(item)),
            ),
            final(storage).unstored() == old(storage).unstored(),
    {
        storage.item_mut(self.slot)
    }
}

impl<P: Pool> Box<P> where P::Item: PartialEq {
    /// Whether the items of two boxes are equal.
    pub fn eq(&self, rhs: &Box<P>, storage: &P::Storage) -> (equal: bool)
        requires
            storage.wf(),
            self.is_live(storage.state()),
            rhs.is_live(storage.state()),
        ensures
            call_ensures(
                <P::Item as PartialEq>::eq,
                (&self.item(storage.state()), &rhs.item(storage.state())),
                equal,
            ),
    {
        self.deref(storage).eq(rhs.deref(storage))
    }
}

impl<P: Pool> Box<P> where P::Item: PartialOrd {
    /// How the items of two boxes compare, if they do.
    pub fn partial_cmp(&self, rhs: &Box<P>, storage: &P::Storage) -> (order: Option<Ordering>)
        requires
            storage.wf(),
            self.is_live(storage.state()),
            rhs.is_live(storage.state()),
        ensures
            call_ensures(
                P::Item::partial_cmp,
                (&self.item(storage.state()), &rhs.item(storage.state())),
                order,
            ),
    {
        self.deref(storage).partial_cmp(rhs.deref(storage))
    }
}

impl<P: Pool> Box<P> where P::Item: Ord {
    /// How the items of two boxes compare.
    pub fn cmp(&self, rhs: &Box<P>, storage: &P::Storage) -> (order: Ordering)
        requires
            storage.wf(),
            self.is_live(storage.state()),
            rhs.is_live(storage.state()),
        ensures
            call_ensures(
                P::Item::cmp,
                (&self.item(storage.state()), &rhs.item(storage.state())),
                order,
            ),
    {
        self.deref(storage).cmp(rhs.deref(storage))
    }
}

/// A box is its slot: turning a box into its slot and back gives the same box.
pub proof fn law_raw_round_trip<P: Pool>(b: Box<P>, again: Box<P>)
    requires
        again.slot() == b.slot(),
    ensures
        again == b,
{
}

/// What one poll of a box that waits for a slot does and returns, where `place` is the place for a
/// waiting task that it has before the poll, and `place_after` the one it has after.
///
/// When there is a slot, it then holds what `make` returned.
pub open spec fn new_outcome<P: Pool, F: FnOnce() -> P::Item>(
    before: PoolState<P::Item>,
    place: Option<usize>,
    make: F,
    waker: Waker,
    after: PoolState<P::Item>,
    place_after: Option<usize>,
    outcome: Poll<Option<Box<P>>>,
) -> bool {
    match outcome {
        Poll::Ready(Some(b)) => {
            &&& call_ensures(make, (), b.item(after))
            &&& crate::state::poll_put_outcome(
                before,
                place,
                waker,
                b.item(after),
                after,
                place_after,
                Poll::Ready(Some(b.slot())),
            )
        },
        Poll::Ready(None) => crate::state::poll_outcome(
            before,
            place,
            waker,
            after,
            place_after,
            Poll::Ready(None),
        ),
        Poll::Pending => crate::state::poll_outcome(
            before,
            place,
            waker,
            after,
            place_after,
            Poll::Pending,
        ),
    }
}

/// The place for a waiting task that an allocation has, if there is one and it has one.
pub open spec fn place_of(alloc: Option<AllocAsync>) -> Option<usize> {
    match alloc {
        Some(alloc) => alloc.place(),
        None => None,
    }
}

/// Makes progress with an allocation, which begins with the first poll and ends when it is
/// complete.
pub(crate) fn poll_slot<T, S: PoolStorage<T>>(
    alloc: &mut Option<AllocAsync>,
    storage: &mut S,
    waker: &Waker,
) -> (outcome: Poll<Option<usize>>)
    requires
        old(storage).wf(),
        old(storage).state().has_taken(place_of(*old(alloc))),
    ensures
        final(storage).wf(),
        final(storage).state().has_taken(place_of(*final(alloc))),
        crate::state::poll_take_outcome(
            old(storage).state(),
            place_of(*old(alloc)),
            *waker,
            Slot::Claimed,
            final(storage).state(),
            place_of(*final(alloc)),
            outcome,
        ),
        final(storage).unstored() == old(storage).unstored(),
{
    let mut current: AllocAsync = match alloc.take() {
        Some(current) => current,
        None => storage.alloc_async(),
    };
    match storage.poll_alloc(&mut current, waker) {
        Poll::Pending => {
            *alloc = Some(current);
            Poll::Pending
        },
        Poll::Ready(slot) => {
            storage.drop_alloc(current);
            proof {
                if let Some(n) = slot {
                    assert(storage.state() =~= old(storage).state().place_released(
                        place_of(*old(alloc)),
                    ).with_slot(n as int, Slot::Claimed));
                }
            }
            Poll::Ready(slot)
        },
    }
}

/// A box that is made as soon as a slot is available.
///
/// It is driven with [`NewAsync::poll`]. One that is not complete ends with
/// [`NewAsync::cancel`].
#[must_use]
pub struct NewAsync<P: Pool, F> {
    alloc: Option<AllocAsync>,
    make: Option<F>,
    pool: PhantomData<P>,
}

impl<P: Pool, F: FnOnce() -> P::Item> NewAsync<P, F> {
    /// The box was not made yet, nor refused.
    pub closed spec fn is_pending(&self) -> bool {
        self.make is Some
    }

    /// What makes the item.
    pub closed spec fn make(&self) -> F {
        self.make->0
    }

    /// The place for a waiting task that this has, if it has one.
    pub closed spec fn place(&self) -> Option<usize> {
        place_of(self.alloc)
    }

    /// The place that this has, if it has one, is taken in this pool.
    pub open spec fn belongs_to(&self, state: PoolState<P::Item>) -> bool {
        state.has_taken(self.place())
    }

    /// Makes progress with the box. What makes the item is called when there is a slot for it, and
    /// not before.
    pub fn poll(&mut self, storage: &mut P::Storage, waker: &Waker) -> (outcome: Poll<
        Option<Box<P>>,
    >)
        requires
            old(storage).wf(),
            old(self).is_pending(),
            old(self).belongs_to(old(storage).state()),
            !old(storage).state().is_full() ==> call_requires(old(self).make(), ()),
        ensures
            final(storage).wf(),
            final(self).belongs_to(final(storage).state()),
            new_outcome(
                old(storage).state(),
                old(self).place(),
                old(self).make(),
                *waker,
                final(storage).state(),
                final(self).place(),
                outcome,
            ),
            final(self).is_pending() == (outcome is Pending),
            outcome is Pending ==> final(self).make() == old(self).make(),
            final(storage).unstored() == old(storage).unstored(),
    {
        match poll_slot(&mut self.alloc, storage, waker) {
            Poll::Pending => Poll::Pending,
            Poll::Ready(slot) => match (slot, self.make.take()) {
                (Some(slot), Some(make)) => {
                    let item = make();
                    storage.write(slot, item);
                    proof {
                        let before = old(storage).state();
                        assert(storage.state() =~= before.place_released(
                            old(self).place(),
                        ).with_slot(slot as int, Slot::Holds(item)));
                    }
                    Poll::Ready(Some(Box { slot, pool: PhantomData }))
                },
                _ => Poll::Ready(None),
            },
        }
    }

    /// Ends this, whether or not it is complete, and gives up the place it has.
    pub fn cancel(self, storage: &mut P::Storage)
        requires
            old(storage).wf(),
            self.belongs_to(old(storage).state()),
        ensures
            final(storage).wf(),
            final(storage).state() == old(storage).state().place_released(self.place()),
            final(storage).unstored() == old(storage).unstored(),
    {
        if let Some(alloc) = self.alloc {
            storage.drop_alloc(alloc);
        }
    }
}

} // verus!
