//! Boxes that show a part of their item.
use vstd::prelude::*;
use vstd::std_specs::convert::FromSpecImpl;

use core::marker::PhantomData;
use core::task::Waker;

use crate::boxed::{poll_slot, Box, NewAsync, Pool};
use crate::projection::{Projection, Then, Whole};
use crate::state::{Poll, PoolState, Slot};
use crate::storage::{AllocAsync, PoolStorage};

verus! {

/// The box holds an item that has the part that the projection selects.
pub open spec fn shows<P: Pool, T: 'static + ?Sized, L: Projection<P::Item, T>>(
    b: Box<P>,
    projection: L,
    state: PoolState<P::Item>,
) -> bool {
    b.is_live(state) && projection.selects(b.item(state))
}

/// The part that the projection selects of the item in the box.
pub open spec fn shown<P: Pool, T: 'static + ?Sized, L: Projection<P::Item, T>>(
    b: Box<P>,
    projection: L,
    state: PoolState<P::Item>,
) -> &'static T {
    projection.part(b.item(state))
}

/// The pool after the part that the projection selects of the item in the box was replaced.
pub open spec fn with_shown<P: Pool, T: 'static + ?Sized, L: Projection<P::Item, T>>(
    b: Box<P>,
    projection: L,
    state: PoolState<P::Item>,
    part: &T,
) -> PoolState<P::Item> {
    state.with_slot(b.slot() as int, Slot::Holds(projection.with_part(b.item(state), part)))
}

/// A box that shows a part of its item, of type `T`.
///
/// This is useful when a specific part of a pooled item needs to be accessed separately. `L` says
/// where in the item the part is.
#[must_use]
pub struct MappedBox<P: Pool, T: 'static + ?Sized, L> {
    inner: Box<P>,
    projection: L,
    target: PhantomData<T>,
}

impl<P: Pool, T: 'static + ?Sized, L: Projection<P::Item, T>> MappedBox<P, T, L> {
    /// The box.
    pub closed spec fn inner(&self) -> Box<P> {
        self.inner
    }

    /// Where in the item the part is.
    pub closed spec fn projection(&self) -> L {
        self.projection
    }

    /// The box holds an item that has the part.
    pub open spec fn is_live(&self, state: PoolState<P::Item>) -> bool {
        shows(self.inner(), self.projection(), state)
    }

    /// The part that is shown.
    pub open spec fn value(&self, state: PoolState<P::Item>) -> &T {
        shown(self.inner(), self.projection(), state)
    }

    /// The mapped value.
    pub fn as_ref<'a>(&self, storage: &'a P::Storage) -> (value: &'a T)
        requires
            storage.wf(),
            self.is_live(storage.state()),
        ensures
            value == self.value(storage.state()),
    {
        self.projection.project(self.inner.deref(storage))
    }

    /// The mapped value, to change it in place.
    pub fn as_mut<'a>(&mut self, storage: &'a mut P::Storage) -> (value: &'a mut T)
        requires
            old(storage).wf(),
            old(self).is_live(old(storage).state()),
        ensures
            *final(self) == *old(self),
            &*value == old(self).value(old(storage).state()),
            old(self).projection().fits(
                old(self).inner().item(old(storage).state()),
                &*final(value),
            ),
            final(storage).wf(),
            final(storage).state() == with_shown(
                old(self).inner(),
                old(self).projection(),
                old(storage).state(),
                &*final(value),
            ),
            final(self).is_live(final(storage).state()),
            final(self).value(final(storage).state()) == &*final(value),
            final(storage).unstored() == old(storage).unstored(),
    {
        self.projection.project_mut(self.inner.deref_mut(storage))
    }

    /// The mapped value. The same as [`MappedBox::as_ref`].
    pub fn deref<'a>(&self, storage: &'a P::Storage) -> (value: &'a T)
        requires
            storage.wf(),
            self.is_live(storage.state()),
        ensures
            value == self.value(storage.state()),
    {
        self.as_ref(storage)
    }

    /// The mapped value, to change it in place. The same as [`MappedBox::as_mut`].
    pub fn deref_mut<'a>(&mut self, storage: &'a mut P::Storage) -> (value: &'a mut T)
        requires
            old(storage).wf(),
            old(self).is_live(old(storage).state()),
        ensures
            *final(self) == *old(self),
            &*value == old(self).value(old(storage).state()),
            old(self).projection().fits(
                old(self).inner().item(old(storage).state()),
                &*final(value),
            ),
            final(storage).wf(),
            final(storage).state() == with_shown(
                old(self).inner(),
                old(self).projection(),
                old(storage).state(),
                &*final(value),
            ),
            final(self).is_live(final(storage).state()),
            final(self).value(final(storage).state()) == &*final(value),
            final(storage).unstored() == old(storage).unstored(),
    {
        self.as_mut(storage)
    }

    /// Back to the box. What it holds is as it was left.
    pub fn into_box(self) -> (b: Box<P>)
        ensures
            b == self.inner(),
    {
        self.inner
    }

    /// Drops the item and gives the slot back to the pool, which wakes the tasks that wait for
    /// one.
    pub fn drop(self, storage: &mut P::Storage)
        requires
            old(storage).wf(),
            self.is_live(old(storage).state()),
        ensures
            final(storage).wf(),
            final(storage).state() == old(storage).state().dropped(self.inner().slot() as int),
            final(storage).unstored() == old(storage).unstored(),
    {
        self.inner.drop(storage)
    }
}

impl<P: Pool, T: 'static, L: Projection<P::Item, T>> MappedBox<P, T, L> {
    /// Puts an item into a slot of the pool, if one is available, and maps it to the part that `L`
    /// finds in it.
    ///
    /// Returns `None` if the pool is full, and the error if the item does not have the part. Then
    /// the item is dropped, and the slot is given back.
    pub fn new<E>(storage: &mut P::Storage, item: T) -> (mapped: Option<
        Result<MappedBox<P, T, Then<P::Item, Whole, L>>, E>,
    >) where T: Into<P::Item>, for <'a>L: TryFrom<&'a mut P::Item, Error = E>
        requires
            old(storage).wf(),
            !old(storage).state().is_full() ==> forall|
                made: P::Item,
                whole: &mut P::Item,
                found: L,
            |
                #[trigger] call_ensures(T::into, (item,), made) && *whole == made
                    && #[trigger] call_ensures(L::try_from, (whole,), Ok::<L, E>(found))
                    ==> found.selects(*final(whole)),
        ensures
            final(storage).wf(),
            match mapped {
                Some(Ok(mapped)) => {
                    &&& old(storage).state().is_first_free(mapped.inner().slot() as int)
                    &&& mapped.is_live(final(storage).state())
                    &&& mapped.projection().first() == Whole
                    &&& exists|made: P::Item, whole: &mut P::Item, found: Result<L, E>|
                        {
                            &&& #[trigger] call_ensures(T::into, (item,), made)
                            &&& *whole == made
                            &&& #[trigger] call_ensures(L::try_from, (whole,), found)
                            &&& found == Ok::<L, E>(mapped.projection().second())
                            &&& final(storage).state() == old(storage).state().with_slot(
                                mapped.inner().slot() as int,
                                Slot::Holds(*final(whole)),
                            )
                        }
                },
                Some(Err(error)) => {
                    &&& !old(storage).state().is_full()
                    &&& exists|made: P::Item, whole: &mut P::Item, found: Result<L, E>|
                        {
                            &&& #[trigger] call_ensures(T::into, (item,), made)
                            &&& *whole == made
                            &&& #[trigger] call_ensures(L::try_from, (whole,), found)
                            &&& found == Err::<L, E>(error)
                            &&& final(storage).state()
                                == old(storage).state().all_woken().destroying(*final(whole))
                        }
                },
                None => {
                    &&& old(storage).state().is_full()
                    &&& final(storage).state() == old(storage).state()
                    &&& exists|made: P::Item| #[trigger]
                        call_ensures(T::into, (item,), made) && final(storage).unstored()
                            == old(storage).unstored().push(made)
                },
            },
            mapped is Some ==> final(storage).unstored() == old(storage).unstored(),
    {
        if let Some(b) = Box::<P>::new(storage, item.into()) {
            proof {
                crate::state::lemma_slot_rewritten(
                    old(storage).state(),
                    b.slot() as int,
                    b.item(storage.state()),
                );
            }
            let mapped = b.convert::<T, E, L>(storage);
            Some(mapped)
        } else {
            None
        }
    }
}

impl<P: Pool, T: 'static, L: Projection<P::Item, T>> MappedBox<P, T, L> {
    /// Waits until a slot in the pool is available, then puts the item into it and maps it to the
    /// part that `L` finds in it. The item is converted at the first poll.
    ///
    /// Gives `None` if every place for a waiting task is taken, and the error if the item does
    /// not have the part. Then the item is dropped, and the slot is given back.
    pub fn new_async(item: T) -> (future: MappedNewAsync<P, T, L>) where T: Into<P::Item>
        ensures
            future.given() == Some(item),
            future.place() is None,
    {
        MappedNewAsync { given: Some(item), converted: None, alloc: None, target: PhantomData }
    }

    /// Waits until a slot in the pool is available, then calls `make`, puts the result into the
    /// slot and maps it to the part that `L` finds in it.
    ///
    /// Gives `None` if every place for a waiting task is taken, and the error if the item does
    /// not have the part. Then the item is dropped, and the slot is given back.
    pub fn new_async_with<F: FnOnce() -> T>(make: F) -> (future: MappedNewAsyncWith<
        P,
        T,
        L,
        impl FnOnce() -> P::Item,
    >) where T: Into<P::Item>
        ensures
            future.is_pending(),
            future.place() is None,
            call_requires(make, ()) ==> call_requires(future.make(), ()),
            forall|made: P::Item| #[trigger]
                call_ensures(future.make(), (), made) ==> exists|item: T|
                    call_ensures(make, (), item) && #[trigger] call_ensures(T::into, (item,), made),
    {
        let make_item = move || -> (made: P::Item)
            requires
                call_requires(make, ()),
            ensures
                exists|item: T|
                    call_ensures(make, (), item) && #[trigger] call_ensures(T::into, (item,), made),
            { make().into() };
        MappedNewAsyncWith { inner: Box::<P>::new_async_with(make_item), target: PhantomData }
    }
}

/// A mapped box of a given item, which is made as soon as a slot is available.
///
/// It is driven with [`MappedNewAsync::poll`]. One that is not complete ends with
/// [`MappedNewAsync::cancel`].
#[must_use]
pub struct MappedNewAsync<P: Pool, T, L> {
    given: Option<T>,
    converted: Option<P::Item>,
    alloc: Option<AllocAsync>,
    target: PhantomData<L>,
}

impl<P: Pool, T: 'static + Into<P::Item>, L: Projection<P::Item, T>> MappedNewAsync<P, T, L> {
    /// What it was made with, before the first poll.
    pub closed spec fn given(&self) -> Option<T> {
        self.given
    }

    /// The item, from the first poll on.
    pub closed spec fn converted(&self) -> Option<P::Item> {
        self.converted
    }

    /// The box was not made yet, nor refused.
    pub open spec fn is_pending(&self) -> bool {
        self.given() is Some || self.converted() is Some
    }

    /// This may be the item that is put into the slot.
    pub open spec fn stores(&self, made: P::Item) -> bool {
        match self.given() {
            Some(item) => call_ensures(T::into, (item,), made),
            None => self.converted() == Some(made),
        }
    }

    /// The place for a waiting task that this has, if it has one.
    pub closed spec fn place(&self) -> Option<usize> {
        crate::boxed::place_of(self.alloc)
    }

    /// The place that this has, if it has one, is taken in this pool.
    pub open spec fn belongs_to(&self, state: PoolState<P::Item>) -> bool {
        state.has_taken(self.place())
    }

    /// Makes progress with the box.
    pub fn poll<E>(&mut self, storage: &mut P::Storage, waker: &Waker) -> (outcome: Poll<
        Option<Result<MappedBox<P, T, Then<P::Item, Whole, L>>, E>>,
    >) where for <'a>L: TryFrom<&'a mut P::Item, Error = E>
        requires
            old(storage).wf(),
            old(self).is_pending(),
            old(self).belongs_to(old(storage).state()),
            !old(storage).state().is_full() ==> forall|
                made: P::Item,
                whole: &mut P::Item,
                found: L,
            |
                #[trigger] old(self).stores(made) && *whole == made
                    && #[trigger] call_ensures(L::try_from, (whole,), Ok::<L, E>(found))
                    ==> found.selects(*final(whole)),
        ensures
            final(storage).wf(),
            final(self).belongs_to(final(storage).state()),
            final(self).is_pending() == (outcome is Pending),
            outcome is Pending ==> final(self).given() is None && old(self).stores(
                final(self).converted()->0,
            ),
            outcome matches Poll::Ready(None) ==> exists|made: P::Item| #[trigger]
                old(self).stores(made) && final(storage).unstored()
                    == old(storage).unstored().push(made),
            !(outcome matches Poll::Ready(None)) ==> final(storage).unstored()
                == old(storage).unstored(),
            match outcome {
                Poll::Ready(Some(Ok(mapped))) => {
                    &&& old(storage).state().is_first_free(mapped.inner().slot() as int)
                    &&& mapped.is_live(final(storage).state())
                    &&& mapped.projection().first() == Whole
                    &&& final(self).place() is None
                    &&& exists|made: P::Item, whole: &mut P::Item, found: Result<L, E>|
                        {
                            &&& #[trigger] old(self).stores(made)
                            &&& *whole == made
                            &&& #[trigger] call_ensures(L::try_from, (whole,), found)
                            &&& found == Ok::<L, E>(mapped.projection().second())
                            &&& final(storage).state() == old(storage).state().place_released(
                                old(self).place(),
                            ).with_slot(
                                mapped.inner().slot() as int,
                                Slot::Holds(*final(whole)),
                            )
                        }
                },
                Poll::Ready(Some(Err(error))) => {
                    &&& !old(storage).state().is_full()
                    &&& final(self).place() is None
                    &&& exists|made: P::Item, whole: &mut P::Item, found: Result<L, E>|
                        {
                            &&& #[trigger] old(self).stores(made)
                            &&& *whole == made
                            &&& #[trigger] call_ensures(L::try_from, (whole,), found)
                            &&& found == Err::<L, E>(error)
                            &&& final(storage).state() == old(storage).state().place_released(
                                old(self).place(),
                            ).all_woken().destroying(*final(whole))
                        }
                },
                Poll::Ready(None) => crate::state::poll_outcome(
                    old(storage).state(),
                    old(self).place(),
                    *waker,
                    final(storage).state(),
                    final(self).place(),
                    Poll::Ready(None),
                ),
                Poll::Pending => crate::state::poll_outcome(
                    old(storage).state(),
                    old(self).place(),
                    *waker,
                    final(storage).state(),
                    final(self).place(),
                    Poll::Pending,
                ),
            },
    {
        if let Some(item) = self.given.take() {
            self.converted = Some(item.into());
        }
        match poll_slot(&mut self.alloc, storage, waker) {
            Poll::Pending => Poll::Pending,
            Poll::Ready(slot) => match (slot, self.converted.take()) {
                (Some(slot), Some(item)) => {
                    storage.write(slot, item);
                    let b = Box::<P>::from_raw(slot);
                    proof {
                        let before = old(storage).state().place_released(old(self).place());
                        assert(storage.state() =~= before.with_slot(
                            slot as int,
                            Slot::Holds(item),
                        ));
                        crate::state::lemma_slot_rewritten(before, slot as int, item);
                        assert(old(self).stores(item));
                    }
                    Poll::Ready(Some(b.convert::<T, E, L>(storage)))
                },
                (None, Some(item)) => {
                    storage.drop_unstored(item);
                    assert(old(self).stores(item));
                    Poll::Ready(None)
                },
                _ => Poll::Ready(None),
            },
        }
    }

    /// Ends this, whether or not it is complete, and gives up the place it has.
    pub fn cancel(self, storage: &mut P::Storage)
        requires
            old(storage).wf(),
            self.belongs_to(old(storage).state()),
        ensures
            final(storage).wf(),
            final(storage).state() == old(storage).state().place_released(self.place()),
            final(storage).unstored() == (match self.converted() {
                Some(item) => old(storage).unstored().push(item),
                None => old(storage).unstored(),
            }),
    {
        if let Some(item) = self.converted {
            storage.drop_unstored(item);
        }
        if let Some(alloc) = self.alloc {
            storage.drop_alloc(alloc);
        }
    }
}

/// A mapped box of an item that a closure makes, which is made as soon as a slot is available.
///
/// It is driven with [`MappedNewAsyncWith::poll`]. One that is not complete ends with
/// [`MappedNewAsyncWith::cancel`].
#[must_use]
pub struct MappedNewAsyncWith<P: Pool, T, L, F> {
    inner: NewAsync<P, F>,
    target: PhantomData<(T, L)>,
}

impl<
    P: Pool,
    T: 'static,
    L: Projection<P::Item, T>,
    F: FnOnce() -> P::Item,
> MappedNewAsyncWith<P, T, L, F> {
    /// The box was not made yet, nor refused.
    pub closed spec fn is_pending(&self) -> bool {
        self.inner.is_pending()
    }

    /// What makes the item.
    pub closed spec fn make(&self) -> F {
        self.inner.make()
    }

    /// The place for a waiting task that this has, if it has one.
    pub closed spec fn place(&self) -> Option<usize> {
        self.inner.place()
    }

    /// The place that this has, if it has one, is taken in this pool.
    pub open spec fn belongs_to(&self, state: PoolState<P::Item>) -> bool {
        state.has_taken(self.place())
    }

    /// Makes progress with the box. What makes the item is called when there is a slot for it, and
    /// not before.
    pub fn poll<E>(&mut self, storage: &mut P::Storage, waker: &Waker) -> (outcome: Poll<
        Option<Result<MappedBox<P, T, Then<P::Item, Whole, L>>, E>>,
    >) where for <'a>L: TryFrom<&'a mut P::Item, Error = E>
        requires
            old(storage).wf(),
            old(self).is_pending(),
            old(self).belongs_to(old(storage).state()),
            !old(storage).state().is_full() ==> call_requires(old(self).make(), ()),
            !old(storage).state().is_full() ==> forall|
                made: P::Item,
                whole: &mut P::Item,
                found: L,
            |
                #[trigger] call_ensures(old(self).make(), (), made) && *whole == made
                    && #[trigger] call_ensures(L::try_from, (whole,), Ok::<L, E>(found))
                    ==> found.selects(*final(whole)),
        ensures
            final(storage).wf(),
            final(self).belongs_to(final(storage).state()),
            final(self).is_pending() == (outcome is Pending),
            outcome is Pending ==> final(self).make() == old(self).make(),
            final(storage).unstored() == old(storage).unstored(),
            match outcome {
                Poll::Ready(Some(Ok(mapped))) => {
                    &&& old(storage).state().is_first_free(mapped.inner().slot() as int)
                    &&& mapped.is_live(final(storage).state())
                    &&& mapped.projection().first() == Whole
                    &&& final(self).place() is None
                    &&& exists|made: P::Item, whole: &mut P::Item, found: Result<L, E>|
                        {
                            &&& #[trigger] call_ensures(old(self).make(), (), made)
                            &&& *whole == made
                            &&& #[trigger] call_ensures(L::try_from, (whole,), found)
                            &&& found == Ok::<L, E>(mapped.projection().second())
                            &&& final(storage).state() == old(storage).state().place_released(
                                old(self).place(),
                            ).with_slot(
                                mapped.inner().slot() as int,
                                Slot::Holds(*final(whole)),
                            )
                        }
                },
                Poll::Ready(Some(Err(error))) => {
                    &&& !old(storage).state().is_full()
                    &&& final(self).place() is None
                    &&& exists|made: P::Item, whole: &mut P::Item, found: Result<L, E>|
                        {
                            &&& #[trigger] call_ensures(old(self).make(), (), made)
                            &&& *whole == made
                            &&& #[trigger] call_ensures(L::try_from, (whole,), found)
                            &&& found == Err::<L, E>(error)
                            &&& final(storage).state() == old(storage).state().place_released(
                                old(self).place(),
                            ).all_woken().destroying(*final(whole))
                        }
                },
                Poll::Ready(None) => crate::state::poll_outcome(
                    old(storage).state(),
                    old(self).place(),
                    *waker,
                    final(storage).state(),
                    final(self).place(),
                    Poll::Ready(None),
                ),
                Poll::Pending => crate::state::poll_outcome(
                    old(storage).state(),
                    old(self).place(),
                    *waker,
                    final(storage).state(),
                    final(self).place(),
                    Poll::Pending,
                ),
            },
    {
        match self.inner.poll(storage, waker) {
            Poll::Ready(Some(b)) => {
                proof {
                    crate::state::lemma_slot_rewritten(
                        old(storage).state().place_released(old(self).place()),
                        b.slot() as int,
                        b.item(storage.state()),
                    );
                }
                Poll::Ready(Some(b.convert::<T, E, L>(storage)))
            },
            Poll::Ready(None) => Poll::Ready(None),
            Poll::Pending => Poll::Pending,
        }
    }

    /// Ends this, whether or not it is complete, and gives up the place it has.
    pub fn cancel(self, storage: &mut P::Storage)
        requires
            old(storage).wf(),
            self.belongs_to(old(storage).state()),
        ensures
            final(storage).wf(),
            final(storage).state() == old(storage).state().place_released(self.place()),
            final(storage).unstored() == old(storage).unstored(),
    {
        self.inner.cancel(storage)
    }
}

/// Mapping of boxes.
pub trait BoxExt<P: Pool, T: 'static>: Sized {
    /// Says where in the item the `T` is that is mapped.
    type Base: Projection<P::Item, T>;

    /// The box that is mapped.
    spec fn whole(&self) -> Box<P>;

    /// Where in the item the `T` is that is mapped.
    spec fn base(&self) -> Self::Base;

    /// The box, and where in its item the `T` is.
    fn into_parts(self) -> (parts: (Box<P>, Self::Base))
        ensures
            parts.0 == self.whole(),
            parts.1 == self.base(),
    ;

    /// Back to the box.
    fn into_box(self) -> (b: Box<P>)
        ensures
            b == self.whole(),
    ;

    /// Maps to a part of what is shown.
    ///
    /// `mapper` is called once, may change what is shown, and returns where in it the part is.
    fn map<M: 'static + ?Sized, L: Projection<T, M>, F: FnOnce(&mut T) -> L>(
        self,
        storage: &mut P::Storage,
        mapper: F,
    ) -> (mapped: MappedBox<P, M, Then<T, Self::Base, L>>)
        requires
            old(storage).wf(),
            shows(self.whole(), self.base(), old(storage).state()),
            forall|part: &mut T|
                *part == *shown(self.whole(), self.base(), old(storage).state())
                    ==> #[trigger] call_requires(mapper, (part,)),
            forall|part: &mut T, found: L|
                *part == *shown(self.whole(), self.base(), old(storage).state())
                    && #[trigger] call_ensures(mapper, (part,), found) ==> found.selects(
                    *final(part),
                ),
        ensures
            final(storage).wf(),
            mapped.inner() == self.whole(),
            mapped.is_live(final(storage).state()),
            mapped.projection().first() == self.base(),
            exists|part: &mut T|
                {
                    &&& *part == *shown(self.whole(), self.base(), old(storage).state())
                    &&& #[trigger] call_ensures(mapper, (part,), mapped.projection().second())
                    &&& self.base().fits(self.whole().item(old(storage).state()), &*final(part))
                    &&& final(storage).state() == with_shown(
                        self.whole(),
                        self.base(),
                        old(storage).state(),
                        &*final(part),
                    )
                },
            final(storage).unstored() == old(storage).unstored(),
    {
        let fallible = |part: &mut T| -> (found: Result<L, ()>)
            requires
                forall|same: &mut T| *same == *part ==> #[trigger] call_requires(mapper, (same,)),
            ensures
                exists|same: &mut T, projection: L|
                    {
                        &&& *same == *old(part)
                        &&& *final(same) == *final(part)
                        &&& #[trigger] call_ensures(mapper, (same,), projection)
                        &&& found == Ok::<L, ()>(projection)
                    },
            { Ok(mapper(part)) };
        match self.try_map(storage, fallible) {
            Ok(mapped) => mapped,
            Err(_) => vstd::pervasive::unreached(),
        }
    }

    /// Tries to map to a part of what is shown, and returns an error if mapping fails.
    ///
    /// `mapper` is called once, may change what is shown, and returns where in it the part is.
    /// If it fails, the box is dropped.
    fn try_map<M: 'static + ?Sized, E, L: Projection<T, M>, F: FnOnce(&mut T) -> Result<L, E>>(
        self,
        storage: &mut P::Storage,
        mapper: F,
    ) -> (mapped: Result<MappedBox<P, M, Then<T, Self::Base, L>>, E>)
        requires
            old(storage).wf(),
            shows(self.whole(), self.base(), old(storage).state()),
            forall|part: &mut T|
                *part == *shown(self.whole(), self.base(), old(storage).state())
                    ==> #[trigger] call_requires(mapper, (part,)),
            forall|part: &mut T, found: L|
                *part == *shown(self.whole(), self.base(), old(storage).state())
                    && #[trigger] call_ensures(mapper, (part,), Ok::<L, E>(found))
                    ==> found.selects(*final(part)),
        ensures
            final(storage).wf(),
            match mapped {
                Ok(mapped) => {
                    &&& mapped.inner() == self.whole()
                    &&& mapped.is_live(final(storage).state())
                    &&& mapped.projection().first() == self.base()
                    &&& exists|part: &mut T, found: Result<L, E>|
                        {
                            &&& *part == *shown(self.whole(), self.base(), old(storage).state())
                            &&& #[trigger] call_ensures(mapper, (part,), found)
                            &&& found == Ok::<L, E>(mapped.projection().second())
                            &&& self.base().fits(
                                self.whole().item(old(storage).state()),
                                &*final(part),
                            )
                            &&& final(storage).state() == with_shown(
                                self.whole(),
                                self.base(),
                                old(storage).state(),
                                &*final(part),
                            )
                        }
                },
                Err(error) => {
                    &&& exists|part: &mut T, found: Result<L, E>|
                        {
                            &&& *part == *shown(self.whole(), self.base(), old(storage).state())
                            &&& #[trigger] call_ensures(mapper, (part,), found)
                            &&& found == Err::<L, E>(error)
                            &&& self.base().fits(
                                self.whole().item(old(storage).state()),
                                &*final(part),
                            )
                            &&& final(storage).state() == with_shown(
                                self.whole(),
                                self.base(),
                                old(storage).state(),
                                &*final(part),
                            ).dropped(self.whole().slot() as int)
                        }
                },
            },
            final(storage).unstored() == old(storage).unstored(),
    {
        let (mut b, base) = self.into_parts();
        let part = base.project_mut(b.deref_mut(storage));
        let found = mapper(part);
        match found {
            Ok(found) => {
                Ok(MappedBox { inner: b, projection: Then::new(base, found), target: PhantomData })
            },
            Err(error) => {
                b.drop(storage);
                Err(error)
            },
        }
    }

    /// Maps to a part of what is shown, if it has one where `L` finds it, and drops the box if it
    /// does not.
    fn convert<M: 'static + ?Sized, E, L: Projection<T, M>>(
        self,
        storage: &mut P::Storage,
    ) -> (mapped: Result<MappedBox<P, M, Then<T, Self::Base, L>>, E>) where
        for <'a>L: TryFrom<&'a mut T, Error = E>,

        requires
            old(storage).wf(),
            shows(self.whole(), self.base(), old(storage).state()),
            forall|part: &mut T, found: L|
                *part == *shown(self.whole(), self.base(), old(storage).state())
                    && #[trigger] call_ensures(L::try_from, (part,), Ok::<L, E>(found))
                    ==> found.selects(*final(part)),
        ensures
            final(storage).wf(),
            match mapped {
                Ok(mapped) => {
                    &&& mapped.inner() == self.whole()
                    &&& mapped.is_live(final(storage).state())
                    &&& mapped.projection().first() == self.base()
                    &&& exists|part: &mut T, found: Result<L, E>|
                        {
                            &&& *part == *shown(self.whole(), self.base(), old(storage).state())
                            &&& #[trigger] call_ensures(L::try_from, (part,), found)
                            &&& found == Ok::<L, E>(mapped.projection().second())
                            &&& self.base().fits(
                                self.whole().item(old(storage).state()),
                                &*final(part),
                            )
                            &&& final(storage).state() == with_shown(
                                self.whole(),
                                self.base(),
                                old(storage).state(),
                                &*final(part),
                            )
                        }
                },
                Err(error) => {
                    &&& exists|part: &mut T, found: Result<L, E>|
                        {
                            &&& *part == *shown(self.whole(), self.base(), old(storage).state())
                            &&& #[trigger] call_ensures(L::try_from, (part,), found)
                            &&& found == Err::<L, E>(error)
                            &&& self.base().fits(
                                self.whole().item(old(storage).state()),
                                &*final(part),
                            )
                            &&& final(storage).state() == with_shown(
                                self.whole(),
                                self.base(),
                                old(storage).state(),
                                &*final(part),
                            ).dropped(self.whole().slot() as int)
                        }
                },
            },
            final(storage).unstored() == old(storage).unstored(),
    {
        let mapper = |part: &mut T| -> (found: Result<L, E>)
            ensures
                exists|same: &mut T|
                    {
                        &&& *same == *old(part)
                        &&& *final(same) == *final(part)
                        &&& #[trigger] call_ensures(L::try_from, (same,), found)
                    },
            { L::try_from(part) };
        self.try_map(storage, mapper)
    }
}

impl<P: Pool> BoxExt<P, P::Item> for Box<P> {
    type Base = Whole;

    open spec fn whole(&self) -> Box<P> {
        *self
    }

    open spec fn base(&self) -> Whole {
        Whole
    }

    fn into_parts(self) -> (parts: (Box<P>, Whole))
        ensures
            parts.0 == self,
    {
        (self, Whole)
    }

    fn into_box(self) -> (b: Box<P>)
        ensures
            b == self,
    {
        self
    }
}

impl<P: Pool, T: 'static, L: Projection<P::Item, T>> BoxExt<P, T> for MappedBox<P, T, L> {
    type Base = L;

    open spec fn whole(&self) -> Box<P> {
        self.inner()
    }

    open spec fn base(&self) -> L {
        self.projection()
    }

    fn into_parts(self) -> (parts: (Box<P>, L))
        ensures
            parts.0 == self.inner(),
            parts.1 == self.projection(),
    {
        (self.inner, self.projection)
    }

    fn into_box(self) -> (b: Box<P>)
        ensures
            b == self.inner(),
    {
        self.inner
    }
}

/// Back to the box.
impl<P: Pool, T: 'static + ?Sized, L: Projection<P::Item, T>> From<MappedBox<P, T, L>> for Box<P> {
    fn from(mapped: MappedBox<P, T, L>) -> (b: Box<P>)
        ensures
            b == mapped.inner(),
    {
        mapped.inner
    }
}

impl<P: Pool, T: 'static + ?Sized, L: Projection<P::Item, T>> FromSpecImpl<MappedBox<P, T, L>> for Box<P> {
    open spec fn obeys_from_spec() -> bool {
        true
    }

    open spec fn from_spec(mapped: MappedBox<P, T, L>) -> Box<P> {
        mapped.inner()
    }
}

} // verus!
