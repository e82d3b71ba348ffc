//! What each operation does, slot by slot and place by place.
use vstd::multiset::Multiset;
use vstd::prelude::*;
use vstd::std_specs::convert::FromSpec;

use core::task::Waker;

use crate::boxed::{Box, NewAsync, Pool};
use crate::laws::{Event, Usage, Waiting};
use crate::mapped::{BoxExt, MappedBox, MappedNewAsync, MappedNewAsyncWith};
use crate::projection::{Projection, Then, Whole};
use crate::state::{Poll, PoolState, Slot};
use crate::storage::{AllocAsync, PoolStorage, PoolStorageImpl};

verus! {

/// In a pool that was just made every slot is free, nobody waits or was woken, and there were no
/// items yet.
pub proof fn law_fresh_pool<T>(slots: nat, waiters: nat)
    ensures
        PoolState::<T>::empty(slots, waiters).slots.len() == slots,
        PoolState::<T>::empty(slots, waiters).waiters.len() == waiters,
        forall|i: int|
            0 <= i < slots ==> #[trigger] PoolState::<T>::empty(slots, waiters).slots[i] is Free,
        forall|i: int|
            0 <= i < waiters ==> {
                let waiter = #[trigger] PoolState::<T>::empty(slots, waiters).waiters[i];
                !waiter.taken && waiter.registered is None && waiter.woken.len() == 0
            },
        PoolState::<T>::empty(slots, waiters).left.len() == 0,
        PoolState::<T>::empty(slots, waiters).destroyed.len() == 0,
{
}

/// An allocation at once takes the lowest free slot and nothing else, and is refused only if no
/// slot is free.
pub proof fn law_alloc_effect<T>(
    before: PoolState<T>,
    after: PoolState<T>,
    result: Option<usize>,
)
    requires
        crate::state::alloc_outcome(before, after, result),
    ensures
        result is None <==> (forall|i: int|
            0 <= i < before.slots.len() ==> #[trigger] before.slots[i] !is Free),
        result is None ==> after == before,
        result matches Some(n) ==> {
            &&& n < before.slots.len()
            &&& before.slots[n as int] is Free
            &&& forall|i: int| 0 <= i < n ==> #[trigger] before.slots[i] !is Free
            &&& after.slots.len() == before.slots.len()
            &&& after.slots[n as int] is Claimed
            &&& forall|i: int|
                0 <= i < before.slots.len() && i != n ==> #[trigger] after.slots[i]
                    == before.slots[i]
            &&& after.waiters == before.waiters
            &&& after.left == before.left
            &&& after.destroyed == before.destroyed
        },
{
}

/// A box that is made at once holds the item, in a slot that was free, and leaves everything else
/// as it was: no box that holds an item has its slot, and each still holds what it held. None is
/// made only if no slot is free.
pub proof fn law_new_effect<P: Pool>(
    before: PoolState<P::Item>,
    item: P::Item,
    after: PoolState<P::Item>,
    boxed: Option<Box<P>>,
)
    requires
        crate::state::put_outcome(before, item, after, crate::boxed::slot_of(boxed)),
    ensures
        boxed is None <==> (forall|i: int|
            0 <= i < before.slots.len() ==> #[trigger] before.slots[i] !is Free),
        boxed is None ==> after == before,
        boxed matches Some(b) ==> {
            &&& b.slot() < before.slots.len()
            &&& before.slots[b.slot() as int] is Free
            &&& forall|i: int| 0 <= i < b.slot() ==> #[trigger] before.slots[i] !is Free
            &&& after.slots.len() == before.slots.len()
            &&& after.slots[b.slot() as int] == Slot::Holds(item)
            &&& forall|i: int|
                0 <= i < before.slots.len() && i != b.slot() ==> #[trigger] after.slots[i]
                    == before.slots[i]
            &&& after.waiters == before.waiters
            &&& after.left == before.left
            &&& after.destroyed == before.destroyed
            &&& b.is_live(after)
            &&& b.item(after) == item
            &&& forall|other: Box<P>| #[trigger]
                other.is_live(before) ==> {
                    &&& other.slot() != b.slot()
                    &&& other.is_live(after)
                    &&& other.item(after) == other.item(before)
                }
        },
{
}

/// One poll of an allocation gives the lowest free slot and takes it, if there is a free one. If
/// not, the allocation waits with this waker in the place it has, or in the lowest one that is not
/// taken, and is refused only if it has none and every one is taken. Everything else stays as it
/// was.
pub proof fn law_poll_alloc_effect<T>(
    before: PoolState<T>,
    place: Option<usize>,
    waker: Waker,
    after: PoolState<T>,
    place_after: Option<usize>,
    result: Poll<Option<usize>>,
)
    requires
        crate::state::poll_outcome(before, place, waker, after, place_after, result),
        place matches Some(i) ==> i < before.waiters.len() && before.waiters[i as int].taken,
    ensures
        result matches Poll::Ready(Some(_)) <==> !(forall|i: int|
            0 <= i < before.slots.len() ==> #[trigger] before.slots[i] !is Free),
        result matches Poll::Ready(Some(n)) ==> {
            &&& n < before.slots.len()
            &&& before.slots[n as int] is Free
            &&& forall|i: int| 0 <= i < n ==> #[trigger] before.slots[i] !is Free
            &&& after.slots.len() == before.slots.len()
            &&& after.slots[n as int] is Claimed
            &&& forall|i: int|
                0 <= i < before.slots.len() && i != n ==> #[trigger] after.slots[i]
                    == before.slots[i]
            &&& after.waiters == before.waiters
            &&& after.left == before.left
            &&& after.destroyed == before.destroyed
            &&& place_after == place
        },
        result matches Poll::Ready(None) ==> {
            &&& place is None
            &&& forall|i: int| 0 <= i < before.waiters.len() ==> #[trigger] before.waiters[i].taken
            &&& after == before
            &&& place_after is None
        },
        result is Pending ==> waits(before, place, waker, after, place_after),
{
}

/// Something that waits for a slot waits with this waker in the place it has, or in the lowest one
/// that is not taken. Everything else stays as it was.
pub open spec fn waits<T>(
    before: PoolState<T>,
    place: Option<usize>,
    waker: Waker,
    after: PoolState<T>,
    place_after: Option<usize>,
) -> bool {
    &&& place_after is Some
    &&& place is Some ==> place_after == place
    &&& place is None ==> {
        &&& !before.waiters[place_after->0 as int].taken
        &&& forall|i: int|
            0 <= i < place_after->0 ==> #[trigger] before.waiters[i].taken
    }
    &&& place_after->0 < before.waiters.len()
    &&& after.slots == before.slots
    &&& after.waiters.len() == before.waiters.len()
    &&& after.waiters[place_after->0 as int].taken
    &&& after.waiters[place_after->0 as int].registered == Some(waker)
    &&& after.waiters[place_after->0 as int].woken == before.waiters[place_after->0 as int].woken
    &&& forall|i: int|
        0 <= i < before.waiters.len() && i != place_after->0 ==> #[trigger] after.waiters[i]
            == before.waiters[i]
    &&& after.left == before.left
    &&& after.destroyed == before.destroyed
}

/// A place that something had is not taken any more. Everything else stays as it was.
pub open spec fn gives_up<T>(
    before: PoolState<T>,
    place: Option<usize>,
    after: PoolState<T>,
) -> bool {
    &&& after.waiters.len() == before.waiters.len()
    &&& place matches Some(p) ==> {
        &&& !after.waiters[p as int].taken
        &&& after.waiters[p as int].registered == before.waiters[p as int].registered
        &&& after.waiters[p as int].woken == before.waiters[p as int].woken
    }
    &&& forall|i: int|
        0 <= i < before.waiters.len() && (place matches Some(p) ==> i != p)
            ==> #[trigger] after.waiters[i] == before.waiters[i]
}

/// A box that one poll gives holds what the closure returned, in a slot that was free, and leaves
/// everything else as it was but the place that the operation had, which is given up: no box that
/// holds an item has its slot, and each still holds what it held. When there is no free slot, the
/// operation waits, or is refused if it has no place and every one is taken.
pub proof fn law_new_async_effect<P: Pool, F: FnOnce() -> P::Item>(
    before: PoolState<P::Item>,
    place: Option<usize>,
    make: F,
    waker: Waker,
    after: PoolState<P::Item>,
    place_after: Option<usize>,
    outcome: Poll<Option<Box<P>>>,
)
    requires
        crate::boxed::new_outcome(before, place, make, waker, after, place_after, outcome),
        place matches Some(i) ==> i < before.waiters.len() && before.waiters[i as int].taken,
    ensures
        outcome matches Poll::Ready(Some(_)) <==> !(forall|i: int|
            0 <= i < before.slots.len() ==> #[trigger] before.slots[i] !is Free),
        outcome matches Poll::Ready(Some(b)) ==> {
            &&& b.slot() < before.slots.len()
            &&& before.slots[b.slot() as int] is Free
            &&& forall|i: int| 0 <= i < b.slot() ==> #[trigger] before.slots[i] !is Free
            &&& after.slots.len() == before.slots.len()
            &&& after.slots[b.slot() as int] is Holds
            &&& call_ensures(make, (), after.slots[b.slot() as int]->Holds_0)
            &&& forall|i: int|
                0 <= i < before.slots.len() && i != b.slot() ==> #[trigger] after.slots[i]
                    == before.slots[i]
            &&& gives_up(before, place, after)
            &&& after.left == before.left
            &&& after.destroyed == before.destroyed
            &&& place_after is None
            &&& b.is_live(after)
            &&& call_ensures(make, (), b.item(after))
            &&& forall|other: Box<P>| #[trigger]
                other.is_live(before) ==> {
                    &&& other.slot() != b.slot()
                    &&& other.is_live(after)
                    &&& other.item(after) == other.item(before)
                }
        },
        outcome matches Poll::Ready(None) ==> {
            &&& place is None
            &&& forall|i: int| 0 <= i < before.waiters.len() ==> #[trigger] before.waiters[i].taken
            &&& after == before
            &&& place_after is None
        },
        outcome is Pending ==> waits(before, place, waker, after, place_after),
{
}

/// Giving back a slot makes it free, wakes every registered waker once, and leaves everything else
/// as it was. An item that is still in the slot is left behind.
pub proof fn law_free_effect<T>(before: PoolState<T>, n: int)
    requires
        0 <= n < before.slots.len(),
        before.slots[n] !is Free,
    ensures
        before.freed(n).slots.len() == before.slots.len(),
        before.freed(n).slots[n] is Free,
        forall|i: int|
            0 <= i < before.slots.len() && i != n ==> #[trigger] before.freed(n).slots[i]
                == before.slots[i],
        wakes_all(before, before.freed(n)),
        before.slots[n] is Claimed ==> before.freed(n).left == before.left,
        before.slots[n] matches Slot::Holds(item) ==> before.freed(n).left == before.left.push(
            item,
        ),
        before.freed(n).destroyed == before.destroyed,
{
}

/// Every registered waker is woken once more, and stays registered.
pub open spec fn wakes_all<T>(before: PoolState<T>, after: PoolState<T>) -> bool {
    &&& after.waiters.len() == before.waiters.len()
    &&& forall|i: int|
        0 <= i < before.waiters.len() ==> {
            &&& (#[trigger] after.waiters[i]).taken == before.waiters[i].taken
            &&& after.waiters[i].registered == before.waiters[i].registered
            &&& before.waiters[i].registered is None ==> after.waiters[i].woken
                == before.waiters[i].woken
            &&& before.waiters[i].registered matches Some(waker) ==> after.waiters[i].woken
                == before.waiters[i].woken.push(waker)
        }
}

/// Dropping the item in a slot takes it out of the slot, adds it to those that were dropped, and
/// leaves everything else as it was.
pub proof fn law_drop_in_place_effect<T>(before: PoolState<T>, n: int, item: T)
    requires
        0 <= n < before.slots.len(),
        before.slots[n] == Slot::Holds(item),
    ensures
        before.item_dropped(n).slots.len() == before.slots.len(),
        before.item_dropped(n).slots[n] is Claimed,
        forall|i: int|
            0 <= i < before.slots.len() && i != n ==> #[trigger] before.item_dropped(n).slots[i]
                == before.slots[i],
        before.item_dropped(n).waiters == before.waiters,
        before.item_dropped(n).left == before.left,
        before.item_dropped(n).destroyed == before.destroyed.push(item),
{
}

/// Dropping a box, whichever slot it has, drops its item, makes its slot free, wakes every
/// registered waker once, and leaves every other box as it was. Nothing is left behind.
pub proof fn law_drop_effect<P: Pool>(before: PoolState<P::Item>, b: Box<P>)
    requires
        b.is_live(before),
    ensures
        before.slots[b.slot() as int] matches Slot::Holds(item) && before.dropped(
            b.slot() as int,
        ).destroyed == before.destroyed.push(item),
        before.dropped(b.slot() as int).left == before.left,
        before.dropped(b.slot() as int).slots.len() == before.slots.len(),
        before.dropped(b.slot() as int).slots[b.slot() as int] is Free,
        forall|i: int|
            0 <= i < before.slots.len() && i != b.slot() ==> #[trigger] before.dropped(
                b.slot() as int,
            ).slots[i] == before.slots[i],
        wakes_all(before, before.dropped(b.slot() as int)),
        forall|other: Box<P>| #[trigger]
            other.is_live(before) && other.slot() != b.slot() ==> {
                &&& other.is_live(before.dropped(b.slot() as int))
                &&& other.item(before.dropped(b.slot() as int)) == other.item(before)
            },
{
}

/// Ending an operation that waits gives up its place, and leaves everything else as it was.
pub proof fn law_cancel_effect<T>(before: PoolState<T>, place: Option<usize>)
    requires
        place matches Some(i) ==> i < before.waiters.len() && before.waiters[i as int].taken,
    ensures
        before.place_released(place).slots == before.slots,
        gives_up(before, place, before.place_released(place)),
        before.place_released(place).left == before.left,
        before.place_released(place).destroyed == before.destroyed,
{
}

/// Writing to a slot changes what it holds, and nothing else.
pub proof fn law_write_effect<T>(before: PoolState<T>, n: int, slot: Slot<T>)
    requires
        0 <= n < before.slots.len(),
    ensures
        before.with_slot(n, slot).slots.len() == before.slots.len(),
        before.with_slot(n, slot).slots[n] == slot,
        forall|i: int|
            0 <= i < before.slots.len() && i != n ==> #[trigger] before.with_slot(n, slot).slots[i]
                == before.slots[i],
        before.with_slot(n, slot).waiters == before.waiters,
        before.with_slot(n, slot).left == before.left,
        before.with_slot(n, slot).destroyed == before.destroyed,
{
}

/// Waking everybody and dropping an item that is in no slot change no slot.
pub proof fn law_failed_mapping_effect<T>(before: PoolState<T>, item: T)
    ensures
        before.all_woken().destroying(item).slots == before.slots,
        wakes_all(before, before.all_woken().destroying(item)),
        before.all_woken().destroying(item).left == before.left,
        before.all_woken().destroying(item).destroyed == before.destroyed.push(item),
{
}

/// What the questions about a pool that the contracts ask come to.
pub proof fn law_questions<T>(state: PoolState<T>, n: int, place: Option<usize>)
    ensures
        state.is_full() <==> (forall|i: int|
            0 <= i < state.slots.len() ==> #[trigger] state.slots[i] !is Free),
        state.is_crowded() <==> (forall|i: int|
            0 <= i < state.waiters.len() ==> #[trigger] state.waiters[i].taken),
        state.is_first_free(n) <==> 0 <= n < state.slots.len() && state.slots[n] is Free && (forall|
            i: int,
        |
            0 <= i < n ==> #[trigger] state.slots[i] !is Free),
        state.is_allocated(n) <==> 0 <= n < state.slots.len() && state.slots[n] !is Free,
        state.holds(n) <==> 0 <= n < state.slots.len() && state.slots[n] is Holds,
        state.holds(n) ==> state.slots[n] == Slot::Holds(state.item(n)),
        state.has_taken(place) <==> (place matches Some(i) ==> i < state.waiters.len()
            && state.waiters[i as int].taken),
{
}

/// A box holds what is in its slot, and is live exactly if there is something.
pub proof fn law_box_is_its_slot<P: Pool>(b: Box<P>, state: PoolState<P::Item>)
    ensures
        b.is_live(state) <==> b.slot() < state.slots.len() && state.slots[b.slot() as int] is Holds,
        b.is_live(state) ==> state.slots[b.slot() as int] == Slot::Holds(b.item(state)),
        crate::boxed::slot_of(Some(b)) == Some(b.slot()),
        crate::boxed::slot_of::<P>(None) is None,
{
}

/// What waits is in order with a pool exactly if the place that it has, if it has one, is taken
/// there.
pub proof fn law_places<P: Pool, F: FnOnce() -> P::Item>(
    alloc: AllocAsync,
    future: NewAsync<P, F>,
    state: PoolState<P::Item>,
)
    ensures
        crate::boxed::place_of(Some(alloc)) == alloc.place(),
        crate::boxed::place_of(None) is None,
        alloc.belongs_to(state) <==> (alloc.place() matches Some(i) ==> i < state.waiters.len()
            && state.waiters[i as int].taken),
        future.belongs_to(state) <==> (future.place() matches Some(i) ==> i < state.waiters.len()
            && state.waiters[i as int].taken),
{
}

/// The same of a mapped box that a closure makes.
pub proof fn law_mapped_places<
    P: Pool,
    T: 'static,
    L: Projection<P::Item, T>,
    F: FnOnce() -> P::Item,
>(future: MappedNewAsyncWith<P, T, L, F>, state: PoolState<P::Item>)
    ensures
        future.belongs_to(state) <==> (future.place() matches Some(i) ==> i < state.waiters.len()
            && state.waiters[i as int].taken),
{
}

/// What a mapped box shows is the part that its projection selects of the item in its box. Mapping
/// it further goes on from there, and turning it back, in either way, gives its box.
pub proof fn law_mapped_box_is_its_box<P: Pool, T: 'static, L: Projection<P::Item, T>>(
    mapped: MappedBox<P, T, L>,
    state: PoolState<P::Item>,
)
    ensures
        mapped.is_live(state) <==> mapped.inner().slot() < state.slots.len()
            && state.slots[mapped.inner().slot() as int] is Holds && mapped.projection().selects(
            state.slots[mapped.inner().slot() as int]->Holds_0,
        ),
        mapped.is_live(state) ==> *mapped.value(state) == *mapped.projection().part(
            state.slots[mapped.inner().slot() as int]->Holds_0,
        ),
        <MappedBox<P, T, L> as BoxExt<P, T>>::whole(&mapped) == mapped.inner(),
        <MappedBox<P, T, L> as BoxExt<P, T>>::base(&mapped) == mapped.projection(),
        crate::mapped::shows(
            <MappedBox<P, T, L> as BoxExt<P, T>>::whole(&mapped),
            <MappedBox<P, T, L> as BoxExt<P, T>>::base(&mapped),
            state,
        ) == mapped.is_live(state),
        mapped.is_live(state) ==> *crate::mapped::shown(
            <MappedBox<P, T, L> as BoxExt<P, T>>::whole(&mapped),
            <MappedBox<P, T, L> as BoxExt<P, T>>::base(&mapped),
            state,
        ) == *mapped.value(state),
{
}

/// Converting a mapped box into a box gives the box that it was made of.
pub proof fn law_mapped_box_converts_back<
    P: Pool,
    T: 'static + ?Sized,
    L: Projection<P::Item, T>,
>(mapped: MappedBox<P, T, L>)
    ensures
        <Box<P> as FromSpec<MappedBox<P, T, L>>>::obeys_from_spec(),
        <Box<P> as FromSpec<MappedBox<P, T, L>>>::from_spec(mapped) == mapped.inner(),
        <Box<P> as FromSpec<MappedBox<P, T, L>>>::from_spec(mapped).slot()
            == mapped.inner().slot(),
{
}

/// Mapping a box is mapping the whole item in that box.
pub proof fn law_box_maps_itself<P: Pool>(b: Box<P>, state: PoolState<P::Item>)
    ensures
        <Box<P> as BoxExt<P, P::Item>>::whole(&b) == b,
        crate::mapped::shows(
            <Box<P> as BoxExt<P, P::Item>>::whole(&b),
            <Box<P> as BoxExt<P, P::Item>>::base(&b),
            state,
        ) <==> b.slot() < state.slots.len() && state.slots[b.slot() as int] is Holds,
        b.is_live(state) ==> *crate::mapped::shown(
            <Box<P> as BoxExt<P, P::Item>>::whole(&b),
            <Box<P> as BoxExt<P, P::Item>>::base(&b),
            state,
        ) == state.slots[b.slot() as int]->Holds_0,
{
}

/// Changing what is shown of a box changes the part that the projection selects of the item in that
/// box, and nothing else.
pub proof fn law_change_shown_effect<P: Pool, T: 'static + ?Sized, L: Projection<P::Item, T>>(
    b: Box<P>,
    projection: L,
    before: PoolState<P::Item>,
    part: &T,
)
    requires
        b.slot() < before.slots.len(),
        before.slots[b.slot() as int] is Holds,
        projection.selects(before.slots[b.slot() as int]->Holds_0),
    ensures
        crate::mapped::shows(b, projection, before),
        crate::mapped::shown(b, projection, before) == projection.part(
            before.slots[b.slot() as int]->Holds_0,
        ),
        crate::mapped::with_shown(b, projection, before, part).slots.len() == before.slots.len(),
        crate::mapped::with_shown(b, projection, before, part).slots[b.slot() as int]
            == Slot::Holds(
            projection.with_part(before.slots[b.slot() as int]->Holds_0, part),
        ),
        forall|i: int|
            0 <= i < before.slots.len() && i != b.slot() ==> #[trigger] crate::mapped::with_shown(
                b,
                projection,
                before,
                part,
            ).slots[i] == before.slots[i],
        crate::mapped::with_shown(b, projection, before, part).waiters == before.waiters,
        crate::mapped::with_shown(b, projection, before, part).left == before.left,
        crate::mapped::with_shown(b, projection, before, part).destroyed == before.destroyed,
{
}

/// The whole of an item is the item, and a part of a part is the second part of the first.
pub proof fn law_projections<
    S,
    T: 'static,
    M: ?Sized,
    A: Projection<S, T>,
    B: Projection<T, M>,
>(both: Then<T, A, B>, item: S, other: S, part: &M)
    ensures
        <Whole as Projection<S, S>>::selects(&Whole, item),
        *<Whole as Projection<S, S>>::part(&Whole, item) == item,
        <Whole as Projection<S, S>>::with_part(&Whole, item, &other) == other,
        <Whole as Projection<S, S>>::fits(&Whole, item, &other),
        both.selects(item) <==> both.first().selects(item) && both.second().selects(
            *both.first().part(item),
        ),
        both.part(item) == both.second().part(*both.first().part(item)),
        both.with_part(item, part) == both.first().with_part(
            item,
            &both.second().with_part(*both.first().part(item), part),
        ),
        both.fits(item, part) <==> both.second().fits(*both.first().part(item), part)
            && both.first().fits(
            item,
            &both.second().with_part(*both.first().part(item), part),
        ),
        both.selects(item) && both.fits(item, part) ==> {
            let changed = both.with_part(item, part);
            &&& both.first().selects(changed)
            &&& *both.first().part(changed) == both.second().with_part(
                *both.first().part(item),
                part,
            )
            &&& both.part(changed) == part
        },
{
    if both.selects(item) && both.fits(item, part) {
        both.replacing(item, part, part);
        both.first().replacing(
            item,
            &both.second().with_part(*both.first().part(item), part),
            both.first().part(item),
        );
    }
}

/// What a mapped box that waits will put into its slot is what it was given, converted, and from
/// the first poll on the item that the conversion gave.
pub proof fn law_mapped_item<P: Pool, T: 'static + Into<P::Item>, L: Projection<P::Item, T>>(
    future: MappedNewAsync<P, T, L>,
    made: P::Item,
    state: PoolState<P::Item>,
)
    ensures
        future.given() matches Some(item) ==> (future.stores(made) <==> call_ensures(
            T::into,
            (item,),
            made,
        )),
        future.given() is None ==> (future.stores(made) <==> future.converted() == Some(made)),
        future.is_pending() <==> future.given() is Some || future.converted() is Some,
        future.belongs_to(state) <==> (future.place() matches Some(i) ==> i < state.waiters.len()
            && state.waiters[i as int].taken),
{
}

/// Making a box at once is the event of putting its item into its slot.
pub proof fn law_new_is_an_event<P: Pool>(
    before: Usage<P::Item>,
    item: P::Item,
    after: PoolState<P::Item>,
    boxed: Option<Box<P>>,
)
    requires
        crate::state::put_outcome(before.state, item, after, crate::boxed::slot_of(boxed)),
    ensures
        boxed matches Some(b) ==> before.step(
            Event::Put { item, slot: Some(b.slot()) },
            Usage { state: after, boxes: before.boxes.push(b.slot()), ..before },
        ),
        boxed is None ==> before.step(
            Event::Put { item, slot: None },
            Usage { state: after, ..before },
        ),
{
}

/// A poll of a box that waits is the event of polling for a slot for its item, and the slot is that
/// of the box.
pub proof fn law_poll_is_an_event<P: Pool, F: FnOnce() -> P::Item>(
    before: Usage<P::Item>,
    polled: Option<int>,
    make: F,
    waker: Waker,
    after: PoolState<P::Item>,
    place_after: Option<usize>,
    outcome: Poll<Option<Box<P>>>,
    item: P::Item,
)
    requires
        polled matches Some(k) ==> 0 <= k < before.waiting.len(),
        crate::boxed::new_outcome(
            before.state,
            match polled {
                Some(k) => Some(before.waiting[k].place),
                None => None,
            },
            make,
            waker,
            after,
            place_after,
            outcome,
        ),
    ensures
        outcome matches Poll::Ready(Some(b)) ==> before.step(
            Event::Poll {
                polled,
                waker,
                item: b.item(after),
                place_after,
                outcome: Poll::Ready(Some(b.slot())),
            },
            Usage {
                state: after,
                boxes: before.boxes.push(b.slot()),
                waiting: match polled {
                    Some(k) => before.waiting.remove(k),
                    None => before.waiting,
                },
            },
        ),
        outcome matches Poll::Ready(None) ==> before.step(
            Event::Poll { polled, waker, item, place_after, outcome: Poll::Ready(None) },
            Usage { state: after, ..before },
        ),
        outcome is Pending ==> before.step(
            Event::Poll { polled, waker, item, place_after, outcome: Poll::Pending },
            Usage {
                state: after,
                boxes: before.boxes,
                waiting: match polled {
                    Some(k) => before.waiting.update(
                        k,
                        before.registered(place_after->0, waker),
                    ),
                    None => before.waiting.push(before.registered(place_after->0, waker)),
                },
            },
        ),
{
}

/// Dropping a box is the event of dropping the box with its slot.
pub proof fn law_drop_is_an_event<P: Pool>(before: Usage<P::Item>, boxed: int, b: Box<P>)
    requires
        0 <= boxed < before.boxes.len(),
        before.boxes[boxed] == b.slot(),
    ensures
        before.step(
            Event::Drop { boxed },
            Usage {
                state: before.state.dropped(b.slot() as int),
                boxes: before.boxes.remove(boxed),
                ..before
            },
        ),
{
}

/// In a pool that was just made, putting an item in succeeds as many times as there are slots, and
/// no more.
pub proof fn law_as_many_puts_as_slots<T>(
    history: Seq<Usage<T>>,
    events: Seq<Event<T>>,
    slots: nat,
    waiters: nat,
    i: int,
)
    requires
        crate::laws::is_history(history, events, slots, waiters),
        forall|k: int| 0 <= k < events.len() ==> #[trigger] events[k] is Put,
        0 <= i < events.len(),
    ensures
        i < slots ==> events[i]->slot is Some,
        i >= slots ==> events[i]->slot is None,
        history[i].boxes.len() == (if i < slots { i } else { slots as int }),
    decreases i,
{
    if i > 0 {
        law_as_many_puts_as_slots(history, events, slots, waiters, i - 1);
        assert(history[i - 1].step(events[i - 1], history[i - 1 + 1]));
    }
    crate::laws::law_always_in_order(history, events, slots, waiters, i);
    assert(history[i].step(events[i], history[i + 1]));
    match events[i] {
        Event::Put { item, slot } => {
            crate::laws::law_put_succeeds_below_capacity(history[i], item, slot, history[i + 1]);
        },
        _ => {},
    }
}

/// The items in slots.
pub open spec fn held<T>(slots: Seq<Slot<T>>) -> Multiset<T>
    decreases slots.len(),
{
    if slots.len() == 0 {
        Multiset::empty()
    } else {
        match slots.last() {
            Slot::Holds(item) => held(slots.drop_last()).insert(item),
            _ => held(slots.drop_last()),
        }
    }
}

/// The items that are in slots, were left behind or were dropped.
pub open spec fn accounted<T>(state: PoolState<T>) -> Multiset<T> {
    held(state.slots).add(state.left.to_multiset()).add(state.destroyed.to_multiset())
}

/// The item in a slot, if there is one.
pub open spec fn content<T>(slot: Slot<T>) -> Multiset<T> {
    match slot {
        Slot::Holds(item) => Multiset::singleton(item),
        _ => Multiset::empty(),
    }
}

/// Changing a slot changes the items in slots by what was and what is in it.
proof fn lemma_held_update<T>(slots: Seq<Slot<T>>, n: int, slot: Slot<T>)
    requires
        0 <= n < slots.len(),
    ensures
        held(slots.update(n, slot)).add(content(slots[n])) == held(slots).add(content(slot)),
        forall|item: T| #[trigger]
            held(slots.update(n, slot)).count(item) + content(slots[n]).count(item) == held(
                slots,
            ).count(item) + content(slot).count(item),
    decreases slots.len(),
{
    let updated = slots.update(n, slot);
    let rest = slots.drop_last();
    assert(held(updated) =~= held(updated.drop_last()).add(content(updated.last())));
    assert(held(slots) =~= held(rest).add(content(slots.last())));
    if n == slots.len() - 1 {
        assert(updated.drop_last() =~= rest);
        assert(updated.last() == slot);
        assert(slots.last() == slots[n]);
        assert(held(updated).add(content(slots[n])) =~= held(slots).add(content(slot)));
    } else {
        assert(updated.drop_last() =~= rest.update(n, slot));
        assert(updated.last() == slots.last());
        lemma_held_update(rest, n, slot);
        let both = held(rest.update(n, slot)).add(content(slots[n]));
        assert(both == held(rest).add(content(slot)));
        assert(held(updated).add(content(slots[n])) =~= both.add(content(slots.last())));
        assert(held(slots).add(content(slot)) =~= both.add(content(slots.last())));
    }
    assert forall|item: T| #[trigger]
        held(updated).count(item) + content(slots[n]).count(item) == held(slots).count(item)
            + content(slot).count(item) by {
        assert(held(updated).add(content(slots[n])).count(item) == held(slots).add(
            content(slot),
        ).count(item));
    }
}

/// Without an item in any slot there are no items in slots.
proof fn lemma_nothing_held<T>(slots: Seq<Slot<T>>)
    requires
        forall|i: int| 0 <= i < slots.len() ==> #[trigger] slots[i] !is Holds,
    ensures
        held(slots) =~= Multiset::<T>::empty(),
    decreases slots.len(),
{
    if slots.len() > 0 {
        assert(slots.last() == slots[slots.len() - 1]);
        assert forall|i: int| 0 <= i < slots.drop_last().len() implies #[trigger]
            slots.drop_last()[i] !is Holds by {
            assert(slots.drop_last()[i] == slots[i]);
        }
        lemma_nothing_held(slots.drop_last());
    }
}

/// An item that is written to a slot is accounted for, and so it stays whatever happens to the
/// slot: it is in the slot, was left behind, or was dropped, and only one of these.
pub proof fn law_items_are_accounted_for<T>(before: PoolState<T>, n: int, item: T)
    requires
        0 <= n < before.slots.len(),
    ensures
        before.slots[n] !is Holds ==> accounted(before.with_slot(n, Slot::Holds(item)))
            == accounted(before).insert(item),
        before.slots[n] !is Holds ==> accounted(before.with_slot(n, Slot::Claimed)) == accounted(
            before,
        ),
        before.slots[n] is Holds ==> accounted(before.item_dropped(n)) == accounted(before),
        before.slots[n] !is Free ==> accounted(before.freed(n)) == accounted(before),
        before.slots[n] is Holds ==> accounted(before.dropped(n)) == accounted(before),
        before.slots[n] matches Slot::Holds(old_item) ==> accounted(
            before.with_slot(n, Slot::Holds(item)),
        ).insert(old_item) == accounted(before).insert(item),
{
    broadcast use vstd::seq_lib::group_to_multiset_ensures;

    lemma_held_update(before.slots, n, Slot::Holds(item));
    lemma_held_update(before.slots, n, Slot::Claimed);
    lemma_held_update(before.slots, n, Slot::Free);
    let claimed = before.item_dropped(n);
    lemma_held_update(claimed.slots, n, Slot::Free);
    let all = accounted(before);
    assert(before.slots[n] !is Holds ==> accounted(before.with_slot(n, Slot::Holds(item)))
        =~= all.insert(item));
    assert(before.slots[n] !is Holds ==> accounted(before.with_slot(n, Slot::Claimed)) =~= all);
    assert(before.slots[n] is Holds ==> accounted(before.item_dropped(n)) =~= all);
    assert(before.slots[n] !is Free ==> accounted(before.freed(n)) =~= all);
    assert(before.slots[n] is Holds ==> accounted(before.dropped(n)) =~= all);
    assert(before.slots[n] matches Slot::Holds(old_item) ==> accounted(
        before.with_slot(n, Slot::Holds(item)),
    ).insert(old_item) =~= all.insert(item));
}

/// When every box was dropped, every item that is accounted for was dropped, as often as it was put
/// in.
pub proof fn law_all_items_dropped<T>(usage: Usage<T>)
    requires
        usage.in_order(),
        usage.boxes.len() == 0,
    ensures
        accounted(usage.state) == usage.state.destroyed.to_multiset(),
        forall|n: int|
            0 <= n < usage.state.slots.len() ==> #[trigger] usage.state.slots[n] is Free,
{
    broadcast use vstd::seq_lib::group_to_multiset_ensures;

    crate::laws::law_all_given_back(usage);
    lemma_nothing_held(usage.state.slots);
    assert(usage.state.left =~= Seq::<T>::empty());
    assert(usage.state.left.to_multiset() =~= Multiset::<T>::empty());
    assert(accounted(usage.state) =~= usage.state.destroyed.to_multiset());
}

/// Every item is accounted for, whatever is done with the pool. What is put in is added, what a
/// change overwrites is taken out, and otherwise nothing is: dropping a box, giving up waiting or
/// being refused loses no item and makes none.
pub proof fn law_events_lose_no_item<T>(before: Usage<T>, event: Event<T>, after: Usage<T>)
    requires
        before.in_order(),
        before.step(event, after),
    ensures
        match event {
            Event::Put { item, slot: Some(_) } => accounted(after.state) == accounted(
                before.state,
            ).insert(item),
            Event::Poll { item, outcome: Poll::Ready(Some(_)), .. } => accounted(after.state)
                == accounted(before.state).insert(item),
            Event::Change { boxed, item } => before.state.slots[before.boxes[boxed] as int] matches
                Slot::Holds(overwritten) && accounted(after.state).insert(overwritten)
                == accounted(before.state).insert(item),
            _ => accounted(after.state) == accounted(before.state),
        },
{
    match event {
        Event::Put { item, slot } => {
            if let Some(n) = slot {
                law_items_are_accounted_for(before.state, n as int, item);
            }
        },
        Event::Poll { polled, waker, item, place_after, outcome } => {
            let place = match polled {
                Some(k) => Some(before.waiting[k].place),
                None => None,
            };
            if let Poll::Ready(Some(n)) = outcome {
                law_items_are_accounted_for(before.state.place_released(place), n as int, item);
            }
        },
        Event::Change { boxed, item } => {
            assert(before.state.holds(before.boxes[boxed] as int));
            law_items_are_accounted_for(before.state, before.boxes[boxed] as int, item);
        },
        Event::Drop { boxed } => {
            let n = before.boxes[boxed] as int;
            assert(before.state.holds(n));
            law_items_are_accounted_for(before.state, n, before.state.item(n));
        },
        Event::Cancel { waiting } => {},
    }
}

/// Dropping a box adds the item that its slot held, and no other, to those that were dropped.
/// Nothing else that is done with a pool drops an item that is in a slot.
pub proof fn law_events_drop_items_of_boxes<T>(before: Usage<T>, event: Event<T>, after: Usage<T>)
    requires
        before.in_order(),
        before.step(event, after),
    ensures
        match event {
            Event::Drop { boxed } => before.state.slots[before.boxes[boxed] as int] matches
                Slot::Holds(item) && after.state.destroyed == before.state.destroyed.push(item),
            _ => after.state.destroyed == before.state.destroyed,
        },
        after.state.left.len() == 0,
{
    crate::laws::law_steps_keep_order(before, event, after);
    if let Event::Drop { boxed } = event {
        assert(before.state.holds(before.boxes[boxed] as int));
    }
}

/// A storage that was just made for `N` items takes `N` of them at once, for every `N`, and is full
/// then.
pub proof fn law_new_storage_takes_n_items<
    T,
    const N: usize,
    const K: usize,
    const WN: usize,
    const WK: usize,
>(
    storage: PoolStorageImpl<T, N, K, WN, WK>,
    history: Seq<Usage<T>>,
    events: Seq<Event<T>>,
    i: int,
)
    requires
        N <= 32 * K,
        storage.wf(),
        history.len() == events.len() + 1,
        history[0].state == storage.state(),
        history[0].boxes == Seq::<usize>::empty(),
        history[0].waiting == Seq::<Waiting>::empty(),
        forall|n: int|
            0 <= n < storage.state().slots.len() ==> #[trigger] storage.state().slots[n] is Free,
        forall|n: int|
            0 <= n < storage.state().waiters.len() ==> {
                let waiter = #[trigger] storage.state().waiters[n];
                !waiter.taken && waiter.registered is None && waiter.woken.len() == 0
            },
        storage.state().left.len() == 0,
        storage.state().destroyed.len() == 0,
        forall|k: int|
            0 <= k < events.len() ==> history[k].step(#[trigger] events[k], history[k + 1]),
        forall|k: int| 0 <= k < events.len() ==> #[trigger] events[k] is Put,
        0 <= i < events.len(),
    ensures
        i < N ==> events[i]->slot is Some,
        i >= N ==> events[i]->slot is None,
{
    crate::storage::law_storage_size(&storage);
    let slots = storage.state().slots.len();
    let waiters = storage.state().waiters.len();
    let empty = PoolState::<T>::empty(slots, waiters);
    assert(storage.state().slots =~= empty.slots);
    assert forall|n: int| 0 <= n < waiters implies #[trigger] storage.state().waiters[n]
        == empty.waiters[n] by {
        assert(storage.state().waiters[n].woken =~= empty.waiters[n].woken);
    }
    assert(storage.state().waiters =~= empty.waiters);
    assert(storage.state() =~= empty);
    law_as_many_puts_as_slots(history, events, slots, waiters, i);
}

} // verus!
