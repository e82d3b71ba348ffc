//! The state of a pool as its contracts see it.
use vstd::prelude::*;

use core::task::Waker;

verus! {

/// What one slot of the item memory is used for.
pub enum Slot<T> {
    /// Nobody has the slot.
    Free,
    /// The slot is allocated and holds no item.
    Claimed,
    /// The slot is allocated and holds an item.
    Holds(T),
}

/// One place for a task that waits for a slot.
#[verifier::ext_equal]
pub struct Waiter {
    /// Whether a pending allocation has the place.
    pub taken: bool,
    /// The waker that was last left here. It stays when the place is given up.
    pub registered: Option<Waker>,
    /// The wakers that were woken from here, the earliest first.
    pub woken: Seq<Waker>,
}

/// A pool: its slots, the places for waiting tasks, and what became of the items that are not in
/// slots any more.
#[verifier::ext_equal]
pub struct PoolState<T> {
    pub slots: Seq<Slot<T>>,
    pub waiters: Seq<Waiter>,
    /// The items that were still in their slots when these were given back, the earliest first.
    pub left: Seq<T>,
    /// The items that were dropped, the earliest first.
    pub destroyed: Seq<T>,
}

impl Waiter {
    /// A place nobody has used yet.
    pub open spec fn unused() -> Waiter {
        Waiter { taken: false, registered: None, woken: Seq::empty() }
    }

    /// The place after its registered waker, if it has one, was woken once more.
    pub open spec fn wake(self) -> Waiter {
        Waiter {
            woken: match self.registered {
                Some(waker) => self.woken.push(waker),
                None => self.woken,
            },
            ..self
        }
    }

    /// The place in the hands of a pending allocation that left this waker.
    pub open spec fn wait(self, waker: Waker) -> Waiter {
        Waiter { taken: true, registered: Some(waker), ..self }
    }

    /// The place after the allocation that had it was completed or dropped.
    pub open spec fn give_up(self) -> Waiter {
        Waiter { taken: false, ..self }
    }
}

impl<T> PoolState<T> {
    /// A pool with `slots` free slots and `waiters` unused places for waiting tasks.
    pub open spec fn empty(slots: nat, waiters: nat) -> Self {
        PoolState {
            slots: Seq::new(slots, |i: int| Slot::Free),
            waiters: Seq::new(waiters, |i: int| Waiter::unused()),
            left: Seq::empty(),
            destroyed: Seq::empty(),
        }
    }

    /// No slot is free.
    pub open spec fn is_full(self) -> bool {
        forall|i: int| 0 <= i < self.slots.len() ==> #[trigger] self.slots[i] !is Free
    }

    /// `n` is the lowest free slot.
    pub open spec fn is_first_free(self, n: int) -> bool {
        &&& 0 <= n < self.slots.len()
        &&& self.slots[n] is Free
        &&& forall|i: int| 0 <= i < n ==> #[trigger] self.slots[i] !is Free
    }

    /// Every place for a waiting task is taken.
    pub open spec fn is_crowded(self) -> bool {
        forall|i: int| 0 <= i < self.waiters.len() ==> #[trigger] self.waiters[i].taken
    }

    /// `n` is the lowest place for a waiting task that is not taken.
    pub open spec fn is_first_place(self, n: int) -> bool {
        &&& 0 <= n < self.waiters.len()
        &&& !self.waiters[n].taken
        &&& forall|i: int| 0 <= i < n ==> #[trigger] self.waiters[i].taken
    }

    /// Slot `n` is allocated.
    pub open spec fn is_allocated(self, n: int) -> bool {
        0 <= n < self.slots.len() && self.slots[n] !is Free
    }

    /// Slot `n` holds an item.
    pub open spec fn holds(self, n: int) -> bool {
        0 <= n < self.slots.len() && self.slots[n] is Holds
    }

    /// The item in slot `n`.
    pub open spec fn item(self, n: int) -> T
        recommends
            self.holds(n),
    {
        self.slots[n]->Holds_0
    }

    /// The pool with slot `n` replaced.
    pub open spec fn with_slot(self, n: int, slot: Slot<T>) -> Self {
        PoolState { slots: self.slots.update(n, slot), ..self }
    }

    /// The pool with the place `n` replaced.
    pub open spec fn with_waiter(self, n: int, waiter: Waiter) -> Self {
        PoolState { waiters: self.waiters.update(n, waiter), ..self }
    }

    /// The pool after every registered waker was woken once more.
    pub open spec fn all_woken(self) -> Self {
        PoolState {
            waiters: Seq::new(self.waiters.len(), |i: int| self.waiters[i].wake()),
            ..self
        }
    }

    /// The pool after slot `n` was given back, and every registered waker was woken for it. If the
    /// slot still held an item, the item is left behind.
    pub open spec fn freed(self, n: int) -> Self {
        PoolState {
            left: if self.holds(n) {
                self.left.push(self.item(n))
            } else {
                self.left
            },
            ..self.with_slot(n, Slot::Free).all_woken()
        }
    }

    /// The pool after an item was dropped that was in no slot any more.
    pub open spec fn destroying(self, item: T) -> Self {
        PoolState { destroyed: self.destroyed.push(item), ..self }
    }

    /// The pool after the item in slot `n` was dropped. The slot stays allocated.
    pub open spec fn item_dropped(self, n: int) -> Self {
        self.with_slot(n, Slot::Claimed).destroying(self.item(n))
    }

    /// The pool after the item in slot `n` was dropped, and then the slot was given back.
    pub open spec fn dropped(self, n: int) -> Self {
        self.item_dropped(n).freed(n)
    }

    /// The place, if it is one, is taken.
    pub open spec fn has_taken(self, place: Option<usize>) -> bool {
        match place {
            Some(i) => i < self.waiters.len() && self.waiters[i as int].taken,
            None => true,
        }
    }

    /// The pool after the place that a pending allocation had, if it had one, was given up.
    pub open spec fn place_released(self, place: Option<usize>) -> Self {
        match place {
            Some(i) => self.with_waiter(i as int, self.waiters[i as int].give_up()),
            None => self,
        }
    }
}

/// What an attempt to allocate at once does and returns: the lowest free slot is claimed, and
/// nothing changes in a pool that has none.
pub open spec fn alloc_outcome<T>(
    before: PoolState<T>,
    after: PoolState<T>,
    result: Option<usize>,
) -> bool {
    match result {
        Some(n) => before.is_first_free(n as int) && after == before.with_slot(
            n as int,
            Slot::Claimed,
        ),
        None => before.is_full() && after == before,
    }
}

/// What putting an item into the pool at once does and returns: the lowest free slot holds the
/// item, and nothing changes in a pool that has none.
pub open spec fn put_outcome<T>(
    before: PoolState<T>,
    item: T,
    after: PoolState<T>,
    result: Option<usize>,
) -> bool {
    match result {
        Some(n) => before.is_first_free(n as int) && after == before.with_slot(
            n as int,
            Slot::Holds(item),
        ),
        None => before.is_full() && after == before,
    }
}

/// The outcome of one poll.
#[derive(Debug, PartialEq, Eq)]
pub enum Poll<R> {
    /// The operation is complete.
    Ready(R),
    /// The operation waits, and the waker it was polled with will be woken.
    Pending,
}

/// What one poll of a pending allocation does and returns, where `place` is the place for a
/// waiting task that the allocation has before the poll, and `place_after` the one it has after.
///
/// - A pool with a free slot gives the lowest one, whether or not the allocation has a place.
/// - In a full pool the allocation waits in its place, or takes the lowest one that is not taken.
/// - In a full pool where every place is taken, an allocation without one gets `None`.
pub open spec fn poll_outcome<T>(
    before: PoolState<T>,
    place: Option<usize>,
    waker: Waker,
    after: PoolState<T>,
    place_after: Option<usize>,
    result: Poll<Option<usize>>,
) -> bool {
    match result {
        Poll::Ready(Some(n)) => {
            &&& before.is_first_free(n as int)
            &&& after == before.with_slot(n as int, Slot::Claimed)
            &&& place_after == place
        },
        Poll::Ready(None) => {
            &&& before.is_full()
            &&& before.is_crowded()
            &&& place is None
            &&& after == before
            &&& place_after is None
        },
        Poll::Pending => {
            &&& before.is_full()
            &&& place_after is Some
            &&& match place {
                Some(i) => place_after == Some(i),
                None => before.is_first_place(place_after->0 as int),
            }
            &&& after == before.with_waiter(
                place_after->0 as int,
                before.waiters[place_after->0 as int].wait(waker),
            )
        },
    }
}

/// What one poll does and returns of an operation that waits for a slot in order to make it
/// `slot`, where `place` is the place for a waiting task that it has before the poll, and
/// `place_after` the one it has after.
///
/// - A pool with a free slot gives the lowest one, and the place is given up.
/// - Otherwise the operation waits or is refused, as [`poll_outcome`] says.
pub open spec fn poll_take_outcome<T>(
    before: PoolState<T>,
    place: Option<usize>,
    waker: Waker,
    slot: Slot<T>,
    after: PoolState<T>,
    place_after: Option<usize>,
    result: Poll<Option<usize>>,
) -> bool {
    match result {
        Poll::Ready(Some(n)) => {
            &&& before.is_first_free(n as int)
            &&& after == before.place_released(place).with_slot(n as int, slot)
            &&& place_after is None
        },
        _ => poll_outcome(before, place, waker, after, place_after, result),
    }
}

/// What one poll does and returns of an operation that waits for a slot in order to put `item`
/// into it, as [`poll_take_outcome`] says.
pub open spec fn poll_put_outcome<T>(
    before: PoolState<T>,
    place: Option<usize>,
    waker: Waker,
    item: T,
    after: PoolState<T>,
    place_after: Option<usize>,
    result: Poll<Option<usize>>,
) -> bool {
    poll_take_outcome(before, place, waker, Slot::Holds(item), after, place_after, result)
}

/// Of two things that are put into one slot the last one counts. Dropping an item that was put into
/// a free slot, and giving the slot back, leaves the pool as it was, but that the registered wakers
/// were woken and the item is among those that were dropped.
pub proof fn lemma_slot_rewritten<T>(before: PoolState<T>, n: int, item: T)
    requires
        0 <= n < before.slots.len(),
    ensures
        forall|slot: Slot<T>| #[trigger]
            before.with_slot(n, Slot::Holds(item)).with_slot(n, slot) == before.with_slot(n, slot),
        before.slots[n] is Free ==> forall|dropped: T| #[trigger]
            before.with_slot(n, Slot::Holds(dropped)).dropped(n) == before.all_woken().destroying(
                dropped,
            ),
{
    assert forall|slot: Slot<T>| #[trigger]
        before.with_slot(n, Slot::Holds(item)).with_slot(n, slot) == before.with_slot(n, slot) by {
        assert(before.with_slot(n, Slot::Holds(item)).with_slot(n, slot) =~= before.with_slot(
            n,
            slot,
        ));
    }
    if before.slots[n] is Free {
        assert forall|dropped: T| #[trigger]
            before.with_slot(n, Slot::Holds(dropped)).dropped(n) == before.all_woken().destroying(
                dropped,
            ) by {
            assert(before.with_slot(n, Slot::Holds(dropped)).dropped(n)
                =~= before.all_woken().destroying(dropped));
        }
    }
}

} // verus!
