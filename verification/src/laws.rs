//! What holds of a pool as a whole, whatever is done with it.
use vstd::prelude::*;

use core::task::Waker;

use crate::boxed::{Box, Pool};
use crate::projection::{Projection, Then, Whole};
use crate::state::{Poll, PoolState, Slot, Waiter};

verus! {

/// An allocation that waits for a slot.
pub struct Waiting {
    /// Its place.
    pub place: usize,
    /// The waker that it was last polled with.
    pub waker: Waker,
    /// How many times a waker had been woken from its place when it was last polled.
    pub woken_before: nat,
}

/// A pool, and who uses it.
pub struct Usage<T> {
    pub state: PoolState<T>,
    /// The slots of the boxes.
    pub boxes: Seq<usize>,
    /// The allocations that wait.
    pub waiting: Seq<Waiting>,
}

/// Something that is done with a pool.
pub enum Event<T> {
    /// An item is put into the pool at once.
    Put { item: T, slot: Option<usize> },
    /// The item in one of the boxes is changed.
    Change { boxed: int, item: T },
    /// One of the boxes is dropped.
    Drop { boxed: int },
    /// An operation that waits for a slot in order to put an item into it is polled: one of those
    /// that wait already, or a new one.
    Poll {
        polled: Option<int>,
        waker: Waker,
        item: T,
        place_after: Option<usize>,
        outcome: Poll<Option<usize>>,
    },
    /// One of the operations that wait is dropped.
    Cancel { waiting: int },
}

impl<T> Usage<T> {
    /// A pool that nobody uses yet.
    pub open spec fn unused(slots: nat, waiters: nat) -> Self {
        Usage {
            state: PoolState::empty(slots, waiters),
            boxes: Seq::empty(),
            waiting: Seq::empty(),
        }
    }

    /// Every allocated slot is that of exactly one box, and holds an item.
    pub open spec fn boxes_in_order(self) -> bool {
        &&& self.boxes.no_duplicates()
        &&& forall|k: int|
            0 <= k < self.boxes.len() ==> self.state.holds(#[trigger] self.boxes[k] as int)
        &&& forall|n: int|
            0 <= n < self.state.slots.len() && #[trigger] self.state.slots[n] !is Free
                ==> exists|k: int| 0 <= k < self.boxes.len() && #[trigger] self.boxes[k] == n
    }

    /// Every place that is taken is that of exactly one operation that waits.
    pub open spec fn places_in_order(self) -> bool {
        &&& forall|j: int, k: int|
            0 <= j < k < self.waiting.len() ==> #[trigger] self.waiting[j].place
                != #[trigger] self.waiting[k].place
        &&& forall|k: int|
            0 <= k < self.waiting.len() ==> (#[trigger] self.waiting[k]).place
                < self.state.waiters.len()
                && self.state.waiters[self.waiting[k].place as int].taken
        &&& forall|n: int|
            0 <= n < self.state.waiters.len() && #[trigger] self.state.waiters[n].taken
                ==> exists|k: int|
                    0 <= k < self.waiting.len() && #[trigger] self.waiting[k].place == n
    }

    /// Every operation that waits has left its waker in its place, and while a slot is free, that
    /// waker was woken since.
    pub open spec fn nobody_forgotten(self) -> bool {
        forall|k: int|
            0 <= k < self.waiting.len() ==> {
                let w = #[trigger] self.waiting[k];
                let waiter = self.state.waiters[w.place as int];
                &&& waiter.registered == Some(w.waker)
                &&& w.woken_before <= waiter.woken.len()
                &&& !self.state.is_full() ==> {
                    &&& w.woken_before < waiter.woken.len()
                    &&& waiter.woken.last() == w.waker
                }
            }
    }

    /// No slot was given back while it still held its item.
    pub open spec fn nothing_left(self) -> bool {
        self.state.left.len() == 0
    }

    /// All of these.
    pub open spec fn in_order(self) -> bool {
        &&& self.boxes_in_order()
        &&& self.places_in_order()
        &&& self.nobody_forgotten()
        &&& self.nothing_left()
    }

    /// What an event makes of the pool and its users, as the contracts of the functions say.
    pub open spec fn step(self, event: Event<T>, after: Self) -> bool {
        match event {
            Event::Put { item, slot } => {
                &&& crate::state::put_outcome(self.state, item, after.state, slot)
                &&& after.boxes == (match slot {
                    Some(n) => self.boxes.push(n),
                    None => self.boxes,
                })
                &&& after.waiting == self.waiting
            },
            Event::Change { boxed, item } => {
                &&& 0 <= boxed < self.boxes.len()
                &&& after.state == self.state.with_slot(
                    self.boxes[boxed] as int,
                    Slot::Holds(item),
                )
                &&& after.boxes == self.boxes
                &&& after.waiting == self.waiting
            },
            Event::Drop { boxed } => {
                &&& 0 <= boxed < self.boxes.len()
                &&& after.state == self.state.dropped(self.boxes[boxed] as int)
                &&& after.boxes == self.boxes.remove(boxed)
                &&& after.waiting == self.waiting
            },
            Event::Poll { polled, waker, item, place_after, outcome } => {
                let place = match polled {
                    Some(k) => Some(self.waiting[k].place),
                    None => None,
                };
                &&& polled matches Some(k) ==> 0 <= k < self.waiting.len()
                &&& crate::state::poll_put_outcome(
                    self.state,
                    place,
                    waker,
                    item,
                    after.state,
                    place_after,
                    outcome,
                )
                &&& after.boxes == (match outcome {
                    Poll::Ready(Some(n)) => self.boxes.push(n),
                    _ => self.boxes,
                })
                &&& after.waiting == (match (outcome, polled) {
                    (Poll::Ready(_), Some(k)) => self.waiting.remove(k),
                    (Poll::Ready(_), None) => self.waiting,
                    (Poll::Pending, Some(k)) => self.waiting.update(
                        k,
                        self.registered(place_after->0, waker),
                    ),
                    (Poll::Pending, None) => self.waiting.push(
                        self.registered(place_after->0, waker),
                    ),
                })
            },
            Event::Cancel { waiting } => {
                &&& 0 <= waiting < self.waiting.len()
                &&& after.state == self.state.place_released(Some(self.waiting[waiting].place))
                &&& after.boxes == self.boxes
                &&& after.waiting == self.waiting.remove(waiting)
            },
        }
    }

    /// An operation that waits in this place since it was polled with this waker.
    pub open spec fn registered(self, place: usize, waker: Waker) -> Waiting {
        Waiting { place, waker, woken_before: self.state.waiters[place as int].woken.len() }
    }
}

/// The pool and its users are, one after the other, as in `history`, while `events` happen.
pub open spec fn is_history<T>(
    history: Seq<Usage<T>>,
    events: Seq<Event<T>>,
    slots: nat,
    waiters: nat,
) -> bool {
    &&& history.len() == events.len() + 1
    &&& history[0] == Usage::<T>::unused(slots, waiters)
    &&& forall|i: int|
        0 <= i < events.len() ==> history[i].step(#[trigger] events[i], history[i + 1])
}

/// Giving away a free slot keeps the boxes in order.
proof fn lemma_box_added<T>(before: Usage<T>, after: Usage<T>, n: usize, item: T)
    requires
        before.boxes_in_order(),
        before.state.is_first_free(n as int),
        after.state.slots == before.state.slots.update(n as int, Slot::Holds(item)),
        after.boxes == before.boxes.push(n),
    ensures
        after.boxes_in_order(),
        !before.state.is_full(),
{
    assert forall|m: int|
        0 <= m < after.state.slots.len() && #[trigger] after.state.slots[m] !is Free implies exists|
        k: int,
    |
        0 <= k < after.boxes.len() && #[trigger] after.boxes[k] == m by {
        if m == n {
            assert(after.boxes[before.boxes.len() as int] == m);
        } else {
            let k = choose|k: int| 0 <= k < before.boxes.len() && #[trigger] before.boxes[k] == m;
            assert(after.boxes[k] == m);
        }
    }
    assert forall|j: int, k: int|
        0 <= j < after.boxes.len() && 0 <= k < after.boxes.len() && j != k implies after.boxes[j]
        != after.boxes[k] by {
        if j < before.boxes.len() {
            assert(before.state.holds(before.boxes[j] as int));
        }
        if k < before.boxes.len() {
            assert(before.state.holds(before.boxes[k] as int));
        }
    }
}

/// Giving up a place keeps the places in order.
proof fn lemma_place_given_up<T>(before: Usage<T>, after: Usage<T>, k: int)
    requires
        before.places_in_order(),
        0 <= k < before.waiting.len(),
        after.waiting == before.waiting.remove(k),
        after.state.waiters == before.state.place_released(
            Some(before.waiting[k].place),
        ).waiters,
    ensures
        after.places_in_order(),
        forall|j: int|
            0 <= j < after.waiting.len() ==> {
                &&& #[trigger] after.waiting[j] == before.waiting[if j < k { j } else { j + 1 }]
                &&& after.state.waiters[after.waiting[j].place as int]
                    == before.state.waiters[after.waiting[j].place as int]
            },
{
    assert forall|j: int| 0 <= j < after.waiting.len() implies {
        &&& #[trigger] after.waiting[j] == before.waiting[if j < k { j } else { j + 1 }]
        &&& after.state.waiters[after.waiting[j].place as int]
            == before.state.waiters[after.waiting[j].place as int]
    } by {
        let i = if j < k { j } else { j + 1 };
        if i < k {
            assert(before.waiting[i].place != before.waiting[k].place);
        } else {
            assert(before.waiting[k].place != before.waiting[i].place);
        }
    }
    assert forall|n: int|
        0 <= n < after.state.waiters.len()
            && #[trigger] after.state.waiters[n].taken implies exists|j: int|
        0 <= j < after.waiting.len() && #[trigger] after.waiting[j].place == n by {
        assert(before.state.waiters[n].taken);
        let i = choose|i: int|
            0 <= i < before.waiting.len() && #[trigger] before.waiting[i].place == n;
        let j = if i < k { i } else { i - 1 };
        assert(after.waiting[j].place == n);
    }
}

proof fn lemma_put_keeps_order<T>(before: Usage<T>, item: T, slot: Option<usize>, after: Usage<T>)
    requires
        before.in_order(),
        before.step(Event::Put { item, slot }, after),
    ensures
        after.in_order(),
{
    if let Some(n) = slot {
        lemma_box_added(before, after, n, item);
    }
}

proof fn lemma_change_keeps_order<T>(before: Usage<T>, boxed: int, item: T, after: Usage<T>)
    requires
        before.in_order(),
        before.step(Event::Change { boxed, item }, after),
    ensures
        after.in_order(),
{
    let n = before.boxes[boxed] as int;
    assert(before.state.holds(n));
    assert forall|m: int| 0 <= m < after.state.slots.len() implies (#[trigger] after.state.slots[m]
        is Free) == (before.state.slots[m] is Free) by {}
    assert forall|k: int| 0 <= k < after.boxes.len() implies after.state.holds(
        #[trigger] after.boxes[k] as int,
    ) by {
        assert(before.state.holds(before.boxes[k] as int));
    }
    assert(after.boxes_in_order());
    assert(after.state.is_full() == before.state.is_full()) by {
        assert forall|m: int| 0 <= m < before.state.slots.len() implies (
        #[trigger] before.state.slots[m] is Free) == (after.state.slots[m] is Free) by {}
    }
}

proof fn lemma_drop_keeps_order<T>(before: Usage<T>, boxed: int, after: Usage<T>)
    requires
        before.in_order(),
        before.step(Event::Drop { boxed }, after),
    ensures
        after.in_order(),
{
    let n = before.boxes[boxed] as int;
    assert(before.state.holds(n));
    assert forall|k: int| 0 <= k < after.boxes.len() implies after.state.holds(
        #[trigger] after.boxes[k] as int,
    ) by {
        let j = if k < boxed {
            k
        } else {
            k + 1
        };
        assert(after.boxes[k] == before.boxes[j]);
        assert(before.state.holds(before.boxes[j] as int));
    }
    assert forall|m: int|
        0 <= m < after.state.slots.len() && #[trigger] after.state.slots[m] !is Free implies exists|
        k: int,
    |
        0 <= k < after.boxes.len() && #[trigger] after.boxes[k] == m by {
        assert(before.state.slots[m] !is Free);
        let j = choose|j: int| 0 <= j < before.boxes.len() && #[trigger] before.boxes[j] == m;
        let k = if j < boxed {
            j
        } else {
            j - 1
        };
        assert(after.boxes[k] == m);
    }
    assert(after.boxes_in_order());
    assert forall|m: int|
        0 <= m < after.state.waiters.len() implies #[trigger] after.state.waiters[m]
        == before.state.waiters[m].wake() by {}
    assert(after.places_in_order()) by {
        assert forall|m: int|
            0 <= m < after.state.waiters.len()
                && #[trigger] after.state.waiters[m].taken implies exists|k: int|
            0 <= k < after.waiting.len() && #[trigger] after.waiting[k].place == m by {
            assert(before.state.waiters[m].taken);
        }
    }
    assert(after.nobody_forgotten());
}

proof fn lemma_poll_keeps_order<T>(
    before: Usage<T>,
    polled: Option<int>,
    waker: Waker,
    item: T,
    place_after: Option<usize>,
    outcome: Poll<Option<usize>>,
    after: Usage<T>,
)
    requires
        before.in_order(),
        before.step(Event::Poll { polled, waker, item, place_after, outcome }, after),
    ensures
        after.in_order(),
{
    match outcome {
        Poll::Ready(Some(n)) => {
            lemma_box_added(before, after, n, item);
            if let Some(k) = polled {
                lemma_place_given_up(before, after, k);
            }
            assert(after.nobody_forgotten());
        },
        Poll::Ready(None) => {},
        Poll::Pending => {
            let place = place_after->0 as int;
            if let Some(k) = polled {
                assert(before.waiting[k].place == place);
            }
            assert forall|m: int|
                0 <= m < after.state.waiters.len() && m != place implies #[trigger]
            after.state.waiters[m] == before.state.waiters[m] by {}
            assert(after.places_in_order()) by {
                assert forall|m: int|
                    0 <= m < after.state.waiters.len()
                        && #[trigger] after.state.waiters[m].taken implies exists|k: int|
                    0 <= k < after.waiting.len() && #[trigger] after.waiting[k].place == m by {
                    if m == place {
                        let k = match polled {
                            Some(k) => k,
                            None => before.waiting.len() as int,
                        };
                        assert(after.waiting[k].place == m);
                    } else {
                        assert(before.state.waiters[m].taken);
                        let k = choose|k: int|
                            0 <= k < before.waiting.len()
                                && #[trigger] before.waiting[k].place == m;
                        assert(after.waiting[k].place == m);
                    }
                }
            }
            assert(after.nobody_forgotten());
        },
    }
}

proof fn lemma_cancel_keeps_order<T>(before: Usage<T>, waiting: int, after: Usage<T>)
    requires
        before.in_order(),
        before.step(Event::Cancel { waiting }, after),
    ensures
        after.in_order(),
{
    lemma_place_given_up(before, after, waiting);
}

/// Whatever is done with a pool that is in order, it stays in order.
pub proof fn law_steps_keep_order<T>(before: Usage<T>, event: Event<T>, after: Usage<T>)
    requires
        before.in_order(),
        before.step(event, after),
    ensures
        after.in_order(),
        after.state.slots.len() == before.state.slots.len(),
        after.state.waiters.len() == before.state.waiters.len(),
{
    match event {
        Event::Put { item, slot } => lemma_put_keeps_order(before, item, slot, after),
        Event::Change { boxed, item } => lemma_change_keeps_order(before, boxed, item, after),
        Event::Drop { boxed } => lemma_drop_keeps_order(before, boxed, after),
        Event::Poll { polled, waker, item, place_after, outcome } => lemma_poll_keeps_order(
            before,
            polled,
            waker,
            item,
            place_after,
            outcome,
            after,
        ),
        Event::Cancel { waiting } => lemma_cancel_keeps_order(before, waiting, after),
    }
}

/// At every moment of its history a pool is in order: no two boxes share a slot, no two operations
/// that wait share a place, nobody waits unwoken while a slot is free, and no slot was given
/// back while it still held its item.
pub proof fn law_always_in_order<T>(
    history: Seq<Usage<T>>,
    events: Seq<Event<T>>,
    slots: nat,
    waiters: nat,
    i: int,
)
    requires
        is_history(history, events, slots, waiters),
        0 <= i < history.len(),
    ensures
        history[i].in_order(),
        history[i].state.slots.len() == slots,
        history[i].state.waiters.len() == waiters,
    decreases i,
{
    if i > 0 {
        law_always_in_order(history, events, slots, waiters, i - 1);
        let event = events[i - 1];
        law_steps_keep_order(history[i - 1], event, history[i]);
    }
}

/// Distinct indices below `n` are at most `n` many, and `n` many only if every one is there.
proof fn lemma_distinct_indices(indices: Seq<int>, n: nat)
    requires
        indices.no_duplicates(),
        forall|k: int| 0 <= k < indices.len() ==> 0 <= #[trigger] indices[k] < n,
    ensures
        indices.len() <= n,
        indices.len() == n <==> forall|m: int| 0 <= m < n ==> #[trigger] indices.contains(m),
{
    broadcast use vstd::seq_lib::seq_to_set_is_finite;

    let range = vstd::set_lib::set_int_range(0, n as int);
    indices.unique_seq_to_set();
    vstd::set_lib::lemma_int_range(0, n as int);
    assert forall|m: int| #[trigger] indices.to_set().contains(m) implies range.contains(m) by {
        let k = choose|k: int| 0 <= k < indices.len() && indices[k] == m;
        assert(0 <= indices[k] < n);
    }
    vstd::set_lib::lemma_len_subset(indices.to_set(), range);
    if indices.len() == n {
        vstd::set_lib::lemma_subset_equality(indices.to_set(), range);
        assert forall|m: int| 0 <= m < n implies #[trigger] indices.contains(m) by {
            assert(range.contains(m));
        }
    }
    if forall|m: int| 0 <= m < n ==> #[trigger] indices.contains(m) {
        assert(indices.to_set() =~= range) by {
            assert forall|m: int| range.contains(m) implies #[trigger] indices.to_set().contains(
                m,
            ) by {
                assert(indices.contains(m));
            }
        }
    }
}

/// There are never more boxes than slots, nor more operations that wait than places. The pool is
/// full when there are as many boxes as slots, and every place is taken when as many operations
/// wait as there are places, and only then.
pub proof fn law_capacity<T>(usage: Usage<T>)
    requires
        usage.in_order(),
    ensures
        usage.boxes.len() <= usage.state.slots.len(),
        usage.waiting.len() <= usage.state.waiters.len(),
        usage.state.is_full() <==> usage.boxes.len() == usage.state.slots.len(),
        usage.state.is_crowded() <==> usage.waiting.len() == usage.state.waiters.len(),
{
    let slots = usage.boxes.map_values(|n: usize| n as int);
    assert forall|k: int| 0 <= k < slots.len() implies 0 <= #[trigger] slots[k]
        < usage.state.slots.len() by {
        assert(usage.state.holds(usage.boxes[k] as int));
    }
    assert(slots.no_duplicates());
    lemma_distinct_indices(slots, usage.state.slots.len());
    if usage.state.is_full() {
        assert forall|m: int| 0 <= m < usage.state.slots.len() implies #[trigger] slots.contains(
            m,
        ) by {
            assert(usage.state.slots[m] !is Free);
            let k = choose|k: int| 0 <= k < usage.boxes.len() && #[trigger] usage.boxes[k] == m;
            assert(slots[k] == m);
        }
    }
    if usage.boxes.len() == usage.state.slots.len() {
        assert forall|m: int|
            0 <= m < usage.state.slots.len() implies #[trigger] usage.state.slots[m] !is Free by {
            assert(slots.contains(m));
            let k = choose|k: int| 0 <= k < slots.len() && slots[k] == m;
            assert(usage.state.holds(usage.boxes[k] as int));
        }
    }
    let places = usage.waiting.map_values(|w: Waiting| w.place as int);
    assert forall|k: int| 0 <= k < places.len() implies 0 <= #[trigger] places[k]
        < usage.state.waiters.len() by {
        assert(usage.waiting[k].place < usage.state.waiters.len());
    }
    assert(places.no_duplicates()) by {
        assert forall|j: int, k: int|
            0 <= j < places.len() && 0 <= k < places.len() && j != k implies places[j]
            != places[k] by {
            if j < k {
                assert(usage.waiting[j].place != usage.waiting[k].place);
            } else {
                assert(usage.waiting[k].place != usage.waiting[j].place);
            }
        }
    }
    lemma_distinct_indices(places, usage.state.waiters.len());
    if usage.state.is_crowded() {
        assert forall|m: int| 0 <= m < usage.state.waiters.len() implies #[trigger] places.contains(
            m,
        ) by {
            assert(usage.state.waiters[m].taken);
            let k = choose|k: int|
                0 <= k < usage.waiting.len() && #[trigger] usage.waiting[k].place == m;
            assert(places[k] == m);
        }
    }
    if usage.waiting.len() == usage.state.waiters.len() {
        assert forall|m: int|
            0 <= m < usage.state.waiters.len() implies #[trigger] usage.state.waiters[m].taken by {
            assert(places.contains(m));
            let k = choose|k: int| 0 <= k < places.len() && places[k] == m;
            assert(usage.waiting[k].place == m);
        }
    }
}

/// Putting an item into a pool succeeds while there are fewer boxes than slots, and only then.
pub proof fn law_put_succeeds_below_capacity<T>(
    before: Usage<T>,
    item: T,
    slot: Option<usize>,
    after: Usage<T>,
)
    requires
        before.in_order(),
        before.step(Event::Put { item, slot }, after),
    ensures
        slot is Some <==> before.boxes.len() < before.state.slots.len(),
{
    law_capacity(before);
    if let Some(n) = slot {
        assert(before.state.slots[n as int] is Free);
    }
}

/// A poll is answered with a slot while there are fewer boxes than slots. Otherwise it is refused
/// if the operation does not wait yet and as many as there are places do, and waits if not.
pub proof fn law_poll_answer<T>(
    before: Usage<T>,
    polled: Option<int>,
    waker: Waker,
    item: T,
    place_after: Option<usize>,
    outcome: Poll<Option<usize>>,
    after: Usage<T>,
)
    requires
        before.in_order(),
        before.step(Event::Poll { polled, waker, item, place_after, outcome }, after),
    ensures
        outcome matches Poll::Ready(Some(_)) <==> before.boxes.len() < before.state.slots.len(),
        outcome == Poll::<Option<usize>>::Ready(None) <==> before.boxes.len()
            == before.state.slots.len() && polled is None && before.waiting.len()
            == before.state.waiters.len(),
{
    law_capacity(before);
    match outcome {
        Poll::Ready(Some(n)) => {
            assert(before.state.slots[n as int] is Free);
        },
        Poll::Ready(None) => {},
        Poll::Pending => {
            if polled is None {
                assert(!before.state.waiters[place_after->0 as int].taken);
            }
        },
    }
}

/// When every box was dropped, every slot is free again, and none was given back while it still
/// held its item.
pub proof fn law_all_given_back<T>(usage: Usage<T>)
    requires
        usage.in_order(),
        usage.boxes.len() == 0,
    ensures
        forall|n: int|
            0 <= n < usage.state.slots.len() ==> #[trigger] usage.state.slots[n] is Free,
        usage.state.left == Seq::<T>::empty(),
{
}

/// Dropping a box wakes every operation that waits, once, with the waker it was last polled with.
pub proof fn law_drop_wakes_all_waiting<T>(before: Usage<T>, boxed: int, after: Usage<T>, k: int)
    requires
        before.in_order(),
        before.step(Event::Drop { boxed }, after),
        0 <= k < before.waiting.len(),
    ensures
        after.waiting[k] == before.waiting[k],
        after.state.waiters[before.waiting[k].place as int].woken
            == before.state.waiters[before.waiting[k].place as int].woken.push(
            before.waiting[k].waker,
        ),
{
    let place = before.waiting[k].place as int;
    assert(after.state.waiters[place] == before.state.waiters[place].wake());
}

/// Giving back a slot that was just allocated undoes the allocation, but that the registered wakers
/// were woken.
pub proof fn law_free_undoes_alloc<T>(before: PoolState<T>, allocated: PoolState<T>, n: usize)
    requires
        crate::state::alloc_outcome(before, allocated, Some(n)),
    ensures
        allocated.freed(n as int) == before.all_woken(),
{
    assert(allocated.freed(n as int) =~= before.all_woken());
}

/// Dropping a box that was just made undoes the making, but that the registered wakers were woken
/// and the item is among those that were dropped.
pub proof fn law_drop_undoes_put<T>(before: PoolState<T>, item: T, put: PoolState<T>, n: usize)
    requires
        crate::state::put_outcome(before, item, put, Some(n)),
    ensures
        put.dropped(n as int) == before.all_woken().destroying(item),
{
    crate::state::lemma_slot_rewritten(before, n as int, item);
}

/// In a full pool the slot that is given back is the next one to be allocated.
pub proof fn law_freed_slot_is_next<T>(
    before: PoolState<T>,
    n: usize,
    after: PoolState<T>,
    slot: Option<usize>,
)
    requires
        before.is_full(),
        before.is_allocated(n as int),
        crate::state::alloc_outcome(before.freed(n as int), after, slot),
    ensures
        slot == Some(n),
{
    let freed = before.freed(n as int);
    assert(freed.slots[n as int] is Free);
    if let Some(m) = slot {
        if m != n {
            assert(before.slots[m as int] !is Free);
            assert(freed.slots[m as int] == before.slots[m as int]);
        }
    }
}

/// In a full pool the slot of a box that is dropped is the next one that an item is put into.
pub proof fn law_dropped_slot_is_next<T>(
    before: PoolState<T>,
    n: usize,
    item: T,
    after: PoolState<T>,
    slot: Option<usize>,
)
    requires
        before.is_full(),
        before.holds(n as int),
        crate::state::put_outcome(before.dropped(n as int), item, after, slot),
    ensures
        slot == Some(n),
{
    let claimed = before.item_dropped(n as int);
    assert(claimed.is_full());
    let then = match slot {
        Some(m) => before.dropped(n as int).with_slot(m as int, Slot::Claimed),
        None => before.dropped(n as int),
    };
    law_freed_slot_is_next(claimed, n, then, slot);
}

/// An operation that waits gets the slot that is given back, if it is polled before any other
/// takes the slot.
pub proof fn law_waiting_gets_freed_slot<T>(
    before: PoolState<T>,
    n: usize,
    place: Option<usize>,
    waker: Waker,
    after: PoolState<T>,
    place_after: Option<usize>,
    outcome: Poll<Option<usize>>,
)
    requires
        before.is_full(),
        before.is_allocated(n as int),
        crate::state::poll_outcome(
            before.freed(n as int),
            place,
            waker,
            after,
            place_after,
            outcome,
        ),
    ensures
        outcome == Poll::Ready(Some(n)),
{
    let freed = before.freed(n as int);
    assert(freed.slots[n as int] is Free);
    if let Poll::Ready(Some(m)) = outcome {
        law_freed_slot_is_next(before, n, after, Some(m));
    }
}

/// Dropping an operation that began to wait undoes that: its place is free again, and nothing else
/// changed but the waker that it left in the place.
pub proof fn law_cancel_undoes_wait<T>(
    before: PoolState<T>,
    waker: Waker,
    pending: PoolState<T>,
    place: Option<usize>,
)
    requires
        crate::state::poll_outcome(before, None, waker, pending, place, Poll::Pending),
    ensures
        pending.place_released(place) == before.with_waiter(
            place->0 as int,
            Waiter { registered: Some(waker), ..before.waiters[place->0 as int] },
        ),
{
    assert(pending.place_released(place) =~= before.with_waiter(
        place->0 as int,
        Waiter { registered: Some(waker), ..before.waiters[place->0 as int] },
    ));
}

/// A box that is made is another one than every box that holds an item already, and leaves the
/// items of those as they are.
pub proof fn law_new_box_is_separate<P: Pool>(
    before: PoolState<P::Item>,
    item: P::Item,
    after: PoolState<P::Item>,
    made: Box<P>,
    other: Box<P>,
)
    requires
        crate::state::put_outcome(before, item, after, Some(made.slot())),
        other.is_live(before),
    ensures
        made.slot() != other.slot(),
        made.is_live(after),
        made.item(after) == item,
        other.is_live(after),
        other.item(after) == other.item(before),
{
}

/// Changing the item of one box leaves that of another as it is.
pub proof fn law_change_is_separate<P: Pool>(
    before: PoolState<P::Item>,
    changed: Box<P>,
    item: P::Item,
    other: Box<P>,
)
    requires
        changed.is_live(before),
        other.is_live(before),
        changed.slot() != other.slot(),
    ensures
        changed.item(before.with_slot(changed.slot() as int, Slot::Holds(item))) == item,
        other.is_live(before.with_slot(changed.slot() as int, Slot::Holds(item))),
        other.item(before.with_slot(changed.slot() as int, Slot::Holds(item))) == other.item(
            before,
        ),
{
}

/// Dropping one box leaves the item of another as it is.
pub proof fn law_drop_is_separate<P: Pool>(
    before: PoolState<P::Item>,
    dropped: Box<P>,
    other: Box<P>,
)
    requires
        dropped.is_live(before),
        other.is_live(before),
        dropped.slot() != other.slot(),
    ensures
        !dropped.is_live(before.dropped(dropped.slot() as int)),
        other.is_live(before.dropped(dropped.slot() as int)),
        other.item(before.dropped(dropped.slot() as int)) == other.item(before),
{
}

/// Of two changes of what a mapped box shows the last one counts.
pub proof fn law_last_change_counts<P: Pool, T: 'static + ?Sized, L: Projection<P::Item, T>>(
    b: Box<P>,
    projection: L,
    before: PoolState<P::Item>,
    part: &T,
    other: &T,
)
    requires
        crate::mapped::shows(b, projection, before),
        projection.fits(b.item(before), part),
        projection.fits(
            b.item(crate::mapped::with_shown(b, projection, before, part)),
            other,
        ),
    ensures
        crate::mapped::shown(
            b,
            projection,
            crate::mapped::with_shown(b, projection, before, part),
        ) == part,
        crate::mapped::with_shown(
            b,
            projection,
            crate::mapped::with_shown(b, projection, before, part),
            other,
        ) == crate::mapped::with_shown(b, projection, before, other),
{
    let item = b.item(before);
    projection.replacing(item, part, other);
    crate::state::lemma_slot_rewritten(
        before,
        b.slot() as int,
        projection.with_part(item, part),
    );
}

/// Mapping twice comes to the same as mapping once by the composition.
///
/// The box shows the part that `once.first()` selects. The first mapper leaves it as `part` and
/// returns `once.second()`, and the second mapper leaves the part of that as `inner` and returns
/// `twice.second()`. Then the second mapper was called on the part of what the first one left, the
/// pool is as if one mapper had left all of it at once, and the part that is shown in the end is in
/// the same place.
pub proof fn law_map_twice<
    P: Pool,
    T: 'static,
    M: 'static,
    R: 'static + ?Sized,
    B: Projection<P::Item, T>,
    F: Projection<T, M>,
    G: Projection<M, R>,
>(
    b: Box<P>,
    before: PoolState<P::Item>,
    part: T,
    inner: M,
    once: Then<T, B, F>,
    twice: Then<M, Then<T, B, F>, G>,
    composed: Then<T, B, Then<M, F, G>>,
)
    requires
        crate::mapped::shows(b, once.first(), before),
        once.first().fits(b.item(before), &part),
        once.second().selects(part),
        once.fits(
            b.item(crate::mapped::with_shown(b, once.first(), before, &part)),
            &inner,
        ),
        twice.first() == once,
        composed.first() == once.first(),
        composed.second().first() == once.second(),
        composed.second().second() == twice.second(),
    ensures
        *crate::mapped::shown(
            b,
            once,
            crate::mapped::with_shown(b, once.first(), before, &part),
        ) == *once.second().part(part),
        crate::mapped::with_shown(
            b,
            once,
            crate::mapped::with_shown(b, once.first(), before, &part),
            &inner,
        ) == crate::mapped::with_shown(
            b,
            once.first(),
            before,
            &once.second().with_part(part, &inner),
        ),
        forall|item: P::Item|
            {
                &&& #[trigger] twice.selects(item) == composed.selects(item)
                &&& twice.part(item) == composed.part(item)
                &&& forall|shown: &R| #[trigger]
                    twice.with_part(item, shown) == composed.with_part(item, shown)
            },
{
    let base = once.first();
    let item = b.item(before);
    let n = b.slot() as int;
    let combined = once.second().with_part(part, &inner);
    base.replacing(item, &part, &combined);
    crate::state::lemma_slot_rewritten(before, n, base.with_part(item, &part));
}

/// Mapping to the whole of what a box shows changes nothing: the pool stays as it is, and the part
/// that is shown is in the same place.
pub proof fn law_map_to_whole<P: Pool, T: 'static, B: Projection<P::Item, T>>(
    b: Box<P>,
    before: PoolState<P::Item>,
    mapped: Then<T, B, Whole>,
)
    requires
        crate::mapped::shows(b, mapped.first(), before),
    ensures
        crate::mapped::with_shown(
            b,
            mapped.first(),
            before,
            crate::mapped::shown(b, mapped.first(), before),
        ) == before,
        forall|item: P::Item|
            {
                &&& #[trigger] mapped.selects(item) == mapped.first().selects(item)
                &&& mapped.part(item) == mapped.first().part(item)
                &&& forall|shown: &T| #[trigger]
                    mapped.with_part(item, shown) == mapped.first().with_part(item, shown)
            },
{
    let base = mapped.first();
    let item = b.item(before);
    base.replacing(item, base.part(item), base.part(item));
    assert(before.with_slot(b.slot() as int, Slot::Holds(item)) =~= before);
}

} // verus!
