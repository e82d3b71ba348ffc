//! The storage of a pool: the slots, and the places for tasks that wait for one.
use vstd::prelude::*;

use core::mem::ManuallyDrop;
use core::ops::Deref;
use core::task::Waker;
use embassy_sync::waitqueue::AtomicWaker;

use crate::atomic_bitset::AtomicBitset;
use crate::dropping::DropRecord;
use crate::outside::{array_from_fn, manually_drop_mut, register_waker, wake_registered};
use crate::state::{Poll, Slot};

verus! {

/// An allocation that waits until a slot is free.
///
/// It is driven with [`PoolStorage::poll_alloc`], and ends with [`PoolStorage::drop_alloc`].
#[must_use]
pub struct AllocAsync {
    waker_slot: Option<usize>,
}

impl AllocAsync {
    /// The place for a waiting task that the allocation has, if it has one.
    pub closed spec fn place(&self) -> Option<usize> {
        self.waker_slot
    }

    /// The place that the allocation has, if it has one, is taken in this pool.
    pub open spec fn belongs_to<T>(&self, state: crate::state::PoolState<T>) -> bool {
        state.has_taken(self.place())
    }
}

/// The slots of a pool, and the places for the tasks that wait for one.
///
/// A slot is named by its index.
pub trait PoolStorage<T> {
    /// The storage is in order.
    spec fn wf(&self) -> bool;

    /// The slots and the places for waiting tasks.
    spec fn state(&self) -> crate::state::PoolState<T>;

    /// The items that were dropped without ever having been in a slot, the earliest first.
    spec fn unstored(&self) -> Seq<T>;

    /// Returns a slot, if available.
    /// Returns `None` if the pool is full.
    fn alloc_slot(&mut self) -> (slot: Option<usize>)
        requires
            old(self).wf(),
        ensures
            final(self).wf(),
            crate::state::alloc_outcome(old(self).state(), final(self).state(), slot),
            final(self).unstored() == old(self).unstored(),
    ;

    /// An allocation that waits until a slot is available.
    /// Nothing happens before it is polled.
    fn alloc_async(&self) -> (request: AllocAsync)
        ensures
            request.place() is None,
    ;

    /// Makes progress with an allocation.
    ///
    /// It is complete with a slot as soon as one is available, and with `None` when none is and
    /// every place for a waiting task is taken. Otherwise it is pending, and `waker` is woken
    /// when a slot is freed.
    fn poll_alloc(&mut self, request: &mut AllocAsync, waker: &Waker) -> (outcome: Poll<
        Option<usize>,
    >)
        requires
            old(self).wf(),
            old(request).belongs_to(old(self).state()),
        ensures
            final(self).wf(),
            final(request).belongs_to(final(self).state()),
            crate::state::poll_outcome(
                old(self).state(),
                old(request).place(),
                *waker,
                final(self).state(),
                final(request).place(),
                outcome,
            ),
            final(self).unstored() == old(self).unstored(),
    ;

    /// Ends an allocation, whether or not it is complete, and gives up the place it has.
    fn drop_alloc(&mut self, request: AllocAsync)
        requires
            old(self).wf(),
            request.belongs_to(old(self).state()),
        ensures
            final(self).wf(),
            final(self).state() == old(self).state().place_released(request.place()),
            final(self).unstored() == old(self).unstored(),
    ;

    /// Gives a slot back, and wakes every registered waker. What the slot holds is not dropped.
    fn free(&mut self, slot: usize)
        requires
            old(self).wf(),
            old(self).state().is_allocated(slot as int),
        ensures
            final(self).wf(),
            final(self).state() == old(self).state().freed(slot as int),
            final(self).unstored() == old(self).unstored(),
    ;

    /// Writes an item to a slot that was allocated.
    fn write(&mut self, slot: usize, item: T)
        requires
            old(self).wf(),
            old(self).state().is_allocated(slot as int),
            !old(self).state().holds(slot as int),
        ensures
            final(self).wf(),
            final(self).state() == old(self).state().with_slot(slot as int, Slot::Holds(item)),
            final(self).unstored() == old(self).unstored(),
    ;

    /// Drops the item in a slot. The slot stays allocated.
    ///
    /// What its destructor does is not said.
    fn drop_in_place(&mut self, slot: usize)
        requires
            old(self).wf(),
            old(self).state().holds(slot as int),
        ensures
            final(self).wf(),
            final(self).state() == old(self).state().item_dropped(slot as int),
            final(self).unstored() == old(self).unstored(),
    ;

    /// Drops an item that is in no slot and never was.
    ///
    /// What its destructor does is not said.
    fn drop_unstored(&mut self, item: T)
        requires
            old(self).wf(),
        ensures
            final(self).wf(),
            final(self).state() == old(self).state(),
            final(self).unstored() == old(self).unstored().push(item),
    ;

    /// The record of the items that were dropped.
    fn drop_record(&self) -> (record: &DropRecord<T>)
        ensures
            record@ == self.state().destroyed,
    ;

    /// The record of the items that were dropped without ever having been in a slot.
    fn unstored_record(&self) -> (record: &DropRecord<T>)
        ensures
            record@ == self.unstored(),
    ;

    /// The cell in which a task that waits in this place leaves its waker, and from which that is
    /// woken.
    fn waker_at(&self, place: usize) -> (cell: &AtomicWaker)
        requires
            self.wf(),
            place < self.state().waiters.len(),
        ensures
            crate::outside::registered_waker(*cell)
                == self.state().waiters[place as int].registered,
            crate::outside::woken_by(*cell) == self.state().waiters[place as int].woken,
    ;

    /// The item in a slot.
    fn item_ref(&self, slot: usize) -> (item: &T)
        requires
            self.wf(),
            self.state().holds(slot as int),
        ensures
            *item == self.state().item(slot as int),
    ;

    /// The item in a slot, to change it in place.
    fn item_mut(&mut self, slot: usize) -> (item: &mut T)
        requires
            old(self).wf(),
            old(self).state().holds(slot as int),
        ensures
            *item == old(self).state().item(slot as int),
            final(self).wf(),
            final(self).state() == old(self).state().with_slot(
                slot as int,
                Slot::Holds(*final(item)),
            ),
            final(self).unstored() == old(self).unstored(),
    ;
}

/// Storage for `N` items of type `T`, and for `WN` tasks that wait for one.
///
/// `K` and `WK` are the numbers of 32-bit words in which it is kept which of them are in use:
/// `N / 32` and `WN / 32`, rounded up. With fewer words only the items and tasks that they cover
/// are used.
///
/// When the storage goes away, the items that are still in it are not dropped.
pub struct PoolStorageImpl<
    T,
    const N: usize,
    const K: usize,
    const WN: usize,
    const WK: usize,
> {
    used: AtomicBitset<N, K>,
    data: [Option<ManuallyDrop<T>>; N],
    wakers_used: AtomicBitset<WN, WK>,
    wakers: [AtomicWaker; WN],
    left: Ghost<Seq<T>>,
    destroyed: DropRecord<T>,
    unstored: DropRecord<T>,
}

/// A slot without an item.
fn vacant<T>(_i: usize) -> (cell: Option<ManuallyDrop<T>>)
    ensures
        cell is None,
{
    None
}

/// A place nobody has used yet.
fn fresh_waker(_i: usize) -> (cell: AtomicWaker)
    ensures
        crate::outside::registered_waker(cell) is None,
        crate::outside::woken_by(cell) == Seq::<Waker>::empty(),
{
    AtomicWaker::new()
}

impl<T, const N: usize, const K: usize, const WN: usize, const WK: usize> PoolStorageImpl<
    T,
    N,
    K,
    WN,
    WK,
> {
    /// What slot `i` is used for.
    spec fn slot_at(&self, i: int) -> Slot<T> {
        if !self.used@[i] {
            Slot::Free
        } else {
            match self.data@[i] {
                Some(item) => Slot::Holds(item@),
                None => Slot::Claimed,
            }
        }
    }

    /// The place `i`.
    spec fn waiter_at(&self, i: int) -> crate::state::Waiter {
        crate::state::Waiter {
            taken: self.wakers_used@[i],
            registered: crate::outside::registered_waker(self.wakers@[i]),
            woken: crate::outside::woken_by(self.wakers@[i]),
        }
    }

    /// Storage in which every slot is free and nobody waits.
    pub fn new() -> (storage: Self)
        ensures
            storage.wf(),
            storage.state() == crate::state::PoolState::<T>::empty(
                crate::atomic_bitset::bit_capacity(N, K),
                crate::atomic_bitset::bit_capacity(WN, WK),
            ),
            N <= 32 * K ==> storage.state().slots.len() == N,
            WN <= 32 * WK ==> storage.state().waiters.len() == WN,
            forall|n: int|
                0 <= n < storage.state().slots.len() ==> (#[trigger] storage.state().slots[n])
                    is Free,
            forall|n: int|
                0 <= n < storage.state().waiters.len()
                    ==> !(#[trigger] storage.state().waiters[n]).taken,
            storage.unstored() == Seq::<T>::empty(),
    {
        let storage = PoolStorageImpl {
            used: AtomicBitset::new(),
            data: array_from_fn(vacant),
            wakers_used: AtomicBitset::new(),
            wakers: array_from_fn(fresh_waker),
            left: Ghost(Seq::empty()),
            destroyed: DropRecord::new(),
            unstored: DropRecord::new(),
        };
        proof {
            let empty = crate::state::PoolState::<T>::empty(
                crate::atomic_bitset::bit_capacity(N, K),
                crate::atomic_bitset::bit_capacity(WN, WK),
            );
            assert forall|i: int| 0 <= i < N implies #[trigger] storage.data@[i] is None by {
                assert(call_ensures(vacant::<T>, (i as usize,), storage.data@[i as usize as int]));
            }
            assert forall|i: int| 0 <= i < empty.waiters.len() implies #[trigger] storage.waiter_at(
                i,
            ) == crate::state::Waiter::unused() by {
                assert(call_ensures(
                    fresh_waker,
                    (i as usize,),
                    storage.wakers@[i as usize as int],
                ));
            }
            assert(storage.state().slots =~= empty.slots);
            assert(storage.state().waiters =~= empty.waiters);
        }
        storage
    }
}

impl<
    T,
    const N: usize,
    const K: usize,
    const WN: usize,
    const WK: usize,
> PoolStorage<T> for PoolStorageImpl<T, N, K, WN, WK> {
    closed spec fn wf(&self) -> bool {
        &&& self.used@.len() == crate::atomic_bitset::bit_capacity(N, K)
        &&& self.wakers_used@.len() == crate::atomic_bitset::bit_capacity(WN, WK)
        &&& forall|i: int|
            0 <= i < self.used@.len() && !self.used@[i] ==> #[trigger] self.data@[i] is None
    }

    closed spec fn state(&self) -> crate::state::PoolState<T> {
        crate::state::PoolState {
            slots: Seq::new(self.used@.len(), |i: int| self.slot_at(i)),
            waiters: Seq::new(self.wakers_used@.len(), |i: int| self.waiter_at(i)),
            left: self.left@,
            destroyed: self.destroyed@,
        }
    }

    closed spec fn unstored(&self) -> Seq<T> {
        self.unstored@
    }

    fn alloc_slot(&mut self) -> (slot: Option<usize>) {
        let n = self.used.alloc_bit();
        proof {
            match n {
                Some(n) => {
                    assert(self.state() =~= old(self).state().with_slot(n as int, Slot::Claimed));
                },
                None => {
                    assert(self.state() =~= old(self).state());
                },
            }
        }
        n
    }

    fn alloc_async(&self) -> (request: AllocAsync) {
        AllocAsync { waker_slot: None }
    }

    fn poll_alloc(&mut self, request: &mut AllocAsync, waker: &Waker) -> (outcome: Poll<
        Option<usize>,
    >) {
        // Check if there is a free slot
        if let Some(n) = self.alloc_slot() {
            return Poll::Ready(Some(n));
        }
        let ghost full = *self;

        // Try to take a place for the waiting task if necessary
        if request.waker_slot.is_none() {
            request.waker_slot = self.wakers_used.alloc_bit();
        }
        match request.waker_slot {
            Some(place) => {
                register_waker(&mut self.wakers[place], waker);
                proof {
                    assert(self.state() =~= full.state().with_waiter(
                        place as int,
                        full.state().waiters[place as int].wait(*waker),
                    ));
                }
                Poll::Pending
            },
            None => {
                assert(self.state() =~= full.state());
                // No place left
                Poll::Ready(None)
            },
        }
    }

    fn drop_alloc(&mut self, request: AllocAsync) {
        if let Some(place) = request.waker_slot {
            self.wakers_used.free_bit(place);
        }
        assert(self.state() =~= old(self).state().place_released(request.place()));
    }

    fn free(&mut self, slot: usize) {
        self.left = Ghost(
            match self.data@[slot as int] {
                Some(item) => self.left@.push(item@),
                None => self.left@,
            },
        );
        self.data[slot] = None;
        self.used.free_bit(slot);

        // Wake up any wakers waiting for a slot
        let ghost before = *self;
        let mut i: usize = 0;
        while i < WN
            invariant
                i <= WN,
                self.used == before.used,
                self.data == before.data,
                self.wakers_used == before.wakers_used,
                self.left == before.left,
                self.destroyed == before.destroyed,
                self.unstored == before.unstored,
                forall|j: int|
                    i <= j < WN ==> crate::outside::registered_waker(#[trigger] self.wakers@[j])
                        == crate::outside::registered_waker(before.wakers@[j])
                        && crate::outside::woken_by(self.wakers@[j]) == crate::outside::woken_by(
                        before.wakers@[j],
                    ),
                forall|j: int|
                    0 <= j < i && j < before.wakers_used@.len() ==> #[trigger] self.waiter_at(j)
                        == before.waiter_at(j).wake(),
            decreases WN - i,
        {
            let ghost unwoken = *self;
            wake_registered(&mut self.wakers[i]);
            proof {
                assert forall|j: int|
                    0 <= j <= i && j < before.wakers_used@.len() implies #[trigger] self.waiter_at(
                    j,
                ) == before.waiter_at(j).wake() by {
                    if j < i {
                        assert(self.waiter_at(j) == unwoken.waiter_at(j));
                    }
                }
            }
            i += 1;
        }
        assert(self.state() =~= old(self).state().freed(slot as int));
    }

    fn write(&mut self, slot: usize, item: T) {
        self.data[slot] = Some(ManuallyDrop::new(item));
        assert(self.state() =~= old(self).state().with_slot(slot as int, Slot::Holds(item)));
    }

    fn drop_in_place(&mut self, slot: usize) {
        if let Some(item) = self.data[slot].take() {
            self.destroyed.run(ManuallyDrop::into_inner(item));
        }
        assert(self.state() =~= old(self).state().item_dropped(slot as int));
    }

    fn drop_unstored(&mut self, item: T) {
        self.unstored.run(item);
        assert(self.state() =~= old(self).state());
    }

    fn drop_record(&self) -> (record: &DropRecord<T>) {
        &self.destroyed
    }

    fn unstored_record(&self) -> (record: &DropRecord<T>) {
        &self.unstored
    }

    fn waker_at(&self, place: usize) -> (cell: &AtomicWaker) {
        &self.wakers[place]
    }

    fn item_ref(&self, slot: usize) -> (item: &T) {
        self.data[slot].as_ref().unwrap().deref()
    }

    fn item_mut(&mut self, slot: usize) -> (item: &mut T) {
        manually_drop_mut(self.data[slot].as_mut().unwrap())
    }
}

/// A storage in order has as many slots and as many places for waiting tasks as its type says.
pub proof fn law_storage_size<
    T,
    const N: usize,
    const K: usize,
    const WN: usize,
    const WK: usize,
>(storage: &PoolStorageImpl<T, N, K, WN, WK>)
    requires
        storage.wf(),
    ensures
        storage.state().slots.len() == crate::atomic_bitset::bit_capacity(N, K),
        storage.state().waiters.len() == crate::atomic_bitset::bit_capacity(WN, WK),
        N <= 32 * K ==> storage.state().slots.len() == N,
        N > 32 * K ==> storage.state().slots.len() == 32 * K,
        WN <= 32 * WK ==> storage.state().waiters.len() == WN,
        WN > 32 * WK ==> storage.state().waiters.len() == 32 * WK,
{
}

} // verus!
