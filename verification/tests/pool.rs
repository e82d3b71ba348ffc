use std::mem;
use std::mem::size_of_val;
use std::sync::atomic::{AtomicUsize, Ordering};
use std::sync::Arc;
use std::task::{Wake, Waker};

use async_pool::{Box, Poll, Pool, PoolStorage, PoolStorageImpl};

struct TestPool;

impl Pool for TestPool {
    type Item = u32;
    type Storage = PoolStorageImpl<u32, 4, 1, 0, 0>;
}

struct TestPool2;

impl Pool for TestPool2 {
    type Item = u32;
    type Storage = PoolStorageImpl<u32, 4, 1, 1, 1>;
}

struct TestPool3;

impl Pool for TestPool3 {
    type Item = [u8; 2048];
    type Storage = PoolStorageImpl<[u8; 2048], 0, 0, 2, 1>;
}

/// Counts how often it is woken.
struct Counter {
    woken: AtomicUsize,
}

impl Wake for Counter {
    fn wake(self: Arc<Self>) {
        self.woken.fetch_add(1, Ordering::SeqCst);
    }
}

impl Counter {
    fn new() -> Arc<Counter> {
        Arc::new(Counter {
            woken: AtomicUsize::new(0),
        })
    }

    fn count(&self) -> usize {
        self.woken.load(Ordering::SeqCst)
    }
}

/// A waker that wakes nobody.
fn idle() -> Waker {
    Waker::from(Counter::new())
}

/// The outcome of a poll that must be complete.
fn ready<R>(outcome: Poll<R>) -> R {
    match outcome {
        Poll::Ready(result) => result,
        Poll::Pending => panic!("should be ready"),
    }
}

#[test]
fn test_pool() {
    let mut pool = PoolStorageImpl::new();
    let b1 = Box::<TestPool>::new(&mut pool, 111).unwrap();
    let b2 = Box::<TestPool>::new(&mut pool, 222).unwrap();
    let b3 = Box::<TestPool>::new(&mut pool, 333).unwrap();
    let b4 = Box::<TestPool>::new(&mut pool, 444).unwrap();
    assert!(Box::<TestPool>::new(&mut pool, 555).is_none());
    assert_eq!(*b1.deref(&pool), 111);
    assert_eq!(*b2.deref(&pool), 222);
    assert_eq!(*b3.deref(&pool), 333);
    assert_eq!(*b4.deref(&pool), 444);
    b3.drop(&mut pool);
    let b5 = Box::<TestPool>::new(&mut pool, 555).unwrap();
    assert!(Box::<TestPool>::new(&mut pool, 666).is_none());
    assert_eq!(*b1.deref(&pool), 111);
    assert_eq!(*b2.deref(&pool), 222);
    assert_eq!(*b4.deref(&pool), 444);
    assert_eq!(*b5.deref(&pool), 555);
}

#[test]
fn test_async_sizes() {
    let pool1: <TestPool as Pool>::Storage = PoolStorageImpl::new();
    let pool2: <TestPool2 as Pool>::Storage = PoolStorageImpl::new();
    assert!(mem::size_of_val(&pool1) < mem::size_of_val(&pool2));
}

#[test]
fn empty_async_pool() {
    let waker = idle();
    let mut pool = PoolStorageImpl::new();
    let b1 = Box::<TestPool>::new(&mut pool, 111).unwrap();
    let b2 = ready(Box::<TestPool>::new_async(222).poll(&mut pool, &waker)).unwrap();
    let b3 = Box::<TestPool>::new(&mut pool, 333).unwrap();
    let b4 = ready(Box::<TestPool>::new_async(444).poll(&mut pool, &waker)).unwrap();
    assert!(ready(Box::<TestPool>::new_async(555).poll(&mut pool, &waker)).is_none());
    assert_eq!(*b3.deref(&pool), 333);
    b3.drop(&mut pool);
    let b5 = ready(Box::<TestPool>::new_async(555).poll(&mut pool, &waker)).unwrap();
    assert!(ready(Box::<TestPool>::new_async(666).poll(&mut pool, &waker)).is_none());
    assert_eq!(*b1.deref(&pool), 111);
    assert_eq!(*b2.deref(&pool), 222);
    assert_eq!(*b4.deref(&pool), 444);
    assert_eq!(*b5.deref(&pool), 555);
}

#[test]
fn cancelled_future() {
    let waker = idle();
    let mut pool = PoolStorageImpl::new();
    let b1 = ready(Box::<TestPool2>::new_async(111).poll(&mut pool, &waker)).unwrap();
    let b2 = Box::<TestPool2>::new(&mut pool, 222).unwrap();
    let b3 = ready(Box::<TestPool2>::new_async(333).poll(&mut pool, &waker)).unwrap();
    let b4 = Box::<TestPool2>::new(&mut pool, 444).unwrap();
    assert_eq!(*b1.deref(&pool), 111);
    assert_eq!(*b2.deref(&pool), 222);
    assert_eq!(*b3.deref(&pool), 333);
    assert_eq!(*b4.deref(&pool), 444);

    let mut fut2 = Box::<TestPool2>::new_async(555);
    for _ in 0..3 {
        if let Poll::Ready(_) = fut2.poll(&mut pool, &waker) {
            panic!("Future should have been cancelled");
        }
    }
    fut2.cancel(&mut pool);

    let counter = Counter::new();
    let waker4 = Waker::from(counter.clone());
    let mut fut4 = Box::<TestPool2>::new_async(666);
    assert!(matches!(fut4.poll(&mut pool, &waker4), Poll::Pending));
    assert_eq!(counter.count(), 0);
    b1.drop(&mut pool);
    assert_eq!(counter.count(), 1);
    let b6 = ready(fut4.poll(&mut pool, &waker4));
    assert_eq!(*b6.unwrap().deref(&pool), 666);
}

#[test]
fn stack_frame_size() {
    let large_future = Box::<TestPool3>::new_async([0u8; 2048]);

    let smaller_future = Box::<TestPool3>::new_async_with(|| [0u8; 2048]);

    assert!(size_of_val(&large_future) > size_of_val(&smaller_future));
    // difference should be significant
    assert!(size_of_val(&large_future) > size_of_val(&smaller_future) * 10);
}

#[test]
fn pool_without_slots_only_waits() {
    let waker = idle();
    let mut pool = PoolStorageImpl::new();
    assert!(Box::<TestPool3>::new(&mut pool, [0u8; 2048]).is_none());
    let mut first = Box::<TestPool3>::new_async([1u8; 2048]);
    let mut second = Box::<TestPool3>::new_async_with(|| [2u8; 2048]);
    let mut third = Box::<TestPool3>::new_async([3u8; 2048]);
    assert!(matches!(first.poll(&mut pool, &waker), Poll::Pending));
    assert!(matches!(second.poll(&mut pool, &waker), Poll::Pending));
    assert!(matches!(third.poll(&mut pool, &waker), Poll::Ready(None)));
    // A place that was given up can be taken again
    first.cancel(&mut pool);
    let mut fourth = Box::<TestPool3>::new_async([4u8; 2048]);
    assert!(matches!(fourth.poll(&mut pool, &waker), Poll::Pending));
    assert!(matches!(second.poll(&mut pool, &waker), Poll::Pending));
}

#[test]
fn slots_are_given_lowest_first() {
    let mut pool: PoolStorageImpl<u8, 70, 3, 0, 0> = PoolStorageImpl::new();
    for n in 0..70 {
        assert_eq!(pool.alloc_slot(), Some(n));
    }
    assert_eq!(pool.alloc_slot(), None);
    for n in [69, 31, 32, 0] {
        pool.free(n);
        assert_eq!(pool.alloc_slot(), Some(n));
    }
    pool.free(64);
    pool.free(33);
    pool.free(63);
    assert_eq!(pool.alloc_slot(), Some(33));
    assert_eq!(pool.alloc_slot(), Some(63));
    assert_eq!(pool.alloc_slot(), Some(64));
    assert_eq!(pool.alloc_slot(), None);
}

#[test]
fn words_limit_the_slots() {
    let mut pool: PoolStorageImpl<u8, 40, 1, 0, 0> = PoolStorageImpl::new();
    for n in 0..32 {
        assert_eq!(pool.alloc_slot(), Some(n));
    }
    assert_eq!(pool.alloc_slot(), None);
}

#[test]
fn polled_allocation_of_a_slot() {
    let waker = idle();
    let mut pool: PoolStorageImpl<u8, 1, 1, 1, 1> = PoolStorageImpl::new();
    let mut first = pool.alloc_async();
    assert_eq!(pool.poll_alloc(&mut first, &waker), Poll::Ready(Some(0)));
    let mut second = pool.alloc_async();
    assert_eq!(pool.poll_alloc(&mut second, &waker), Poll::Pending);
    let mut third = pool.alloc_async();
    assert_eq!(pool.poll_alloc(&mut third, &waker), Poll::Ready(None));
    pool.drop_alloc(second);
    assert_eq!(pool.poll_alloc(&mut third, &waker), Poll::Pending);
    pool.free(0);
    assert_eq!(pool.poll_alloc(&mut third, &waker), Poll::Ready(Some(0)));
    pool.drop_alloc(third);
    pool.drop_alloc(first);
}

#[test]
fn freeing_a_slot_wakes_all_that_wait() {
    struct Narrow;
    impl Pool for Narrow {
        type Item = u32;
        type Storage = PoolStorageImpl<u32, 1, 1, 3, 1>;
    }
    let counters = [Counter::new(), Counter::new(), Counter::new()];
    let mut pool = PoolStorageImpl::new();
    let b = Box::<Narrow>::new(&mut pool, 1).unwrap();
    let mut futures = vec![];
    for counter in &counters {
        let mut future = Box::<Narrow>::new_async(2);
        let waker = Waker::from(counter.clone());
        assert!(matches!(future.poll(&mut pool, &waker), Poll::Pending));
        // Polling again registers the waker again, not a second time
        assert!(matches!(future.poll(&mut pool, &waker), Poll::Pending));
        futures.push(future);
    }
    b.drop(&mut pool);
    for counter in &counters {
        assert_eq!(counter.count(), 1);
    }
    // One gets the slot, the others go on waiting
    let waker = Waker::from(counters[1].clone());
    let b = ready(futures[1].poll(&mut pool, &waker)).unwrap();
    let waker = Waker::from(counters[0].clone());
    assert!(matches!(futures[0].poll(&mut pool, &waker), Poll::Pending));
    b.drop(&mut pool);
    assert_eq!(counters[0].count(), 2);
    assert_eq!(counters[2].count(), 2);
    let waker = Waker::from(counters[2].clone());
    assert!(ready(futures[2].poll(&mut pool, &waker)).is_some());
}

#[test]
fn the_last_waker_is_the_one_that_is_woken() {
    let early = Counter::new();
    let late = Counter::new();
    let mut pool = PoolStorageImpl::new();
    let mut boxes = vec![];
    for item in 0..4 {
        boxes.push(Box::<TestPool2>::new(&mut pool, item).unwrap());
    }
    let mut future = Box::<TestPool2>::new_async(4);
    assert!(matches!(future.poll(&mut pool, &Waker::from(early.clone())), Poll::Pending));
    assert!(matches!(future.poll(&mut pool, &Waker::from(late.clone())), Poll::Pending));
    boxes.pop().unwrap().drop(&mut pool);
    assert_eq!(early.count(), 0);
    assert_eq!(late.count(), 1);
}

#[test]
fn making_an_item_waits_for_the_slot() {
    let calls = AtomicUsize::new(0);
    let waker = idle();
    let mut pool = PoolStorageImpl::new();
    let mut boxes = vec![];
    for item in 0..4 {
        boxes.push(Box::<TestPool2>::new(&mut pool, item).unwrap());
    }
    let mut future = Box::<TestPool2>::new_async_with(|| {
        calls.fetch_add(1, Ordering::SeqCst);
        77
    });
    assert!(matches!(future.poll(&mut pool, &waker), Poll::Pending));
    assert_eq!(calls.load(Ordering::SeqCst), 0);
    boxes.remove(2).drop(&mut pool);
    let b = ready(future.poll(&mut pool, &waker)).unwrap();
    assert_eq!(calls.load(Ordering::SeqCst), 1);
    assert_eq!(*b.deref(&pool), 77);
    assert_eq!(Box::into_raw(b), 2);
}

#[test]
fn items_are_changed_in_place() {
    let mut pool = PoolStorageImpl::new();
    let mut b1 = Box::<TestPool>::new(&mut pool, 1).unwrap();
    let b2 = Box::<TestPool>::new(&mut pool, 2).unwrap();
    *b1.deref_mut(&mut pool) += 10;
    assert_eq!(*b1.deref(&pool), 11);
    assert_eq!(*b2.deref(&pool), 2);
}

#[test]
fn raw_slots_and_back() {
    let mut pool = PoolStorageImpl::new();
    let b1 = Box::<TestPool>::new(&mut pool, 8).unwrap();
    let b2 = Box::<TestPool>::new(&mut pool, 9).unwrap();
    assert_eq!(Box::into_raw(b1), 0);
    let slot = Box::into_raw(b2);
    assert_eq!(slot, 1);
    let again = Box::<TestPool>::from_raw(slot);
    assert_eq!(*again.deref(&pool), 9);
    again.drop(&mut pool);
    assert_eq!(Box::into_raw(Box::<TestPool>::new(&mut pool, 10).unwrap()), 1);
}

#[test]
fn boxes_compare_as_their_items() {
    let mut pool = PoolStorageImpl::new();
    let b1 = Box::<TestPool>::new(&mut pool, 5).unwrap();
    let b2 = Box::<TestPool>::new(&mut pool, 5).unwrap();
    let b3 = Box::<TestPool>::new(&mut pool, 6).unwrap();
    assert!(b1.eq(&b2, &pool));
    assert!(!b1.eq(&b3, &pool));
    assert_eq!(b1.partial_cmp(&b3, &pool), Some(std::cmp::Ordering::Less));
    assert_eq!(b3.cmp(&b1, &pool), std::cmp::Ordering::Greater);
    assert_eq!(b1.cmp(&b2, &pool), std::cmp::Ordering::Equal);
}

#[test]
fn items_are_dropped_with_their_boxes_only() {
    struct Shared;
    impl Pool for Shared {
        type Item = Arc<u32>;
        type Storage = PoolStorageImpl<Arc<u32>, 2, 1, 0, 0>;
    }
    let item = Arc::new(3);
    let mut pool = PoolStorageImpl::new();
    let b1 = Box::<Shared>::new(&mut pool, item.clone()).unwrap();
    let b2 = Box::<Shared>::new(&mut pool, item.clone()).unwrap();
    assert!(Box::<Shared>::new(&mut pool, item.clone()).is_none());
    assert_eq!(Arc::strong_count(&item), 3);
    b1.drop(&mut pool);
    assert_eq!(Arc::strong_count(&item), 2);
    // Giving back the slot alone does not drop what it holds
    let slot = Box::into_raw(b2);
    pool.free(slot);
    assert_eq!(Arc::strong_count(&item), 2);
    assert_eq!(pool.alloc_slot(), Some(0));
    assert_eq!(pool.alloc_slot(), Some(1));
    pool.write(1, item.clone());
    assert_eq!(**pool.item_ref(1), 3);
    *pool.item_mut(1) = Arc::new(4);
    assert_eq!(**pool.item_ref(1), 4);
    pool.drop_in_place(1);
    pool.free(1);
    assert_eq!(pool.alloc_slot(), Some(1));
}

#[test]
fn nothing_is_made_without_a_slot() {
    struct Nothing;
    impl Pool for Nothing {
        type Item = u32;
        type Storage = PoolStorageImpl<u32, 0, 0, 0, 0>;
    }
    let waker = idle();
    let mut pool = PoolStorageImpl::new();
    let mut refused = Box::<Nothing>::new_async_with(|| panic!("no slot"));
    assert!(matches!(refused.poll(&mut pool, &waker), Poll::Ready(None)));

    let mut pool = PoolStorageImpl::new();
    let mut waiting = Box::<TestPool3>::new_async_with(|| panic!("no slot"));
    assert!(matches!(waiting.poll(&mut pool, &waker), Poll::Pending));
    waiting.cancel(&mut pool);
}

#[test]
fn storage_that_goes_away_drops_nothing() {
    struct Shared;
    impl Pool for Shared {
        type Item = Arc<u32>;
        type Storage = PoolStorageImpl<Arc<u32>, 2, 1, 0, 0>;
    }
    let item = Arc::new(3);
    let mut pool = PoolStorageImpl::new();
    let kept = Box::<Shared>::new(&mut pool, item.clone()).unwrap();
    let dropped = Box::<Shared>::new(&mut pool, item.clone()).unwrap();
    dropped.drop(&mut pool);
    assert_eq!(Arc::strong_count(&item), 2);
    assert_eq!(Box::into_raw(kept), 0);
    mem::drop(pool);
    assert_eq!(Arc::strong_count(&item), 2);
}
