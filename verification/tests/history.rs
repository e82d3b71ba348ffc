use std::sync::atomic::{AtomicUsize, Ordering};
use std::sync::Arc;
use std::task::{Wake, Waker};

use async_pool::{Box, NewAsync, Poll, Pool, PoolStorageImpl};

const SLOTS: usize = 37;
const PLACES: usize = 5;

struct Numbers;

impl Pool for Numbers {
    type Item = u64;
    type Storage = PoolStorageImpl<u64, SLOTS, 2, PLACES, 1>;
}

struct Counter {
    woken: AtomicUsize,
}

impl Wake for Counter {
    fn wake(self: Arc<Self>) {
        self.woken.fetch_add(1, Ordering::SeqCst);
    }
}

struct Waiting<F> {
    future: NewAsync<Numbers, F>,
    item: u64,
    counter: Arc<Counter>,
    woken_before: usize,
}

/// The next of a fixed sequence of numbers that look random.
fn next(seed: &mut u64) -> usize {
    *seed = seed.wrapping_mul(6364136223846793005).wrapping_add(1442695040888963407);
    (*seed >> 33) as usize
}

#[test]
fn pool_stays_in_order() {
    let mut seed = 1;
    let mut pool = PoolStorageImpl::new();
    let mut boxes: Vec<(Box<Numbers>, u64)> = vec![];
    let mut waiting = vec![];
    for step in 0..20000u64 {
        // Fill up and run empty in turns
        let lean = if (step / 500) % 2 == 0 { 6 } else { 2 };
        match next(&mut seed) % 10 {
            n if n < lean => match Box::<Numbers>::new(&mut pool, step) {
                Some(b) => {
                    assert!(boxes.len() < SLOTS);
                    boxes.push((b, step));
                }
                None => assert_eq!(boxes.len(), SLOTS),
            },
            6 => {
                let counter = Arc::new(Counter {
                    woken: AtomicUsize::new(0),
                });
                let mut future = Box::<Numbers>::new_async(step);
                match future.poll(&mut pool, &Waker::from(counter.clone())) {
                    Poll::Ready(Some(b)) => {
                        assert!(boxes.len() < SLOTS);
                        boxes.push((b, step));
                    }
                    Poll::Ready(None) => {
                        assert_eq!(boxes.len(), SLOTS);
                        assert_eq!(waiting.len(), PLACES);
                    }
                    Poll::Pending => {
                        assert_eq!(boxes.len(), SLOTS);
                        assert!(waiting.len() < PLACES);
                        waiting.push(Waiting {
                            future,
                            item: step,
                            counter,
                            woken_before: 0,
                        });
                    }
                }
            }
            7 => {
                if !waiting.is_empty() {
                    let k = next(&mut seed) % waiting.len();
                    let mut w = waiting.remove(k);
                    match w.future.poll(&mut pool, &Waker::from(w.counter.clone())) {
                        Poll::Ready(Some(b)) => {
                            assert!(boxes.len() < SLOTS);
                            boxes.push((b, w.item));
                        }
                        Poll::Ready(None) => panic!("one that waits is not refused"),
                        Poll::Pending => {
                            assert_eq!(boxes.len(), SLOTS);
                            w.woken_before = w.counter.woken.load(Ordering::SeqCst);
                            waiting.push(w);
                        }
                    }
                }
            }
            8 => {
                if !waiting.is_empty() && next(&mut seed) % 4 == 0 {
                    let k = next(&mut seed) % waiting.len();
                    waiting.remove(k).future.cancel(&mut pool);
                }
            }
            _ => {
                if !boxes.is_empty() {
                    let k = next(&mut seed) % boxes.len();
                    let (b, item) = boxes.remove(k);
                    assert_eq!(*b.deref(&pool), item);
                    b.drop(&mut pool);
                }
            }
        }
        for (b, item) in &boxes {
            assert_eq!(*b.deref(&pool), *item);
        }
        if boxes.len() < SLOTS {
            for w in &waiting {
                assert!(w.counter.woken.load(Ordering::SeqCst) > w.woken_before);
            }
        }
    }
}
