use std::sync::atomic::{AtomicUsize, Ordering};
use std::sync::Arc;
use std::task::{Wake, Waker};

use async_pool::{Box, BoxExt, MappedBox, Poll, Pool, PoolStorageImpl, Projection, Then, Whole};

struct Idle;

impl Wake for Idle {
    fn wake(self: Arc<Self>) {}
}

fn idle() -> Waker {
    Waker::from(Arc::new(Idle))
}

fn ready<R>(outcome: Poll<R>) -> R {
    match outcome {
        Poll::Ready(result) => result,
        Poll::Pending => panic!("should be ready"),
    }
}

#[derive(Debug, PartialEq)]
enum AB {
    A(u32),
    B(i32),
}

/// The number in an `AB::A`.
#[derive(Debug)]
struct InA;

/// The number in an `AB::B`.
#[derive(Debug)]
struct InB;

impl Projection<AB, u32> for InA {
    fn replacing(&self, _item: AB, _part: &u32, _other: &u32) {}

    fn project<'a>(&self, item: &'a AB) -> &'a u32 {
        match item {
            AB::A(u) => u,
            _ => unreachable!(),
        }
    }

    fn project_mut<'a>(&self, item: &'a mut AB) -> &'a mut u32 {
        match item {
            AB::A(u) => u,
            _ => unreachable!(),
        }
    }
}

impl Projection<AB, i32> for InB {
    fn replacing(&self, _item: AB, _part: &i32, _other: &i32) {}

    fn project<'a>(&self, item: &'a AB) -> &'a i32 {
        match item {
            AB::B(i) => i,
            _ => unreachable!(),
        }
    }

    fn project_mut<'a>(&self, item: &'a mut AB) -> &'a mut i32 {
        match item {
            AB::B(i) => i,
            _ => unreachable!(),
        }
    }
}

impl<'a> TryFrom<&'a mut AB> for InA {
    type Error = ();

    fn try_from(value: &'a mut AB) -> Result<Self, Self::Error> {
        match value {
            AB::A(_) => Ok(InA),
            _ => Err(()),
        }
    }
}

impl<'a> TryFrom<&'a mut AB> for InB {
    type Error = ();

    fn try_from(value: &'a mut AB) -> Result<Self, Self::Error> {
        match value {
            AB::B(_) => Ok(InB),
            _ => Err(()),
        }
    }
}

impl From<u32> for AB {
    fn from(value: u32) -> Self {
        AB::A(value)
    }
}

impl From<i32> for AB {
    fn from(value: i32) -> Self {
        AB::B(value)
    }
}

struct TestPool;

impl Pool for TestPool {
    type Item = AB;
    type Storage = PoolStorageImpl<AB, 4, 1, 3, 1>;
}

#[test]
fn mapped() {
    let waker = idle();
    let mut pool = PoolStorageImpl::new();
    let a = ready(MappedBox::<TestPool, u32, InA>::new_async(42u32).poll(&mut pool, &waker))
        .expect("slot")
        .expect("conversion");
    assert_eq!(*a.deref(&pool), 42u32);
    let b: MappedBox<TestPool, i32, _> = a.into_box().map::<i32, InB, _>(&mut pool, |item| {
        *item = AB::B(-1);
        item.try_into().unwrap()
    });
    assert_eq!(*b.deref(&pool), -1);
}

struct TestBufs;

impl Pool for TestBufs {
    type Item = [u8; 64];
    type Storage = PoolStorageImpl<[u8; 64], 2, 1, 3, 1>;
}

/// A range of the bytes in a buffer.
struct Bytes {
    from: usize,
    to: usize,
}

impl Projection<[u8; 64], [u8]> for Bytes {
    fn replacing(&self, _item: [u8; 64], _part: &[u8], _other: &[u8]) {}

    fn project<'a>(&self, item: &'a [u8; 64]) -> &'a [u8] {
        &item[self.from..self.to]
    }

    fn project_mut<'a>(&self, item: &'a mut [u8; 64]) -> &'a mut [u8] {
        &mut item[self.from..self.to]
    }
}

#[test]
fn map_to_slice() {
    let waker = idle();
    let mut pool = PoolStorageImpl::new();
    let mut array = ready(Box::<TestBufs>::new_async([0u8; 64]).poll(&mut pool, &waker)).expect("slot");
    // write some bytes
    array.deref_mut(&mut pool)[4..32].copy_from_slice(&[42u8; 28]);
    let slice = array.map(&mut pool, |_array| Bytes { from: 4, to: 32 });
    assert_eq!(slice.as_ref(&pool), &[42u8; 28]);
}

#[test]
fn writing_through_a_slice() {
    let mut pool = PoolStorageImpl::new();
    let array = Box::<TestBufs>::new(&mut pool, [7u8; 64]).unwrap();
    let mut slice = array.map(&mut pool, |_array| Bytes { from: 60, to: 64 });
    slice.as_mut(&mut pool).copy_from_slice(&[1, 2, 3, 4]);
    slice.deref_mut(&mut pool)[0] = 9;
    assert_eq!(slice.deref(&pool), &[9, 2, 3, 4]);
    let array = slice.into_box();
    assert_eq!(array.deref(&pool)[58..64], [7, 7, 9, 2, 3, 4]);
    assert_eq!(Box::into_raw(array), 0);
}

#[test]
fn new_mapped_at_once() {
    let mut pool = PoolStorageImpl::new();
    for item in 0..4u32 {
        let made = MappedBox::<TestPool, u32, InA>::new(&mut pool, item);
        assert_eq!(*made.unwrap().unwrap().as_ref(&pool), item);
    }
    assert!(MappedBox::<TestPool, u32, InA>::new(&mut pool, 4).is_none());
}

/// Finds no number in an item.
struct Nowhere;

impl Projection<AB, u32> for Nowhere {
    fn replacing(&self, _item: AB, _part: &u32, _other: &u32) {}

    fn project<'a>(&self, _item: &'a AB) -> &'a u32 {
        unreachable!()
    }

    fn project_mut<'a>(&self, _item: &'a mut AB) -> &'a mut u32 {
        unreachable!()
    }
}

impl<'a> TryFrom<&'a mut AB> for Nowhere {
    type Error = &'static str;

    fn try_from(_value: &'a mut AB) -> Result<Self, Self::Error> {
        Err("nowhere")
    }
}

#[test]
fn failed_conversion_gives_the_slot_back() {
    let waker = idle();
    let mut pool = PoolStorageImpl::new();
    for _ in 0..10 {
        let made = MappedBox::<TestPool, u32, Nowhere>::new(&mut pool, 1u32);
        assert_eq!(made.unwrap().err(), Some("nowhere"));
        let made = ready(MappedBox::<TestPool, u32, Nowhere>::new_async(1u32).poll(&mut pool, &waker));
        assert_eq!(made.unwrap().err(), Some("nowhere"));
    }
    let b = Box::<TestPool>::new(&mut pool, AB::A(1)).unwrap();
    assert!(b.convert::<i32, (), InB>(&mut pool).is_err());
    let b = Box::<TestPool>::new(&mut pool, AB::B(2)).unwrap();
    let b = b.convert::<i32, (), InB>(&mut pool).unwrap();
    assert_eq!(*b.as_ref(&pool), 2);
    assert_eq!(Box::into_raw(b.into_box()), 0);
}

#[test]
fn mapped_boxes_wait_too() {
    let waker = idle();
    let mut pool = PoolStorageImpl::new();
    let mut boxes = vec![];
    for item in 0..4u32 {
        boxes.push(MappedBox::<TestPool, u32, InA>::new(&mut pool, item).unwrap().unwrap());
    }
    let mut first = MappedBox::<TestPool, i32, InB>::new_async_with(|| 5i32);
    let mut second = MappedBox::<TestPool, i32, InB>::new_async(6i32);
    let mut third = MappedBox::<TestPool, i32, InB>::new_async(7i32);
    let mut fourth = MappedBox::<TestPool, i32, InB>::new_async(8i32);
    assert!(matches!(first.poll(&mut pool, &waker), Poll::Pending));
    assert!(matches!(second.poll(&mut pool, &waker), Poll::Pending));
    assert!(matches!(third.poll(&mut pool, &waker), Poll::Pending));
    assert!(matches!(fourth.poll(&mut pool, &waker), Poll::Ready(None)));
    second.cancel(&mut pool);
    boxes.remove(1).drop(&mut pool);
    let made = ready(first.poll(&mut pool, &waker)).unwrap().unwrap();
    assert_eq!(*made.as_ref(&pool), 5);
    assert_eq!(Box::into_raw(made.into_box()), 1);
    assert!(matches!(third.poll(&mut pool, &waker), Poll::Pending));
}

#[derive(Debug, PartialEq)]
struct Packet {
    header: Header,
    body: [u8; 4],
}

#[derive(Debug, PartialEq)]
struct Header {
    id: u16,
    len: u16,
}

struct Packets;

impl Pool for Packets {
    type Item = Packet;
    type Storage = PoolStorageImpl<Packet, 2, 1, 1, 1>;
}

struct InHeader;

impl Projection<Packet, Header> for InHeader {
    fn replacing(&self, _item: Packet, _part: &Header, _other: &Header) {}

    fn project<'a>(&self, item: &'a Packet) -> &'a Header {
        &item.header
    }

    fn project_mut<'a>(&self, item: &'a mut Packet) -> &'a mut Header {
        &mut item.header
    }
}

struct InLen;

impl Projection<Header, u16> for InLen {
    fn replacing(&self, _item: Header, _part: &u16, _other: &u16) {}

    fn project<'a>(&self, item: &'a Header) -> &'a u16 {
        &item.len
    }

    fn project_mut<'a>(&self, item: &'a mut Header) -> &'a mut u16 {
        &mut item.len
    }
}

fn packet(id: u16, len: u16) -> Packet {
    Packet {
        header: Header { id, len },
        body: [0; 4],
    }
}

#[test]
fn part_of_a_part() {
    let mut pool = PoolStorageImpl::new();
    let b = Box::<Packets>::new(&mut pool, packet(1, 2)).unwrap();
    let header = b.map(&mut pool, |packet| {
        packet.header.id = 9;
        InHeader
    });
    assert_eq!(header.as_ref(&pool).id, 9);
    let mut len = header.map(&mut pool, |header| {
        header.len += 1;
        InLen
    });
    assert_eq!(*len.as_ref(&pool), 3);
    *len.as_mut(&mut pool) = 30;
    let b: Box<Packets> = len.into();
    assert_eq!(*b.deref(&pool), packet(9, 30));
}

#[test]
fn failed_mapping_of_a_part_gives_the_slot_back() {
    let mut pool = PoolStorageImpl::new();
    let b = Box::<Packets>::new(&mut pool, packet(1, 2)).unwrap();
    let other = Box::<Packets>::new(&mut pool, packet(3, 4)).unwrap();
    assert!(Box::<Packets>::new(&mut pool, packet(5, 6)).is_none());
    let header = b.try_map::<Header, (), _, _>(&mut pool, |_| Ok(InHeader)).unwrap();
    let failed = header.try_map::<u16, u8, InLen, _>(&mut pool, |header| Err(header.id as u8));
    assert_eq!(failed.err(), Some(1));
    assert_eq!(Box::into_raw(Box::<Packets>::new(&mut pool, packet(5, 6)).unwrap()), 0);
    assert_eq!(*other.deref(&pool), packet(3, 4));
}

#[test]
fn whole_items_and_compositions() {
    let mut item = packet(1, 2);
    assert_eq!(Whole.project(&item), &packet(1, 2));
    let both: Then<Header, InHeader, InLen> = Then::new(InHeader, InLen);
    assert_eq!(*both.project(&item), 2);
    *both.project_mut(&mut item) = 5;
    assert_eq!(item, packet(1, 5));
    *Whole.project_mut(&mut item) = packet(7, 8);
    assert_eq!(item, packet(7, 8));
}

#[test]
fn mapping_twice_is_mapping_by_the_composition() {
    let mut pool = PoolStorageImpl::new();
    let b1 = Box::<Packets>::new(&mut pool, packet(1, 2)).unwrap();
    let b2 = Box::<Packets>::new(&mut pool, packet(1, 2)).unwrap();
    let mut twice = b1
        .map(&mut pool, |packet| {
            packet.header.id += 5;
            InHeader
        })
        .map(&mut pool, |header| {
            header.len *= 10;
            InLen
        });
    let mut once = b2.map(&mut pool, |packet| {
        packet.header.id += 5;
        packet.header.len *= 10;
        Then::<Header, _, _>::new(InHeader, InLen)
    });
    assert_eq!(*twice.as_ref(&pool), 20);
    assert_eq!(*once.as_ref(&pool), 20);
    *twice.as_mut(&mut pool) += 1;
    *once.as_mut(&mut pool) += 1;
    assert_eq!(*twice.into_box().deref(&pool), packet(6, 21));
    assert_eq!(*once.into_box().deref(&pool), packet(6, 21));
}

#[test]
fn the_last_change_counts() {
    let mut pool = PoolStorageImpl::new();
    let b = Box::<Packets>::new(&mut pool, packet(1, 2)).unwrap();
    let mut header = b.map(&mut pool, |_packet| InHeader);
    *header.as_mut(&mut pool) = Header { id: 5, len: 6 };
    assert_eq!(*header.as_ref(&pool), Header { id: 5, len: 6 });
    *header.deref_mut(&mut pool) = Header { id: 7, len: 8 };
    assert_eq!(*header.into_box().deref(&pool), packet(7, 8));
}

#[test]
fn mapping_to_the_whole_changes_nothing() {
    let mut pool = PoolStorageImpl::new();
    let b = Box::<Packets>::new(&mut pool, packet(1, 2)).unwrap();
    let mut mapped = b.map(&mut pool, |_packet| Whole).map(&mut pool, |_packet| Whole);
    assert_eq!(*mapped.as_ref(&pool), packet(1, 2));
    mapped.as_mut(&mut pool).header.id = 3;
    let b = mapped.into_box();
    assert_eq!(*b.deref(&pool), packet(3, 2));
    assert_eq!(Box::into_raw(b), 0);
}

/// An item that is counted by the handle it shares.
struct Shared {
    handle: Arc<AtomicUsize>,
}

/// Becomes a `Shared`, and counts the conversions.
struct Seed {
    handle: Arc<AtomicUsize>,
}

impl From<Seed> for Shared {
    fn from(seed: Seed) -> Self {
        seed.handle.fetch_add(1, Ordering::SeqCst);
        Shared { handle: seed.handle }
    }
}

/// Finds no `Seed` in a `Shared`.
struct Gone;

impl Projection<Shared, Seed> for Gone {
    fn replacing(&self, _item: Shared, _part: &Seed, _other: &Seed) {}

    fn project<'a>(&self, _item: &'a Shared) -> &'a Seed {
        unreachable!()
    }

    fn project_mut<'a>(&self, _item: &'a mut Shared) -> &'a mut Seed {
        unreachable!()
    }
}

impl<'a> TryFrom<&'a mut Shared> for Gone {
    type Error = usize;

    fn try_from(value: &'a mut Shared) -> Result<Self, Self::Error> {
        Err(Arc::strong_count(&value.handle))
    }
}

struct Narrow;

impl Pool for Narrow {
    type Item = Shared;
    type Storage = PoolStorageImpl<Shared, 1, 1, 1, 1>;
}

#[test]
fn items_are_converted_at_the_first_poll() {
    let waker = idle();
    let handle = Arc::new(AtomicUsize::new(0));
    let seed = || Seed { handle: handle.clone() };
    let count = || handle.load(Ordering::SeqCst);
    let mut pool = PoolStorageImpl::new();
    let b = Box::<Narrow>::new(&mut pool, Shared { handle: Arc::default() }).unwrap();

    let unpolled = MappedBox::<Narrow, Seed, Gone>::new_async(seed());
    unpolled.cancel(&mut pool);
    assert_eq!(count(), 0);

    let mut future = MappedBox::<Narrow, Seed, Gone>::new_async(seed());
    assert!(matches!(future.poll(&mut pool, &waker), Poll::Pending));
    assert_eq!(count(), 1);
    assert!(matches!(future.poll(&mut pool, &waker), Poll::Pending));
    assert_eq!(count(), 1);

    // One that a closure makes is converted with the slot in hand
    let mut lazy = MappedBox::<Narrow, Seed, Gone>::new_async_with(|| panic!("no slot"));
    assert!(matches!(lazy.poll(&mut pool, &waker), Poll::Ready(None)));

    b.drop(&mut pool);
    // The item, and the handle here
    assert_eq!(ready(future.poll(&mut pool, &waker)).unwrap().err(), Some(2));
    assert_eq!(count(), 1);
    // It was dropped, and its slot can be had again
    assert_eq!(Arc::strong_count(&handle), 1);
    assert!(Box::<Narrow>::new(&mut pool, Shared { handle: handle.clone() }).is_some());
}

#[test]
fn failed_mapping_drops_the_item() {
    let handle = Arc::new(AtomicUsize::new(0));
    let mut pool = PoolStorageImpl::new();
    let failed = MappedBox::<Narrow, Seed, Gone>::new(&mut pool, Seed { handle: handle.clone() });
    assert_eq!(failed.unwrap().err(), Some(2));
    assert_eq!(Arc::strong_count(&handle), 1);
    let b = Box::<Narrow>::new(&mut pool, Shared { handle: handle.clone() }).unwrap();
    assert_eq!(b.convert::<Seed, usize, Gone>(&mut pool).err(), Some(2));
    assert_eq!(Arc::strong_count(&handle), 1);
    let b = Box::<Narrow>::new(&mut pool, Shared { handle: handle.clone() }).unwrap();
    b.map(&mut pool, |_shared| Whole).drop(&mut pool);
    assert_eq!(Arc::strong_count(&handle), 1);
}
