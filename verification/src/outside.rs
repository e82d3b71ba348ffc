//! What the pool uses of other crates, and what it relies on them for.
use vstd::prelude::*;

use core::mem::ManuallyDrop;
use core::ops::DerefMut;
use core::task::Waker;
use embassy_sync::waitqueue::AtomicWaker;
use portable_atomic::AtomicU32;

verus! {

/// `portable_atomic::AtomicU32`, one word of a bitset.
#[verifier::external_type_specification]
#[verifier::external_body]
pub struct ExAtomicU32(portable_atomic::AtomicU32);

/// `embassy_sync::waitqueue::AtomicWaker`, the cell in which a waiting task leaves its waker.
#[verifier::external_type_specification]
#[verifier::external_body]
pub struct ExAtomicWaker(embassy_sync::waitqueue::AtomicWaker);

/// `core::task::Waker`. Two wakers are the same value here when they are interchangeable, that
/// is when each wakes the task that the other wakes.
#[verifier::external_type_specification]
#[verifier::external_body]
pub struct ExWaker(core::task::Waker);

/// The integer that an atomic word holds.
pub uninterp spec fn word_value(word: AtomicU32) -> u32;

/// The waker that is registered in a cell, if there is one.
pub uninterp spec fn registered_waker(cell: AtomicWaker) -> Option<Waker>;

/// The wakers that a cell has woken since it was made, the earliest first.
pub uninterp spec fn woken_by(cell: AtomicWaker) -> Seq<Waker>;

/// `AtomicU32::new`: the word holds the integer it was made with.
pub assume_specification[ AtomicU32::new ](v: u32) -> (word: AtomicU32)
    ensures
        word_value(word) == v,
;

/// `AtomicU32::get_mut`: exclusive access to the integer in the word. What is read is what the
/// word holds, and what is written through the reference is what it holds afterwards.
pub assume_specification[ AtomicU32::get_mut ](word: &mut AtomicU32) -> (value: &mut u32)
    ensures
        *value == word_value(*old(word)),
        word_value(*final(word)) == *final(value),
;

/// `AtomicWaker::new`: nothing is registered in the cell, and it has woken nobody.
pub assume_specification[ AtomicWaker::new ]() -> (cell: AtomicWaker)
    ensures
        registered_waker(cell) is None,
        woken_by(cell) == Seq::<Waker>::empty(),
;

/// `AtomicWaker::register`: the waker takes the place of whatever was registered in the cell.
/// Registering wakes nobody.
#[verifier::external_body]
pub(crate) fn register_waker(cell: &mut AtomicWaker, waker: &Waker)
    ensures
        registered_waker(*final(cell)) == Some(*waker),
        woken_by(*final(cell)) == woken_by(*old(cell)),
{
    cell.register(waker);
}

/// `AtomicWaker::wake`: wakes the registered waker, if there is one, and leaves it registered.
/// What the waker itself does, which is up to the executor it comes from, is left unsaid.
#[verifier::external_body]
pub(crate) fn wake_registered(cell: &mut AtomicWaker)
    ensures
        registered_waker(*final(cell)) == registered_waker(*old(cell)),
        woken_by(*final(cell)) == (match registered_waker(*old(cell)) {
            Some(waker) => woken_by(*old(cell)).push(waker),
            None => woken_by(*old(cell)),
        }),
{
    cell.wake();
}

/// `core::array::from_fn`: the element at each index is what `make` returns for that index.
#[verifier::external_body]
pub(crate) fn array_from_fn<T, F: Fn(usize) -> T, const N: usize>(make: F) -> (array: [T; N])
    requires
        forall|i: usize| i < N ==> call_requires(make, (i,)),
    ensures
        forall|i: usize| i < N ==> call_ensures(make, (i,), #[trigger] array@[i as int]),
{
    core::array::from_fn(make)
}

/// `<ManuallyDrop<T> as DerefMut>::deref_mut`: the value inside, to change it in place.
#[verifier::external_body]
pub(crate) fn manually_drop_mut<T>(wrapped: &mut ManuallyDrop<T>) -> (value: &mut T)
    ensures
        *value == old(wrapped)@,
        final(wrapped)@ == *final(value),
{
    wrapped.deref_mut()
}

} // verus!
