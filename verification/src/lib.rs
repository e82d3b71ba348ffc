//! A pool of items that live in one fixed storage, with boxes that own them, and a way to wait for
//! a slot of the pool to become available.
//!
//! It is meant for sharing large memory regions on constrained devices, where several tasks may
//! need a buffer and having one for each of them would be too costly.
//!
//! - [`storage`] has the slots of a pool, and the places for the tasks that wait for one.
//! - [`boxed`] has the boxes, which own the items in the slots.
//! - [`dropping`] drops items, and keeps a record of that for the contracts.
//! - [`mapped`] has boxes that show a part of their item, which a [`projection`] selects.
//! - [`state`] says what the state of a pool is and how the operations change it, and [`laws`]
//!   says what that comes to over the life of a pool.
//! - [`effects`] says of each operation what it does to each slot and each place.
//! - [`outside`] has what is used of other crates, and what they are relied on for.
//!
//! Every operation has the storage to itself while it runs. A pool that tasks or interrupt handlers
//! share is kept behind a critical section, and each operation is then one step to all the others.
//!
//! Nothing here blocks or runs by itself. An operation that waits is a value that is polled with a
//! waker, and the waker is woken when a slot is freed. Waiting forever for a slot can lock up a
//! program, so whoever polls should consider giving up after some time.
pub mod atomic_bitset;
pub mod boxed;
pub mod dropping;
pub mod effects;
pub mod laws;
pub mod mapped;
pub mod outside;
pub mod projection;
pub mod state;
pub mod storage;

pub use crate::boxed::{Box, NewAsync, Pool};
pub use crate::dropping::DropRecord;
pub use crate::mapped::{BoxExt, MappedBox, MappedNewAsync, MappedNewAsyncWith};
pub use crate::projection::{Projection, Then, Whole};
pub use crate::state::Poll;
pub use crate::storage::{AllocAsync, PoolStorage, PoolStorageImpl};
