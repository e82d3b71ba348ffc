# async_pool

A pool of items that live in one fixed storage, with boxes that own them, and a way to wait for a
slot of the pool to become available. The library in `src/` is written in Verus: what every
operation does is stated in its contract and proved.

- A pool has a fixed number of slots, and a fixed number of places for tasks that wait for a slot.
- `Box::new` puts an item into a slot at once, and returns `None` if the pool is full.
- `Box::new_async` waits until a slot is available, and gives `None` if every place is taken.
- Dropping a box gives its slot back, and wakes every task that waits.
- `BoxExt::map` and its relatives make a box show a part of its item.

`src/laws.rs` states what holds over the whole life of a pool: no two boxes share a slot, there are
never more boxes than slots nor more waiting tasks than places, no task waits unwoken while a slot
is free, and no slot is given back while it still holds its item. It also states that mapping twice
comes to the same as mapping once by the composition.

`app/` puts pools into statics that tasks and interrupt handlers share, with a `pool!` macro, boxes
that dereference to their items, and `async` functions. It needs an implementation of
`critical-section`.
