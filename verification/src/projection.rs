//! Parts of an item, and where in the item they are found.
use vstd::prelude::*;

use core::marker::PhantomData;

verus! {

/// Says where in a `T` a part of type `M` is found.
///
/// What an implementation selects is said by [`Projection::selects`], [`Projection::part`],
/// [`Projection::fits`] and [`Projection::with_part`]. One that leaves them as they are promises
/// a part of no item.
pub trait Projection<T, M: ?Sized> {
    /// The item has the part.
    open spec fn selects(&self, item: T) -> bool {
        false
    }

    /// The part of the item.
    open spec fn part(&self, item: T) -> &M {
        arbitrary()
    }

    /// This can stand in the item as its part.
    open spec fn fits(&self, item: T, part: &M) -> bool {
        true
    }

    /// The item with the part replaced.
    open spec fn with_part(&self, item: T, part: &M) -> T {
        arbitrary()
    }

    /// A part that was replaced is the one that it was replaced with, of two replacements the
    /// last one counts, and replacing the part with itself changes nothing.
    proof fn replacing(&self, item: T, part: &M, other: &M)
        requires
            self.selects(item),
        ensures
            self.fits(item, part) ==> {
                let replaced = self.with_part(item, part);
                &&& self.selects(replaced)
                &&& self.part(replaced) == part
                &&& self.fits(replaced, other) == self.fits(item, other)
                &&& self.fits(item, other) ==> self.with_part(replaced, other) == self.with_part(
                    item,
                    other,
                )
            },
            self.fits(item, self.part(item)),
            self.with_part(item, self.part(item)) == item,
    ;

    /// The part of an item.
    fn project<'a>(&self, item: &'a T) -> (part: &'a M)
        requires
            self.selects(*item),
        ensures
            part == self.part(*item),
    ;

    /// The part of an item, to change it in place. Changing it changes nothing else in the item,
    /// and the item still has the part afterwards.
    fn project_mut<'a>(&self, item: &'a mut T) -> (part: &'a mut M)
        requires
            self.selects(*old(item)),
        ensures
            &*part == self.part(*old(item)),
            self.fits(*old(item), &*final(part)),
            *final(item) == self.with_part(*old(item), &*final(part)),
            self.selects(*final(item)),
            self.part(*final(item)) == &*final(part),
    ;
}

/// The whole item.
pub struct Whole;

impl<T> Projection<T, T> for Whole {
    open spec fn selects(&self, item: T) -> bool {
        true
    }

    open spec fn part(&self, item: T) -> &T {
        &item
    }

    open spec fn fits(&self, item: T, part: &T) -> bool {
        true
    }

    open spec fn with_part(&self, item: T, part: &T) -> T {
        *part
    }

    proof fn replacing(&self, item: T, part: &T, other: &T) {
    }

    fn project<'a>(&self, item: &'a T) -> (part: &'a T) {
        item
    }

    fn project_mut<'a>(&self, item: &'a mut T) -> (part: &'a mut T) {
        item
    }
}

/// A part of a part: `second` of the `T` that `first` selects.
pub struct Then<T: 'static, A, B> {
    first: A,
    second: B,
    middle: PhantomData<T>,
}

impl<T: 'static, A, B> Then<T, A, B> {
    /// What selects the part.
    pub closed spec fn first(&self) -> A {
        self.first
    }

    /// What selects the part of the part.
    pub closed spec fn second(&self) -> B {
        self.second
    }

    /// The part that `second` selects of the part that `first` selects.
    pub fn new(first: A, second: B) -> (both: Self)
        ensures
            both.first() == first,
            both.second() == second,
    {
        Then { first, second, middle: PhantomData }
    }
}

impl<
    S,
    T: 'static,
    M: ?Sized,
    A: Projection<S, T>,
    B: Projection<T, M>,
> Projection<S, M> for Then<T, A, B> {
    open spec fn selects(&self, item: S) -> bool {
        self.first().selects(item) && self.second().selects(*self.first().part(item))
    }

    open spec fn part(&self, item: S) -> &M {
        self.second().part(*self.first().part(item))
    }

    open spec fn fits(&self, item: S, part: &M) -> bool {
        let middle = *self.first().part(item);
        &&& self.second().fits(middle, part)
        &&& self.first().fits(item, &self.second().with_part(middle, part))
    }

    open spec fn with_part(&self, item: S, part: &M) -> S {
        self.first().with_part(
            item,
            &self.second().with_part(*self.first().part(item), part),
        )
    }

    proof fn replacing(&self, item: S, part: &M, other: &M) {
        let middle = *self.first().part(item);
        let replaced = self.second().with_part(middle, part);
        let replaced_again = self.second().with_part(middle, other);
        self.second().replacing(middle, part, other);
        self.first().replacing(item, &replaced, &replaced_again);
    }

    fn project<'a>(&self, item: &'a S) -> (part: &'a M) {
        self.second.project(self.first.project(item))
    }

    fn project_mut<'a>(&self, item: &'a mut S) -> (part: &'a mut M) {
        let middle = self.first.project_mut(item);
        self.second.project_mut(middle)
    }
}

} // verus!
