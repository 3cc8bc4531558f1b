//! Typed ids: process-unique 64-bit handles, and weak ids coming from
//! unchecked input.

use vstd::prelude::*;

verus! {

/// Marks a type that is identified by ids, and fixes the value those ids
/// are made of (a 64-bit counter value, or a 128-bit identity).
pub trait HasId {
    type Value: Copy;
}

/// Marks a type whose ids may be forged from raw values: a forged id is
/// weaker than an allocated one, since the same value can be forged twice.
pub trait HasForgeableId: HasId {}

/// Marks that an id of `Self` may be converted into an id of `T`.
pub trait ConvertTo<T> {}

/// A monotonic allocator for 64-bit ids.  Every id it hands out is greater
/// than every id it handed out before, so ids never repeat.
pub struct IdAllocator {
    next: u64,
}

impl IdAllocator {
    /// The value the next allocation will return.
    pub closed spec fn next_id(self) -> u64 {
        self.next
    }

    pub fn new() -> (r: IdAllocator)
        ensures
            r.next_id() == 10,
    {
        IdAllocator { next: 10 }
    }

    /// An allocator whose ids start at `first`: lets independent workers
    /// carve disjoint ranges out of the 64-bit space.
    pub fn starting_at(first: u64) -> (r: IdAllocator)
        ensures
            r.next_id() == first,
    {
        IdAllocator { next: first }
    }

    /// The value the next allocation will return, without allocating.
    pub fn peek(&self) -> (r: u64)
        ensures
            r == self.next_id(),
    {
        self.next
    }

    pub fn allocate(&mut self) -> (id: u64)
        requires
            old(self).next_id() < u64::MAX,
        ensures
            id == old(self).next_id(),
            final(self).next_id() == id + 1,
    {
        let id = self.next;
        self.next = self.next + 1;
        id
    }
}

/// A typed id coming from unsure input.
pub struct WeakId<T: HasId> {
    id: T::Value,
    marker: core::marker::PhantomData<T>,
}

/// A typed id.  Obtained from the allocator (unique in the process) or, for
/// forgeable types, forged from a raw value.
pub struct Id<T: HasId> {
    inner: WeakId<T>,
}

impl<T: HasId> WeakId<T> {
    /// The raw value this id carries.
    pub closed spec fn value(self) -> T::Value {
        self.id
    }

    pub fn new(id: T::Value) -> (r: WeakId<T>)
        ensures
            r.value() == id,
    {
        WeakId { id, marker: core::marker::PhantomData }
    }

    pub fn into_inner(self) -> (r: T::Value)
        ensures
            r == self.value(),
    {
        self.id
    }
}

impl<T: HasId> Clone for WeakId<T> {
    fn clone(&self) -> (r: Self)
        ensures
            r == *self,
    {
        WeakId { id: self.id, marker: core::marker::PhantomData }
    }
}

impl<T: HasId> Copy for WeakId<T> {

}

impl<T: HasId> Id<T> {
    /// The raw value this id carries.
    pub closed spec fn value(self) -> T::Value {
        self.inner.value()
    }

    fn new_inner(weak: WeakId<T>) -> (r: Id<T>)
        ensures
            r.value() == weak.value(),
    {
        Id { inner: weak }
    }

    pub fn into_inner(self) -> (r: T::Value)
        ensures
            r == self.value(),
    {
        self.inner.into_inner()
    }

    /// Converts an id into an id of a compatible type carrying the same value.
    pub fn convert<U: HasId<Value = T::Value>>(self) -> (r: Id<U>) where T: ConvertTo<U>
        ensures
            r.value() == self.value(),
    {
        Id::new_inner(WeakId::new(self.into_inner()))
    }
}

impl<T: HasId> Clone for Id<T> {
    fn clone(&self) -> (r: Self)
        ensures
            r == *self,
    {
        Id { inner: self.inner }
    }
}

impl<T: HasId> Copy for Id<T> {

}

impl<T: HasId<Value = u64>> Id<T> {
    /// Allocates a fresh id that no earlier allocation has returned.
    pub fn new(allocator: &mut IdAllocator) -> (r: Id<T>)
        requires
            old(allocator).next_id() < u64::MAX,
        ensures
            r.value() == old(allocator).next_id(),
            final(allocator).next_id() == old(allocator).next_id() + 1,
    {
        Id { inner: WeakId::new(allocator.allocate()) }
    }

    pub fn as_u64(self) -> (r: u64)
        ensures
            r == self.value(),
    {
        self.inner.as_u64()
    }
}

impl<T: HasId<Value = u64>> WeakId<T> {
    pub fn as_u64(self) -> (r: u64)
        ensures
            r == self.value(),
    {
        self.id
    }
}

impl<T: HasForgeableId> Id<T> {
    /// Creates an id with the given value.  The same value may be forged
    /// several times, so a forged id is a weaker handle than an allocated one.
    pub fn forge(id: T::Value) -> (r: Id<T>)
        ensures
            r.value() == id,
    {
        Id { inner: WeakId::new(id) }
    }
}

impl<T: HasForgeableId> WeakId<T> {
    pub fn upgrade(self) -> (r: Id<T>)
        ensures
            r.value() == self.value(),
    {
        Id::new_inner(self)
    }
}

/// Looks an id value up in a set of owned ids, and returns the typed id iff
/// the set holds it.
pub fn get_id_if_exists<T: HasId<Value = u64>>(set: &Vec<Id<T>>, id: u64) -> (r: Option<
    Id<T>,
>)
    ensures
        match r {
            Some(found) => found.value() == id && exists|i: int|
                0 <= i < set@.len() && set@[i].value() == id,
            None => forall|i: int| 0 <= i < set@.len() ==> set@[i].value() != id,
        },
{
    let mut k: usize = 0;
    while k < set.len()
        invariant
            k <= set.len(),
            forall|i: int| 0 <= i < k ==> set@[i].value() != id,
        decreases set.len() - k,
    {
        if set[k].as_u64() == id {
            return Some(set[k]);
        }
        k = k + 1;
    }
    None
}

} // verus!
