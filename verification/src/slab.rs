//! Fixed-identity storage with stable keys.
//!
//! A raw slab hands out a key per inserted value; the key stays valid until
//! the value is freed, and addresses the value independently of anything
//! else entering or leaving the slab. Keys are typed by the element they
//! point at so that a key for one slab cannot be used with another's.

use vstd::prelude::*;
use core::marker::PhantomData;

verus! {

/// A stable identity into a slab of `T` values.
#[derive(Debug)]
pub struct RawSlabKey<T> {
    index: u32,
    _phantom: PhantomData<T>,
}

impl<T> RawSlabKey<T> {
    /// The slot this key addresses.
    pub closed spec fn spec_index(self) -> u32 {
        self.index
    }

    pub fn new(index: u32) -> (key: Self)
        ensures
            key.spec_index() == index,
    {
        RawSlabKey { index, _phantom: PhantomData }
    }

    pub fn index(&self) -> (index: u32)
        ensures
            index == self.spec_index(),
    {
        self.index
    }
}

impl<T> Clone for RawSlabKey<T> {
    fn clone(&self) -> (other: Self)
        ensures
            other == *self,
    {
        RawSlabKey { index: self.index, _phantom: PhantomData }
    }
}

impl<T> Copy for RawSlabKey<T> {

}

/// A slab of values with stable indices: allocation fills the lowest vacant
/// slot, freeing vacates it, and no other slot moves either way.
pub struct RawSlab<T> {
    storage: Vec<Option<T>>,
}

impl<T> RawSlab<T> {
    /// The slots, vacant ones included.
    pub closed spec fn slots(self) -> Seq<Option<T>> {
        self.storage@
    }

    pub fn new() -> (slab: Self)
        ensures
            slab.slots().len() == 0,
    {
        RawSlab { storage: Vec::new() }
    }

    /// Store `value` in the lowest vacant slot, growing the slab only when
    /// every slot is occupied, and hand back the slot's key.
    pub fn allocate(&mut self, value: T) -> (key: RawSlabKey<T>)
        requires
            old(self).slots().len() < u32::MAX,
        ensures
            ({
                let index = key.spec_index() as int;
                &&& 0 <= index <= old(self).slots().len()
                &&& forall|j: int| 0 <= j < index ==> old(self).slots()[j] is Some
                &&& (index < old(self).slots().len() ==> old(self).slots()[index] is None
                    && final(self).slots() == old(self).slots().update(index, Some(value)))
                &&& (index == old(self).slots().len() ==> final(self).slots() == old(
                    self,
                ).slots().push(Some(value)))
            }),
    {
        let mut index: usize = 0;
        while index < self.storage.len()
            invariant
                index <= self.storage.len(),
                old(self).slots().len() < u32::MAX,
                forall|j: int| 0 <= j < index ==> old(self).slots()[j] is Some,
                self.storage@ == old(self).slots(),
            decreases self.storage.len() - index,
        {
            if self.storage[index].is_none() {
                self.storage.set(index, Some(value));
                return RawSlabKey::new(index as u32);
            }
            index = index + 1;
        }
        self.storage.push(Some(value));
        RawSlabKey::new(index as u32)
    }

    /// Vacate the slot the key addresses; a key whose slot is out of range
    /// changes nothing.
    pub fn free(&mut self, key: RawSlabKey<T>)
        ensures
            key.spec_index() < old(self).slots().len() ==> final(self).slots() == old(
                self,
            ).slots().update(key.spec_index() as int, None),
            key.spec_index() >= old(self).slots().len() ==> final(self).slots() == old(
                self,
            ).slots(),
    {
        let index = key.index() as usize;
        if index < self.storage.len() {
            self.storage.set(index, None);
        }
    }

    pub fn slot_count(&self) -> (n: usize)
        ensures
            n == self.slots().len(),
    {
        self.storage.len()
    }

    /// Read one slot.
    pub fn get(&self, index: usize) -> (value: Option<&T>)
        requires
            index < self.slots().len(),
        ensures
            match value {
                Some(v) => self.slots()[index as int] == Some(*v),
                None => self.slots()[index as int] is None,
            },
    {
        self.storage[index].as_ref()
    }
}

} // verus!
