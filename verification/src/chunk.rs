//! A single fixed-capacity chunk of a chunked list.

use vstd::prelude::*;

verus! {

/// A run of between one and `CHUNK_CAPACITY` elements stored contiguously.
///
/// The buffer is allocated once, with room for `CHUNK_CAPACITY` elements, and
/// is filled from the front. Which slots are live is told by the length
/// alone: slot `i` holds an element exactly when `i < len()`.
pub struct Chunk<T, const CHUNK_CAPACITY: usize> {
    slots: Vec<T>,
}

impl<T, const CHUNK_CAPACITY: usize> View for Chunk<T, CHUNK_CAPACITY> {
    type V = Seq<T>;

    /// The live elements, slot by slot.
    closed spec fn view(&self) -> Seq<T> {
        self.slots@
    }
}

impl<T, const CHUNK_CAPACITY: usize> Chunk<T, CHUNK_CAPACITY> {
    /// Creates a chunk whose only element is `first_elem`.
    ///
    /// The whole buffer is reserved here; a failure to allocate it is fatal.
    pub fn new(first_elem: T) -> (chunk: Self)
        requires
            CHUNK_CAPACITY >= 1,
        ensures
            chunk@ == seq![first_elem],
    {
        let mut slots: Vec<T> = Vec::with_capacity(CHUNK_CAPACITY);
        slots.push(first_elem);
        Chunk { slots }
    }

    /// The number of live elements.
    pub fn len(&self) -> (len: usize)
        ensures
            len == self@.len(),
    {
        self.slots.len()
    }

    /// Writes `elem` into the first free slot. The caller has made sure that
    /// there is one.
    pub fn write_next(&mut self, elem: T)
        requires
            old(self)@.len() < CHUNK_CAPACITY,
        ensures
            final(self)@ == old(self)@.push(elem),
    {
        self.slots.push(elem);
    }

    /// The element in slot `slot`.
    pub fn get(&self, slot: usize) -> (elem: &T)
        requires
            slot < self@.len(),
        ensures
            *elem == self@[slot as int],
    {
        &self.slots[slot]
    }
}

} // verus!
