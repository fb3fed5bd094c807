//! Forward traversal of a list.

use vstd::prelude::*;
use crate::chunk::Chunk;
use crate::layout::{lemma_flatten_index, lemma_offset_step, offset_of};
use crate::list::List;

verus! {

/// A traversal of a list under way: a cursor made of the index of the
/// current chunk and the index of the next slot in it.
///
/// The cursor rests on a live slot until the last element has been yielded;
/// from then on it rests behind the last chunk.
pub struct Iter<'a, T, const CHUNK_CAPACITY: usize> {
    list: &'a List<T, CHUNK_CAPACITY>,
    chunk: usize,
    slot: usize,
}

impl<'a, T, const CHUNK_CAPACITY: usize> View for Iter<'a, T, CHUNK_CAPACITY> {
    type V = Seq<T>;

    /// The elements still to come.
    open spec fn view(&self) -> Seq<T> {
        self.list()@.skip(self.position() as int)
    }
}

impl<'a, T, const CHUNK_CAPACITY: usize> Iter<'a, T, CHUNK_CAPACITY> {
    /// The list that is traversed.
    pub closed spec fn list(&self) -> &'a List<T, CHUNK_CAPACITY> {
        self.list
    }

    /// The number of elements yielded so far.
    pub closed spec fn position(&self) -> nat {
        offset_of(self.list.chunks(), self.chunk as int) + (self.slot as nat)
    }

    /// The list is well formed and the cursor rests on a live slot or
    /// behind the last chunk.
    pub closed spec fn wf(&self) -> bool {
        &&& self.list.wf()
        &&& if self.chunk < self.list.chunks().len() {
            self.slot < self.list.chunks()[self.chunk as int].len()
        } else {
            self.chunk == self.list.chunks().len() && self.slot == 0
        }
    }

    /// A traversal that starts at the first element of `list`.
    pub(crate) fn new(list: &'a List<T, CHUNK_CAPACITY>) -> (it: Self)
        requires
            list.wf(),
        ensures
            it.wf(),
            it.list() == list,
            it.position() == 0,
            it@ == list@,
    {
        proof {
            assert(list.chunks().take(0) =~= Seq::<Seq<T>>::empty());
            assert(list@.skip(0) =~= list@);
        }
        Iter { list, chunk: 0, slot: 0 }
    }

    /// Yields the next element and moves the cursor past it: to the next
    /// slot of the same chunk, or to the first slot of the next chunk when
    /// the current one has no further live slot. Yields `None` once every
    /// element has been yielded, and keeps doing so.
    pub fn next(&mut self) -> (item: Option<&'a T>)
        requires
            old(self).wf(),
        ensures
            final(self).wf(),
            final(self).list() == old(self).list(),
            match item {
                Some(elem) => {
                    &&& old(self).position() < old(self).list()@.len()
                    &&& *elem == old(self).list()@[old(self).position() as int]
                    &&& final(self).position() == old(self).position() + 1
                    &&& old(self)@.len() > 0
                    &&& *elem == old(self)@.first()
                    &&& final(self)@ == old(self)@.drop_first()
                },
                None => {
                    &&& old(self).position() == old(self).list()@.len()
                    &&& old(self)@.len() == 0
                    &&& *final(self) == *old(self)
                },
            },
    {
        let list: &'a List<T, CHUNK_CAPACITY> = self.list;
        let ghost chunks: Seq<Seq<T>> = list.chunks();
        if self.chunk >= list.chunk_count() {
            proof {
                assert(chunks.take(chunks.len() as int) =~= chunks);
            }
            return None;
        }
        let chunk: &'a Chunk<T, CHUNK_CAPACITY> = list.chunk_at(self.chunk);
        let elem: &'a T = chunk.get(self.slot);
        proof {
            lemma_flatten_index(chunks, self.chunk as int, self.slot as int);
            lemma_offset_step(chunks, self.chunk as int);
        }
        if self.slot + 1 >= chunk.len() {
            self.chunk = self.chunk + 1;
            self.slot = 0;
        } else {
            self.slot = self.slot + 1;
        }
        proof {
            let p: int = old(self).position() as int;
            assert(list@.skip(p).drop_first() =~= list@.skip(p + 1));
        }
        Some(elem)
    }
}

} // verus!
