//! The list itself: construction, growth and splicing.

use vstd::prelude::*;
use crate::chunk::Chunk;
use crate::iter::Iter;
use crate::laws::{lemma_append_chunks, lemma_chunked_cut, lemma_extend_chunks};
use crate::laws::lemma_push_chunks;
use crate::layout::{chunked, extend_chunks, push_chunks, well_chunked};

verus! {

/// An append-only sequence of `T`, stored in chunks of at most
/// `CHUNK_CAPACITY` elements each.
///
/// The list owns its chunks, in chain order; the first chunk is the head and
/// the last one is the tail, which is the only chunk that is written to.
pub struct List<T, const CHUNK_CAPACITY: usize> {
    chunks: Vec<Chunk<T, CHUNK_CAPACITY>>,
}

impl<T, const CHUNK_CAPACITY: usize> View for List<T, CHUNK_CAPACITY> {
    type V = Seq<T>;

    /// The elements in the order in which iteration yields them.
    open spec fn view(&self) -> Seq<T> {
        self.chunks().flatten()
    }
}

impl<T, const CHUNK_CAPACITY: usize> List<T, CHUNK_CAPACITY> {
    /// The layout of the list: the contents of each chunk, head first.
    pub closed spec fn chunks(&self) -> Seq<Seq<T>> {
        self.chunks@.map_values(|chunk: Chunk<T, CHUNK_CAPACITY>| chunk@)
    }

    /// The capacity is positive, and every chunk holds at least one element
    /// and at most `CHUNK_CAPACITY` elements.
    pub open spec fn wf(&self) -> bool {
        &&& CHUNK_CAPACITY >= 1
        &&& well_chunked(self.chunks(), CHUNK_CAPACITY as nat)
    }

    /// Creates an empty list. A chunk capacity of zero is a configuration
    /// error and is ruled out here, once, for the whole life of the list.
    pub fn new() -> (list: Self)
        requires
            CHUNK_CAPACITY >= 1,
        ensures
            list.wf(),
            list.chunks() == Seq::<Seq<T>>::empty(),
            list@ == Seq::<T>::empty(),
    {
        List { chunks: Vec::new() }
    }

    /// Adds `elem` at the end.
    ///
    /// The element is written into the tail chunk if that chunk has a free
    /// slot. Otherwise (the tail is full, or the list is empty) a new chunk
    /// holding just `elem` is allocated and becomes the tail; the chunk is
    /// complete before the list is touched.
    pub fn push(&mut self, elem: T)
        requires
            old(self).wf(),
        ensures
            final(self).wf(),
            final(self).chunks() == push_chunks(old(self).chunks(), elem, CHUNK_CAPACITY as nat),
            final(self)@ == old(self)@.push(elem),
    {
        let count: usize = self.chunks.len();
        if count > 0 && self.chunks[count - 1].len() < CHUNK_CAPACITY {
            let tail = &mut self.chunks[count - 1];
            tail.write_next(elem);
        } else {
            let chunk: Chunk<T, CHUNK_CAPACITY> = Chunk::new(elem);
            self.chunks.push(chunk);
        }
        proof {
            assert(self.chunks() =~= push_chunks(
                old(self).chunks(),
                elem,
                CHUNK_CAPACITY as nat,
            ));
            lemma_push_chunks(old(self).chunks(), elem, CHUNK_CAPACITY as nat);
        }
    }

    /// Moves all chunks of `other` behind the chunks of `self`.
    ///
    /// No element is visited or copied, and no chunk is refilled: the tail
    /// of `self` stays as full as it was. An empty `self` simply takes over
    /// the chunks of `other`.
    pub fn append(&mut self, other: Self)
        requires
            old(self).wf(),
            other.wf(),
        ensures
            final(self).wf(),
            final(self).chunks() == old(self).chunks() + other.chunks(),
            final(self)@ == old(self)@ + other@,
    {
        let mut donor = other;
        if self.chunks.len() == 0 {
            self.chunks = donor.chunks;
        } else {
            self.chunks.append(&mut donor.chunks);
        }
        proof {
            assert(self.chunks() =~= old(self).chunks() + other.chunks());
            lemma_append_chunks(old(self).chunks(), other.chunks(), CHUNK_CAPACITY as nat);
        }
    }

    /// Pushes the elements of `elems`, first to last.
    pub fn extend(&mut self, elems: Vec<T>)
        requires
            old(self).wf(),
        ensures
            final(self).wf(),
            final(self).chunks() == extend_chunks(
                old(self).chunks(),
                elems@,
                CHUNK_CAPACITY as nat,
            ),
            final(self)@ == old(self)@ + elems@,
    {
        for elem in it: elems
            invariant
                it.seq() == elems@,
                self.wf(),
                self.chunks() == extend_chunks(
                    old(self).chunks(),
                    elems@.take(it.index() as int),
                    CHUNK_CAPACITY as nat,
                ),
        {
            proof {
                let next: int = it.index() + 1;
                assert(elems@.take(next).drop_last() =~= elems@.take(next - 1));
            }
            self.push(elem);
        }
        proof {
            assert(elems@.take(elems@.len() as int) =~= elems@);
            lemma_extend_chunks(old(self).chunks(), elems@, CHUNK_CAPACITY as nat);
        }
    }

    /// Builds a list from `elems`: an empty list extended by them.
    pub fn from_iter(elems: Vec<T>) -> (list: Self)
        requires
            CHUNK_CAPACITY >= 1,
        ensures
            list.wf(),
            list.chunks() == chunked(elems@, CHUNK_CAPACITY as nat),
            list@ == elems@,
    {
        let mut list: Self = Self::new();
        list.extend(elems);
        proof {
            lemma_chunked_cut(elems@, CHUNK_CAPACITY as nat);
        }
        list
    }

    /// A fresh traversal of the elements, first to last. Any number of
    /// traversals can be under way at once.
    pub fn iter(&self) -> (it: Iter<'_, T, CHUNK_CAPACITY>)
        requires
            self.wf(),
        ensures
            it.wf(),
            it.list() == self,
            it.position() == 0,
            it@ == self@,
    {
        Iter::new(self)
    }

    /// The number of chunks.
    pub fn chunk_count(&self) -> (count: usize)
        ensures
            count == self.chunks().len(),
    {
        self.chunks.len()
    }

    /// The number of elements in chunk `index`, counted from the head.
    pub fn chunk_len(&self, index: usize) -> (len: usize)
        requires
            index < self.chunks().len(),
        ensures
            len == self.chunks()[index as int].len(),
    {
        self.chunks[index].len()
    }

    /// Chunk `index`, counted from the head.
    pub(crate) fn chunk_at(&self, index: usize) -> (chunk: &Chunk<T, CHUNK_CAPACITY>)
        requires
            index < self.chunks().len(),
        ensures
            chunk@ == self.chunks()[index as int],
    {
        &self.chunks[index]
    }
}

} // verus!
