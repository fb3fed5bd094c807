//! What holds of every list, stated over the layout model in which the
//! contracts of the list operations are written.

use vstd::prelude::*;
use vstd::arithmetic::mul::{lemma_mul_inequality, lemma_mul_is_distributive_add_other_way};
use vstd::seq_lib::lemma_flatten_concat;
use crate::layout::{ceil_div, chunk_end, chunked, extend_chunks, offset_of, packed};
use crate::layout::{lemma_ceil_div_bounds, lemma_ceil_div_unique, lemma_flatten_index};
use crate::layout::{lemma_offset_step, lemma_packed_offset, push_chunks, well_chunked};

verus! {

/// A list has no chunk exactly when it has no element.
pub proof fn lemma_no_chunk_iff_no_element<T>(chunks: Seq<Seq<T>>, cap: nat)
    requires
        well_chunked(chunks, cap),
    ensures
        chunks.len() == 0 <==> chunks.flatten().len() == 0,
{
    if chunks.len() > 0 {
        lemma_offset_step(chunks, chunks.len() - 1);
    }
}

/// Pushing adds exactly one element, at the end, and keeps every chunk
/// within bounds. A packed list stays packed.
pub proof fn lemma_push_chunks<T>(chunks: Seq<Seq<T>>, elem: T, cap: nat)
    requires
        cap >= 1,
        well_chunked(chunks, cap),
    ensures
        well_chunked(push_chunks(chunks, elem, cap), cap),
        push_chunks(chunks, elem, cap).flatten() == chunks.flatten().push(elem),
        packed(chunks, cap) ==> packed(push_chunks(chunks, elem, cap), cap),
{
    let after: Seq<Seq<T>> = push_chunks(chunks, elem, cap);
    if chunks.len() > 0 && chunks.last().len() < cap {
        let init: Seq<Seq<T>> = chunks.drop_last();
        assert(chunks =~= init.push(chunks.last()));
        assert(after =~= init.push(chunks.last().push(elem)));
        init.lemma_flatten_push(chunks.last());
        init.lemma_flatten_push(chunks.last().push(elem));
        assert(after.flatten() =~= chunks.flatten().push(elem));
    } else {
        chunks.lemma_flatten_push(seq![elem]);
        assert(after.flatten() =~= chunks.flatten().push(elem));
    }
}

/// Pushing a run of elements one by one stores the run behind what was
/// there, in the order of the pushes, whatever the capacity. Started from
/// an empty list, the list then holds exactly the run.
pub proof fn lemma_extend_chunks<T>(chunks: Seq<Seq<T>>, elems: Seq<T>, cap: nat)
    requires
        cap >= 1,
        well_chunked(chunks, cap),
    ensures
        well_chunked(extend_chunks(chunks, elems, cap), cap),
        extend_chunks(chunks, elems, cap).flatten() == chunks.flatten() + elems,
        chunks.len() == 0 ==> extend_chunks(chunks, elems, cap).flatten() == elems,
        packed(chunks, cap) ==> packed(extend_chunks(chunks, elems, cap), cap),
    decreases elems.len(),
{
    if elems.len() == 0 {
        assert(chunks.flatten() + elems =~= chunks.flatten());
    } else {
        let before: Seq<Seq<T>> = extend_chunks(chunks, elems.drop_last(), cap);
        lemma_extend_chunks(chunks, elems.drop_last(), cap);
        lemma_push_chunks(before, elems.last(), cap);
        assert((chunks.flatten() + elems.drop_last()).push(elems.last()) =~= chunks.flatten()
            + elems);
    }
    if chunks.len() == 0 {
        assert(chunks.flatten() + elems =~= elems);
    }
}

/// Splicing keeps the order: the elements of the front list, then those of
/// the back list, with every chunk as it was. Splicing onto an empty list
/// gives the back list, and splicing an empty list changes nothing.
pub proof fn lemma_append_chunks<T>(front: Seq<Seq<T>>, back: Seq<Seq<T>>, cap: nat)
    requires
        well_chunked(front, cap),
        well_chunked(back, cap),
    ensures
        well_chunked(front + back, cap),
        (front + back).flatten() == front.flatten() + back.flatten(),
        front.len() == 0 ==> front + back == back,
        back.len() == 0 ==> front + back == front,
{
    lemma_flatten_concat(front, back);
    assert forall|i: int| 0 <= i < (front + back).len() implies 1 <= (#[trigger] (front
        + back)[i]).len() <= cap by {
        if i < front.len() {
            assert((front + back)[i] == front[i]);
        } else {
            assert((front + back)[i] == back[i - front.len()]);
        }
    }
    if front.len() == 0 {
        assert(front + back =~= back);
    }
    if back.len() == 0 {
        assert(front + back =~= front);
    }
}

/// A list of one element has one chunk, which holds that element.
pub proof fn lemma_single_layout<T>(single: Seq<Seq<T>>, elem: T, cap: nat)
    requires
        well_chunked(single, cap),
        single.flatten() == seq![elem],
    ensures
        single == seq![seq![elem]],
{
    lemma_no_chunk_iff_no_element(single, cap);
    lemma_offset_step(single, 0);
    if single.len() > 1 {
        lemma_offset_step(single, 1);
        assert(offset_of(single, 2) <= single.flatten().len()) by {
            assert(single =~= single.take(2) + single.skip(2));
            lemma_flatten_concat(single.take(2), single.skip(2));
        }
    }
    assert(single =~= seq![single[0]]);
    single.lemma_flatten_singleton();
}

/// Appending a list of one element stores the same elements as pushing
/// that element. The layouts agree as well where the push opens a new
/// chunk, that is, where the receiver is empty or its tail is full; a push
/// into a tail with room fills that tail, where the splice adds a chunk.
pub proof fn lemma_append_single_is_push<T>(
    chunks: Seq<Seq<T>>,
    single: Seq<Seq<T>>,
    elem: T,
    cap: nat,
)
    requires
        cap >= 1,
        well_chunked(chunks, cap),
        well_chunked(single, cap),
        single.flatten() == seq![elem],
    ensures
        (chunks + single).flatten() == push_chunks(chunks, elem, cap).flatten(),
        chunks.len() == 0 || chunks.last().len() == cap ==> chunks + single == push_chunks(
            chunks,
            elem,
            cap,
        ),
{
    lemma_append_chunks(chunks, single, cap);
    lemma_push_chunks(chunks, elem, cap);
    lemma_single_layout(single, elem, cap);
    assert(chunks.flatten() + seq![elem] =~= chunks.flatten().push(elem));
    assert(chunks + seq![seq![elem]] =~= chunks.push(seq![elem]));
}

/// A packed list is determined by its elements: it is the cut of its
/// elements into runs of `cap`.
pub proof fn lemma_packed_is_chunked<T>(chunks: Seq<Seq<T>>, cap: nat)
    requires
        cap >= 1,
        packed(chunks, cap),
    ensures
        chunks == chunked(chunks.flatten(), cap),
{
    let flat: Seq<T> = chunks.flatten();
    let n: int = chunks.len() as int;
    if n == 0 {
        lemma_ceil_div_bounds(0, cap);
        assert(chunks =~= chunked(flat, cap));
    } else {
        lemma_packed_offset(chunks, cap, n - 1);
        lemma_offset_step(chunks, n - 1);
        lemma_mul_is_distributive_add_other_way(cap as int, n - 1, 1);
        lemma_ceil_div_unique(flat.len(), cap, n);
        assert forall|i: int| 0 <= i < n implies chunks[i] =~= #[trigger] chunked(flat, cap)[i] by {
            lemma_packed_offset(chunks, cap, i);
            lemma_mul_is_distributive_add_other_way(cap as int, i, 1);
            if i < n - 1 {
                lemma_mul_inequality(i + 1, n - 1, cap as int);
            }
            assert(chunk_end(i, flat.len(), cap) == i * cap + chunks[i].len());
            assert forall|r: int| 0 <= r < chunks[i].len() implies chunks[i][r] == flat[i * cap
                + r] by {
                lemma_flatten_index(chunks, i, r);
            }
        }
        assert(chunks =~= chunked(flat, cap));
    }
}

/// The shape of `len` elements cut into runs of `cap`: `ceil_div(len, cap)`
/// chunks, every chunk but the last holding `cap` elements and the last one
/// holding the `len - cap * (ceil_div(len, cap) - 1)` elements that are
/// left.
pub proof fn lemma_chunked_shape<T>(s: Seq<T>, cap: nat)
    requires
        cap >= 1,
    ensures
        chunked(s, cap).len() == ceil_div(s.len(), cap),
        forall|i: int|
            0 <= i < chunked(s, cap).len() - 1 ==> (#[trigger] chunked(s, cap)[i]).len() == cap,
        s.len() > 0 ==> chunked(s, cap).last().len() == s.len() - cap * (ceil_div(s.len(), cap)
            - 1),
        packed(chunked(s, cap), cap),
{
    let count: int = ceil_div(s.len(), cap) as int;
    lemma_ceil_div_bounds(s.len(), cap);
    assert forall|i: int| 0 <= i < count implies {
        &&& 0 <= i * cap < chunk_end(i, s.len(), cap) <= s.len()
        &&& i < count - 1 ==> chunk_end(i, s.len(), cap) == i * cap + cap
        &&& i == count - 1 ==> chunk_end(i, s.len(), cap) == s.len()
    } by {
        lemma_mul_is_distributive_add_other_way(cap as int, i, 1);
        lemma_mul_inequality(i + 1, count, cap as int);
        lemma_mul_inequality(i, count - 1, cap as int);
        if i < count - 1 {
            lemma_mul_inequality(i + 1, count - 1, cap as int);
        }
        assert(0 <= i * cap) by (nonlinear_arith)
            requires
                0 <= i,
        ;
    }
    assert forall|i: int| 0 <= i < count implies 1 <= (#[trigger] chunked(s, cap)[i]).len()
        <= cap by {
        lemma_mul_is_distributive_add_other_way(cap as int, count - 1, 1);
    }
    if count > 0 {
        assert(cap * (count - 1) == (count - 1) * cap) by (nonlinear_arith);
    }
}

/// A list built by pushing `s` element by element onto an empty list is
/// `s` cut into runs of `cap`, and the runs of a cut, put end to end, are
/// `s` again.
pub proof fn lemma_chunked_cut<T>(s: Seq<T>, cap: nat)
    requires
        cap >= 1,
    ensures
        extend_chunks(Seq::<Seq<T>>::empty(), s, cap) == chunked(s, cap),
        chunked(s, cap).flatten() == s,
{
    let built: Seq<Seq<T>> = extend_chunks(Seq::<Seq<T>>::empty(), s, cap);
    lemma_extend_chunks(Seq::<Seq<T>>::empty(), s, cap);
    lemma_packed_is_chunked(built, cap);
}

} // verus!
