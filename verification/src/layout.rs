//! The mathematical model of a chunked list: how a sequence of elements is
//! laid out as a sequence of chunks.
//!
//! A layout is a `Seq<Seq<T>>`: one inner sequence per chunk, in chain order.
//! The elements of the list are the concatenation of the chunks, which is
//! `Seq::flatten`.

use vstd::prelude::*;
use vstd::arithmetic::div_mod::{lemma_fundamental_div_mod, lemma_fundamental_div_mod_converse};
use vstd::arithmetic::div_mod::lemma_mod_pos_bound;
use vstd::arithmetic::mul::lemma_mul_is_distributive_add_other_way;
use vstd::seq_lib::lemma_flatten_concat;

verus! {

/// Every chunk holds at least one element and at most `cap` elements.
pub open spec fn well_chunked<T>(chunks: Seq<Seq<T>>, cap: nat) -> bool {
    forall|i: int| 0 <= i < chunks.len() ==> 1 <= (#[trigger] chunks[i]).len() <= cap
}

/// The layout is well chunked and every chunk except the last one is full.
///
/// This is the shape of a list that grew by pushes alone.
pub open spec fn packed<T>(chunks: Seq<Seq<T>>, cap: nat) -> bool {
    &&& well_chunked(chunks, cap)
    &&& forall|i: int| 0 <= i < chunks.len() - 1 ==> (#[trigger] chunks[i]).len() == cap
}

/// The layout after pushing `elem`: the element goes into the last chunk if
/// that chunk has room, and into a fresh chunk of its own otherwise.
pub open spec fn push_chunks<T>(chunks: Seq<Seq<T>>, elem: T, cap: nat) -> Seq<Seq<T>> {
    if chunks.len() > 0 && chunks.last().len() < cap {
        chunks.update(chunks.len() - 1, chunks.last().push(elem))
    } else {
        chunks.push(seq![elem])
    }
}

/// The layout after pushing the elements of `elems` one by one, first to last.
pub open spec fn extend_chunks<T>(chunks: Seq<Seq<T>>, elems: Seq<T>, cap: nat) -> Seq<Seq<T>>
    decreases elems.len(),
{
    if elems.len() == 0 {
        chunks
    } else {
        push_chunks(extend_chunks(chunks, elems.drop_last(), cap), elems.last(), cap)
    }
}

/// `n / d` rounded up.
pub open spec fn ceil_div(n: nat, d: nat) -> nat {
    ((n + d - 1) / (d as int)) as nat
}

/// Where chunk `i` ends when `len` elements are cut into runs of `cap`.
pub open spec fn chunk_end(i: int, len: nat, cap: nat) -> int {
    if (i + 1) * cap <= len {
        (i + 1) * cap
    } else {
        len as int
    }
}

/// `s` cut into consecutive runs of `cap` elements; the last run holds what
/// is left over.
pub open spec fn chunked<T>(s: Seq<T>, cap: nat) -> Seq<Seq<T>> {
    Seq::new(ceil_div(s.len(), cap), |i: int| s.subrange(i * cap, chunk_end(i, s.len(), cap)))
}

/// The number of elements held by the first `k` chunks.
pub open spec fn offset_of<T>(chunks: Seq<Seq<T>>, k: int) -> nat {
    chunks.take(k).flatten().len()
}

/// The offset of a chunk is the offset of its predecessor plus the
/// predecessor's length; the offset past the last chunk is the total length.
pub proof fn lemma_offset_step<T>(chunks: Seq<Seq<T>>, k: int)
    requires
        0 <= k < chunks.len(),
    ensures
        offset_of(chunks, 0) == 0,
        offset_of(chunks, k + 1) == offset_of(chunks, k) + chunks[k].len(),
        offset_of(chunks, chunks.len() as int) == chunks.flatten().len(),
{
    assert(chunks.take(0) =~= Seq::<Seq<T>>::empty());
    assert(chunks.take(k + 1) =~= chunks.take(k).push(chunks[k]));
    chunks.take(k).lemma_flatten_push(chunks[k]);
    assert(chunks.take(chunks.len() as int) =~= chunks);
}

/// Slot `r` of chunk `k` is element `offset_of(chunks, k) + r` of the
/// flattened layout.
pub proof fn lemma_flatten_index<T>(chunks: Seq<Seq<T>>, k: int, r: int)
    requires
        0 <= k < chunks.len(),
        0 <= r < chunks[k].len(),
    ensures
        offset_of(chunks, k) + r < chunks.flatten().len(),
        chunks.flatten()[offset_of(chunks, k) + r] == chunks[k][r],
{
    let head: Seq<Seq<T>> = chunks.take(k + 1);
    let rest: Seq<Seq<T>> = chunks.skip(k + 1);
    assert(chunks =~= head + rest);
    lemma_flatten_concat(head, rest);
    lemma_offset_step(chunks, k);
    assert(head =~= chunks.take(k).push(chunks[k]));
    chunks.take(k).lemma_flatten_push(chunks[k]);
}

/// `ceil_div(n, d)` is zero exactly for `n == 0`, and otherwise the one `q`
/// with `(q - 1) * d < n <= q * d`.
pub proof fn lemma_ceil_div_bounds(n: nat, d: nat)
    requires
        d >= 1,
    ensures
        n == 0 <==> ceil_div(n, d) == 0,
        n > 0 ==> (ceil_div(n, d) - 1) * d < n <= ceil_div(n, d) * d,
{
    let x: int = n + d - 1;
    let q: int = x / (d as int);
    lemma_fundamental_div_mod(x, d as int);
    lemma_mod_pos_bound(x, d as int);
    assert(d * q == q * d) by (nonlinear_arith);
    assert((q - 1) * d == q * d - d) by (nonlinear_arith);
    if n == 0 {
        lemma_fundamental_div_mod_converse(x, d as int, 0, x);
    } else {
        assert(q >= 1) by (nonlinear_arith)
            requires
                q * d + x % (d as int) == x,
                x % (d as int) < d,
                x >= d,
                d >= 1,
        ;
    }
}

/// The only `q` with `(q - 1) * d < n <= q * d` is `ceil_div(n, d)`.
pub proof fn lemma_ceil_div_unique(n: nat, d: nat, q: int)
    requires
        d >= 1,
        (q - 1) * d < n <= q * d,
    ensures
        ceil_div(n, d) == q,
{
    let x: int = n + d - 1;
    assert((q - 1) * d == q * d - d) by (nonlinear_arith);
    lemma_fundamental_div_mod_converse(x, d as int, q, x - q * d);
}

/// In a packed layout chunk `k` starts at element `k * cap`.
pub proof fn lemma_packed_offset<T>(chunks: Seq<Seq<T>>, cap: nat, k: int)
    requires
        packed(chunks, cap),
        0 <= k < chunks.len(),
    ensures
        offset_of(chunks, k) == k * cap,
    decreases k,
{
    if k == 0 {
        lemma_offset_step(chunks, 0);
    } else {
        lemma_packed_offset(chunks, cap, k - 1);
        lemma_offset_step(chunks, k - 1);
        lemma_mul_is_distributive_add_other_way(cap as int, k - 1, 1);
    }
}

} // verus!
