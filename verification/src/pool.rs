//! Blocks of work on rayon's worker threads, and what is known of the
//! chained results.
use crate::chunks::{lemma_chunk_fits, lemma_source_at};
use crate::model::{accepts, accepts_gathered, block_of, gathered, pairwise, quad, source};
use rayon::iter::{IndexedParallelIterator, ParallelIterator};
use rayon::slice::ParallelSlice;
use vstd::arithmetic::div_mod::lemma_fundamental_div_mod;
use vstd::prelude::*;

verus! {

/// `work` may be called on the `k`-th blocks of the four arrays.
pub open spec fn runs_on_block<T, G: Fn(&[T], &[T], &[T], &[T]) -> Vec<T>>(
    work: &G,
    lhs_x: Seq<T>,
    lhs_y: Seq<T>,
    rhs_x: Seq<T>,
    rhs_y: Seq<T>,
    k: int,
    size: int,
) -> bool {
    forall|a: &[T], b: &[T], c: &[T], d: &[T]|
        a@ == block_of(lhs_x, k, size) && b@ == block_of(lhs_y, k, size) && c@ == block_of(
            rhs_x,
            k,
            size,
        ) && d@ == block_of(rhs_y, k, size) ==> #[trigger] call_requires(work, (a, b, c, d))
}

/// `part` is what a call of `work` on the `k`-th blocks of the four arrays
/// returned.
pub open spec fn yields_on_block<T, G: Fn(&[T], &[T], &[T], &[T]) -> Vec<T>>(
    work: &G,
    lhs_x: Seq<T>,
    lhs_y: Seq<T>,
    rhs_x: Seq<T>,
    rhs_y: Seq<T>,
    k: int,
    size: int,
    part: Seq<T>,
) -> bool {
    exists|a: &[T], b: &[T], c: &[T], d: &[T], v: Vec<T>|
        a@ == block_of(lhs_x, k, size) && b@ == block_of(lhs_y, k, size) && c@ == block_of(
            rhs_x,
            k,
            size,
        ) && d@ == block_of(rhs_y, k, size) && v@ == part && #[trigger] call_ensures(
            work,
            (a, b, c, d),
            v,
        )
}

/// `out` is what calls of `work` on the whole blocks of `size` elements of
/// the four arrays returned, one call for each block, chained in block
/// order.
pub open spec fn chains_blocks<T, G: Fn(&[T], &[T], &[T], &[T]) -> Vec<T>>(
    work: &G,
    lhs_x: Seq<T>,
    lhs_y: Seq<T>,
    rhs_x: Seq<T>,
    rhs_y: Seq<T>,
    size: int,
    out: Seq<T>,
) -> bool {
    exists|parts: Seq<Seq<T>>|
        {
            &&& parts.len() == (lhs_x.len() as int) / size
            &&& forall|k: int|
                0 <= k < parts.len() ==> yields_on_block(
                    work,
                    lhs_x,
                    lhs_y,
                    rhs_x,
                    rhs_y,
                    k,
                    size,
                    #[trigger] parts[k],
                )
            &&& out == parts.flatten()
        }
}

/// An empty partial result with room for `room` elements.
fn empty_part<T>(room: usize) -> (part: Vec<T>)
    ensures
        part@ == Seq::<T>::empty(),
{
    Vec::with_capacity(room)
}

/// The partial result `head` followed by the partial result `tail`.
fn joined<T>(head: Vec<T>, tail: Vec<T>) -> (all: Vec<T>)
    ensures
        all@ == head@ + tail@,
{
    let mut all = head;
    let mut tail = tail;
    all.append(&mut tail);
    all
}

/// Runs `work` on every whole block of `size` elements of the four arrays,
/// the blocks spread over rayon's worker threads, and chains what the calls
/// return in block order.
///
/// Calls rayon's `par_chunks_exact`, `zip`, `map` and `reduce`. Taken on
/// trust from rayon, not proved: the four arrays are cut at the same places
/// into `len / size` blocks and the trailing elements are passed over;
/// `work` is called once on the four blocks of each position; and the
/// reduction joins neighbouring results, the left one first, so that with
/// [`empty_part`] as its identity and [`joined`] as its operation it returns
/// the results chained in block order, whichever block is finished first.
/// `par_chunks_exact` panics on a `size` of zero. With arrays of different
/// lengths `zip` would stop after the blocks of the shortest; here the four
/// arrays have one length.
#[verifier::external_body]
fn par_blocks<T, G>(
    lhs_x: &[T],
    lhs_y: &[T],
    rhs_x: &[T],
    rhs_y: &[T],
    size: usize,
    work: &G,
) -> (out: Vec<T>) where T: Send + Sync, G: Fn(&[T], &[T], &[T], &[T]) -> Vec<T> + Sync
    requires
        0 < size,
        lhs_x.len() == lhs_y.len(),
        lhs_x.len() == rhs_x.len(),
        lhs_x.len() == rhs_y.len(),
        forall|k: int|
            0 <= k < lhs_x.len() / size ==> #[trigger] runs_on_block(
                work,
                lhs_x@,
                lhs_y@,
                rhs_x@,
                rhs_y@,
                k,
                size as int,
            ),
    ensures
        chains_blocks(work, lhs_x@, lhs_y@, rhs_x@, rhs_y@, size as int, out@),
{
    lhs_x.par_chunks_exact(size)
        .zip(lhs_y.par_chunks_exact(size))
        .zip(rhs_x.par_chunks_exact(size))
        .zip(rhs_y.par_chunks_exact(size))
        .map(|(((a, b), c), d)| work(a, b, c, d))
        .reduce(|| empty_part(size), joined)
}

/// Chaining `parts` that all have `span` elements puts element `j` of part
/// `k` at `k * span + j`.
proof fn lemma_flatten_uniform<T>(parts: Seq<Seq<T>>, span: int)
    requires
        0 <= span,
        forall|k: int| 0 <= k < parts.len() ==> (#[trigger] parts[k]).len() == span,
    ensures
        parts.flatten().len() == parts.len() * span,
        forall|k: int, j: int|
            0 <= k < parts.len() && 0 <= j < span ==> parts.flatten()[k * span + j] == (
            #[trigger] parts[k][j]),
    decreases parts.len(),
{
    if parts.len() == 0 {
        assert(parts.len() * span == 0) by (nonlinear_arith)
            requires
                parts.len() == 0,
        ;
    } else {
        let init = parts.drop_last();
        let last = parts.last();
        let m = init.len() as int;
        assert(parts == init.push(last));
        init.lemma_flatten_push(last);
        assert forall|k: int| 0 <= k < init.len() implies (#[trigger] init[k]).len() == span by {
            assert(init[k] == parts[k]);
        }
        lemma_flatten_uniform(init, span);
        assert(parts.flatten() == init.flatten() + last);
        assert((m + 1) * span == m * span + span) by (nonlinear_arith);
        assert forall|k: int, j: int| 0 <= k < parts.len() && 0 <= j < span implies parts.flatten()[k
            * span + j] == (#[trigger] parts[k][j]) by {
            if k < m {
                assert(init[k][j] == parts[k][j]);
                assert(0 <= k * span && k * span + span <= m * span) by (nonlinear_arith)
                    requires
                        0 <= k,
                        k + 1 <= m,
                        0 <= span,
                ;
                assert(parts.flatten()[k * span + j] == init.flatten()[k * span + j]);
            } else {
                assert(k * span == m * span);
                assert(parts.flatten()[m * span + j] == last[j]);
            }
        }
    }
}

/// If each part holds the results for the first `span` pairs of points of
/// its block, the chain of the parts holds, at `i`, the result for the pair
/// at `source(i, size, span)`.
proof fn lemma_chained_blocks<T, F: Fn(T, T, T, T) -> T>(
    kernel: &F,
    lhs_x: Seq<T>,
    lhs_y: Seq<T>,
    rhs_x: Seq<T>,
    rhs_y: Seq<T>,
    size: int,
    span: int,
    parts: Seq<Seq<T>>,
)
    requires
        0 <= span <= size,
        0 < size,
        lhs_x.len() == lhs_y.len(),
        lhs_x.len() == rhs_x.len(),
        lhs_x.len() == rhs_y.len(),
        parts.len() == lhs_x.len() as int / size,
        forall|k: int|
            0 <= k < parts.len() ==> (#[trigger] parts[k]).len() == span && pairwise(
                kernel,
                block_of(lhs_x, k, size),
                block_of(lhs_y, k, size),
                block_of(rhs_x, k, size),
                block_of(rhs_y, k, size),
                parts[k],
            ),
    ensures
        parts.flatten().len() == (lhs_x.len() as int / size) * span,
        gathered(kernel, lhs_x, lhs_y, rhs_x, rhs_y, size, span, parts.flatten()),
{
    let out = parts.flatten();
    let n = lhs_x.len() as int;
    lemma_flatten_uniform(parts, span);
    assert forall|i: int| 0 <= i < out.len() implies call_ensures(
        kernel,
        quad(lhs_x, lhs_y, rhs_x, rhs_y, source(i, size, span)),
        #[trigger] out[i],
    ) by {
        assert(0 < span) by (nonlinear_arith)
            requires
                0 <= i < parts.len() * span,
                0 <= span,
        ;
        let k = i / span;
        let j = i % span;
        lemma_fundamental_div_mod(i, span);
        assert(i == k * span + j) by (nonlinear_arith)
            requires
                i == span * k + j,
        ;
        assert(0 <= k < parts.len()) by (nonlinear_arith)
            requires
                0 <= i < parts.len() * span,
                0 < span,
                k == i / span,
        ;
        lemma_chunk_fits(n, size, k);
        assert(out[i] == parts[k][j]);
        let a = block_of(lhs_x, k, size);
        let b = block_of(lhs_y, k, size);
        let c = block_of(rhs_x, k, size);
        let d = block_of(rhs_y, k, size);
        assert(call_ensures(kernel, quad(a, b, c, d, j), parts[k][j]));
        assert(quad(a, b, c, d, j) == quad(lhs_x, lhs_y, rhs_x, rhs_y, k * size + j));
    }
}

/// Runs `work` on every whole block of `size` pairs of points, on the worker
/// threads, and chains the results in block order. `work` is to return, for
/// a block, the results of `kernel` for the block's first `span` pairs; the
/// chain then holds at `i` the result for the pair at
/// `source(i, size, span)`.
pub(crate) fn chain_blocks<T, F, G>(
    lhs_x: &[T],
    lhs_y: &[T],
    rhs_x: &[T],
    rhs_y: &[T],
    size: usize,
    kernel: &F,
    work: &G,
    Ghost(span): Ghost<int>,
) -> (out: Vec<T>) where
    T: Send + Sync,
    F: Fn(T, T, T, T) -> T,
    G: Fn(&[T], &[T], &[T], &[T]) -> Vec<T> + Sync,

    requires
        0 < size,
        0 <= span <= size,
        lhs_x.len() == lhs_y.len(),
        lhs_x.len() == rhs_x.len(),
        lhs_x.len() == rhs_y.len(),
        accepts_gathered(
            kernel,
            lhs_x@,
            lhs_y@,
            rhs_x@,
            rhs_y@,
            size as int,
            span,
            (lhs_x.len() as int / size as int) * span,
        ),
        forall|a: &[T], b: &[T], c: &[T], d: &[T]|
            a@.len() == size && b@.len() == size && c@.len() == size && d@.len() == size
                && accepts(kernel, a@, b@, c@, d@, span) ==> #[trigger] call_requires(
                work,
                (a, b, c, d),
            ),
        forall|a: &[T], b: &[T], c: &[T], d: &[T], part: Vec<T>|
            a@.len() == size && #[trigger] call_ensures(work, (a, b, c, d), part) ==> part@.len()
                == span && pairwise(kernel, a@, b@, c@, d@, part@),
    ensures
        out.len() == (lhs_x.len() as int / size as int) * span,
        gathered(kernel, lhs_x@, lhs_y@, rhs_x@, rhs_y@, size as int, span, out@),
{
    let ghost n = lhs_x.len() as int;
    let ghost width = size as int;
    assert forall|k: int| 0 <= k < n / width implies #[trigger] runs_on_block(
        work,
        lhs_x@,
        lhs_y@,
        rhs_x@,
        rhs_y@,
        k,
        width,
    ) by {
        lemma_chunk_fits(n, width, k);
        assert forall|a: &[T], b: &[T], c: &[T], d: &[T]|
            a@ == block_of(lhs_x@, k, width) && b@ == block_of(lhs_y@, k, width) && c@
                == block_of(rhs_x@, k, width) && d@ == block_of(
                rhs_y@,
                k,
                width,
            ) implies #[trigger] call_requires(work, (a, b, c, d)) by {
            assert forall|j: int| 0 <= j < span implies call_requires(
                kernel,
                #[trigger] quad(a@, b@, c@, d@, j),
            ) by {
                lemma_source_at(k, j, width, span);
                assert(k * span + j < (n / width) * span) by (nonlinear_arith)
                    requires
                        0 <= k,
                        k + 1 <= n / width,
                        0 <= j < span,
                ;
                assert(quad(a@, b@, c@, d@, j) == quad(
                    lhs_x@,
                    lhs_y@,
                    rhs_x@,
                    rhs_y@,
                    source(k * span + j, width, span),
                ));
            }
        }
    }
    let out = par_blocks(lhs_x, lhs_y, rhs_x, rhs_y, size, work);
    proof {
        let parts = choose|parts: Seq<Seq<T>>|
            {
                &&& parts.len() == n / width
                &&& forall|k: int|
                    0 <= k < parts.len() ==> yields_on_block(
                        work,
                        lhs_x@,
                        lhs_y@,
                        rhs_x@,
                        rhs_y@,
                        k,
                        width,
                        #[trigger] parts[k],
                    )
                &&& out@ == parts.flatten()
            };
        assert forall|k: int| 0 <= k < parts.len() implies (#[trigger] parts[k]).len() == span
            && pairwise(
            kernel,
            block_of(lhs_x@, k, width),
            block_of(lhs_y@, k, width),
            block_of(rhs_x@, k, width),
            block_of(rhs_y@, k, width),
            parts[k],
        ) by {
            lemma_chunk_fits(n, width, k);
            assert(yields_on_block(work, lhs_x@, lhs_y@, rhs_x@, rhs_y@, k, width, parts[k]));
        }
        lemma_chained_blocks(kernel, lhs_x@, lhs_y@, rhs_x@, rhs_y@, width, span, parts);
    }
    out
}

} // verus!
