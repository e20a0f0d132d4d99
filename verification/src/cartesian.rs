//! Pairwise results for two sets of points that are stored as parallel
//! coordinate arrays: `lhs_x[i]`, `lhs_y[i]` is the first point of pair `i`,
//! `rhs_x[i]`, `rhs_y[i]` the second. The four arrays have one length.
//!
//! The arithmetic on one pair of points is the caller's `kernel`; for the
//! Euclidean distance it computes `sqrt((rx - lx)^2 + (ry - ly)^2)`, with
//! the sum of the squares fused into one multiply-add or not. A strategy
//! calls the kernel once for every pair that it keeps and puts the results
//! in input order; the strategies differ in how they walk the arrays: in
//! lane batches of `W` pairs, in blocks of `B` pairs on the worker threads,
//! or in blocks that are cut into lane batches.
//!
//! Every strategy leaves out the trailing pairs that fill no whole chunk.
//! That is no error, and nothing stands in their place: the output is
//! shorter than the input unless the chunk sizes divide its length. A caller
//! that needs a result for every pair passes arrays whose length is a
//! multiple of the chunk sizes.
use crate::chunks::{
    lemma_batch_fits, lemma_batches_done, lemma_chunk_fits, lemma_kept_bounds, lemma_source_whole,
};
use crate::model::{accepts, accepts_gathered, gathered, kept, kept_nested, pairwise, quad, source};
use crate::pool::chain_blocks;
use vstd::prelude::*;

verus! {

/// Applies `kernel` to each lane of one batch of `N` pairs of points and
/// returns the `N` results in lane order.
pub fn cartesian_simd<T: Copy, F: Fn(T, T, T, T) -> T, const N: usize>(
    lhs_x: [T; N],
    lhs_y: [T; N],
    rhs_x: [T; N],
    rhs_y: [T; N],
    kernel: &F,
) -> (out: [T; N])
    requires
        accepts(kernel, lhs_x@, lhs_y@, rhs_x@, rhs_y@, N as int),
    ensures
        pairwise(kernel, lhs_x@, lhs_y@, rhs_x@, rhs_y@, out@),
{
    let mut out: [T; N] = lhs_x;
    let mut lane: usize = 0;
    while lane < N
        invariant
            lane <= N,
            accepts(kernel, lhs_x@, lhs_y@, rhs_x@, rhs_y@, N as int),
            forall|i: int|
                0 <= i < lane ==> call_ensures(
                    kernel,
                    quad(lhs_x@, lhs_y@, rhs_x@, rhs_y@, i),
                    #[trigger] out@[i],
                ),
        decreases N - lane,
    {
        assert(call_requires(kernel, quad(lhs_x@, lhs_y@, rhs_x@, rhs_y@, lane as int)));
        out[lane] = kernel(lhs_x[lane], lhs_y[lane], rhs_x[lane], rhs_y[lane]);
        lane += 1;
    }
    out
}

/// Copies the `N` elements of `data` that start at `start` into one batch.
fn load_lanes<T: Copy, const N: usize>(data: &[T], start: usize) -> (lanes: [T; N])
    requires
        0 < N,
        start + N <= data.len(),
    ensures
        lanes@ == data@.subrange(start as int, start + N),
{
    let mut lanes: [T; N] = [data[start];N];
    let mut lane: usize = 1;
    while lane < N
        invariant
            1 <= lane <= N,
            start + N <= data.len(),
            forall|i: int| 0 <= i < lane ==> lanes@[i] == data@[start + i],
        decreases N - lane,
    {
        lanes[lane] = data[start + lane];
        lane += 1;
    }
    lanes
}

/// Appends the lanes of `batch` to `out`, in lane order.
fn store_lanes<T: Copy, const N: usize>(out: &mut Vec<T>, batch: &[T; N])
    ensures
        final(out)@ == old(out)@ + batch@,
{
    let mut lane: usize = 0;
    while lane < N
        invariant
            lane <= N,
            out@ == old(out)@ + batch@.take(lane as int),
        decreases N - lane,
    {
        out.push(batch[lane]);
        lane += 1;
    }
}

/// Runs [`cartesian_simd`] on the window of `W` pairs of points that starts
/// at `start` and appends its results to `out`, which holds the results for
/// the pairs before the window.
fn run_window<T: Copy, F: Fn(T, T, T, T) -> T, const W: usize>(
    lhs_x: &[T],
    lhs_y: &[T],
    rhs_x: &[T],
    rhs_y: &[T],
    start: usize,
    kernel: &F,
    out: &mut Vec<T>,
)
    requires
        0 < W,
        start + W <= lhs_x.len(),
        lhs_x.len() == lhs_y.len(),
        lhs_x.len() == rhs_x.len(),
        lhs_x.len() == rhs_y.len(),
        accepts(kernel, lhs_x@, lhs_y@, rhs_x@, rhs_y@, start + W),
        old(out).len() == start,
        pairwise(kernel, lhs_x@, lhs_y@, rhs_x@, rhs_y@, old(out)@),
    ensures
        final(out).len() == start + W,
        pairwise(kernel, lhs_x@, lhs_y@, rhs_x@, rhs_y@, final(out)@),
{
    let a: [T; W] = load_lanes(lhs_x, start);
    let b: [T; W] = load_lanes(lhs_y, start);
    let c: [T; W] = load_lanes(rhs_x, start);
    let d: [T; W] = load_lanes(rhs_y, start);
    assert forall|i: int| 0 <= i < W implies call_requires(
        kernel,
        #[trigger] quad(a@, b@, c@, d@, i),
    ) by {
        assert(quad(a@, b@, c@, d@, i) == quad(lhs_x@, lhs_y@, rhs_x@, rhs_y@, start + i));
    }
    let batch = cartesian_simd(a, b, c, d, kernel);
    store_lanes(out, &batch);
    assert forall|i: int| 0 <= i < out@.len() implies call_ensures(
        kernel,
        quad(lhs_x@, lhs_y@, rhs_x@, rhs_y@, i),
        #[trigger] out@[i],
    ) by {
        if i < start {
            assert(out@[i] == old(out)@[i]);
        } else {
            let lane = i - start;
            assert(out@[i] == batch@[lane]);
            assert(quad(a@, b@, c@, d@, lane) == quad(lhs_x@, lhs_y@, rhs_x@, rhs_y@, i));
        }
    }
}

/// Cuts the four arrays into consecutive windows of `W` pairs of points,
/// runs [`cartesian_simd`] on each window in turn, on the caller's thread,
/// and returns the results in input order. The trailing pairs that fill no
/// whole window are left out: they are not an error.
pub fn cartesian_seq_simd<T: Copy, F: Fn(T, T, T, T) -> T, const W: usize>(
    lhs_x: &[T],
    lhs_y: &[T],
    rhs_x: &[T],
    rhs_y: &[T],
    kernel: &F,
) -> (out: Vec<T>)
    requires
        0 < W,
        lhs_x.len() == lhs_y.len(),
        lhs_x.len() == rhs_x.len(),
        lhs_x.len() == rhs_y.len(),
        accepts(kernel, lhs_x@, lhs_y@, rhs_x@, rhs_y@, kept(lhs_x.len() as int, W as int)),
    ensures
        out.len() == kept(lhs_x.len() as int, W as int),
        pairwise(kernel, lhs_x@, lhs_y@, rhs_x@, rhs_y@, out@),
{
    let n = lhs_x.len();
    let windows = n / W;
    let mut out: Vec<T> = Vec::with_capacity(n);
    let mut k: usize = 0;
    while k < windows
        invariant
            0 < W,
            n == lhs_x.len(),
            n == lhs_y.len(),
            n == rhs_x.len(),
            n == rhs_y.len(),
            windows == n / W,
            k <= windows,
            accepts(kernel, lhs_x@, lhs_y@, rhs_x@, rhs_y@, kept(n as int, W as int)),
            out.len() == k * W,
            pairwise(kernel, lhs_x@, lhs_y@, rhs_x@, rhs_y@, out@),
        decreases windows - k,
    {
        proof {
            lemma_chunk_fits(n as int, W as int, k as int);
        }
        run_window::<T, F, W>(lhs_x, lhs_y, rhs_x, rhs_y, k * W, kernel, &mut out);
        k += 1;
    }
    out
}

/// Appends to `out`, which holds results for the first pairs of points, the
/// results for all the pairs after them, computed pair by pair in index
/// order. After a strategy whose results stand at the indices of their
/// pairs, this adds what the strategy left out, so that no pair is without a
/// result.
pub fn cartesian_remainder<T: Copy, F: Fn(T, T, T, T) -> T>(
    lhs_x: &[T],
    lhs_y: &[T],
    rhs_x: &[T],
    rhs_y: &[T],
    kernel: &F,
    out: &mut Vec<T>,
)
    requires
        lhs_x.len() == lhs_y.len(),
        lhs_x.len() == rhs_x.len(),
        lhs_x.len() == rhs_y.len(),
        old(out).len() <= lhs_x.len(),
        forall|i: int|
            old(out).len() <= i < lhs_x.len() ==> call_requires(
                kernel,
                #[trigger] quad(lhs_x@, lhs_y@, rhs_x@, rhs_y@, i),
            ),
    ensures
        final(out).len() == lhs_x.len(),
        final(out)@.take(old(out).len() as int) == old(out)@,
        forall|i: int|
            old(out).len() <= i < lhs_x.len() ==> call_ensures(
                kernel,
                quad(lhs_x@, lhs_y@, rhs_x@, rhs_y@, i),
                #[trigger] final(out)@[i],
            ),
        pairwise(kernel, lhs_x@, lhs_y@, rhs_x@, rhs_y@, old(out)@) ==> pairwise(
            kernel,
            lhs_x@,
            lhs_y@,
            rhs_x@,
            rhs_y@,
            final(out)@,
        ),
{
    let n = lhs_x.len();
    let ghost first = out.len();
    let mut i: usize = out.len();
    while i < n
        invariant
            n == lhs_x.len(),
            n == lhs_y.len(),
            n == rhs_x.len(),
            n == rhs_y.len(),
            first == old(out).len(),
            first <= i <= n,
            forall|j: int|
                first <= j < n ==> call_requires(
                    kernel,
                    #[trigger] quad(lhs_x@, lhs_y@, rhs_x@, rhs_y@, j),
                ),
            out.len() == i,
            out@.take(first as int) == old(out)@,
            forall|j: int|
                first <= j < i ==> call_ensures(
                    kernel,
                    quad(lhs_x@, lhs_y@, rhs_x@, rhs_y@, j),
                    #[trigger] out@[j],
                ),
        decreases n - i,
    {
        assert(call_requires(kernel, quad(lhs_x@, lhs_y@, rhs_x@, rhs_y@, i as int)));
        let ghost before = out@;
        out.push(kernel(lhs_x[i], lhs_y[i], rhs_x[i], rhs_y[i]));
        assert(out@.take(first as int) == before.take(first as int));
        i += 1;
    }
    proof {
        if pairwise(kernel, lhs_x@, lhs_y@, rhs_x@, rhs_y@, old(out)@) {
            assert forall|j: int| 0 <= j < out@.len() implies call_ensures(
                kernel,
                quad(lhs_x@, lhs_y@, rhs_x@, rhs_y@, j),
                #[trigger] out@[j],
            ) by {
                if j < first {
                    assert(out@[j] == out@.take(first as int)[j]);
                }
            }
        }
    }
}

/// The work on one block of [`cartesian_par_elementwise`]: applies `kernel`
/// to each pair of points of the block, in index order.
fn elementwise_block<T: Copy, F: Fn(T, T, T, T) -> T>(
    lhs_x: &[T],
    lhs_y: &[T],
    rhs_x: &[T],
    rhs_y: &[T],
    kernel: &F,
) -> (part: Vec<T>)
    requires
        lhs_x.len() == lhs_y.len(),
        lhs_x.len() == rhs_x.len(),
        lhs_x.len() == rhs_y.len(),
        accepts(kernel, lhs_x@, lhs_y@, rhs_x@, rhs_y@, lhs_x.len() as int),
    ensures
        part.len() == lhs_x.len(),
        pairwise(kernel, lhs_x@, lhs_y@, rhs_x@, rhs_y@, part@),
{
    let mut part: Vec<T> = Vec::with_capacity(lhs_x.len());
    cartesian_remainder(lhs_x, lhs_y, rhs_x, rhs_y, kernel, &mut part);
    part
}

/// The work on one block of [`cartesian_par_batch_simd`]: the inner level of
/// the two, which walks the block lane batch by lane batch and leaves out
/// the pairs at the block's end that fill no whole batch.
fn batched_block<T: Copy, F: Fn(T, T, T, T) -> T, const W: usize>(
    lhs_x: &[T],
    lhs_y: &[T],
    rhs_x: &[T],
    rhs_y: &[T],
    kernel: &F,
) -> (part: Vec<T>)
    requires
        0 < W,
        lhs_x.len() == lhs_y.len(),
        lhs_x.len() == rhs_x.len(),
        lhs_x.len() == rhs_y.len(),
        accepts(kernel, lhs_x@, lhs_y@, rhs_x@, rhs_y@, kept(lhs_x.len() as int, W as int)),
    ensures
        part.len() == kept(lhs_x.len() as int, W as int),
        pairwise(kernel, lhs_x@, lhs_y@, rhs_x@, rhs_y@, part@),
{
    let size = lhs_x.len();
    let mut part: Vec<T> = Vec::with_capacity(size);
    let mut start: usize = 0;
    proof {
        lemma_kept_bounds(size as int, W as int);
    }
    while size - start >= W
        invariant
            0 < W,
            size == lhs_x.len(),
            size == lhs_y.len(),
            size == rhs_x.len(),
            size == rhs_y.len(),
            start <= size,
            start % W == 0,
            accepts(kernel, lhs_x@, lhs_y@, rhs_x@, rhs_y@, kept(size as int, W as int)),
            part.len() == start,
            pairwise(kernel, lhs_x@, lhs_y@, rhs_x@, rhs_y@, part@),
        decreases size - start,
    {
        proof {
            lemma_batch_fits(size as int, W as int, start as int);
        }
        run_window::<T, F, W>(lhs_x, lhs_y, rhs_x, rhs_y, start, kernel, &mut part);
        start += W;
    }
    proof {
        lemma_batches_done(size as int, W as int, start as int);
    }
    part
}

/// Cuts the four arrays into consecutive blocks of `B` pairs of points,
/// hands the blocks to the worker threads, applies `kernel` to every pair of
/// a block in index order, and chains the results of the blocks in block
/// order, whichever block is finished first. The trailing pairs that fill no
/// whole block are left out.
pub fn cartesian_par_elementwise<T, F, const B: usize>(
    lhs_x: &[T],
    lhs_y: &[T],
    rhs_x: &[T],
    rhs_y: &[T],
    kernel: &F,
) -> (out: Vec<T>) where T: Copy + Send + Sync, F: Fn(T, T, T, T) -> T + Sync
    requires
        0 < B,
        lhs_x.len() == lhs_y.len(),
        lhs_x.len() == rhs_x.len(),
        lhs_x.len() == rhs_y.len(),
        accepts(kernel, lhs_x@, lhs_y@, rhs_x@, rhs_y@, kept(lhs_x.len() as int, B as int)),
    ensures
        out.len() == kept(lhs_x.len() as int, B as int),
        pairwise(kernel, lhs_x@, lhs_y@, rhs_x@, rhs_y@, out@),
{
    let work = |a: &[T], b: &[T], c: &[T], d: &[T]| -> (part: Vec<T>)
        requires
            a.len() == b.len(),
            a.len() == c.len(),
            a.len() == d.len(),
            accepts(kernel, a@, b@, c@, d@, a.len() as int),
        ensures
            part.len() == a.len(),
            pairwise(kernel, a@, b@, c@, d@, part@),
        { elementwise_block(a, b, c, d, kernel) };
    proof {
        assert forall|i: int| 0 <= i < kept(lhs_x.len() as int, B as int) implies call_requires(
            kernel,
            #[trigger] quad(lhs_x@, lhs_y@, rhs_x@, rhs_y@, source(i, B as int, B as int)),
        ) by {
            lemma_source_whole(i, B as int);
            assert(call_requires(kernel, quad(lhs_x@, lhs_y@, rhs_x@, rhs_y@, i)));
        }
    }
    let out = chain_blocks(lhs_x, lhs_y, rhs_x, rhs_y, B, kernel, &work, Ghost(B as int));
    proof {
        assert forall|i: int| 0 <= i < out@.len() implies call_ensures(
            kernel,
            quad(lhs_x@, lhs_y@, rhs_x@, rhs_y@, i),
            #[trigger] out@[i],
        ) by {
            lemma_source_whole(i, B as int);
        }
    }
    out
}

/// Cuts the four arrays into consecutive blocks of `B` pairs of points and
/// hands the blocks to the worker threads; each block goes through
/// [`cartesian_seq_simd`] with windows of `W` pairs. The results of the
/// blocks are chained in block order. Left out are the trailing pairs that
/// fill no whole block and, in every block, those that fill no whole window:
/// where `W` does not divide `B`, results after the first block stand before
/// the index of their pair, at the place that `source` gives.
pub fn cartesian_par_simd<T, F, const B: usize, const W: usize>(
    lhs_x: &[T],
    lhs_y: &[T],
    rhs_x: &[T],
    rhs_y: &[T],
    kernel: &F,
) -> (out: Vec<T>) where T: Copy + Send + Sync, F: Fn(T, T, T, T) -> T + Sync
    requires
        0 < B,
        0 < W,
        lhs_x.len() == lhs_y.len(),
        lhs_x.len() == rhs_x.len(),
        lhs_x.len() == rhs_y.len(),
        accepts_gathered(
            kernel,
            lhs_x@,
            lhs_y@,
            rhs_x@,
            rhs_y@,
            B as int,
            kept(B as int, W as int),
            kept_nested(lhs_x.len() as int, B as int, W as int),
        ),
    ensures
        out.len() == kept_nested(lhs_x.len() as int, B as int, W as int),
        gathered(
            kernel,
            lhs_x@,
            lhs_y@,
            rhs_x@,
            rhs_y@,
            B as int,
            kept(B as int, W as int),
            out@,
        ),
{
    let work = |a: &[T], b: &[T], c: &[T], d: &[T]| -> (part: Vec<T>)
        requires
            a.len() == b.len(),
            a.len() == c.len(),
            a.len() == d.len(),
            accepts(kernel, a@, b@, c@, d@, kept(a.len() as int, W as int)),
        ensures
            part.len() == kept(a.len() as int, W as int),
            pairwise(kernel, a@, b@, c@, d@, part@),
        { cartesian_seq_simd::<T, F, W>(a, b, c, d, kernel) };
    proof {
        lemma_kept_bounds(B as int, W as int);
    }
    chain_blocks(lhs_x, lhs_y, rhs_x, rhs_y, B, kernel, &work, Ghost(kept(B as int, W as int)))
}

/// The two levels of chunking written out, each with its own size: the
/// outer level cuts the four arrays into blocks of `B` pairs of points, one
/// block for a worker thread at a time; the inner level cuts a block into
/// lane batches of `W` pairs for [`cartesian_simd`]. The results of the
/// blocks are chained in block order. Left out are the trailing pairs that
/// fill no whole block and, in every block, those that fill no whole batch,
/// as in [`cartesian_par_simd`].
pub fn cartesian_par_batch_simd<T, F, const B: usize, const W: usize>(
    lhs_x: &[T],
    lhs_y: &[T],
    rhs_x: &[T],
    rhs_y: &[T],
    kernel: &F,
) -> (out: Vec<T>) where T: Copy + Send + Sync, F: Fn(T, T, T, T) -> T + Sync
    requires
        0 < B,
        0 < W,
        lhs_x.len() == lhs_y.len(),
        lhs_x.len() == rhs_x.len(),
        lhs_x.len() == rhs_y.len(),
        accepts_gathered(
            kernel,
            lhs_x@,
            lhs_y@,
            rhs_x@,
            rhs_y@,
            B as int,
            kept(B as int, W as int),
            kept_nested(lhs_x.len() as int, B as int, W as int),
        ),
    ensures
        out.len() == kept_nested(lhs_x.len() as int, B as int, W as int),
        gathered(
            kernel,
            lhs_x@,
            lhs_y@,
            rhs_x@,
            rhs_y@,
            B as int,
            kept(B as int, W as int),
            out@,
        ),
{
    let work = |a: &[T], b: &[T], c: &[T], d: &[T]| -> (part: Vec<T>)
        requires
            a.len() == b.len(),
            a.len() == c.len(),
            a.len() == d.len(),
            accepts(kernel, a@, b@, c@, d@, kept(a.len() as int, W as int)),
        ensures
            part.len() == kept(a.len() as int, W as int),
            pairwise(kernel, a@, b@, c@, d@, part@),
        { batched_block::<T, F, W>(a, b, c, d, kernel) };
    proof {
        lemma_kept_bounds(B as int, W as int);
    }
    chain_blocks(lhs_x, lhs_y, rhs_x, rhs_y, B, kernel, &work, Ghost(kept(B as int, W as int)))
}

} // verus!
