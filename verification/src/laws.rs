//! What holds of the strategies together: which results each of them keeps,
//! where they stand, and that all strategies agree on them.
//!
//! The laws speak of a kernel that is a function: one that returns, for the
//! same pair of points, the same value every time.
use crate::chunks::{
    lemma_kept_bounds, lemma_kept_multiple, lemma_source_grows, lemma_source_in_block,
    lemma_source_whole,
};
use crate::model::{gathered, kept, kept_nested, pairwise, quad, source};
use vstd::arithmetic::div_mod::lemma_fundamental_div_mod;
use vstd::prelude::*;

verus! {

/// `kernel` returns, for every pair of points, the value that `f` gives.
pub open spec fn computes<T, F: Fn(T, T, T, T) -> T>(
    kernel: &F,
    f: spec_fn(T, T, T, T) -> T,
) -> bool {
    forall|lx: T, ly: T, rx: T, ry: T, r: T| #[trigger]
        call_ensures(kernel, (lx, ly, rx, ry), r) ==> r == f(lx, ly, rx, ry)
}

/// The value of `f` for every pair of points, in input order: what applying
/// the kernel to one pair after the other gives.
pub open spec fn elementwise<T>(
    f: spec_fn(T, T, T, T) -> T,
    lhs_x: Seq<T>,
    lhs_y: Seq<T>,
    rhs_x: Seq<T>,
    rhs_y: Seq<T>,
) -> Seq<T> {
    Seq::new(lhs_x.len(), |i: int| f(lhs_x[i], lhs_y[i], rhs_x[i], rhs_y[i]))
}

/// Of `n` pairs of points, chunking leaves out the last `n % chunk` and
/// nothing else.
pub proof fn law_truncation(n: int, chunk: int)
    requires
        0 <= n,
        0 < chunk,
    ensures
        kept(n, chunk) == n - n % chunk,
        0 <= n - kept(n, chunk) < chunk,
        n % chunk == 0 ==> kept(n, chunk) == n,
{
    lemma_kept_bounds(n, chunk);
    lemma_fundamental_div_mod(n, chunk);
}

/// With two levels of chunking, what is kept of `n` pairs of points is what
/// the inner level keeps of a block, once for each whole block; where the
/// inner chunks fill the blocks, that is what the outer level keeps.
pub proof fn law_nested_truncation(n: int, size: int, width: int)
    requires
        0 <= n,
        0 < size,
        0 < width,
    ensures
        0 <= kept_nested(n, size, width) <= kept(n, size),
        size % width == 0 ==> kept_nested(n, size, width) == kept(n, size),
{
    lemma_kept_bounds(size, width);
    lemma_kept_bounds(n, size);
    let blocks = n / size;
    let span = kept(size, width);
    assert(0 <= blocks * span <= blocks * size) by (nonlinear_arith)
        requires
            0 <= blocks,
            0 <= span <= size,
    ;
}

/// Results that stand at the indices of their pairs of points are the
/// beginning of what applying the kernel to one pair after the other gives;
/// with a result for every pair, they are all of it.
pub proof fn law_pairwise_is_elementwise<T, F: Fn(T, T, T, T) -> T>(
    kernel: &F,
    f: spec_fn(T, T, T, T) -> T,
    lhs_x: Seq<T>,
    lhs_y: Seq<T>,
    rhs_x: Seq<T>,
    rhs_y: Seq<T>,
    out: Seq<T>,
)
    requires
        computes(kernel, f),
        out.len() <= lhs_x.len(),
        pairwise(kernel, lhs_x, lhs_y, rhs_x, rhs_y, out),
    ensures
        out == elementwise(f, lhs_x, lhs_y, rhs_x, rhs_y).take(out.len() as int),
        out.len() == lhs_x.len() ==> out == elementwise(f, lhs_x, lhs_y, rhs_x, rhs_y),
{
    let whole = elementwise(f, lhs_x, lhs_y, rhs_x, rhs_y);
    assert forall|i: int| 0 <= i < out.len() implies out[i] == whole[i] by {
        assert(call_ensures(kernel, quad(lhs_x, lhs_y, rhs_x, rhs_y, i), out[i]));
    }
    assert(out =~= whole.take(out.len() as int));
    if out.len() == lhs_x.len() {
        assert(out =~= whole);
    }
}

/// A strategy with one level of chunking gives what applying the kernel to
/// one pair of points after the other gives, up to the end of the last
/// whole chunk: every result stands at the index of its pair.
pub proof fn law_chunked_is_elementwise<T, F: Fn(T, T, T, T) -> T>(
    kernel: &F,
    f: spec_fn(T, T, T, T) -> T,
    lhs_x: Seq<T>,
    lhs_y: Seq<T>,
    rhs_x: Seq<T>,
    rhs_y: Seq<T>,
    chunk: int,
    out: Seq<T>,
)
    requires
        computes(kernel, f),
        0 < chunk,
        out.len() == kept(lhs_x.len() as int, chunk),
        pairwise(kernel, lhs_x, lhs_y, rhs_x, rhs_y, out),
    ensures
        out == elementwise(f, lhs_x, lhs_y, rhs_x, rhs_y).take(kept(lhs_x.len() as int, chunk)),
{
    lemma_kept_bounds(lhs_x.len() as int, chunk);
    law_pairwise_is_elementwise(kernel, f, lhs_x, lhs_y, rhs_x, rhs_y, out);
}

/// A strategy with two levels of chunking gives, at `i`, what applying the
/// kernel to the pair of points at `source(i, size, kept(size, width))`
/// gives; that pair lies in a whole block, and the places grow with `i`, so
/// the results stand in input order.
pub proof fn law_nested_is_elementwise<T, F: Fn(T, T, T, T) -> T>(
    kernel: &F,
    f: spec_fn(T, T, T, T) -> T,
    lhs_x: Seq<T>,
    lhs_y: Seq<T>,
    rhs_x: Seq<T>,
    rhs_y: Seq<T>,
    size: int,
    width: int,
    out: Seq<T>,
)
    requires
        computes(kernel, f),
        0 < size,
        0 < width,
        out.len() == kept_nested(lhs_x.len() as int, size, width),
        gathered(kernel, lhs_x, lhs_y, rhs_x, rhs_y, size, kept(size, width), out),
    ensures
        forall|i: int|
            0 <= i < out.len() ==> (#[trigger] out[i]) == elementwise(
                f,
                lhs_x,
                lhs_y,
                rhs_x,
                rhs_y,
            )[source(i, size, kept(size, width))],
        forall|i: int|
            0 <= i < out.len() ==> i <= #[trigger] source(i, size, kept(size, width)) < kept(
                lhs_x.len() as int,
                size,
            ),
        forall|i: int, j: int|
            0 <= i < j < out.len() ==> #[trigger] source(i, size, kept(size, width))
                < #[trigger] source(j, size, kept(size, width)),
{
    let n = lhs_x.len() as int;
    let span = kept(size, width);
    lemma_kept_bounds(size, width);
    lemma_kept_bounds(n, size);
    assert forall|i: int| 0 <= i < out.len() implies i <= #[trigger] source(i, size, span) < kept(
        n,
        size,
    ) by {
        lemma_source_in_block(n, size, span, i);
    }
    assert forall|i: int| 0 <= i < out.len() implies (#[trigger] out[i]) == elementwise(
        f,
        lhs_x,
        lhs_y,
        rhs_x,
        rhs_y,
    )[source(i, size, span)] by {
        let at = source(i, size, span);
        assert(0 <= at < n);
        assert(call_ensures(kernel, quad(lhs_x, lhs_y, rhs_x, rhs_y, at), out[i]));
    }
    assert forall|i: int, j: int| 0 <= i < j < out.len() implies #[trigger] source(i, size, span)
        < #[trigger] source(j, size, span) by {
        lemma_source_in_block(n, size, span, i);
        lemma_source_grows(size, span, i, j);
    }
}

/// Where the inner chunks fill the blocks, or there is one block at most,
/// or a block holds no whole inner chunk, two levels of chunking put every
/// result at the index of its pair of points, as one level does.
pub proof fn law_nested_keeps_places<T, F: Fn(T, T, T, T) -> T>(
    kernel: &F,
    lhs_x: Seq<T>,
    lhs_y: Seq<T>,
    rhs_x: Seq<T>,
    rhs_y: Seq<T>,
    size: int,
    width: int,
    out: Seq<T>,
)
    requires
        0 < size,
        0 < width,
        size % width == 0 || lhs_x.len() < 2 * size || size < width,
        out.len() == kept_nested(lhs_x.len() as int, size, width),
        gathered(kernel, lhs_x, lhs_y, rhs_x, rhs_y, size, kept(size, width), out),
    ensures
        pairwise(kernel, lhs_x, lhs_y, rhs_x, rhs_y, out),
{
    let n = lhs_x.len() as int;
    let span = kept(size, width);
    lemma_kept_bounds(size, width);
    assert forall|i: int| 0 <= i < out.len() implies call_ensures(
        kernel,
        quad(lhs_x, lhs_y, rhs_x, rhs_y, i),
        #[trigger] out[i],
    ) by {
        lemma_fundamental_div_mod(size, width);
        if size % width == 0 {
            lemma_source_whole(i, size);
        } else if size < width {
            assert(size / width == 0) by (nonlinear_arith)
                requires
                    0 <= size < width,
            ;
            assert(out.len() == 0) by (nonlinear_arith)
                requires
                    out.len() == (n / size) * span,
                    span == 0 * width,
            ;
        } else {
            assert(n / size <= 1) by (nonlinear_arith)
                requires
                    0 <= n < 2 * size,
                    0 < size,
            ;
            assert(out.len() <= span) by (nonlinear_arith)
                requires
                    out.len() == (n / size) * span,
                    n / size <= 1,
                    0 <= span,
            ;
            assert(i / span == 0) by (nonlinear_arith)
                requires
                    0 <= i < span,
            ;
            assert(i % span == i) by (nonlinear_arith)
                requires
                    0 <= i < span,
            ;
            assert(source(i, size, span) == i);
        }
    }
}

/// All four strategies agree: on the same arrays and with the same kernel,
/// any two of them give the same result at every index that both have,
/// where the lane batches fill the blocks.
pub proof fn law_strategies_agree<T, F: Fn(T, T, T, T) -> T>(
    kernel: &F,
    f: spec_fn(T, T, T, T) -> T,
    lhs_x: Seq<T>,
    lhs_y: Seq<T>,
    rhs_x: Seq<T>,
    rhs_y: Seq<T>,
    size: int,
    width: int,
    seq_simd: Seq<T>,
    par_elementwise: Seq<T>,
    par_simd: Seq<T>,
    par_batch_simd: Seq<T>,
)
    requires
        computes(kernel, f),
        0 < width,
        0 < size,
        size % width == 0,
        seq_simd.len() == kept(lhs_x.len() as int, width),
        pairwise(kernel, lhs_x, lhs_y, rhs_x, rhs_y, seq_simd),
        par_elementwise.len() == kept(lhs_x.len() as int, size),
        pairwise(kernel, lhs_x, lhs_y, rhs_x, rhs_y, par_elementwise),
        par_simd.len() == kept_nested(lhs_x.len() as int, size, width),
        gathered(kernel, lhs_x, lhs_y, rhs_x, rhs_y, size, kept(size, width), par_simd),
        par_batch_simd.len() == kept_nested(lhs_x.len() as int, size, width),
        gathered(kernel, lhs_x, lhs_y, rhs_x, rhs_y, size, kept(size, width), par_batch_simd),
    ensures
        par_simd == par_elementwise,
        par_batch_simd == par_elementwise,
        par_elementwise.len() <= seq_simd.len(),
        par_elementwise == seq_simd.take(par_elementwise.len() as int),
        seq_simd == elementwise(f, lhs_x, lhs_y, rhs_x, rhs_y).take(seq_simd.len() as int),
{
    let n = lhs_x.len() as int;
    law_nested_truncation(n, size, width);
    law_nested_keeps_places(kernel, lhs_x, lhs_y, rhs_x, rhs_y, size, width, par_simd);
    law_nested_keeps_places(kernel, lhs_x, lhs_y, rhs_x, rhs_y, size, width, par_batch_simd);
    law_chunked_is_elementwise(kernel, f, lhs_x, lhs_y, rhs_x, rhs_y, width, seq_simd);
    law_chunked_is_elementwise(kernel, f, lhs_x, lhs_y, rhs_x, rhs_y, size, par_elementwise);
    law_chunked_is_elementwise(kernel, f, lhs_x, lhs_y, rhs_x, rhs_y, size, par_simd);
    law_chunked_is_elementwise(kernel, f, lhs_x, lhs_y, rhs_x, rhs_y, size, par_batch_simd);
    lemma_kept_multiple(n, size, width);
    assert(par_elementwise =~= seq_simd.take(par_elementwise.len() as int));
}

/// With a kernel that gives the same value when the two points of a pair
/// are exchanged, as a distance does, a strategy with one level of chunking
/// gives the same results when the arrays of the two sets of points are
/// exchanged.
pub proof fn law_exchange<T, F: Fn(T, T, T, T) -> T>(
    kernel: &F,
    f: spec_fn(T, T, T, T) -> T,
    lhs_x: Seq<T>,
    lhs_y: Seq<T>,
    rhs_x: Seq<T>,
    rhs_y: Seq<T>,
    out: Seq<T>,
    exchanged: Seq<T>,
)
    requires
        computes(kernel, f),
        forall|lx: T, ly: T, rx: T, ry: T| #[trigger] f(lx, ly, rx, ry) == f(rx, ry, lx, ly),
        out.len() == exchanged.len(),
        pairwise(kernel, lhs_x, lhs_y, rhs_x, rhs_y, out),
        pairwise(kernel, rhs_x, rhs_y, lhs_x, lhs_y, exchanged),
    ensures
        out == exchanged,
{
    assert forall|i: int| 0 <= i < out.len() implies out[i] == exchanged[i] by {
        assert(call_ensures(kernel, quad(lhs_x, lhs_y, rhs_x, rhs_y, i), out[i]));
        assert(call_ensures(kernel, quad(rhs_x, rhs_y, lhs_x, lhs_y, i), exchanged[i]));
        assert(f(lhs_x[i], lhs_y[i], rhs_x[i], rhs_y[i]) == f(
            rhs_x[i],
            rhs_y[i],
            lhs_x[i],
            lhs_y[i],
        ));
    }
    assert(out =~= exchanged);
}

/// The same of a strategy with two levels of chunking.
pub proof fn law_exchange_nested<T, F: Fn(T, T, T, T) -> T>(
    kernel: &F,
    f: spec_fn(T, T, T, T) -> T,
    lhs_x: Seq<T>,
    lhs_y: Seq<T>,
    rhs_x: Seq<T>,
    rhs_y: Seq<T>,
    size: int,
    span: int,
    out: Seq<T>,
    exchanged: Seq<T>,
)
    requires
        computes(kernel, f),
        forall|lx: T, ly: T, rx: T, ry: T| #[trigger] f(lx, ly, rx, ry) == f(rx, ry, lx, ly),
        out.len() == exchanged.len(),
        gathered(kernel, lhs_x, lhs_y, rhs_x, rhs_y, size, span, out),
        gathered(kernel, rhs_x, rhs_y, lhs_x, lhs_y, size, span, exchanged),
    ensures
        out == exchanged,
{
    assert forall|i: int| 0 <= i < out.len() implies out[i] == exchanged[i] by {
        let at = source(i, size, span);
        assert(call_ensures(kernel, quad(lhs_x, lhs_y, rhs_x, rhs_y, at), out[i]));
        assert(call_ensures(kernel, quad(rhs_x, rhs_y, lhs_x, lhs_y, at), exchanged[i]));
        assert(f(lhs_x[at], lhs_y[at], rhs_x[at], rhs_y[at]) == f(
            rhs_x[at],
            rhs_y[at],
            lhs_x[at],
            lhs_y[at],
        ));
    }
    assert(out =~= exchanged);
}

/// With a kernel that gives `zero` for a pair of coincident points, as a
/// distance does, every result of a strategy with one level of chunking is
/// `zero` where the two sets of points are the same.
pub proof fn law_coincident<T, F: Fn(T, T, T, T) -> T>(
    kernel: &F,
    f: spec_fn(T, T, T, T) -> T,
    zero: T,
    x: Seq<T>,
    y: Seq<T>,
    out: Seq<T>,
)
    requires
        computes(kernel, f),
        forall|px: T, py: T| #[trigger] f(px, py, px, py) == zero,
        pairwise(kernel, x, y, x, y, out),
    ensures
        forall|i: int| 0 <= i < out.len() ==> (#[trigger] out[i]) == zero,
{
    assert forall|i: int| 0 <= i < out.len() implies (#[trigger] out[i]) == zero by {
        assert(call_ensures(kernel, quad(x, y, x, y, i), out[i]));
        assert(f(x[i], y[i], x[i], y[i]) == zero);
    }
}

/// The same of a strategy with two levels of chunking.
pub proof fn law_coincident_nested<T, F: Fn(T, T, T, T) -> T>(
    kernel: &F,
    f: spec_fn(T, T, T, T) -> T,
    zero: T,
    x: Seq<T>,
    y: Seq<T>,
    size: int,
    span: int,
    out: Seq<T>,
)
    requires
        computes(kernel, f),
        forall|px: T, py: T| #[trigger] f(px, py, px, py) == zero,
        gathered(kernel, x, y, x, y, size, span, out),
    ensures
        forall|i: int| 0 <= i < out.len() ==> (#[trigger] out[i]) == zero,
{
    assert forall|i: int| 0 <= i < out.len() implies (#[trigger] out[i]) == zero by {
        let at = source(i, size, span);
        assert(call_ensures(kernel, quad(x, y, x, y, at), out[i]));
        assert(f(x[at], y[at], x[at], y[at]) == zero);
    }
}

} // verus!
