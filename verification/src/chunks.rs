//! Index arithmetic of chunking.
use crate::model::{kept, source};
use vstd::arithmetic::div_mod::{lemma_fundamental_div_mod, lemma_fundamental_div_mod_converse};
use vstd::prelude::*;

verus! {

/// Chunking keeps no more than there is, and leaves out the remainder of
/// the division.
pub proof fn lemma_kept_bounds(n: int, chunk: int)
    requires
        0 <= n,
        0 < chunk,
    ensures
        0 <= kept(n, chunk) <= n,
        kept(n, chunk) == n - n % chunk,
{
    lemma_fundamental_div_mod(n, chunk);
    assert((n / chunk) * chunk == chunk * (n / chunk)) by (nonlinear_arith);
    assert(0 <= (n / chunk) * chunk) by (nonlinear_arith)
        requires
            0 <= n,
            0 < chunk,
    ;
}

/// The `k`-th chunk of `width` elements starts at `k * width` and lies
/// within the kept part of `n` elements.
pub proof fn lemma_chunk_fits(n: int, width: int, k: int)
    requires
        0 <= n,
        0 < width,
        0 <= k < n / width,
    ensures
        0 <= k * width,
        (k + 1) * width == k * width + width,
        (k + 1) * width <= kept(n, width),
        kept(n, width) <= n,
{
    assert(0 <= k * width) by (nonlinear_arith)
        requires
            0 <= k,
            0 < width,
    ;
    assert((k + 1) * width == k * width + width) by (nonlinear_arith);
    assert((k + 1) * width <= (n / width) * width) by (nonlinear_arith)
        requires
            k + 1 <= n / width,
            0 < width,
    ;
    assert((n / width) * width <= n) by (nonlinear_arith)
        requires
            0 <= n,
            0 < width,
    ;
}

/// A chunk that starts at a multiple of `width` and ends within `n` elements
/// lies within the kept part, and the next chunk starts at a multiple again.
pub proof fn lemma_batch_fits(n: int, width: int, start: int)
    requires
        0 < width,
        0 <= start,
        start % width == 0,
        start + width <= n,
    ensures
        start + width <= kept(n, width),
        (start + width) % width == 0,
{
    lemma_fundamental_div_mod(start, width);
    let k = start / width;
    assert(start == k * width) by (nonlinear_arith)
        requires
            start == width * k + 0,
    ;
    assert(0 <= k) by (nonlinear_arith)
        requires
            0 < width,
            start == k * width,
            0 <= start,
    ;
    assert((k + 1) * width == start + width) by (nonlinear_arith)
        requires
            start == k * width,
    ;
    lemma_fundamental_div_mod_converse(start + width, width, k + 1, 0);
    assert(k + 1 <= n / width) by (nonlinear_arith)
        requires
            (k + 1) * width <= n,
            0 < width,
    ;
    lemma_chunk_fits(n, width, k);
}

/// Walking in steps of `width` stops, with less than `width` elements left,
/// at the end of the kept part.
pub proof fn lemma_batches_done(n: int, width: int, start: int)
    requires
        0 < width,
        0 <= start <= n,
        start % width == 0,
        n - start < width,
    ensures
        start == kept(n, width),
{
    lemma_fundamental_div_mod(start, width);
    let k = start / width;
    assert(start == k * width) by (nonlinear_arith)
        requires
            start == width * k + 0,
    ;
    lemma_fundamental_div_mod_converse(n, width, k, n - start);
}

/// Whole blocks of `size` elements are made of whole chunks of `width`
/// elements where `width` divides `size`, so the blocks keep no more than
/// the chunks do.
pub proof fn lemma_kept_multiple(n: int, size: int, width: int)
    requires
        0 <= n,
        0 < width,
        0 < size,
        size % width == 0,
    ensures
        kept(n, size) <= kept(n, width),
{
    lemma_kept_bounds(n, size);
    lemma_fundamental_div_mod(size, width);
    let m = size / width;
    let q = n / size;
    assert(kept(n, size) == (q * m) * width) by (nonlinear_arith)
        requires
            kept(n, size) == q * size,
            size == width * m + 0,
    ;
    assert(q * m <= n / width) by (nonlinear_arith)
        requires
            (q * m) * width <= n,
            0 < width,
    ;
    assert((q * m) * width <= (n / width) * width) by (nonlinear_arith)
        requires
            q * m <= n / width,
            0 < width,
    ;
}

/// The result for pair `j` of block `k` stands at `k * span + j`.
pub proof fn lemma_source_at(k: int, j: int, size: int, span: int)
    requires
        0 <= k,
        0 <= j < span,
    ensures
        source(k * span + j, size, span) == k * size + j,
{
    lemma_fundamental_div_mod_converse(k * span + j, span, k, j);
}

/// With blocks that contribute all their results, every result stands
/// where its pair of points stands.
pub proof fn lemma_source_whole(i: int, size: int)
    requires
        0 < size,
    ensures
        source(i, size, size) == i,
{
    lemma_fundamental_div_mod(i, size);
    assert((i / size) * size == size * (i / size)) by (nonlinear_arith);
}

/// The pair of points whose result stands at `i` lies in a whole block, at
/// `i` or after it.
pub proof fn lemma_source_in_block(n: int, size: int, span: int, i: int)
    requires
        0 <= n,
        0 < size,
        0 <= span <= size,
        0 <= i < (n / size) * span,
    ensures
        0 < span,
        i <= source(i, size, span) < kept(n, size),
{
    assert(0 < span) by (nonlinear_arith)
        requires
            0 <= i < (n / size) * span,
            0 <= span,
    ;
    let k = i / span;
    let j = i % span;
    lemma_fundamental_div_mod(i, span);
    assert(i == k * span + j) by (nonlinear_arith)
        requires
            i == span * k + j,
    ;
    assert(0 <= k < n / size) by (nonlinear_arith)
        requires
            0 <= i < (n / size) * span,
            0 < span,
            k == i / span,
    ;
    lemma_chunk_fits(n, size, k);
    assert(k * span <= k * size) by (nonlinear_arith)
        requires
            0 <= k,
            span <= size,
    ;
}

/// Later results belong to later pairs of points.
pub proof fn lemma_source_grows(size: int, span: int, i: int, j: int)
    requires
        0 < span <= size,
        0 <= i < j,
    ensures
        source(i, size, span) < source(j, size, span),
{
    lemma_fundamental_div_mod(i, span);
    lemma_fundamental_div_mod(j, span);
    let ki = i / span;
    let kj = j / span;
    assert(ki <= kj) by (nonlinear_arith)
        requires
            0 <= i < j,
            0 < span,
            ki == i / span,
            kj == j / span,
    ;
    if ki == kj {
        assert(i % span < j % span);
    } else {
        assert((ki + 1) * size <= kj * size) by (nonlinear_arith)
            requires
                ki + 1 <= kj,
                0 < size,
        ;
        assert((ki + 1) * size == ki * size + size) by (nonlinear_arith);
    }
}

} // verus!
