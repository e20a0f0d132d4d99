//! The vocabulary of the contracts: what chunking keeps, where a result
//! stands, and what it means that an output holds the kernel's results.
use vstd::prelude::*;

verus! {

/// The `i`-th pair of points, as the four coordinates a kernel receives.
pub open spec fn quad<T>(lhs_x: Seq<T>, lhs_y: Seq<T>, rhs_x: Seq<T>, rhs_y: Seq<T>, i: int) -> (
    T,
    T,
    T,
    T,
) {
    (lhs_x[i], lhs_y[i], rhs_x[i], rhs_y[i])
}

/// How many of `n` elements lie in a whole chunk of `chunk` elements; the
/// trailing `n % chunk` elements are left out.
pub open spec fn kept(n: int, chunk: int) -> int {
    (n / chunk) * chunk
}

/// How many of `n` elements are kept when they are cut into blocks of `size`
/// elements and each block again into chunks of `width` elements: of each
/// whole block, its whole chunks.
pub open spec fn kept_nested(n: int, size: int, width: int) -> int {
    (n / size) * kept(size, width)
}

/// Where in the input the pair of points stands whose result is element `i`
/// of the output, when each block of `size` pairs contributes the results
/// for its first `span` pairs: `i / span` is the block, `i % span` the place
/// in the block.
pub open spec fn source(i: int, size: int, span: int) -> int {
    (i / span) * size + i % span
}

/// The `k`-th block of `size` elements of `s`.
pub open spec fn block_of<T>(s: Seq<T>, k: int, size: int) -> Seq<T> {
    s.subrange(k * size, (k + 1) * size)
}

/// `kernel` may be called on each of the first `n` pairs of points.
pub open spec fn accepts<T, F: Fn(T, T, T, T) -> T>(
    kernel: &F,
    lhs_x: Seq<T>,
    lhs_y: Seq<T>,
    rhs_x: Seq<T>,
    rhs_y: Seq<T>,
    n: int,
) -> bool {
    forall|i: int|
        0 <= i < n ==> call_requires(kernel, #[trigger] quad(lhs_x, lhs_y, rhs_x, rhs_y, i))
}

/// Every element of `out` is a result of `kernel` on the pair of points with
/// the same index.
pub open spec fn pairwise<T, F: Fn(T, T, T, T) -> T>(
    kernel: &F,
    lhs_x: Seq<T>,
    lhs_y: Seq<T>,
    rhs_x: Seq<T>,
    rhs_y: Seq<T>,
    out: Seq<T>,
) -> bool {
    forall|i: int|
        0 <= i < out.len() ==> call_ensures(
            kernel,
            quad(lhs_x, lhs_y, rhs_x, rhs_y, i),
            #[trigger] out[i],
        )
}

/// `kernel` may be called on the pair of points at `source(i, size, span)`,
/// for each `i` below `count`.
pub open spec fn accepts_gathered<T, F: Fn(T, T, T, T) -> T>(
    kernel: &F,
    lhs_x: Seq<T>,
    lhs_y: Seq<T>,
    rhs_x: Seq<T>,
    rhs_y: Seq<T>,
    size: int,
    span: int,
    count: int,
) -> bool {
    forall|i: int|
        0 <= i < count ==> call_requires(
            kernel,
            #[trigger] quad(lhs_x, lhs_y, rhs_x, rhs_y, source(i, size, span)),
        )
}

/// Every element `i` of `out` is a result of `kernel` on the pair of points
/// at `source(i, size, span)`.
pub open spec fn gathered<T, F: Fn(T, T, T, T) -> T>(
    kernel: &F,
    lhs_x: Seq<T>,
    lhs_y: Seq<T>,
    rhs_x: Seq<T>,
    rhs_y: Seq<T>,
    size: int,
    span: int,
    out: Seq<T>,
) -> bool {
    forall|i: int|
        0 <= i < out.len() ==> call_ensures(
            kernel,
            quad(lhs_x, lhs_y, rhs_x, rhs_y, source(i, size, span)),
            #[trigger] out[i],
        )
}

} // verus!
