//! Row-major index arithmetic shared by the grid and the framebuffer:
//! the entry at `(x, y)` of a `width`-column surface lives at index
//! `y * width + x` of its flat buffer.

use vstd::prelude::*;

verus! {

/// In a `width`-column row-major layout, an in-bounds coordinate maps to an
/// index below `width * height`.
pub(crate) proof fn lemma_row_major_index(width: int, height: int, x: int, y: int)
    requires
        0 <= x < width,
        0 <= y < height,
    ensures
        0 <= y * width + x < width * height,
{
    assert(0 <= y * width + x < width * height) by (nonlinear_arith)
        requires
            0 <= x < width,
            0 <= y < height,
    ;
}

/// Distinct in-bounds coordinates map to distinct row-major indices.
pub(crate) proof fn lemma_row_major_distinct(width: int, x1: int, y1: int, x2: int, y2: int)
    requires
        0 <= x1 < width,
        0 <= x2 < width,
        !(x1 == x2 && y1 == y2),
    ensures
        y1 * width + x1 != y2 * width + x2,
{
    assert(y1 * width + x1 != y2 * width + x2) by (nonlinear_arith)
        requires
            0 <= x1 < width,
            0 <= x2 < width,
            !(x1 == x2 && y1 == y2),
    ;
}

/// For a row-major index built from an in-bounds coordinate, division and
/// remainder by the width recover the coordinate.
pub(crate) proof fn lemma_row_major_round_trip(width: int, x: int, y: int)
    requires
        0 <= x < width,
        0 <= y,
    ensures
        (y * width + x) % width == x,
        (y * width + x) / width == y,
{
    assert((y * width + x) % width == x && (y * width + x) / width == y) by (nonlinear_arith)
        requires
            0 <= x < width,
            0 <= y,
    ;
}

/// A nonnegative value splits into `d` times its quotient plus its
/// remainder, and the remainder lies below `d`.
pub(crate) proof fn lemma_div_mod_decompose(v: int, d: int)
    requires
        d >= 1,
        v >= 0,
    ensures
        v == (v / d) * d + (v % d),
        0 <= v % d < d,
        v / d >= 0,
{
    assert(v == (v / d) * d + (v % d) && 0 <= v % d < d && v / d >= 0) by (nonlinear_arith)
        requires
            d >= 1,
            v >= 0,
    ;
}

} // verus!
