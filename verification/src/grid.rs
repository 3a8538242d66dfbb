//! Index arithmetic of row-major pixel grids.
use vstd::prelude::*;

verus! {

/// A pixel index `y * w + x` of a `w`-wide grid lies below `w * h` when the
/// coordinates lie inside a `w` × `h` grid.
pub proof fn lemma_cell_in_grid(w: int, h: int, x: int, y: int)
    requires
        0 <= x < w,
        0 <= y < h,
    ensures
        0 <= y * w + x < w * h,
        y * w + x + 1 <= w * h,
{
    assert(0 <= y * w) by (nonlinear_arith)
        requires
            0 <= y,
            0 <= w,
    ;
    assert(y * w + x < w * h) by (nonlinear_arith)
        requires
            0 <= x < w,
            0 <= y < h,
    ;
}

/// Every index below `w * h` is the cell of exactly one pair of coordinates.
pub proof fn lemma_cell_split(w: int, h: int, q: int)
    requires
        0 < w,
        0 <= h,
        0 <= q < w * h,
    ensures
        0 <= q % w < w,
        0 <= q / w < h,
        q == (q / w) * w + q % w,
{
    vstd::arithmetic::div_mod::lemma_fundamental_div_mod(q, w);
    vstd::arithmetic::div_mod::lemma_mod_pos_bound(q, w);
    let y = q / w;
    let x = q % w;
    assert(q == w * y + x);
    assert(0 <= y < h) by (nonlinear_arith)
        requires
            q == w * y + x,
            0 <= x < w,
            0 <= q < w * h,
    ;
    assert(w * y == y * w) by (nonlinear_arith);
}

/// Two cells of the same grid coincide only when their coordinates do.
pub proof fn lemma_cell_unique(w: int, x1: int, y1: int, x2: int, y2: int)
    requires
        0 <= x1 < w,
        0 <= x2 < w,
        0 <= y1,
        0 <= y2,
        y1 * w + x1 == y2 * w + x2,
    ensures
        x1 == x2,
        y1 == y2,
{
    assert(y1 == y2) by (nonlinear_arith)
        requires
            0 <= x1 < w,
            0 <= x2 < w,
            0 <= y1,
            0 <= y2,
            y1 * w + x1 == y2 * w + x2,
    ;
}

/// A grid of `w` × `h` cells of four bytes each fits the machine's `usize`
/// when `w * h * 4` does; then so do all smaller products.
pub proof fn lemma_grid_size(w: int, h: int)
    requires
        0 <= w,
        0 <= h,
    ensures
        w * h >= 0,
        w * h * 4 == 4 * (w * h),
        w * h == h * w,
{
    assert(w * h >= 0) by (nonlinear_arith)
        requires
            0 <= w,
            0 <= h,
    ;
    assert(w * h == h * w) by (nonlinear_arith);
}

/// The coordinates of cell `y * w + x` are recovered by division and remainder.
pub proof fn lemma_cell_coords(w: int, x: int, y: int)
    requires
        0 <= x < w,
        0 <= y,
    ensures
        (y * w + x) % w == x,
        (y * w + x) / w == y,
{
    vstd::arithmetic::div_mod::lemma_fundamental_div_mod_converse(y * w + x, w, y, x);
}

} // verus!
