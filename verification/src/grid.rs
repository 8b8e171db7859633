//! Arithmetic facts about row-major cell indices.

use vstd::prelude::*;
use vstd::arithmetic::div_mod::lemma_fundamental_div_mod;
use vstd::arithmetic::div_mod::lemma_fundamental_div_mod_converse;

verus! {

/// Row-major index of the cell in column `x` and row `y` of a grid that is
/// `width` cells wide.
pub open spec fn cell_index(width: int, x: int, y: int) -> int {
    y * width + x
}

/// A cell inside a `width` by `height` grid has an index below
/// `width * height`, and column and row are recovered from the index by
/// remainder and quotient.
pub proof fn lemma_cell_index(width: int, height: int, x: int, y: int)
    requires
        0 <= x < width,
        0 <= y < height,
    ensures
        0 <= cell_index(width, x, y) < width * height,
        cell_index(width, x, y) % width == x,
        cell_index(width, x, y) / width == y,
{
    assert(0 <= y * width + x < width * height) by (nonlinear_arith)
        requires
            0 <= x < width,
            0 <= y < height,
    ;
    lemma_fundamental_div_mod_converse(y * width + x, width, y, x);
}

/// Every index below `width * height` names a cell inside the grid.
pub proof fn lemma_index_cell(width: int, height: int, i: int)
    requires
        0 < width,
        0 <= i < width * height,
    ensures
        0 <= i % width < width,
        0 <= i / width < height,
        cell_index(width, i % width, i / width) == i,
{
    lemma_fundamental_div_mod(i, width);
    let q = i / width;
    let r = i % width;
    assert(0 <= r < width);
    assert(width * q == q * width) by (nonlinear_arith);
    assert(0 <= q < height) by (nonlinear_arith)
        requires
            0 < width,
            0 <= r < width,
            0 <= q * width + r < width * height,
    ;
}

/// The indices of a run of `count` cells that starts in column `x` of row
/// `y` and stays within that row are exactly the cells of row `y` in the
/// columns `x .. x + count`.
pub proof fn lemma_run_cells(width: int, height: int, x: int, y: int, count: int, i: int)
    requires
        0 <= x < width,
        0 <= y < height,
        0 <= count <= width - x,
        0 <= i < width * height,
    ensures
        (cell_index(width, x, y) <= i < cell_index(width, x, y) + count) <==> (i / width == y && x
            <= i % width < x + count),
{
    lemma_index_cell(width, height, i);
    let q = i / width;
    let r = i % width;
    if q < y {
        assert((q + 1) * width <= y * width) by (nonlinear_arith)
            requires
                q < y,
                width > 0,
        ;
        assert((q + 1) * width == q * width + width) by (nonlinear_arith);
    } else if q > y {
        assert((y + 1) * width <= q * width) by (nonlinear_arith)
            requires
                q > y,
                width > 0,
        ;
        assert((y + 1) * width == y * width + width) by (nonlinear_arith);
    }
}

} // verus!
