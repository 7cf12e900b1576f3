//! Addressing of the square grid.

use vstd::prelude::*;

verus! {

/// Side length of every grid.
pub const SIZE: usize = 100;

/// Number of cells of a grid.
pub const CELLS: usize = 10000;

/// Flat position of the cell in column `x` and row `y`.
pub open spec fn ix(x: int, y: int) -> int {
    x + y * 100
}

/// Column of the cell at flat position `k`.
pub open spec fn col(k: int) -> int {
    k % 100
}

/// Row of the cell at flat position `k`.
pub open spec fn row(k: int) -> int {
    k / 100
}

/// A sequence is a grid when it has one entry per cell.
pub open spec fn is_grid(s: Seq<u64>) -> bool {
    s.len() == CELLS
}

/// The cell lies inside the outer ring.
pub open spec fn interior(x: int, y: int) -> bool {
    1 <= x <= SIZE - 2 && 1 <= y <= SIZE - 2
}

/// Cell `k` is an interior cell that a walk through the interior, row by
/// row and from left to right, reaches before column `i` of row `j`.
pub open spec fn visited(k: int, i: int, j: int) -> bool {
    interior(col(k), row(k)) && (row(k) < j || (row(k) == j && col(k) < i))
}

/// The one addressing function: row-major, rows of `SIZE` cells.
#[allow(non_snake_case)]
pub fn IX(x: usize, y: usize) -> (r: usize)
    requires
        x < SIZE,
        y < SIZE,
    ensures
        r == ix(x as int, y as int),
        r == x + y * SIZE,
        r < CELLS,
        col(r as int) == x,
        row(r as int) == y,
{
    x + y * SIZE
}

/// Addressing is one-to-one on the grid, and every flat position below
/// `CELLS` is the address of its own column and row.
pub proof fn lemma_ix_bijective(x1: int, y1: int, x2: int, y2: int, k: int)
    requires
        0 <= x1 < SIZE,
        0 <= y1 < SIZE,
        0 <= x2 < SIZE,
        0 <= y2 < SIZE,
        0 <= k < CELLS,
    ensures
        ix(x1, y1) == ix(x2, y2) ==> x1 == x2 && y1 == y2,
        0 <= col(k) < SIZE,
        0 <= row(k) < SIZE,
        ix(col(k), row(k)) == k,
{
}

} // verus!
