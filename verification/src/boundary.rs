//! The outer ring of a grid: edges mirror the cells next to them, corners
//! blend their two neighbours with their own former value.

use vstd::prelude::*;
use crate::arith::{lawful, plus, product, sum, times, Op};
use crate::bits::{negate, negated, CORNER_WEIGHT};
use crate::fluid_cube_mod::fluid_cube;
use crate::grid::{col, is_grid, ix, row, CELLS, IX, SIZE};

verus! {

/// Boundary kind of a field that is mirrored unchanged on every edge.
pub const NONE: usize = 0;

/// Boundary kind of the horizontal velocity: its sign flips on the left and
/// right edges.
pub const X_VELOCITY: usize = 1;

/// Boundary kind of the vertical velocity: its sign flips on the top and
/// bottom edges.
pub const Y_VELOCITY: usize = 2;

/// `v`, with the opposite sign if `flip` holds.
pub open spec fn flipped_if(flip: bool, v: u64) -> u64 {
    if flip {
        negated(v)
    } else {
        v
    }
}

/// The value of cell `k` once the edges have been mirrored: an edge cell
/// that is no corner takes the value of the interior cell next to it, with
/// the opposite sign where the boundary kind `b` asks for it, and every
/// other cell keeps its own.
pub open spec fn mirrored_cell(b: usize, x: Seq<u64>, k: int) -> u64 {
    let cx = col(k);
    let cy = row(k);
    if 1 <= cx <= SIZE - 2 && cy == 0 {
        flipped_if(b == Y_VELOCITY, x[ix(cx, 1)])
    } else if 1 <= cx <= SIZE - 2 && cy == SIZE - 1 {
        flipped_if(b == Y_VELOCITY, x[ix(cx, SIZE - 2)])
    } else if cx == 0 && 1 <= cy <= SIZE - 2 {
        flipped_if(b == X_VELOCITY, x[ix(1, cy)])
    } else if cx == SIZE - 1 && 1 <= cy <= SIZE - 2 {
        flipped_if(b == X_VELOCITY, x[ix(SIZE - 2, cy)])
    } else {
        x[k]
    }
}

/// The grid with its edges mirrored.
pub open spec fn mirrored(b: usize, x: Seq<u64>) -> Seq<u64> {
    Seq::new(x.len(), |k: int| mirrored_cell(b, x, k))
}

/// The new value of a corner whose neighbours on the two edges hold `e1`
/// and `e2` and which held `c` itself: the corner weight times
/// `(e1 + e2) + c`.
pub open spec fn corner_value<F: Fn(Op, u64, u64) -> u64>(
    arith: &F,
    e1: u64,
    e2: u64,
    c: u64,
) -> u64 {
    product(arith, CORNER_WEIGHT, sum(arith, sum(arith, e1, e2), c))
}

/// The grid after the boundary pass: edges mirrored, then each corner
/// blended from the mirrored edges.
pub open spec fn bounded<F: Fn(Op, u64, u64) -> u64>(arith: &F, b: usize, x: Seq<u64>) -> Seq<u64> {
    let e = mirrored(b, x);
    let last = SIZE - 1;
    e.update(ix(0, 0), corner_value(arith, e[ix(1, 0)], e[ix(0, 1)], e[ix(0, 0)])).update(
        ix(0, last),
        corner_value(arith, e[ix(1, last)], e[ix(0, last - 1)], e[ix(0, last)]),
    ).update(
        ix(last, 0),
        corner_value(arith, e[ix(last - 1, 0)], e[ix(last, 1)], e[ix(last, 0)]),
    ).update(
        ix(last, last),
        corner_value(arith, e[ix(last - 1, last)], e[ix(last, last - 1)], e[ix(last, last)]),
    )
}

/// The boundary pass leaves every interior cell as it is.
pub proof fn lemma_bounded_interior<F: Fn(Op, u64, u64) -> u64>(
    arith: &F,
    b: usize,
    x: Seq<u64>,
    i: int,
    j: int,
)
    requires
        is_grid(x),
        1 <= i <= SIZE - 2,
        1 <= j <= SIZE - 2,
    ensures
        bounded(arith, b, x).len() == x.len(),
        bounded(arith, b, x)[ix(i, j)] == x[ix(i, j)],
{
    let e = mirrored(b, x);
    assert(e[ix(i, j)] == mirrored_cell(b, x, ix(i, j)));
}

/// Blends one corner.
fn corner<F: Fn(Op, u64, u64) -> u64>(arith: &F, e1: u64, e2: u64, c: u64) -> (r: u64)
    requires
        lawful(arith),
    ensures
        r == corner_value(arith, e1, e2, c),
{
    let pair: u64 = plus(arith, e1, e2);
    let all: u64 = plus(arith, pair, c);
    times(arith, CORNER_WEIGHT, all)
}

/// `v`, with the opposite sign if `flip` holds.
fn flip_if(flip: bool, v: u64) -> (r: u64)
    ensures
        r == flipped_if(flip, v),
{
    if flip {
        negate(v)
    } else {
        v
    }
}

impl fluid_cube {
    /// Sets the outer ring of `x` from the cells next to it.
    ///
    /// Every edge cell that is no corner becomes a copy of the interior cell
    /// beside it, with the opposite sign on the left and right edges for
    /// `X_VELOCITY` and on the top and bottom edges for `Y_VELOCITY`. Each
    /// corner then becomes the corner weight times the sum of its two edge
    /// neighbours and its own former value. The interior is left as it is.
    pub fn set_bnd<F: Fn(Op, u64, u64) -> u64>(b: usize, x: &mut Vec<u64>, arith: &F)
        requires
            lawful(arith),
            is_grid(old(x)@),
        ensures
            final(x)@ == bounded(arith, b, old(x)@),
            is_grid(final(x)@),
            forall|i: int, j: int|
                1 <= i <= SIZE - 2 && 1 <= j <= SIZE - 2 ==> #[trigger] final(x)@[ix(i, j)] == old(
                    x,
                )@[ix(i, j)],
            forall|j: int|
                1 <= j <= SIZE - 2 ==> #[trigger] final(x)@[ix(0, j)] == flipped_if(
                    b == X_VELOCITY,
                    final(x)@[ix(1, j)],
                ),
            forall|j: int|
                1 <= j <= SIZE - 2 ==> #[trigger] final(x)@[ix(SIZE - 1, j)] == flipped_if(
                    b == X_VELOCITY,
                    final(x)@[ix(SIZE - 2, j)],
                ),
            forall|i: int|
                1 <= i <= SIZE - 2 ==> #[trigger] final(x)@[ix(i, 0)] == flipped_if(
                    b == Y_VELOCITY,
                    final(x)@[ix(i, 1)],
                ),
            forall|i: int|
                1 <= i <= SIZE - 2 ==> #[trigger] final(x)@[ix(i, SIZE - 1)] == flipped_if(
                    b == Y_VELOCITY,
                    final(x)@[ix(i, SIZE - 2)],
                ),
            final(x)@[ix(0, 0)] == corner_value(
                arith,
                final(x)@[ix(1, 0)],
                final(x)@[ix(0, 1)],
                old(x)@[ix(0, 0)],
            ),
            final(x)@[ix(0, SIZE - 1)] == corner_value(
                arith,
                final(x)@[ix(1, SIZE - 1)],
                final(x)@[ix(0, SIZE - 2)],
                old(x)@[ix(0, SIZE - 1)],
            ),
            final(x)@[ix(SIZE - 1, 0)] == corner_value(
                arith,
                final(x)@[ix(SIZE - 2, 0)],
                final(x)@[ix(SIZE - 1, 1)],
                old(x)@[ix(SIZE - 1, 0)],
            ),
            final(x)@[ix(SIZE - 1, SIZE - 1)] == corner_value(
                arith,
                final(x)@[ix(SIZE - 2, SIZE - 1)],
                final(x)@[ix(SIZE - 1, SIZE - 2)],
                old(x)@[ix(SIZE - 1, SIZE - 1)],
            ),
    {
        let ghost orig = x@;
        let flip_rows: bool = b == Y_VELOCITY;
        let flip_cols: bool = b == X_VELOCITY;
        let last: usize = SIZE - 1;
        let mut i: usize = 1;
        while i < last
            invariant
                last == SIZE - 1,
                flip_rows == (b == Y_VELOCITY),
                1 <= i <= last,
                is_grid(orig),
                is_grid(x@),
                forall|k: int|
                    0 <= k < CELLS ==> #[trigger] x@[k] == if (row(k) == 0 || row(k) == SIZE - 1)
                        && 1 <= col(k) < i {
                        mirrored_cell(b, orig, k)
                    } else {
                        orig[k]
                    },
            decreases last - i,
        {
            let below: u64 = x[IX(i, 1)];
            x[IX(i, 0)] = flip_if(flip_rows, below);
            let above: u64 = x[IX(i, last - 1)];
            x[IX(i, last)] = flip_if(flip_rows, above);
            i += 1;
        }
        let mut j: usize = 1;
        while j < last
            invariant
                last == SIZE - 1,
                flip_cols == (b == X_VELOCITY),
                1 <= j <= last,
                is_grid(orig),
                is_grid(x@),
                forall|k: int|
                    0 <= k < CELLS ==> #[trigger] x@[k] == if (row(k) == 0 || row(k) == SIZE - 1)
                        && 1 <= col(k) <= SIZE - 2 {
                        mirrored_cell(b, orig, k)
                    } else if (col(k) == 0 || col(k) == SIZE - 1) && 1 <= row(k) < j {
                        mirrored_cell(b, orig, k)
                    } else {
                        orig[k]
                    },
            decreases last - j,
        {
            let right: u64 = x[IX(1, j)];
            x[IX(0, j)] = flip_if(flip_cols, right);
            let left: u64 = x[IX(last - 1, j)];
            x[IX(last, j)] = flip_if(flip_cols, left);
            j += 1;
        }
        assert(x@ =~= mirrored(b, orig));
        let c00: u64 = corner(arith, x[IX(1, 0)], x[IX(0, 1)], x[IX(0, 0)]);
        x[IX(0, 0)] = c00;
        let c01: u64 = corner(arith, x[IX(1, last)], x[IX(0, last - 1)], x[IX(0, last)]);
        x[IX(0, last)] = c01;
        let c10: u64 = corner(arith, x[IX(last - 1, 0)], x[IX(last, 1)], x[IX(last, 0)]);
        x[IX(last, 0)] = c10;
        let c11: u64 = corner(
            arith,
            x[IX(last - 1, last)],
            x[IX(last, last - 1)],
            x[IX(last, last)],
        );
        x[IX(last, last)] = c11;
        assert(x@ =~= bounded(arith, b, orig));
    }
}

} // verus!
