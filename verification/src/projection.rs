//! Pressure projection: the divergence of the velocity is measured, a
//! pressure is solved from it, and the pressure's slope is taken out of the
//! velocity.

use vstd::prelude::*;
use crate::arith::{difference, lawful, minus, over, plus, product, quotient, sum, times, Op};
use crate::bits::{HALF, MINUS_HALF, ONE, SIDE, SIX, ZERO};
use crate::boundary::{bounded, NONE, X_VELOCITY, Y_VELOCITY};
use crate::fluid_cube_mod::fluid_cube;
use crate::grid::{col, interior, is_grid, ix, row, visited, IX, SIZE};
use crate::solver::solved;

verus! {

/// The divergence of the velocity at an interior cell: minus one half times
/// `((vx[i+1,j] - vx[i-1,j]) + vy[i,j+1]) - vy[i,j-1]`, over the side
/// length.
pub open spec fn divergence_cell<F: Fn(Op, u64, u64) -> u64>(
    arith: &F,
    vx: Seq<u64>,
    vy: Seq<u64>,
    i: int,
    j: int,
) -> u64 {
    let across = difference(arith, vx[ix(i + 1, j)], vx[ix(i - 1, j)]);
    let total = difference(arith, sum(arith, across, vy[ix(i, j + 1)]), vy[ix(i, j - 1)]);
    quotient(arith, product(arith, MINUS_HALF, total), SIDE)
}

/// `div` with the divergence written into every interior cell visited
/// before column `i` of row `j`.
pub open spec fn divergence_upto<F: Fn(Op, u64, u64) -> u64>(
    arith: &F,
    vx: Seq<u64>,
    vy: Seq<u64>,
    div: Seq<u64>,
    i: int,
    j: int,
) -> Seq<u64> {
    Seq::new(
        div.len(),
        |k: int|
            if visited(k, i, j) {
                divergence_cell(arith, vx, vy, col(k), row(k))
            } else {
                div[k]
            },
    )
}

/// `div` with the divergence written into its interior and its outer ring
/// set from that.
pub open spec fn divergence<F: Fn(Op, u64, u64) -> u64>(
    arith: &F,
    vx: Seq<u64>,
    vy: Seq<u64>,
    div: Seq<u64>,
) -> Seq<u64> {
    bounded(
        arith,
        NONE,
        Seq::new(
            div.len(),
            |k: int|
                if interior(col(k), row(k)) {
                    divergence_cell(arith, vx, vy, col(k), row(k))
                } else {
                    div[k]
                },
        ),
    )
}

/// `p` with zero in every interior cell visited before column `i` of row
/// `j`.
pub open spec fn cleared_upto(p: Seq<u64>, i: int, j: int) -> Seq<u64> {
    Seq::new(
        p.len(),
        |k: int|
            if visited(k, i, j) {
                ZERO
            } else {
                p[k]
            },
    )
}

/// The pressure: `p` with its interior zeroed and its outer ring set from
/// that, then solved against the divergence with coefficients one and six.
pub open spec fn pressure<F: Fn(Op, u64, u64) -> u64>(
    arith: &F,
    vx: Seq<u64>,
    vy: Seq<u64>,
    p: Seq<u64>,
    div: Seq<u64>,
    iter: nat,
) -> Seq<u64> {
    let blank = Seq::new(
        p.len(),
        |k: int|
            if interior(col(k), row(k)) {
                ZERO
            } else {
                p[k]
            },
    );
    solved(arith, NONE, bounded(arith, NONE, blank), divergence(arith, vx, vy, div), ONE, SIX, iter)
}

/// The horizontal velocity of an interior cell with the pressure's slope
/// taken out: first `one half * (p[i+1,j] - p[i-1,j]) * side` is
/// subtracted, then `one half * (p[i,j+1] - p[i,j-1]) * side`.
pub open spec fn corrected_cell<F: Fn(Op, u64, u64) -> u64>(
    arith: &F,
    vx: Seq<u64>,
    p: Seq<u64>,
    i: int,
    j: int,
) -> u64 {
    let across = product(
        arith,
        product(arith, HALF, difference(arith, p[ix(i + 1, j)], p[ix(i - 1, j)])),
        SIDE,
    );
    let along = product(
        arith,
        product(arith, HALF, difference(arith, p[ix(i, j + 1)], p[ix(i, j - 1)])),
        SIDE,
    );
    difference(arith, difference(arith, vx[ix(i, j)], across), along)
}

/// `vx` with the pressure's slope taken out of every interior cell visited
/// before column `i` of row `j`.
pub open spec fn corrected_upto<F: Fn(Op, u64, u64) -> u64>(
    arith: &F,
    vx: Seq<u64>,
    p: Seq<u64>,
    i: int,
    j: int,
) -> Seq<u64> {
    Seq::new(
        vx.len(),
        |k: int|
            if visited(k, i, j) {
                corrected_cell(arith, vx, p, col(k), row(k))
            } else {
                vx[k]
            },
    )
}

/// The horizontal velocity after projection: the pressure's slope taken out
/// of the interior, then the outer ring set.
pub open spec fn projected_x<F: Fn(Op, u64, u64) -> u64>(
    arith: &F,
    vx: Seq<u64>,
    vy: Seq<u64>,
    p: Seq<u64>,
    div: Seq<u64>,
    iter: nat,
) -> Seq<u64> {
    let solved_p = pressure(arith, vx, vy, p, div, iter);
    bounded(
        arith,
        X_VELOCITY,
        Seq::new(
            vx.len(),
            |k: int|
                if interior(col(k), row(k)) {
                    corrected_cell(arith, vx, solved_p, col(k), row(k))
                } else {
                    vx[k]
                },
        ),
    )
}

/// The vertical velocity after projection: only its outer ring is set.
pub open spec fn projected_y<F: Fn(Op, u64, u64) -> u64>(arith: &F, vy: Seq<u64>) -> Seq<u64> {
    bounded(arith, Y_VELOCITY, vy)
}

/// Measures the divergence at one interior cell.
fn divergence_at<F: Fn(Op, u64, u64) -> u64>(
    arith: &F,
    vx: &Vec<u64>,
    vy: &Vec<u64>,
    i: usize,
    j: usize,
) -> (r: u64)
    requires
        lawful(arith),
        is_grid(vx@),
        is_grid(vy@),
        interior(i as int, j as int),
    ensures
        r == divergence_cell(arith, vx@, vy@, i as int, j as int),
{
    let across: u64 = minus(arith, vx[IX(i + 1, j)], vx[IX(i - 1, j)]);
    let both: u64 = plus(arith, across, vy[IX(i, j + 1)]);
    let total: u64 = minus(arith, both, vy[IX(i, j - 1)]);
    let halved: u64 = times(arith, MINUS_HALF, total);
    over(arith, halved, SIDE)
}

/// Takes the pressure's slope out of one interior cell.
fn correct_at<F: Fn(Op, u64, u64) -> u64>(
    arith: &F,
    vx: &Vec<u64>,
    p: &Vec<u64>,
    i: usize,
    j: usize,
) -> (r: u64)
    requires
        lawful(arith),
        is_grid(vx@),
        is_grid(p@),
        interior(i as int, j as int),
    ensures
        r == corrected_cell(arith, vx@, p@, i as int, j as int),
{
    let dx: u64 = minus(arith, p[IX(i + 1, j)], p[IX(i - 1, j)]);
    let half_dx: u64 = times(arith, HALF, dx);
    let across: u64 = times(arith, half_dx, SIDE);
    let dy: u64 = minus(arith, p[IX(i, j + 1)], p[IX(i, j - 1)]);
    let half_dy: u64 = times(arith, HALF, dy);
    let along: u64 = times(arith, half_dy, SIDE);
    let first: u64 = minus(arith, vx[IX(i, j)], across);
    minus(arith, first, along)
}

impl fluid_cube {
    /// Projects the velocity `(vel_x, vel_y)`, with `p` and `div` as
    /// scratch grids for the pressure and the divergence.
    ///
    /// The divergence is written into the interior of `div` and the
    /// interior of `p` is zeroed; both get their outer ring set, and `p` is
    /// solved against `div` by `iter` sweeps. Both components of the
    /// pressure's slope are then taken out of `vel_x`; `vel_y` keeps its
    /// interior. At last the outer rings of both velocities are set, each
    /// for its own boundary kind.
    pub fn project<F: Fn(Op, u64, u64) -> u64>(
        vel_x: &mut Vec<u64>,
        vel_y: &mut Vec<u64>,
        p: &mut Vec<u64>,
        div: &mut Vec<u64>,
        iter: usize,
        arith: &F,
    )
        requires
            lawful(arith),
            is_grid(old(vel_x)@),
            is_grid(old(vel_y)@),
            is_grid(old(p)@),
            is_grid(old(div)@),
        ensures
            final(div)@ == divergence(arith, old(vel_x)@, old(vel_y)@, old(div)@),
            final(p)@ == pressure(
                arith,
                old(vel_x)@,
                old(vel_y)@,
                old(p)@,
                old(div)@,
                iter as nat,
            ),
            final(vel_x)@ == projected_x(
                arith,
                old(vel_x)@,
                old(vel_y)@,
                old(p)@,
                old(div)@,
                iter as nat,
            ),
            final(vel_y)@ == projected_y(arith, old(vel_y)@),
            is_grid(final(vel_x)@),
            is_grid(final(vel_y)@),
            is_grid(final(p)@),
            is_grid(final(div)@),
    {
        let ghost vx_start = vel_x@;
        let ghost vy_start = vel_y@;
        let ghost p_start = p@;
        let ghost div_start = div@;
        let mut j: usize = 1;
        while j < SIZE - 1
            invariant
                1 <= j <= SIZE - 1,
                lawful(arith),
                vel_x@ == vx_start,
                vel_y@ == vy_start,
                is_grid(vx_start),
                is_grid(vy_start),
                is_grid(p_start),
                is_grid(div_start),
                div@ == divergence_upto(arith, vx_start, vy_start, div_start, 1, j as int),
                p@ == cleared_upto(p_start, 1, j as int),
            decreases SIZE - 1 - j,
        {
            let mut i: usize = 1;
            while i < SIZE - 1
                invariant
                    1 <= i <= SIZE - 1,
                    1 <= j <= SIZE - 2,
                    lawful(arith),
                    vel_x@ == vx_start,
                    vel_y@ == vy_start,
                    is_grid(vx_start),
                    is_grid(vy_start),
                    is_grid(p_start),
                    is_grid(div_start),
                    div@ == divergence_upto(arith, vx_start, vy_start, div_start, i as int, j as int),
                    p@ == cleared_upto(p_start, i as int, j as int),
                decreases SIZE - 1 - i,
            {
                let d: u64 = divergence_at(arith, vel_x, vel_y, i, j);
                div[IX(i, j)] = d;
                p[IX(i, j)] = ZERO;
                i += 1;
                assert(div@ =~= divergence_upto(arith, vx_start, vy_start, div_start, i as int, j as int));
                assert(p@ =~= cleared_upto(p_start, i as int, j as int));
            }
            j += 1;
            assert(div@ =~= divergence_upto(arith, vx_start, vy_start, div_start, 1, j as int));
            assert(p@ =~= cleared_upto(p_start, 1, j as int));
        }
        assert(div@ =~= Seq::new(
            div_start.len(),
            |k: int|
                if interior(col(k), row(k)) {
                    divergence_cell(arith, vx_start, vy_start, col(k), row(k))
                } else {
                    div_start[k]
                },
        ));
        assert(p@ =~= Seq::new(
            p_start.len(),
            |k: int|
                if interior(col(k), row(k)) {
                    ZERO
                } else {
                    p_start[k]
                },
        ));
        Self::set_bnd(NONE, div, arith);
        Self::set_bnd(NONE, p, arith);
        Self::lin_solve(NONE, p, div, ONE, SIX, iter, arith);
        let mut j: usize = 1;
        while j < SIZE - 1
            invariant
                1 <= j <= SIZE - 1,
                lawful(arith),
                is_grid(vx_start),
                is_grid(p@),
                vel_x@ == corrected_upto(arith, vx_start, p@, 1, j as int),
            decreases SIZE - 1 - j,
        {
            let mut i: usize = 1;
            while i < SIZE - 1
                invariant
                    1 <= i <= SIZE - 1,
                    1 <= j <= SIZE - 2,
                    lawful(arith),
                    is_grid(vx_start),
                    is_grid(p@),
                    vel_x@ == corrected_upto(arith, vx_start, p@, i as int, j as int),
                decreases SIZE - 1 - i,
            {
                let v: u64 = correct_at(arith, vel_x, p, i, j);
                assert(v == corrected_cell(arith, vx_start, p@, i as int, j as int));
                vel_x[IX(i, j)] = v;
                i += 1;
                assert(vel_x@ =~= corrected_upto(arith, vx_start, p@, i as int, j as int));
            }
            j += 1;
            assert(vel_x@ =~= corrected_upto(arith, vx_start, p@, 1, j as int));
        }
        assert(vel_x@ =~= Seq::new(
            vx_start.len(),
            |k: int|
                if interior(col(k), row(k)) {
                    corrected_cell(arith, vx_start, p@, col(k), row(k))
                } else {
                    vx_start[k]
                },
        ));
        Self::set_bnd(X_VELOCITY, vel_x, arith);
        Self::set_bnd(Y_VELOCITY, vel_y, arith);
    }
}

} // verus!
