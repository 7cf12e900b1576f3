//! Advection: every interior cell takes the value found where a backward
//! trace along the velocity lands, blended from the four cells around that
//! point.

use vstd::prelude::*;
use crate::arith::{difference, lawful, minus, plus, product, sum, times, Op};
use crate::bits::{
    clamp, clamped, floor_index, from_index, index_bits, is_nan, lemma_whole_part, not_a_number,
    whole_part, INDEX_END, INNER_SIDE, ONE,
};
use crate::boundary::bounded;
use crate::fluid_cube_mod::fluid_cube;
use crate::grid::{col, interior, is_grid, ix, row, visited, IX, SIZE};

verus! {

/// Where the backward trace from coordinate `n` lands along one axis:
/// `n - rate * v`, clamped. `rate` is the tick length times the interior's
/// side length, `v` the velocity along that axis.
pub open spec fn traced<F: Fn(Op, u64, u64) -> u64>(arith: &F, rate: u64, v: u64, n: int) -> u64 {
    clamped(difference(arith, index_bits(n), product(arith, rate, v)))
}

/// The coordinate of the cell at or before the point `x`. A point that is
/// not a number counts as cell 0.
pub open spec fn lower(x: u64) -> int {
    if is_nan(x) {
        0
    } else {
        whole_part(x)
    }
}

/// The coordinate of the cell after the point `x`. A point that is not a
/// number counts as cell 0.
pub open spec fn upper(x: u64) -> int {
    if is_nan(x) {
        0
    } else {
        whole_part(x) + 1
    }
}

/// The point `x` rounded down, as a number.
pub open spec fn lower_bits(x: u64) -> u64 {
    if is_nan(x) {
        x
    } else {
        index_bits(whole_part(x))
    }
}

/// Both cells around the point `x` lie on the grid.
pub open spec fn reachable(x: u64) -> bool {
    0 <= lower(x) && upper(x) < SIZE
}

/// The value at the point `(x, y)` of the grid `d0`, blended from the four
/// cells around it: with `s1 = x - floor(x)`, `s0 = 1 - s1` and `t1`, `t0`
/// alike for `y`,
/// `s0 * (t0 * d0[i0,j0] + t1 * d0[i0,j1]) + s1 * (t0 * d0[i1,j0] + t1 * d0[i1,j1])`.
pub open spec fn blended<F: Fn(Op, u64, u64) -> u64>(
    arith: &F,
    d0: Seq<u64>,
    x: u64,
    y: u64,
) -> u64 {
    let s1 = difference(arith, x, lower_bits(x));
    let s0 = difference(arith, ONE, s1);
    let t1 = difference(arith, y, lower_bits(y));
    let t0 = difference(arith, ONE, t1);
    let left = sum(
        arith,
        product(arith, t0, d0[ix(lower(x), lower(y))]),
        product(arith, t1, d0[ix(lower(x), upper(y))]),
    );
    let right = sum(
        arith,
        product(arith, t0, d0[ix(upper(x), lower(y))]),
        product(arith, t1, d0[ix(upper(x), upper(y))]),
    );
    sum(arith, product(arith, s0, left), product(arith, s1, right))
}

/// The backward trace from the interior cell in column `i` and row `j`
/// stays on the grid along both axes.
#[verifier::opaque]
pub open spec fn traceable_cell<F: Fn(Op, u64, u64) -> u64>(
    arith: &F,
    vx: Seq<u64>,
    vy: Seq<u64>,
    dt: u64,
    i: int,
    j: int,
) -> bool {
    let rate = product(arith, dt, INNER_SIDE);
    reachable(traced(arith, rate, vx[ix(i, j)], i)) && reachable(
        traced(arith, rate, vy[ix(i, j)], j),
    )
}

/// The backward trace from every interior cell stays on the grid.
pub open spec fn traceable<F: Fn(Op, u64, u64) -> u64>(
    arith: &F,
    vx: Seq<u64>,
    vy: Seq<u64>,
    dt: u64,
) -> bool {
    forall|i: int, j: int|
        interior(i, j) ==> #[trigger] traceable_cell(arith, vx, vy, dt, i, j)
}

/// The value that advection gives the interior cell in column `i` and row
/// `j`.
#[verifier::opaque]
pub open spec fn advected_cell<F: Fn(Op, u64, u64) -> u64>(
    arith: &F,
    d0: Seq<u64>,
    vx: Seq<u64>,
    vy: Seq<u64>,
    dt: u64,
    i: int,
    j: int,
) -> u64 {
    let rate = product(arith, dt, INNER_SIDE);
    blended(arith, d0, traced(arith, rate, vx[ix(i, j)], i), traced(arith, rate, vy[ix(i, j)], j))
}

/// `d` with the advected value in every interior cell visited before
/// column `i` of row `j`.
pub open spec fn advected_upto<F: Fn(Op, u64, u64) -> u64>(
    arith: &F,
    d: Seq<u64>,
    d0: Seq<u64>,
    vx: Seq<u64>,
    vy: Seq<u64>,
    dt: u64,
    i: int,
    j: int,
) -> Seq<u64> {
    Seq::new(
        d.len(),
        |k: int|
            if visited(k, i, j) {
                advected_cell(arith, d0, vx, vy, dt, col(k), row(k))
            } else {
                d[k]
            },
    )
}

/// `d` with the advected value in every interior cell.
pub open spec fn carried<F: Fn(Op, u64, u64) -> u64>(
    arith: &F,
    d: Seq<u64>,
    d0: Seq<u64>,
    vx: Seq<u64>,
    vy: Seq<u64>,
    dt: u64,
) -> Seq<u64> {
    Seq::new(
        d.len(),
        |k: int|
            if interior(col(k), row(k)) {
                advected_cell(arith, d0, vx, vy, dt, col(k), row(k))
            } else {
                d[k]
            },
    )
}

/// The grid `d` after `d0` has been carried into it along the velocity
/// `(vx, vy)` over a tick of length `dt`, with its outer ring set for
/// boundary kind `b`.
pub open spec fn advected<F: Fn(Op, u64, u64) -> u64>(
    arith: &F,
    b: usize,
    d: Seq<u64>,
    d0: Seq<u64>,
    vx: Seq<u64>,
    vy: Seq<u64>,
    dt: u64,
) -> Seq<u64> {
    bounded(arith, b, carried(arith, d, d0, vx, vy, dt))
}

/// Traces back from coordinate `n` along one axis.
fn trace<F: Fn(Op, u64, u64) -> u64>(arith: &F, rate: u64, v: u64, n: usize) -> (x: u64)
    requires
        lawful(arith),
        n < SIZE,
    ensures
        x == traced(arith, rate, v, n as int),
{
    let moved: u64 = times(arith, rate, v);
    let raw: u64 = minus(arith, from_index(n), moved);
    clamp(raw)
}

/// Tells whether both cells around the point `x` lie on the grid.
fn reaches(x: u64) -> (r: bool)
    ensures
        r == reachable(x),
{
    proof {
        lemma_whole_part(x, 0);
    }
    if not_a_number(x) {
        true
    } else if x >= INDEX_END {
        false
    } else {
        floor_index(x) + 1 < SIZE
    }
}

/// Blends the value at the point `(x, y)`.
fn blend<F: Fn(Op, u64, u64) -> u64>(arith: &F, d0: &Vec<u64>, x: u64, y: u64) -> (r: u64)
    requires
        lawful(arith),
        is_grid(d0@),
        reachable(x),
        reachable(y),
    ensures
        r == blended(arith, d0@, x, y),
{
    proof {
        lemma_whole_part(x, 0);
        lemma_whole_part(y, 0);
    }
    let wild_x: bool = not_a_number(x);
    let wild_y: bool = not_a_number(y);
    let i0: usize = if wild_x {
        0
    } else {
        floor_index(x)
    };
    let i1: usize = if wild_x {
        0
    } else {
        i0 + 1
    };
    let j0: usize = if wild_y {
        0
    } else {
        floor_index(y)
    };
    let j1: usize = if wild_y {
        0
    } else {
        j0 + 1
    };
    let x_floor: u64 = if wild_x {
        x
    } else {
        from_index(i0)
    };
    let y_floor: u64 = if wild_y {
        y
    } else {
        from_index(j0)
    };
    let s1: u64 = minus(arith, x, x_floor);
    let s0: u64 = minus(arith, ONE, s1);
    let t1: u64 = minus(arith, y, y_floor);
    let t0: u64 = minus(arith, ONE, t1);
    let left_low: u64 = times(arith, t0, d0[IX(i0, j0)]);
    let left_high: u64 = times(arith, t1, d0[IX(i0, j1)]);
    let left: u64 = plus(arith, left_low, left_high);
    let right_low: u64 = times(arith, t0, d0[IX(i1, j0)]);
    let right_high: u64 = times(arith, t1, d0[IX(i1, j1)]);
    let right: u64 = plus(arith, right_low, right_high);
    let from_left: u64 = times(arith, s0, left);
    let from_right: u64 = times(arith, s1, right);
    plus(arith, from_left, from_right)
}

/// Computes the value that advection gives one interior cell.
fn carry<F: Fn(Op, u64, u64) -> u64>(
    arith: &F,
    d0: &Vec<u64>,
    vel_x: &Vec<u64>,
    vel_y: &Vec<u64>,
    dt: u64,
    rate: u64,
    i: usize,
    j: usize,
) -> (r: u64)
    requires
        lawful(arith),
        is_grid(d0@),
        is_grid(vel_x@),
        is_grid(vel_y@),
        rate == product(arith, dt, INNER_SIDE),
        interior(i as int, j as int),
        traceable_cell(arith, vel_x@, vel_y@, dt, i as int, j as int),
    ensures
        r == advected_cell(arith, d0@, vel_x@, vel_y@, dt, i as int, j as int),
{
    proof {
        reveal(traceable_cell);
        reveal(advected_cell);
    }
    let x: u64 = trace(arith, rate, vel_x[IX(i, j)], i);
    let y: u64 = trace(arith, rate, vel_y[IX(i, j)], j);
    blend(arith, d0, x, y)
}

impl fluid_cube {
    /// Tells whether a tick of length `dt` can carry a field along the
    /// velocity `(vel_x, vel_y)`: whether the backward trace from every
    /// interior cell lands between cells of the grid.
    pub fn can_advect<F: Fn(Op, u64, u64) -> u64>(
        vel_x: &Vec<u64>,
        vel_y: &Vec<u64>,
        dt: u64,
        arith: &F,
    ) -> (r: bool)
        requires
            lawful(arith),
            is_grid(vel_x@),
            is_grid(vel_y@),
        ensures
            r == traceable(arith, vel_x@, vel_y@, dt),
    {
        let rate: u64 = times(arith, dt, INNER_SIDE);
        let mut j: usize = 1;
        while j < SIZE - 1
            invariant
                1 <= j <= SIZE - 1,
                lawful(arith),
                is_grid(vel_x@),
                is_grid(vel_y@),
                rate == product(arith, dt, INNER_SIDE),
                forall|a: int, c: int|
                    interior(a, c) && c < j ==> #[trigger] traceable_cell(
                        arith,
                        vel_x@,
                        vel_y@,
                        dt,
                        a,
                        c,
                    ),
            decreases SIZE - 1 - j,
        {
            let mut i: usize = 1;
            while i < SIZE - 1
                invariant
                    1 <= i <= SIZE - 1,
                    1 <= j <= SIZE - 2,
                    lawful(arith),
                    is_grid(vel_x@),
                    is_grid(vel_y@),
                    rate == product(arith, dt, INNER_SIDE),
                    forall|a: int, c: int|
                        interior(a, c) && (c < j || (c == j && a < i))
                            ==> #[trigger] traceable_cell(arith, vel_x@, vel_y@, dt, a, c),
                decreases SIZE - 1 - i,
            {
                let x: u64 = trace(arith, rate, vel_x[IX(i, j)], i);
                let y: u64 = trace(arith, rate, vel_y[IX(i, j)], j);
                proof {
                    reveal(traceable_cell);
                }
                if !reaches(x) || !reaches(y) {
                    assert(!traceable_cell(arith, vel_x@, vel_y@, dt, i as int, j as int));
                    return false;
                }
                assert(traceable_cell(arith, vel_x@, vel_y@, dt, i as int, j as int));
                i += 1;
            }
            j += 1;
        }
        true
    }

    /// Carries `d0` into `d` along the velocity `(vel_x, vel_y)` over a
    /// tick of length `dt`, then sets the outer ring of `d` for boundary
    /// kind `b`.
    ///
    /// For the interior cell in column `i` and row `j` the point
    /// `(i - dt * (SIZE - 2) * vel_x[i,j], j - dt * (SIZE - 2) * vel_y[i,j])`
    /// is clamped along both axes, and the cell takes the value of `d0`
    /// there, blended from the four cells around the point. The coordinate
    /// of a cell enters as the whole number it is, whatever was computed
    /// for the cells before it.
    pub fn advert<F: Fn(Op, u64, u64) -> u64>(
        b: usize,
        d: &mut Vec<u64>,
        d0: &Vec<u64>,
        vel_x: &Vec<u64>,
        vel_y: &Vec<u64>,
        dt: u64,
        arith: &F,
    )
        requires
            lawful(arith),
            is_grid(old(d)@),
            is_grid(d0@),
            is_grid(vel_x@),
            is_grid(vel_y@),
            traceable(arith, vel_x@, vel_y@, dt),
        ensures
            final(d)@ == advected(arith, b, old(d)@, d0@, vel_x@, vel_y@, dt),
            is_grid(final(d)@),
    {
        let ghost start = d@;
        let rate: u64 = times(arith, dt, INNER_SIDE);
        let mut j: usize = 1;
        while j < SIZE - 1
            invariant
                1 <= j <= SIZE - 1,
                lawful(arith),
                is_grid(start),
                is_grid(d0@),
                is_grid(vel_x@),
                is_grid(vel_y@),
                traceable(arith, vel_x@, vel_y@, dt),
                rate == product(arith, dt, INNER_SIDE),
                d@ == advected_upto(arith, start, d0@, vel_x@, vel_y@, dt, 1, j as int),
            decreases SIZE - 1 - j,
        {
            let mut i: usize = 1;
            while i < SIZE - 1
                invariant
                    1 <= i <= SIZE - 1,
                    1 <= j <= SIZE - 2,
                    lawful(arith),
                    is_grid(start),
                    is_grid(d0@),
                    is_grid(vel_x@),
                    is_grid(vel_y@),
                    traceable(arith, vel_x@, vel_y@, dt),
                    rate == product(arith, dt, INNER_SIDE),
                    d@ == advected_upto(
                        arith,
                        start,
                        d0@,
                        vel_x@,
                        vel_y@,
                        dt,
                        i as int,
                        j as int,
                    ),
                decreases SIZE - 1 - i,
            {
                let v: u64 = carry(arith, d0, vel_x, vel_y, dt, rate, i, j);
                d[IX(i, j)] = v;
                i += 1;
                assert(d@ =~= advected_upto(
                    arith,
                    start,
                    d0@,
                    vel_x@,
                    vel_y@,
                    dt,
                    i as int,
                    j as int,
                ));
            }
            j += 1;
            assert(d@ =~= advected_upto(arith, start, d0@, vel_x@, vel_y@, dt, 1, j as int));
        }
        assert(d@ =~= carried(arith, start, d0@, vel_x@, vel_y@, dt));
        Self::set_bnd(b, d, arith);
    }
}

} // verus!
