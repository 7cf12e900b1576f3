//! A cube at rest stays at rest: what the solver keeps of a state in which
//! every cell is zero, under any arithmetic that treats zeros as binary64
//! arithmetic does.

use vstd::prelude::*;
use crate::advection::{
    advected, advected_cell, blended, carried, lower, lower_bits, reachable, traceable,
    traceable_cell, traced, upper,
};
use crate::arith::{difference, product, quotient, sum, Op};
use crate::bits::{
    clamped, index_bits, is_finite, is_nan, is_zero, lemma_clear_sign, lemma_whole_part, negated,
    CORNER_WEIGHT, HALF, INNER_SIDE, MINUS_HALF, ONE, SIDE, SIX, UPPER, ZERO,
};
use crate::boundary::{
    bounded, corner_value, lemma_bounded_interior, mirrored, mirrored_cell, NONE, X_VELOCITY,
    Y_VELOCITY,
};
use crate::fluid_cube_mod::{
    density_spread, replayed, ticked, velocity_carried, velocity_spread, Call, CubeState, SWEEPS,
};
use crate::grid::{col, interior, is_grid, ix, row, SIZE};
use crate::projection::{
    corrected_cell, divergence, divergence_cell, pressure, projected_x, projected_y,
};
use crate::solver::{diffused, relaxed_cell, relaxed_row, relaxed_rows, solved, spread};

verus! {

/// Every cell of the grid is zero, with either sign.
pub open spec fn at_rest(s: Seq<u64>) -> bool {
    is_grid(s) && forall|k: int| 0 <= k < s.len() ==> is_zero(#[trigger] s[k])
}

/// Every grid of the cube is at rest.
pub open spec fn resting(c: CubeState) -> bool {
    &&& at_rest(c.s)
    &&& at_rest(c.density)
    &&& at_rest(c.vx)
    &&& at_rest(c.vy)
    &&& at_rest(c.vx0)
    &&& at_rest(c.vy0)
}

/// The arithmetic treats zeros as binary64 arithmetic does: sums and
/// differences of zeros are zeros, a zero times a finite number is a zero,
/// a zero over a number other than zero is a zero, a zero taken from a
/// finite number other than zero leaves that number, and a finite number
/// taken from itself leaves a zero.
#[verifier::opaque]
pub open spec fn exact_on_zeros<F: Fn(Op, u64, u64) -> u64>(arith: &F) -> bool {
    &&& forall|a: u64, b: u64| is_zero(a) && is_zero(b) ==> is_zero(#[trigger] sum(arith, a, b))
    &&& forall|a: u64, b: u64|
        is_zero(a) && is_zero(b) ==> is_zero(#[trigger] difference(arith, a, b))
    &&& forall|a: u64, b: u64|
        (is_finite(a) && is_zero(b)) || (is_zero(a) && is_finite(b)) ==> is_zero(
            #[trigger] product(arith, a, b),
        )
    &&& forall|a: u64, b: u64|
        is_zero(a) && !is_zero(b) && !is_nan(b) ==> is_zero(#[trigger] quotient(arith, a, b))
    &&& forall|a: u64, b: u64|
        is_finite(a) && !is_zero(a) && is_zero(b) ==> #[trigger] difference(arith, a, b) == a
    &&& forall|a: u64| is_finite(a) ==> is_zero(#[trigger] difference(arith, a, a))
}

/// A zero can be divided by `c` without leaving the zeros: `c` is a number
/// and not zero.
pub open spec fn divides_zero(c: u64) -> bool {
    !is_zero(c) && !is_nan(c)
}

/// The configuration leaves a cube at rest alone: the coefficients that a
/// tick derives from it are finite, and the divisors are numbers other than
/// zero.
pub open spec fn calm<F: Fn(Op, u64, u64) -> u64>(arith: &F, c: CubeState) -> bool {
    let thin = spread(arith, c.visc, c.dt);
    let wide = spread(arith, c.diff, c.dt);
    &&& is_finite(product(arith, c.dt, INNER_SIDE))
    &&& is_finite(thin)
    &&& is_finite(wide)
    &&& divides_zero(sum(arith, ONE, product(arith, SIX, thin)))
    &&& divides_zero(sum(arith, ONE, product(arith, SIX, wide)))
}

/// The patterns of the whole numbers inside the grid lie between those of
/// one and of the interior's side length.
proof fn lemma_index_order(n: int)
    ensures
        index_bits(1) == ONE,
        1 <= n <= SIZE - 2 ==> ONE <= index_bits(n) <= INNER_SIDE,
{
    reveal(index_bits);
}

/// What the bits of zeros, of the solver's constants and of the whole
/// numbers on the grid say of them.
pub proof fn lemma_patterns(z: u64, n: int)
    ensures
        is_zero(ZERO),
        is_zero(z) ==> is_zero(negated(z)) && is_finite(z) && !is_nan(z),
        is_finite(CORNER_WEIGHT),
        is_finite(HALF),
        is_finite(MINUS_HALF),
        is_finite(ONE),
        is_finite(SIDE),
        is_finite(INNER_SIDE),
        is_finite(SIX),
        !is_zero(ONE),
        divides_zero(SIX),
        divides_zero(SIDE),
        index_bits(1) == ONE,
        1 <= n <= SIZE - 2 ==> is_finite(index_bits(n)) && !is_zero(index_bits(n)) && !is_nan(
            index_bits(n),
        ) && clamped(index_bits(n)) == index_bits(n),
{
    lemma_index_order(n);
    assert((z & 0x7FFF_FFFF_FFFF_FFFF) == 0 ==> ((z ^ 0x8000_0000_0000_0000)
        & 0x7FFF_FFFF_FFFF_FFFF) == 0) by (bit_vector);
    assert(0xBFE0_0000_0000_0000u64 & 0x7FFF_FFFF_FFFF_FFFF == 0x3FE0_0000_0000_0000u64)
        by (bit_vector);
    lemma_clear_sign(ZERO);
    lemma_clear_sign(CORNER_WEIGHT);
    lemma_clear_sign(HALF);
    lemma_clear_sign(ONE);
    lemma_clear_sign(SIX);
    lemma_clear_sign(SIDE);
    lemma_clear_sign(INNER_SIDE);
    lemma_clear_sign(UPPER);
    if 1 <= n <= SIZE - 2 {
        lemma_clear_sign(index_bits(n));
    }
}

/// A corner between zeros that held a zero becomes a zero.
pub proof fn lemma_corner_rest<F: Fn(Op, u64, u64) -> u64>(arith: &F, e1: u64, e2: u64, c: u64)
    requires
        exact_on_zeros(arith),
        is_zero(e1),
        is_zero(e2),
        is_zero(c),
    ensures
        is_zero(corner_value(arith, e1, e2, c)),
{
    reveal(exact_on_zeros);
    lemma_patterns(0, 0);
    assert(is_zero(sum(arith, e1, e2)));
    assert(is_zero(sum(arith, sum(arith, e1, e2), c)));
}

/// The boundary pass keeps a grid at rest.
pub proof fn lemma_bounded_rest<F: Fn(Op, u64, u64) -> u64>(arith: &F, b: usize, x: Seq<u64>)
    requires
        exact_on_zeros(arith),
        at_rest(x),
    ensures
        at_rest(bounded(arith, b, x)),
{
    let e = mirrored(b, x);
    assert forall|k: int| 0 <= k < e.len() implies is_zero(#[trigger] e[k]) by {
        lemma_patterns(x[k], 0);
        lemma_patterns(x[ix(col(k), 1)], 0);
        lemma_patterns(x[ix(col(k), SIZE - 2)], 0);
        lemma_patterns(x[ix(1, row(k))], 0);
        lemma_patterns(x[ix(SIZE - 2, row(k))], 0);
        assert(e[k] == mirrored_cell(b, x, k));
    }
    let last = SIZE - 1;
    lemma_corner_rest(arith, e[ix(1, 0)], e[ix(0, 1)], e[ix(0, 0)]);
    lemma_corner_rest(arith, e[ix(1, last)], e[ix(0, last - 1)], e[ix(0, last)]);
    lemma_corner_rest(arith, e[ix(last - 1, 0)], e[ix(last, 1)], e[ix(last, 0)]);
    lemma_corner_rest(arith, e[ix(last - 1, last)], e[ix(last, last - 1)], e[ix(last, last)]);
}

/// Relaxing a cell of a grid at rest against a right-hand side at rest
/// gives a zero.
proof fn lemma_relaxed_cell_rest<F: Fn(Op, u64, u64) -> u64>(
    arith: &F,
    x: Seq<u64>,
    x0: Seq<u64>,
    a: u64,
    c: u64,
    i: int,
    j: int,
)
    requires
        exact_on_zeros(arith),
        at_rest(x),
        at_rest(x0),
        is_finite(a),
        divides_zero(c),
        interior(i, j),
    ensures
        is_zero(relaxed_cell(arith, x, x0, a, c, i, j)),
{
    reveal(exact_on_zeros);
    let sides = sum(arith, x[ix(i + 1, j)], x[ix(i - 1, j)]);
    let three = sum(arith, sides, x[ix(i, j + 1)]);
    let cross = sum(arith, three, x[ix(i, j - 1)]);
    let five = sum(arith, cross, x[ix(i, j)]);
    let around = sum(arith, five, x[ix(i, j)]);
    assert(is_zero(sides));
    assert(is_zero(three));
    assert(is_zero(cross));
    assert(is_zero(five));
    assert(is_zero(around));
    assert(is_zero(product(arith, a, around)));
    assert(is_zero(sum(arith, x0[ix(i, j)], product(arith, a, around))));
}

/// Relaxing part of a row keeps a grid at rest.
proof fn lemma_relaxed_row_rest<F: Fn(Op, u64, u64) -> u64>(
    arith: &F,
    x: Seq<u64>,
    x0: Seq<u64>,
    a: u64,
    c: u64,
    j: int,
    n: int,
)
    requires
        exact_on_zeros(arith),
        at_rest(x),
        at_rest(x0),
        is_finite(a),
        divides_zero(c),
        1 <= j <= SIZE - 2,
        n <= SIZE - 2,
    ensures
        at_rest(relaxed_row(arith, x, x0, a, c, j, n)),
    decreases n,
{
    if n > 0 {
        lemma_relaxed_row_rest(arith, x, x0, a, c, j, n - 1);
        let before = relaxed_row(arith, x, x0, a, c, j, n - 1);
        lemma_relaxed_cell_rest(arith, before, x0, a, c, n, j);
    }
}

/// Relaxing the first rows keeps a grid at rest.
proof fn lemma_relaxed_rows_rest<F: Fn(Op, u64, u64) -> u64>(
    arith: &F,
    x: Seq<u64>,
    x0: Seq<u64>,
    a: u64,
    c: u64,
    m: int,
)
    requires
        exact_on_zeros(arith),
        at_rest(x),
        at_rest(x0),
        is_finite(a),
        divides_zero(c),
        m <= SIZE - 2,
    ensures
        at_rest(relaxed_rows(arith, x, x0, a, c, m)),
    decreases m,
{
    if m > 0 {
        lemma_relaxed_rows_rest(arith, x, x0, a, c, m - 1);
        lemma_relaxed_row_rest(arith, relaxed_rows(arith, x, x0, a, c, m - 1), x0, a, c, m, SIZE - 2);
    }
}

/// Solving from rest against a right-hand side at rest ends at rest.
pub proof fn lemma_solved_rest<F: Fn(Op, u64, u64) -> u64>(
    arith: &F,
    b: usize,
    x: Seq<u64>,
    x0: Seq<u64>,
    a: u64,
    c: u64,
    iter: nat,
)
    requires
        exact_on_zeros(arith),
        at_rest(x),
        at_rest(x0),
        is_finite(a),
        divides_zero(c),
    ensures
        at_rest(solved(arith, b, x, x0, a, c, iter)),
    decreases iter,
{
    if iter > 0 {
        lemma_solved_rest(arith, b, x, x0, a, c, (iter - 1) as nat);
        let before = solved(arith, b, x, x0, a, c, (iter - 1) as nat);
        lemma_relaxed_rows_rest(arith, before, x0, a, c, SIZE - 2);
        lemma_bounded_rest(arith, b, relaxed_rows(arith, before, x0, a, c, SIZE - 2));
    }
}

/// The divergence of a velocity at rest is a zero.
proof fn lemma_divergence_cell_rest<F: Fn(Op, u64, u64) -> u64>(
    arith: &F,
    vx: Seq<u64>,
    vy: Seq<u64>,
    i: int,
    j: int,
)
    requires
        exact_on_zeros(arith),
        at_rest(vx),
        at_rest(vy),
        interior(i, j),
    ensures
        is_zero(divergence_cell(arith, vx, vy, i, j)),
{
    reveal(exact_on_zeros);
    lemma_patterns(0, 0);
    let across = difference(arith, vx[ix(i + 1, j)], vx[ix(i - 1, j)]);
    let both = sum(arith, across, vy[ix(i, j + 1)]);
    let total = difference(arith, both, vy[ix(i, j - 1)]);
    assert(is_zero(across));
    assert(is_zero(both));
    assert(is_zero(total));
    assert(is_zero(product(arith, MINUS_HALF, total)));
}

/// Taking the slope of a pressure at rest out of a velocity at rest leaves
/// a zero.
proof fn lemma_corrected_cell_rest<F: Fn(Op, u64, u64) -> u64>(
    arith: &F,
    vx: Seq<u64>,
    q: Seq<u64>,
    i: int,
    j: int,
)
    requires
        exact_on_zeros(arith),
        at_rest(vx),
        at_rest(q),
        interior(i, j),
    ensures
        is_zero(corrected_cell(arith, vx, q, i, j)),
{
    reveal(exact_on_zeros);
    lemma_patterns(0, 0);
    let dx = difference(arith, q[ix(i + 1, j)], q[ix(i - 1, j)]);
    let dy = difference(arith, q[ix(i, j + 1)], q[ix(i, j - 1)]);
    assert(is_zero(dx));
    assert(is_zero(dy));
    lemma_patterns(product(arith, HALF, dx), 0);
    lemma_patterns(product(arith, HALF, dy), 0);
    let across = product(arith, product(arith, HALF, dx), SIDE);
    let along = product(arith, product(arith, HALF, dy), SIDE);
    assert(is_zero(across));
    assert(is_zero(along));
    assert(is_zero(difference(arith, vx[ix(i, j)], across)));
}

/// Projecting a velocity at rest, with scratch grids at rest, leaves all
/// four grids at rest.
pub proof fn lemma_projected_rest<F: Fn(Op, u64, u64) -> u64>(
    arith: &F,
    vx: Seq<u64>,
    vy: Seq<u64>,
    p: Seq<u64>,
    div: Seq<u64>,
    iter: nat,
)
    requires
        exact_on_zeros(arith),
        at_rest(vx),
        at_rest(vy),
        at_rest(p),
        at_rest(div),
    ensures
        at_rest(divergence(arith, vx, vy, div)),
        at_rest(pressure(arith, vx, vy, p, div, iter)),
        at_rest(projected_x(arith, vx, vy, p, div, iter)),
        at_rest(projected_y(arith, vy)),
{
    lemma_patterns(0, 0);
    let raw = Seq::new(
        div.len(),
        |k: int|
            if interior(col(k), row(k)) {
                divergence_cell(arith, vx, vy, col(k), row(k))
            } else {
                div[k]
            },
    );
    assert forall|k: int| 0 <= k < raw.len() implies is_zero(#[trigger] raw[k]) by {
        if interior(col(k), row(k)) {
            lemma_divergence_cell_rest(arith, vx, vy, col(k), row(k));
        }
    }
    lemma_bounded_rest(arith, NONE, raw);
    let blank = Seq::new(
        p.len(),
        |k: int|
            if interior(col(k), row(k)) {
                ZERO
            } else {
                p[k]
            },
    );
    assert(at_rest(blank));
    lemma_bounded_rest(arith, NONE, blank);
    lemma_solved_rest(
        arith,
        NONE,
        bounded(arith, NONE, blank),
        divergence(arith, vx, vy, div),
        ONE,
        SIX,
        iter,
    );
    let q = pressure(arith, vx, vy, p, div, iter);
    let fixed = Seq::new(
        vx.len(),
        |k: int|
            if interior(col(k), row(k)) {
                corrected_cell(arith, vx, q, col(k), row(k))
            } else {
                vx[k]
            },
    );
    assert forall|k: int| 0 <= k < fixed.len() implies is_zero(#[trigger] fixed[k]) by {
        if interior(col(k), row(k)) {
            lemma_corrected_cell_rest(arith, vx, q, col(k), row(k));
        }
    }
    lemma_bounded_rest(arith, X_VELOCITY, fixed);
    lemma_bounded_rest(arith, Y_VELOCITY, vy);
}

/// Where the velocity is zero, a backward trace lands on the cell it
/// started from.
pub proof fn lemma_traced_rest<F: Fn(Op, u64, u64) -> u64>(arith: &F, rate: u64, v: u64, n: int)
    requires
        exact_on_zeros(arith),
        is_finite(rate),
        is_zero(v),
        1 <= n <= SIZE - 2,
    ensures
        traced(arith, rate, v, n) == index_bits(n),
        lower(index_bits(n)) == n,
        upper(index_bits(n)) == n + 1,
        lower_bits(index_bits(n)) == index_bits(n),
        reachable(index_bits(n)),
{
    reveal(exact_on_zeros);
    lemma_patterns(0, n);
    assert(is_zero(product(arith, rate, v)));
    lemma_whole_part(index_bits(n), n);
}

/// Where the velocity is at rest, the backward trace from an interior cell
/// stays on the grid.
proof fn lemma_traceable_cell_rest<F: Fn(Op, u64, u64) -> u64>(
    arith: &F,
    vx: Seq<u64>,
    vy: Seq<u64>,
    dt: u64,
    i: int,
    j: int,
)
    requires
        exact_on_zeros(arith),
        is_finite(product(arith, dt, INNER_SIDE)),
        at_rest(vx),
        at_rest(vy),
        interior(i, j),
    ensures
        traceable_cell(arith, vx, vy, dt, i, j),
{
    reveal(traceable_cell);
    let rate = product(arith, dt, INNER_SIDE);
    lemma_traced_rest(arith, rate, vx[ix(i, j)], i);
    lemma_traced_rest(arith, rate, vy[ix(i, j)], j);
}

/// Along a velocity at rest every backward trace stays on the grid.
pub proof fn lemma_traceable_rest<F: Fn(Op, u64, u64) -> u64>(
    arith: &F,
    vx: Seq<u64>,
    vy: Seq<u64>,
    dt: u64,
)
    requires
        exact_on_zeros(arith),
        is_finite(product(arith, dt, INNER_SIDE)),
        at_rest(vx),
        at_rest(vy),
    ensures
        traceable(arith, vx, vy, dt),
{
    assert forall|i: int, j: int| interior(i, j) implies #[trigger] traceable_cell(
        arith,
        vx,
        vy,
        dt,
        i,
        j,
    ) by {
        lemma_traceable_cell_rest(arith, vx, vy, dt, i, j);
    }
}

/// Advection of a grid at rest along a velocity at rest gives an interior
/// cell a zero.
proof fn lemma_advected_cell_rest<F: Fn(Op, u64, u64) -> u64>(
    arith: &F,
    d0: Seq<u64>,
    vx: Seq<u64>,
    vy: Seq<u64>,
    dt: u64,
    i: int,
    j: int,
)
    requires
        exact_on_zeros(arith),
        is_finite(product(arith, dt, INNER_SIDE)),
        at_rest(d0),
        at_rest(vx),
        at_rest(vy),
        interior(i, j),
    ensures
        is_zero(advected_cell(arith, d0, vx, vy, dt, i, j)),
{
    reveal(advected_cell);
    let rate = product(arith, dt, INNER_SIDE);
    lemma_traced_rest(arith, rate, vx[ix(i, j)], i);
    lemma_traced_rest(arith, rate, vy[ix(i, j)], j);
    lemma_blended_rest(arith, d0, i, j);
}

/// A field at rest can be carried along a velocity at rest, and is then
/// still at rest.
pub proof fn lemma_advected_rest<F: Fn(Op, u64, u64) -> u64>(
    arith: &F,
    b: usize,
    d: Seq<u64>,
    d0: Seq<u64>,
    vx: Seq<u64>,
    vy: Seq<u64>,
    dt: u64,
)
    requires
        exact_on_zeros(arith),
        is_finite(product(arith, dt, INNER_SIDE)),
        at_rest(d),
        at_rest(d0),
        at_rest(vx),
        at_rest(vy),
    ensures
        traceable(arith, vx, vy, dt),
        at_rest(advected(arith, b, d, d0, vx, vy, dt)),
{
    lemma_traceable_rest(arith, vx, vy, dt);
    let raw = carried(arith, d, d0, vx, vy, dt);
    assert forall|k: int| 0 <= k < raw.len() implies is_zero(#[trigger] raw[k]) by {
        if interior(col(k), row(k)) {
            lemma_advected_cell_rest(arith, d0, vx, vy, dt, col(k), row(k));
        }
    }
    lemma_bounded_rest(arith, b, raw);
}

/// The blend of a grid at rest at a cell's own coordinates is a zero.
proof fn lemma_blended_rest<F: Fn(Op, u64, u64) -> u64>(arith: &F, d0: Seq<u64>, i: int, j: int)
    requires
        exact_on_zeros(arith),
        at_rest(d0),
        interior(i, j),
    ensures
        is_zero(blended(arith, d0, index_bits(i), index_bits(j))),
{
    reveal(exact_on_zeros);
    let x = index_bits(i);
    let y = index_bits(j);
    lemma_patterns(0, i);
    lemma_patterns(0, j);
    lemma_whole_part(x, i);
    lemma_whole_part(y, j);
    let s1 = difference(arith, x, lower_bits(x));
    let s0 = difference(arith, ONE, s1);
    let t1 = difference(arith, y, lower_bits(y));
    let t0 = difference(arith, ONE, t1);
    assert(is_zero(s1));
    assert(is_zero(t1));
    assert(s0 == ONE);
    assert(t0 == ONE);
    lemma_patterns(s1, 0);
    lemma_patterns(t1, 0);
    let a = d0[ix(lower(x), lower(y))];
    let b = d0[ix(lower(x), upper(y))];
    let c = d0[ix(upper(x), lower(y))];
    let d = d0[ix(upper(x), upper(y))];
    lemma_patterns(a, 0);
    lemma_patterns(b, 0);
    lemma_patterns(c, 0);
    lemma_patterns(d, 0);
    assert(is_zero(product(arith, t0, a)));
    assert(is_zero(product(arith, t1, b)));
    assert(is_zero(product(arith, t0, c)));
    assert(is_zero(product(arith, t1, d)));
    let left = sum(arith, product(arith, t0, a), product(arith, t1, b));
    let right = sum(arith, product(arith, t0, c), product(arith, t1, d));
    assert(is_zero(left));
    assert(is_zero(right));
    lemma_patterns(left, 0);
    lemma_patterns(right, 0);
    assert(is_zero(product(arith, s0, left)));
    assert(is_zero(product(arith, s1, right)));
}

/// The arithmetic treats one and zero as binary64 arithmetic does: one
/// times a finite number and a finite number over one are that number, and
/// a finite number other than zero plus a zero, in either order, is that
/// number.
#[verifier::opaque]
pub open spec fn exact_on_units<F: Fn(Op, u64, u64) -> u64>(arith: &F) -> bool {
    &&& forall|v: u64| is_finite(v) ==> #[trigger] product(arith, ONE, v) == v
    &&& forall|v: u64| is_finite(v) ==> #[trigger] quotient(arith, v, ONE) == v
    &&& forall|v: u64, z: u64|
        is_finite(v) && !is_zero(v) && is_zero(z) ==> #[trigger] sum(arith, v, z) == v
    &&& forall|v: u64, z: u64|
        is_finite(v) && !is_zero(v) && is_zero(z) ==> #[trigger] sum(arith, z, v) == v
}

/// Two patterns stand for the same number: they are equal, or both are
/// zeros.
pub open spec fn same_number(a: u64, b: u64) -> bool {
    a == b || (is_zero(a) && is_zero(b))
}

/// Every cell of the grid is finite.
pub open spec fn all_finite(s: Seq<u64>) -> bool {
    is_grid(s) && forall|k: int| 0 <= k < s.len() ==> is_finite(#[trigger] s[k])
}

/// Where the velocity is at rest, advection gives an interior cell the
/// number it holds in the source grid, as long as the source grid is
/// finite.
pub proof fn lemma_still_cell<F: Fn(Op, u64, u64) -> u64>(
    arith: &F,
    d0: Seq<u64>,
    vx: Seq<u64>,
    vy: Seq<u64>,
    dt: u64,
    i: int,
    j: int,
)
    requires
        exact_on_zeros(arith),
        exact_on_units(arith),
        is_finite(product(arith, dt, INNER_SIDE)),
        all_finite(d0),
        at_rest(vx),
        at_rest(vy),
        interior(i, j),
    ensures
        same_number(advected_cell(arith, d0, vx, vy, dt, i, j), d0[ix(i, j)]),
{
    reveal(exact_on_zeros);
    reveal(exact_on_units);
    reveal(advected_cell);
    let rate = product(arith, dt, INNER_SIDE);
    lemma_traced_rest(arith, rate, vx[ix(i, j)], i);
    lemma_traced_rest(arith, rate, vy[ix(i, j)], j);
    let x = index_bits(i);
    let y = index_bits(j);
    lemma_patterns(0, i);
    lemma_patterns(0, j);
    lemma_whole_part(x, i);
    lemma_whole_part(y, j);
    let s1 = difference(arith, x, lower_bits(x));
    let s0 = difference(arith, ONE, s1);
    let t1 = difference(arith, y, lower_bits(y));
    let t0 = difference(arith, ONE, t1);
    assert(is_zero(s1));
    assert(is_zero(t1));
    assert(s0 == ONE);
    assert(t0 == ONE);
    let here = d0[ix(i, j)];
    let up = d0[ix(i, j + 1)];
    let side = d0[ix(i + 1, j)];
    let far = d0[ix(i + 1, j + 1)];
    assert(product(arith, t0, here) == here);
    assert(is_zero(product(arith, t1, up)));
    assert(product(arith, t0, side) == side);
    assert(is_zero(product(arith, t1, far)));
    let left = sum(arith, product(arith, t0, here), product(arith, t1, up));
    let right = sum(arith, product(arith, t0, side), product(arith, t1, far));
    assert(same_number(left, here));
    assert(same_number(right, side));
    lemma_patterns(left, 0);
    lemma_patterns(right, 0);
    assert(is_finite(left));
    assert(is_finite(right));
    assert(product(arith, s0, left) == left);
    assert(is_zero(product(arith, s1, right)));
    let cell = sum(arith, product(arith, s0, left), product(arith, s1, right));
    assert(same_number(cell, here));
    assert(cell == advected_cell(arith, d0, vx, vy, dt, i, j));
}

/// Along a velocity at rest, advection gives one interior cell the number
/// it holds in the source grid, as long as the source grid is finite.
proof fn lemma_still_flow_cell<F: Fn(Op, u64, u64) -> u64>(
    arith: &F,
    b: usize,
    d: Seq<u64>,
    d0: Seq<u64>,
    vx: Seq<u64>,
    vy: Seq<u64>,
    dt: u64,
    i: int,
    j: int,
)
    requires
        exact_on_zeros(arith),
        exact_on_units(arith),
        is_finite(product(arith, dt, INNER_SIDE)),
        is_grid(d),
        all_finite(d0),
        at_rest(vx),
        at_rest(vy),
        interior(i, j),
    ensures
        same_number(advected(arith, b, d, d0, vx, vy, dt)[ix(i, j)], d0[ix(i, j)]),
{
    lemma_still_cell(arith, d0, vx, vy, dt, i, j);
    let raw = carried(arith, d, d0, vx, vy, dt);
    lemma_bounded_interior(arith, b, raw, i, j);
    assert(raw[ix(i, j)] == advected_cell(arith, d0, vx, vy, dt, i, j));
}

/// A flow at rest carries nothing: advection along a velocity at rest
/// gives every interior cell the number it holds in the source grid, as
/// long as the source grid is finite.
pub proof fn lemma_still_flow_carries_nothing<F: Fn(Op, u64, u64) -> u64>(
    arith: &F,
    b: usize,
    d: Seq<u64>,
    d0: Seq<u64>,
    vx: Seq<u64>,
    vy: Seq<u64>,
    dt: u64,
)
    requires
        exact_on_zeros(arith),
        exact_on_units(arith),
        is_finite(product(arith, dt, INNER_SIDE)),
        is_grid(d),
        all_finite(d0),
        at_rest(vx),
        at_rest(vy),
    ensures
        traceable(arith, vx, vy, dt),
        forall|i: int, j: int|
            interior(i, j) ==> same_number(
                #[trigger] advected(arith, b, d, d0, vx, vy, dt)[ix(i, j)],
                d0[ix(i, j)],
            ),
{
    lemma_traceable_rest(arith, vx, vy, dt);
    assert forall|i: int, j: int| interior(i, j) implies same_number(
        #[trigger] advected(arith, b, d, d0, vx, vy, dt)[ix(i, j)],
        d0[ix(i, j)],
    ) by {
        lemma_still_flow_cell(arith, b, d, d0, vx, vy, dt, i, j);
    }
}

/// A fluid at rest stays at rest through the two stages of a tick that
/// move the velocity, whatever the dye grids hold, and those stages leave
/// the dye grids alone.
pub proof fn lemma_flow_rests<F: Fn(Op, u64, u64) -> u64>(arith: &F, c: CubeState)
    requires
        exact_on_zeros(arith),
        is_finite(product(arith, c.dt, INNER_SIDE)),
        is_finite(spread(arith, c.visc, c.dt)),
        divides_zero(sum(arith, ONE, product(arith, SIX, spread(arith, c.visc, c.dt)))),
        at_rest(c.vx),
        at_rest(c.vy),
        at_rest(c.vx0),
        at_rest(c.vy0),
    ensures
        traceable(
            arith,
            velocity_spread(arith, c).vx0,
            velocity_spread(arith, c).vy0,
            velocity_spread(arith, c).dt,
        ),
        at_rest(velocity_carried(arith, velocity_spread(arith, c)).vx),
        at_rest(velocity_carried(arith, velocity_spread(arith, c)).vy),
        at_rest(velocity_carried(arith, velocity_spread(arith, c)).vx0),
        at_rest(velocity_carried(arith, velocity_spread(arith, c)).vy0),
        velocity_carried(arith, velocity_spread(arith, c)).s == c.s,
        velocity_carried(arith, velocity_spread(arith, c)).density == c.density,
        velocity_carried(arith, velocity_spread(arith, c)).dt == c.dt,
        velocity_carried(arith, velocity_spread(arith, c)).diff == c.diff,
        velocity_carried(arith, velocity_spread(arith, c)).visc == c.visc,
{
    let n = SWEEPS as nat;
    let thin = spread(arith, c.visc, c.dt);
    let thin_c = sum(arith, ONE, product(arith, SIX, thin));
    lemma_solved_rest(arith, X_VELOCITY, c.vx0, c.vx, thin, thin_c, n);
    lemma_solved_rest(arith, Y_VELOCITY, c.vy0, c.vy, thin, thin_c, n);
    let vx0 = diffused(arith, X_VELOCITY, c.vx0, c.vx, c.visc, c.dt, n);
    let vy0 = diffused(arith, Y_VELOCITY, c.vy0, c.vy, c.visc, c.dt, n);
    lemma_projected_rest(arith, vx0, vy0, c.vx, c.vy, n);
    let one = velocity_spread(arith, c);
    lemma_advected_rest(arith, X_VELOCITY, one.vx, one.vx0, one.vx0, one.vy0, one.dt);
    lemma_advected_rest(arith, Y_VELOCITY, one.vy, one.vy0, one.vx0, one.vy0, one.dt);
    let vx = advected(arith, X_VELOCITY, one.vx, one.vx0, one.vx0, one.vy0, one.dt);
    let vy = advected(arith, Y_VELOCITY, one.vy, one.vy0, one.vx0, one.vy0, one.dt);
    lemma_projected_rest(arith, vx, vy, one.vx0, one.vy0, n);
}

/// A cube at rest is at rest after a tick, and the tick runs to its end.
pub proof fn lemma_rest_is_kept<F: Fn(Op, u64, u64) -> u64>(arith: &F, c: CubeState)
    requires
        exact_on_zeros(arith),
        calm(arith, c),
        resting(c),
    ensures
        ticked(arith, c).1,
        resting(ticked(arith, c).0),
        ticked(arith, c).0.dt == c.dt,
        ticked(arith, c).0.diff == c.diff,
        ticked(arith, c).0.visc == c.visc,
{
    let n = SWEEPS as nat;
    let wide = spread(arith, c.diff, c.dt);
    let wide_c = sum(arith, ONE, product(arith, SIX, wide));
    lemma_flow_rests(arith, c);
    let two = velocity_carried(arith, velocity_spread(arith, c));
    lemma_solved_rest(arith, NONE, two.s, two.density, wide, wide_c, n);
    let three = density_spread(arith, two);
    lemma_advected_rest(arith, NONE, three.density, three.s, three.vx, three.vy, three.dt);
}

/// A cube at rest is at rest after any number of ticks.
pub proof fn lemma_rest_lasts<F: Fn(Op, u64, u64) -> u64>(
    arith: &F,
    c: CubeState,
    calls: Seq<Call>,
)
    requires
        exact_on_zeros(arith),
        calm(arith, c),
        resting(c),
        forall|k: int| 0 <= k < calls.len() ==> calls[k] == Call::Step,
    ensures
        resting(replayed(arith, c, calls)),
        replayed(arith, c, calls).dt == c.dt,
        replayed(arith, c, calls).diff == c.diff,
        replayed(arith, c, calls).visc == c.visc,
    decreases calls.len(),
{
    if calls.len() > 0 {
        lemma_rest_lasts(arith, c, calls.drop_last());
        lemma_rest_is_kept(arith, replayed(arith, c, calls.drop_last()));
    }
}

} // verus!
