//! Dye in a single cell of a fluid at rest: without diffusion it stays
//! where it is, under any arithmetic that treats zero and one as binary64
//! arithmetic does.

use vstd::prelude::*;
use crate::advection::{advected, advected_cell, carried};
use crate::arith::{product, sum, Op};
use crate::bits::{is_finite, is_zero, INNER_SIDE, ONE, SIX};
use crate::boundary::{bounded, mirrored, mirrored_cell, NONE};
use crate::fluid_cube_mod::{
    density_spread, replayed, ticked, velocity_carried, velocity_spread, Call, CubeState, SWEEPS,
};
use crate::grid::{col, interior, is_grid, ix, row, SIZE};
use crate::rest::{
    all_finite, at_rest, divides_zero, exact_on_units, exact_on_zeros, lemma_advected_rest,
    lemma_corner_rest, lemma_flow_rests, lemma_patterns, lemma_still_cell,
};
use crate::solver::{diffused, relaxed_cell, relaxed_row, relaxed_rows, solved, spread};

verus! {

/// The pattern is a zero or `v`.
pub open spec fn none_or(v: u64, a: u64) -> bool {
    is_zero(a) || a == v
}

/// The grid holds `v` in cell `k0` and zeros everywhere else.
pub open spec fn lone(g: Seq<u64>, k0: int, v: u64) -> bool {
    &&& is_grid(g)
    &&& g[k0] == v
    &&& forall|k: int| 0 <= k < g.len() && k != k0 ==> is_zero(#[trigger] g[k])
}

/// The grid holds `v` or a zero in cell `k0` and zeros everywhere else.
pub open spec fn faint(g: Seq<u64>, k0: int, v: u64) -> bool {
    &&& is_grid(g)
    &&& none_or(v, g[k0])
    &&& forall|k: int| 0 <= k < g.len() && k != k0 ==> is_zero(#[trigger] g[k])
}

/// The cell touches no cell of the outer ring.
pub open spec fn deep(i: int, j: int) -> bool {
    2 <= i <= SIZE - 3 && 2 <= j <= SIZE - 3
}

/// An amount of dye that the laws below speak of: a finite number other
/// than zero whose double is finite too.
pub open spec fn modest<F: Fn(Op, u64, u64) -> u64>(arith: &F, v: u64) -> bool {
    is_finite(v) && !is_zero(v) && is_finite(sum(arith, v, v))
}

/// The state that dye in the single cell in column `i` and row `j` keeps:
/// the fluid is at rest, the dye grid holds `v` in that cell alone, and
/// its scratch grid holds nothing anywhere else.
pub open spec fn lone_dye(c: CubeState, i: int, j: int, v: u64) -> bool {
    &&& at_rest(c.vx)
    &&& at_rest(c.vy)
    &&& at_rest(c.vx0)
    &&& at_rest(c.vy0)
    &&& lone(c.density, ix(i, j), v)
    &&& faint(c.s, ix(i, j), v)
}

/// The configuration lets lone dye stay: the dye does not diffuse, the tick
/// length is finite, and the coefficients of the velocity's diffusion leave
/// a fluid at rest alone.
pub open spec fn tight<F: Fn(Op, u64, u64) -> u64>(arith: &F, c: CubeState) -> bool {
    let thin = spread(arith, c.visc, c.dt);
    &&& is_zero(c.diff)
    &&& is_finite(c.dt)
    &&& is_finite(product(arith, c.dt, INNER_SIDE))
    &&& is_finite(thin)
    &&& divides_zero(sum(arith, ONE, product(arith, SIX, thin)))
}

/// The sum of two patterns of which each is a zero or `v`, and at least
/// one a zero, is a zero or `v` again.
proof fn lemma_sum_none_or<F: Fn(Op, u64, u64) -> u64>(arith: &F, v: u64, a: u64, b: u64)
    requires
        exact_on_zeros(arith),
        exact_on_units(arith),
        is_finite(v),
        !is_zero(v),
        none_or(v, a),
        none_or(v, b),
        is_zero(a) || is_zero(b),
    ensures
        none_or(v, sum(arith, a, b)),
        is_zero(a) && is_zero(b) ==> is_zero(sum(arith, a, b)),
        is_zero(a) && b == v ==> sum(arith, a, b) == v,
        a == v && is_zero(b) ==> sum(arith, a, b) == v,
{
    reveal(exact_on_zeros);
    reveal(exact_on_units);
}

/// Relaxing without diffusion gives the cell of the dye the dye, and every
/// other interior cell a zero.
proof fn lemma_relaxed_cell_lone<F: Fn(Op, u64, u64) -> u64>(
    arith: &F,
    x: Seq<u64>,
    x0: Seq<u64>,
    a: u64,
    k0: int,
    v: u64,
    i: int,
    j: int,
)
    requires
        exact_on_zeros(arith),
        exact_on_units(arith),
        modest(arith, v),
        faint(x, k0, v),
        lone(x0, k0, v),
        is_zero(a),
        interior(i, j),
    ensures
        ix(i, j) == k0 ==> relaxed_cell(arith, x, x0, a, ONE, i, j) == v,
        ix(i, j) != k0 ==> is_zero(relaxed_cell(arith, x, x0, a, ONE, i, j)),
{
    reveal(exact_on_zeros);
    reveal(exact_on_units);
    lemma_patterns(0, 0);
    let n1 = x[ix(i + 1, j)];
    let n2 = x[ix(i - 1, j)];
    let n3 = x[ix(i, j + 1)];
    let n4 = x[ix(i, j - 1)];
    let own = x[ix(i, j)];
    assert(none_or(v, n1) && none_or(v, n2) && none_or(v, n3) && none_or(v, n4) && none_or(v, own));
    let sides = sum(arith, n1, n2);
    lemma_sum_none_or(arith, v, n1, n2);
    let three = sum(arith, sides, n3);
    lemma_sum_none_or(arith, v, sides, n3);
    let cross = sum(arith, three, n4);
    lemma_sum_none_or(arith, v, three, n4);
    let five = sum(arith, cross, own);
    let around = sum(arith, five, own);
    if ix(i, j) == k0 {
        assert(is_zero(cross));
        lemma_sum_none_or(arith, v, cross, own);
        if is_zero(own) {
            assert(is_zero(around));
            lemma_patterns(around, 0);
        } else {
            assert(five == v);
            assert(is_finite(around));
        }
    } else {
        assert(is_zero(own));
        lemma_sum_none_or(arith, v, cross, own);
        lemma_sum_none_or(arith, v, five, own);
        lemma_patterns(around, 0);
    }
    assert(is_finite(around));
    let scaled = product(arith, a, around);
    assert(is_zero(scaled));
    let top = sum(arith, x0[ix(i, j)], scaled);
    if ix(i, j) == k0 {
        assert(top == v);
    } else {
        assert(is_zero(top));
    }
}

/// Relaxing part of a row without diffusion keeps the dye in its cell.
proof fn lemma_relaxed_row_lone<F: Fn(Op, u64, u64) -> u64>(
    arith: &F,
    x: Seq<u64>,
    x0: Seq<u64>,
    a: u64,
    k0: int,
    v: u64,
    j: int,
    n: int,
)
    requires
        exact_on_zeros(arith),
        exact_on_units(arith),
        modest(arith, v),
        faint(x, k0, v),
        lone(x0, k0, v),
        is_zero(a),
        0 <= k0 < x.len(),
        1 <= j <= SIZE - 2,
        n <= SIZE - 2,
    ensures
        faint(relaxed_row(arith, x, x0, a, ONE, j, n), k0, v),
        x[k0] == v || (row(k0) == j && 1 <= col(k0) <= n) ==> relaxed_row(
            arith,
            x,
            x0,
            a,
            ONE,
            j,
            n,
        )[k0] == v,
    decreases n,
{
    if n > 0 {
        lemma_relaxed_row_lone(arith, x, x0, a, k0, v, j, n - 1);
        let before = relaxed_row(arith, x, x0, a, ONE, j, n - 1);
        lemma_relaxed_cell_lone(arith, before, x0, a, k0, v, n, j);
    }
}

/// Relaxing the first rows without diffusion keeps the dye in its cell.
proof fn lemma_relaxed_rows_lone<F: Fn(Op, u64, u64) -> u64>(
    arith: &F,
    x: Seq<u64>,
    x0: Seq<u64>,
    a: u64,
    k0: int,
    v: u64,
    m: int,
)
    requires
        exact_on_zeros(arith),
        exact_on_units(arith),
        modest(arith, v),
        faint(x, k0, v),
        lone(x0, k0, v),
        is_zero(a),
        0 <= k0 < x.len(),
        m <= SIZE - 2,
    ensures
        faint(relaxed_rows(arith, x, x0, a, ONE, m), k0, v),
        x[k0] == v || (1 <= row(k0) <= m && 1 <= col(k0) <= SIZE - 2) ==> relaxed_rows(
            arith,
            x,
            x0,
            a,
            ONE,
            m,
        )[k0] == v,
    decreases m,
{
    if m > 0 {
        lemma_relaxed_rows_lone(arith, x, x0, a, k0, v, m - 1);
        lemma_relaxed_row_lone(
            arith,
            relaxed_rows(arith, x, x0, a, ONE, m - 1),
            x0,
            a,
            k0,
            v,
            m,
            SIZE - 2,
        );
    }
}

/// The boundary pass leaves alone a grid whose only dye touches no cell of
/// the outer ring.
proof fn lemma_bounded_lone<F: Fn(Op, u64, u64) -> u64>(
    arith: &F,
    b: usize,
    x: Seq<u64>,
    i: int,
    j: int,
    v: u64,
)
    requires
        exact_on_zeros(arith),
        faint(x, ix(i, j), v),
        deep(i, j),
    ensures
        faint(bounded(arith, b, x), ix(i, j), v),
        bounded(arith, b, x)[ix(i, j)] == x[ix(i, j)],
{
    let k0 = ix(i, j);
    let e = mirrored(b, x);
    assert forall|k: int| 0 <= k < e.len() && k != k0 implies is_zero(#[trigger] e[k]) by {
        lemma_patterns(x[k], 0);
        lemma_patterns(x[ix(col(k), 1)], 0);
        lemma_patterns(x[ix(col(k), SIZE - 2)], 0);
        lemma_patterns(x[ix(1, row(k))], 0);
        lemma_patterns(x[ix(SIZE - 2, row(k))], 0);
        assert(e[k] == mirrored_cell(b, x, k));
    }
    assert(e[k0] == mirrored_cell(b, x, k0));
    let last = SIZE - 1;
    lemma_corner_rest(arith, e[ix(1, 0)], e[ix(0, 1)], e[ix(0, 0)]);
    lemma_corner_rest(arith, e[ix(1, last)], e[ix(0, last - 1)], e[ix(0, last)]);
    lemma_corner_rest(arith, e[ix(last - 1, 0)], e[ix(last, 1)], e[ix(last, 0)]);
    lemma_corner_rest(arith, e[ix(last - 1, last)], e[ix(last, last - 1)], e[ix(last, last)]);
}

/// Solving without diffusion against lone dye ends with the dye in its
/// cell alone, once a sweep has been made.
proof fn lemma_solved_lone<F: Fn(Op, u64, u64) -> u64>(
    arith: &F,
    b: usize,
    x: Seq<u64>,
    x0: Seq<u64>,
    a: u64,
    i: int,
    j: int,
    v: u64,
    iter: nat,
)
    requires
        exact_on_zeros(arith),
        exact_on_units(arith),
        modest(arith, v),
        faint(x, ix(i, j), v),
        lone(x0, ix(i, j), v),
        is_zero(a),
        deep(i, j),
    ensures
        faint(solved(arith, b, x, x0, a, ONE, iter), ix(i, j), v),
        iter > 0 ==> lone(solved(arith, b, x, x0, a, ONE, iter), ix(i, j), v),
    decreases iter,
{
    if iter > 0 {
        lemma_solved_lone(arith, b, x, x0, a, i, j, v, (iter - 1) as nat);
        let before = solved(arith, b, x, x0, a, ONE, (iter - 1) as nat);
        lemma_relaxed_rows_lone(arith, before, x0, a, ix(i, j), v, SIZE - 2);
        lemma_bounded_lone(arith, b, relaxed_rows(arith, before, x0, a, ONE, SIZE - 2), i, j, v);
    }
}

/// Diffusing lone dye at rate zero puts the dye into its cell of the
/// target grid and zeros everywhere else.
proof fn lemma_spread_lone<F: Fn(Op, u64, u64) -> u64>(
    arith: &F,
    x: Seq<u64>,
    x0: Seq<u64>,
    rate: u64,
    dt: u64,
    i: int,
    j: int,
    v: u64,
    iter: nat,
)
    requires
        exact_on_zeros(arith),
        exact_on_units(arith),
        modest(arith, v),
        faint(x, ix(i, j), v),
        lone(x0, ix(i, j), v),
        is_zero(rate),
        is_finite(dt),
        deep(i, j),
        iter > 0,
    ensures
        lone(diffused(arith, NONE, x, x0, rate, dt, iter), ix(i, j), v),
{
    reveal(exact_on_zeros);
    reveal(exact_on_units);
    lemma_patterns(0, 0);
    let rated = product(arith, dt, rate);
    assert(is_zero(rated));
    let once = product(arith, rated, INNER_SIDE);
    assert(is_zero(once));
    let a = spread(arith, rate, dt);
    assert(is_zero(a));
    assert(is_zero(product(arith, SIX, a)));
    assert(sum(arith, ONE, product(arith, SIX, a)) == ONE);
    lemma_solved_lone(arith, NONE, x, x0, a, i, j, v, iter);
}

/// Along a velocity at rest, advection of lone dye gives the cell of the
/// dye the dye and every other interior cell a zero.
proof fn lemma_carried_cell_lone<F: Fn(Op, u64, u64) -> u64>(
    arith: &F,
    d0: Seq<u64>,
    vx: Seq<u64>,
    vy: Seq<u64>,
    dt: u64,
    k0: int,
    v: u64,
    m: int,
    n: int,
)
    requires
        exact_on_zeros(arith),
        exact_on_units(arith),
        is_finite(v),
        !is_zero(v),
        is_finite(product(arith, dt, INNER_SIDE)),
        lone(d0, k0, v),
        0 <= k0 < d0.len(),
        at_rest(vx),
        at_rest(vy),
        interior(m, n),
    ensures
        ix(m, n) == k0 ==> advected_cell(arith, d0, vx, vy, dt, m, n) == v,
        ix(m, n) != k0 ==> is_zero(advected_cell(arith, d0, vx, vy, dt, m, n)),
{
    assert(all_finite(d0)) by {
        assert forall|k: int| 0 <= k < d0.len() implies is_finite(#[trigger] d0[k]) by {
            lemma_patterns(d0[k], 0);
        }
    }
    lemma_still_cell(arith, d0, vx, vy, dt, m, n);
}

/// A flow at rest carries lone dye back into its own cell.
proof fn lemma_carried_lone<F: Fn(Op, u64, u64) -> u64>(
    arith: &F,
    d: Seq<u64>,
    d0: Seq<u64>,
    vx: Seq<u64>,
    vy: Seq<u64>,
    dt: u64,
    i: int,
    j: int,
    v: u64,
)
    requires
        exact_on_zeros(arith),
        exact_on_units(arith),
        modest(arith, v),
        is_finite(product(arith, dt, INNER_SIDE)),
        faint(d, ix(i, j), v),
        lone(d0, ix(i, j), v),
        at_rest(vx),
        at_rest(vy),
        deep(i, j),
    ensures
        lone(advected(arith, NONE, d, d0, vx, vy, dt), ix(i, j), v),
{
    let k0 = ix(i, j);
    let raw = carried(arith, d, d0, vx, vy, dt);
    assert forall|k: int| 0 <= k < raw.len() && k != k0 implies is_zero(#[trigger] raw[k]) by {
        if interior(col(k), row(k)) {
            lemma_carried_cell_lone(arith, d0, vx, vy, dt, k0, v, col(k), row(k));
        }
    }
    lemma_carried_cell_lone(arith, d0, vx, vy, dt, k0, v, i, j);
    assert(raw[k0] == advected_cell(arith, d0, vx, vy, dt, i, j));
    lemma_bounded_lone(arith, NONE, raw, i, j, v);
}

/// Without diffusion and without flow, dye in a single cell that touches
/// no cell of the outer ring stays in that cell, unchanged, through a tick,
/// every other cell of the dye grid stays zero, and the tick runs to its
/// end.
pub proof fn lemma_lone_dye_stays<F: Fn(Op, u64, u64) -> u64>(
    arith: &F,
    c: CubeState,
    i: int,
    j: int,
    v: u64,
)
    requires
        exact_on_zeros(arith),
        exact_on_units(arith),
        tight(arith, c),
        modest(arith, v),
        deep(i, j),
        lone_dye(c, i, j, v),
    ensures
        ticked(arith, c).1,
        lone_dye(ticked(arith, c).0, i, j, v),
        ticked(arith, c).0.dt == c.dt,
        ticked(arith, c).0.diff == c.diff,
        ticked(arith, c).0.visc == c.visc,
{
    lemma_flow_rests(arith, c);
    let one = velocity_spread(arith, c);
    let two = velocity_carried(arith, one);
    lemma_spread_lone(arith, two.s, two.density, two.diff, two.dt, i, j, v, SWEEPS as nat);
    let three = density_spread(arith, two);
    lemma_advected_rest(arith, NONE, three.vx, three.vx, three.vx, three.vy, three.dt);
    lemma_carried_lone(arith, three.density, three.s, three.vx, three.vy, three.dt, i, j, v);
}

/// Without diffusion and without flow, dye in a single cell that touches
/// no cell of the outer ring stays in that cell, unchanged, through any
/// number of ticks, and every other cell of the dye grid stays zero.
pub proof fn lemma_lone_dye_lasts<F: Fn(Op, u64, u64) -> u64>(
    arith: &F,
    c: CubeState,
    i: int,
    j: int,
    v: u64,
    calls: Seq<Call>,
)
    requires
        exact_on_zeros(arith),
        exact_on_units(arith),
        tight(arith, c),
        modest(arith, v),
        deep(i, j),
        lone_dye(c, i, j, v),
        forall|k: int| 0 <= k < calls.len() ==> calls[k] == Call::Step,
    ensures
        lone_dye(replayed(arith, c, calls), i, j, v),
        replayed(arith, c, calls).density[ix(i, j)] == v,
        replayed(arith, c, calls).dt == c.dt,
        replayed(arith, c, calls).diff == c.diff,
        replayed(arith, c, calls).visc == c.visc,
    decreases calls.len(),
{
    if calls.len() > 0 {
        lemma_lone_dye_lasts(arith, c, i, j, v, calls.drop_last());
        lemma_lone_dye_stays(arith, replayed(arith, c, calls.drop_last()), i, j, v);
    }
}

} // verus!
