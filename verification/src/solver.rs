//! Relaxation of the five-point system that diffusion and pressure share.

use vstd::prelude::*;
use crate::arith::{lawful, over, plus, product, quotient, sum, times, Op};
use crate::bits::{INNER_SIDE, ONE, SIX};
use crate::boundary::bounded;
use crate::fluid_cube_mod::fluid_cube;
use crate::grid::{is_grid, ix, IX, SIZE};

verus! {

/// The relaxed value of the interior cell in column `i` and row `j`:
/// `(x0 + a * around) / c`, where `around` sums, from left to right, the
/// right, left, lower and upper neighbour and then the cell itself twice.
pub open spec fn relaxed_cell<F: Fn(Op, u64, u64) -> u64>(
    arith: &F,
    x: Seq<u64>,
    x0: Seq<u64>,
    a: u64,
    c: u64,
    i: int,
    j: int,
) -> u64 {
    let sides = sum(arith, x[ix(i + 1, j)], x[ix(i - 1, j)]);
    let cross = sum(arith, sum(arith, sides, x[ix(i, j + 1)]), x[ix(i, j - 1)]);
    let around = sum(arith, sum(arith, cross, x[ix(i, j)]), x[ix(i, j)]);
    quotient(arith, sum(arith, x0[ix(i, j)], product(arith, a, around)), c)
}

/// The grid after the cells in columns `1` to `n` of row `j` have been
/// relaxed in place, one after the other from the left: each cell sees the
/// new values of those before it.
pub open spec fn relaxed_row<F: Fn(Op, u64, u64) -> u64>(
    arith: &F,
    x: Seq<u64>,
    x0: Seq<u64>,
    a: u64,
    c: u64,
    j: int,
    n: int,
) -> Seq<u64>
    decreases n,
{
    if n <= 0 {
        x
    } else {
        let before = relaxed_row(arith, x, x0, a, c, j, n - 1);
        before.update(ix(n, j), relaxed_cell(arith, before, x0, a, c, n, j))
    }
}

/// The grid after the interior cells of rows `1` to `m` have been relaxed in
/// place, row after row.
pub open spec fn relaxed_rows<F: Fn(Op, u64, u64) -> u64>(
    arith: &F,
    x: Seq<u64>,
    x0: Seq<u64>,
    a: u64,
    c: u64,
    m: int,
) -> Seq<u64>
    decreases m,
{
    if m <= 0 {
        x
    } else {
        relaxed_row(arith, relaxed_rows(arith, x, x0, a, c, m - 1), x0, a, c, m, SIZE - 2)
    }
}

/// The grid after `iter` sweeps: each relaxes the whole interior in place
/// and then sets the outer ring.
pub open spec fn solved<F: Fn(Op, u64, u64) -> u64>(
    arith: &F,
    b: usize,
    x: Seq<u64>,
    x0: Seq<u64>,
    a: u64,
    c: u64,
    iter: nat,
) -> Seq<u64>
    decreases iter,
{
    if iter == 0 {
        x
    } else {
        let before = solved(arith, b, x, x0, a, c, (iter - 1) as nat);
        bounded(arith, b, relaxed_rows(arith, before, x0, a, c, SIZE - 2))
    }
}

/// The coefficient of a diffusion: `dt * rate`, times the interior's side
/// length twice.
pub open spec fn spread<F: Fn(Op, u64, u64) -> u64>(arith: &F, rate: u64, dt: u64) -> u64 {
    product(arith, product(arith, product(arith, dt, rate), INNER_SIDE), INNER_SIDE)
}

/// The grid `x` after diffusing `x0` into it at `rate` over `dt`.
pub open spec fn diffused<F: Fn(Op, u64, u64) -> u64>(
    arith: &F,
    b: usize,
    x: Seq<u64>,
    x0: Seq<u64>,
    rate: u64,
    dt: u64,
    iter: nat,
) -> Seq<u64> {
    let a = spread(arith, rate, dt);
    solved(arith, b, x, x0, a, sum(arith, ONE, product(arith, SIX, a)), iter)
}

/// Relaxes one interior cell.
fn relax<F: Fn(Op, u64, u64) -> u64>(
    arith: &F,
    x: &Vec<u64>,
    x0: &Vec<u64>,
    a: u64,
    c: u64,
    i: usize,
    j: usize,
) -> (r: u64)
    requires
        lawful(arith),
        is_grid(x@),
        is_grid(x0@),
        1 <= i <= SIZE - 2,
        1 <= j <= SIZE - 2,
    ensures
        r == relaxed_cell(arith, x@, x0@, a, c, i as int, j as int),
{
    let own: u64 = x[IX(i, j)];
    let sides: u64 = plus(arith, x[IX(i + 1, j)], x[IX(i - 1, j)]);
    let three: u64 = plus(arith, sides, x[IX(i, j + 1)]);
    let cross: u64 = plus(arith, three, x[IX(i, j - 1)]);
    let five: u64 = plus(arith, cross, own);
    let around: u64 = plus(arith, five, own);
    let scaled: u64 = times(arith, a, around);
    let top: u64 = plus(arith, x0[IX(i, j)], scaled);
    over(arith, top, c)
}

impl fluid_cube {
    /// Solves for `x` in place by `iter` sweeps of relaxation against the
    /// right-hand side `x0` with coefficients `a` and `c`.
    ///
    /// A sweep visits the interior row by row and, within a row, from left
    /// to right, and overwrites each cell at once, so that the cells after
    /// it already see its new value. After each sweep the outer ring is set
    /// for boundary kind `b`.
    pub fn lin_solve<F: Fn(Op, u64, u64) -> u64>(
        b: usize,
        x: &mut Vec<u64>,
        x0: &Vec<u64>,
        a: u64,
        c: u64,
        iter: usize,
        arith: &F,
    )
        requires
            lawful(arith),
            is_grid(old(x)@),
            is_grid(x0@),
        ensures
            final(x)@ == solved(arith, b, old(x)@, x0@, a, c, iter as nat),
            is_grid(final(x)@),
    {
        let ghost start = x@;
        let mut k: usize = 0;
        while k < iter
            invariant
                k <= iter,
                lawful(arith),
                is_grid(x@),
                is_grid(x0@),
                x@ == solved(arith, b, start, x0@, a, c, k as nat),
            decreases iter - k,
        {
            let ghost before = x@;
            let mut j: usize = 1;
            while j < SIZE - 1
                invariant
                    1 <= j <= SIZE - 1,
                    lawful(arith),
                    is_grid(x@),
                    is_grid(x0@),
                    x@ == relaxed_rows(arith, before, x0@, a, c, j - 1),
                decreases SIZE - 1 - j,
            {
                let ghost row_start = x@;
                let mut i: usize = 1;
                while i < SIZE - 1
                    invariant
                        1 <= i <= SIZE - 1,
                        1 <= j <= SIZE - 2,
                        lawful(arith),
                        is_grid(x@),
                        is_grid(x0@),
                        x@ == relaxed_row(arith, row_start, x0@, a, c, j as int, i - 1),
                    decreases SIZE - 1 - i,
                {
                    let v: u64 = relax(arith, x, x0, a, c, i, j);
                    x[IX(i, j)] = v;
                    i += 1;
                }
                j += 1;
            }
            Self::set_bnd(b, x, arith);
            k += 1;
        }
    }

    /// Diffuses `x0` into `x` at `rate` over a tick of length `dt`: solves
    /// with `a = dt * rate * (SIZE - 2)^2` and `c = 1 + 6 * a`.
    pub fn diffuse<F: Fn(Op, u64, u64) -> u64>(
        b: usize,
        x: &mut Vec<u64>,
        x0: &Vec<u64>,
        diff: u64,
        dt: u64,
        iter: usize,
        arith: &F,
    )
        requires
            lawful(arith),
            is_grid(old(x)@),
            is_grid(x0@),
        ensures
            final(x)@ == diffused(arith, b, old(x)@, x0@, diff, dt, iter as nat),
            is_grid(final(x)@),
    {
        let rated: u64 = times(arith, dt, diff);
        let once: u64 = times(arith, rated, INNER_SIDE);
        let a: u64 = times(arith, once, INNER_SIDE);
        let six: u64 = times(arith, SIX, a);
        let c: u64 = plus(arith, ONE, six);
        Self::lin_solve(b, x, x0, a, c, iter, arith)
    }
}

} // verus!
