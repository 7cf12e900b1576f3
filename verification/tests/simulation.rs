use stable_fluids::arith::Op;
use stable_fluids::bits::{negate, not_a_number, ZERO};
use stable_fluids::boundary::{NONE, X_VELOCITY, Y_VELOCITY};
use stable_fluids::fluid_cube_mod::{fluid_cube, SWEEPS};
use stable_fluids::grid::{CELLS, IX, SIZE};

fn hardware(op: Op, a: u64, b: u64) -> u64 {
    let x = f64::from_bits(a);
    let y = f64::from_bits(b);
    let r = match op {
        Op::Add => x + y,
        Op::Sub => x - y,
        Op::Mul => x * y,
        Op::Div => x / y,
    };
    r.to_bits()
}

fn bits(v: f64) -> u64 {
    v.to_bits()
}

fn pack(g: &Vec<f64>) -> Vec<u64> {
    g.iter().map(|v| v.to_bits()).collect()
}

fn unpack(g: &Vec<u64>) -> Vec<f64> {
    g.iter().map(|v| f64::from_bits(*v)).collect()
}

fn at(g: &Vec<u64>, x: usize, y: usize) -> f64 {
    f64::from_bits(g[IX(x, y)])
}

fn wave(scale: f64, shift: usize) -> Vec<f64> {
    let mut g = vec![0.0; CELLS];
    for y in 0..SIZE {
        for x in 0..SIZE {
            let k = ((x * 7 + y * 13 + shift) % 23) as f64;
            g[IX(x, y)] = (k - 11.0) * scale;
        }
    }
    g
}

// Plain binary64 code for each stage, written straight from the formulas,
// to hold the library against.

fn plain_set_bnd(b: usize, x: &mut Vec<f64>) {
    let n = SIZE;
    for i in 1..n - 1 {
        x[IX(i, 0)] = if b == 2 { -x[IX(i, 1)] } else { x[IX(i, 1)] };
        x[IX(i, n - 1)] = if b == 2 { -x[IX(i, n - 2)] } else { x[IX(i, n - 2)] };
    }
    for j in 1..n - 1 {
        x[IX(0, j)] = if b == 1 { -x[IX(1, j)] } else { x[IX(1, j)] };
        x[IX(n - 1, j)] = if b == 1 { -x[IX(n - 2, j)] } else { x[IX(n - 2, j)] };
    }
    x[IX(0, 0)] = 0.33 * (x[IX(1, 0)] + x[IX(0, 1)] + x[IX(0, 0)]);
    x[IX(0, n - 1)] = 0.33 * (x[IX(1, n - 1)] + x[IX(0, n - 2)] + x[IX(0, n - 1)]);
    x[IX(n - 1, 0)] = 0.33 * (x[IX(n - 2, 0)] + x[IX(n - 1, 1)] + x[IX(n - 1, 0)]);
    x[IX(n - 1, n - 1)] =
        0.33 * (x[IX(n - 2, n - 1)] + x[IX(n - 1, n - 2)] + x[IX(n - 1, n - 1)]);
}

fn plain_lin_solve(b: usize, x: &mut Vec<f64>, x0: &Vec<f64>, a: f64, c: f64, iter: usize) {
    for _ in 0..iter {
        for j in 1..SIZE - 1 {
            for i in 1..SIZE - 1 {
                x[IX(i, j)] = (x0[IX(i, j)]
                    + a * (x[IX(i + 1, j)]
                        + x[IX(i - 1, j)]
                        + x[IX(i, j + 1)]
                        + x[IX(i, j - 1)]
                        + x[IX(i, j)]
                        + x[IX(i, j)]))
                    / c;
            }
        }
        plain_set_bnd(b, x);
    }
}

fn plain_diffuse(b: usize, x: &mut Vec<f64>, x0: &Vec<f64>, rate: f64, dt: f64, iter: usize) {
    let inner = SIZE as f64 - 2.0;
    let a = dt * rate * inner * inner;
    plain_lin_solve(b, x, x0, a, 1.0 + 6.0 * a, iter);
}

fn plain_divergence(vx: &Vec<f64>, vy: &Vec<f64>, i: usize, j: usize) -> f64 {
    -0.5 * (vx[IX(i + 1, j)] - vx[IX(i - 1, j)] + vy[IX(i, j + 1)] - vy[IX(i, j - 1)])
        / SIZE as f64
}

fn plain_project(
    vx: &mut Vec<f64>,
    vy: &mut Vec<f64>,
    p: &mut Vec<f64>,
    div: &mut Vec<f64>,
    iter: usize,
) {
    let side = SIZE as f64;
    for j in 1..SIZE - 1 {
        for i in 1..SIZE - 1 {
            div[IX(i, j)] = plain_divergence(vx, vy, i, j);
            p[IX(i, j)] = 0.0;
        }
    }
    plain_set_bnd(0, div);
    plain_set_bnd(0, p);
    plain_lin_solve(0, p, div, 1.0, 6.0, iter);
    for j in 1..SIZE - 1 {
        for i in 1..SIZE - 1 {
            vx[IX(i, j)] -= 0.5 * (p[IX(i + 1, j)] - p[IX(i - 1, j)]) * side;
            vx[IX(i, j)] -= 0.5 * (p[IX(i, j + 1)] - p[IX(i, j - 1)]) * side;
        }
    }
    plain_set_bnd(1, vx);
    plain_set_bnd(2, vy);
}

fn plain_trace(rate: f64, v: f64, n: usize) -> f64 {
    let mut x = n as f64 - rate * v;
    if x < 0.5 {
        x = 0.5;
    }
    if x > SIZE as f64 + 0.5 {
        x = SIZE as f64 + 0.5;
    }
    x
}

fn plain_can_advect(vx: &Vec<f64>, vy: &Vec<f64>, dt: f64) -> bool {
    let rate = dt * (SIZE as f64 - 2.0);
    for j in 1..SIZE - 1 {
        for i in 1..SIZE - 1 {
            let x = plain_trace(rate, vx[IX(i, j)], i);
            let y = plain_trace(rate, vy[IX(i, j)], j);
            if !x.is_nan() && x.floor() as usize + 1 >= SIZE {
                return false;
            }
            if !y.is_nan() && y.floor() as usize + 1 >= SIZE {
                return false;
            }
        }
    }
    true
}

fn plain_advect(
    b: usize,
    d: &mut Vec<f64>,
    d0: &Vec<f64>,
    vx: &Vec<f64>,
    vy: &Vec<f64>,
    dt: f64,
) {
    let rate = dt * (SIZE as f64 - 2.0);
    for j in 1..SIZE - 1 {
        for i in 1..SIZE - 1 {
            let x = plain_trace(rate, vx[IX(i, j)], i);
            let y = plain_trace(rate, vy[IX(i, j)], j);
            let i0 = x.floor();
            let i1 = i0 + 1.0;
            let j0 = y.floor();
            let j1 = j0 + 1.0;
            let s1 = x - i0;
            let s0 = 1.0 - s1;
            let t1 = y - j0;
            let t0 = 1.0 - t1;
            let (i0, i1, j0, j1) = (i0 as usize, i1 as usize, j0 as usize, j1 as usize);
            d[IX(i, j)] = s0 * (t0 * d0[IX(i0, j0)] + t1 * d0[IX(i0, j1)])
                + s1 * (t0 * d0[IX(i1, j0)] + t1 * d0[IX(i1, j1)]);
        }
    }
    plain_set_bnd(b, d);
}

struct Plain {
    dt: f64,
    diff: f64,
    visc: f64,
    s: Vec<f64>,
    density: Vec<f64>,
    vx: Vec<f64>,
    vy: Vec<f64>,
    vx0: Vec<f64>,
    vy0: Vec<f64>,
}

fn plain_of(c: &fluid_cube) -> Plain {
    Plain {
        dt: f64::from_bits(c.dt),
        diff: f64::from_bits(c.diff),
        visc: f64::from_bits(c.visc),
        s: unpack(&c.s),
        density: unpack(&c.density),
        vx: unpack(&c.vx),
        vy: unpack(&c.vy),
        vx0: unpack(&c.vx0),
        vy0: unpack(&c.vy0),
    }
}

fn plain_step(c: &mut Plain) -> bool {
    plain_diffuse(1, &mut c.vx0, &c.vx, c.visc, c.dt, 4);
    plain_diffuse(2, &mut c.vy0, &c.vy, c.visc, c.dt, 4);
    plain_project(&mut c.vx0, &mut c.vy0, &mut c.vx, &mut c.vy, 4);
    if !plain_can_advect(&c.vx0, &c.vy0, c.dt) {
        return false;
    }
    plain_advect(1, &mut c.vx, &c.vx0, &c.vx0, &c.vy0, c.dt);
    plain_advect(2, &mut c.vy, &c.vy0, &c.vx0, &c.vy0, c.dt);
    plain_project(&mut c.vx, &mut c.vy, &mut c.vx0, &mut c.vy0, 4);
    plain_diffuse(0, &mut c.s, &c.density, c.diff, c.dt, 4);
    if !plain_can_advect(&c.vx, &c.vy, c.dt) {
        return false;
    }
    plain_advect(0, &mut c.density, &c.s, &c.vx, &c.vy, c.dt);
    true
}

fn same_cells(c: &fluid_cube, p: &Plain) {
    assert_eq!(c.s, pack(&p.s));
    assert_eq!(c.density, pack(&p.density));
    assert_eq!(c.vx, pack(&p.vx));
    assert_eq!(c.vy, pack(&p.vy));
    assert_eq!(c.vx0, pack(&p.vx0));
    assert_eq!(c.vy0, pack(&p.vy0));
}

fn all_zero(g: &Vec<u64>) -> bool {
    g.iter().all(|v| f64::from_bits(*v) == 0.0)
}

#[test]
fn create_gives_a_cube_at_rest() {
    let c = fluid_cube::fluid_cube_create(100, bits(0.1), bits(0.2), bits(0.3));
    assert_eq!(c.size, SIZE);
    assert_eq!(c.diff, bits(0.1));
    assert_eq!(c.visc, bits(0.2));
    assert_eq!(c.dt, bits(0.3));
    for g in [&c.s, &c.density, &c.vx, &c.vy, &c.vx0, &c.vy0] {
        assert_eq!(g.len(), CELLS);
        assert!(g.iter().all(|v| *v == ZERO));
    }
}

#[test]
fn create_keeps_the_fixed_side_length() {
    let c = fluid_cube::fluid_cube_create(17, bits(0.0), bits(0.0), bits(0.1));
    assert_eq!(c.size, 100);
    assert_eq!(c.density.len(), 100 * 100);
}

#[test]
fn add_density_accumulates() {
    let mut c = fluid_cube::fluid_cube_create(100, bits(0.0), bits(0.0), bits(0.1));
    c.add_density(50, 50, bits(100.0), &hardware);
    assert_eq!(at(&c.density, 50, 50), 100.0);
    c.add_density(50, 50, bits(0.5), &hardware);
    assert_eq!(at(&c.density, 50, 50), 100.5);
    c.add_density(0, 99, bits(-2.0), &hardware);
    assert_eq!(at(&c.density, 0, 99), -2.0);
    let touched = c.density.iter().filter(|v| **v != ZERO).count();
    assert_eq!(touched, 2);
    assert!(all_zero(&c.vx) && all_zero(&c.vy) && all_zero(&c.s));
}

#[test]
fn add_velocity_accumulates_both_components() {
    let mut c = fluid_cube::fluid_cube_create(100, bits(0.0), bits(0.0), bits(0.1));
    c.add_velocity(10, 10, bits(5.0), bits(0.0), &hardware);
    c.add_velocity(10, 10, bits(1.5), bits(-2.0), &hardware);
    assert_eq!(at(&c.vx, 10, 10), 6.5);
    assert_eq!(at(&c.vy, 10, 10), -2.0);
    assert_eq!(c.vx.iter().filter(|v| **v != ZERO).count(), 1);
    assert_eq!(c.vy.iter().filter(|v| **v != ZERO).count(), 1);
    assert!(all_zero(&c.density));
}

#[test]
fn lin_solve_sees_cells_relaxed_earlier_in_the_sweep() {
    let mut x = vec![ZERO; CELLS];
    let mut x0 = vec![ZERO; CELLS];
    x0[IX(5, 5)] = bits(1.0);
    fluid_cube::lin_solve(NONE, &mut x, &x0, bits(1.0), bits(6.0), 1, &hardware);
    let sixth = 1.0 / 6.0;
    assert_eq!(at(&x, 5, 5), sixth);
    assert_eq!(at(&x, 4, 5), 0.0);
    assert_eq!(at(&x, 5, 4), 0.0);
    assert_eq!(at(&x, 6, 5), sixth / 6.0);
    assert_eq!(at(&x, 7, 5), sixth / 6.0 / 6.0);
    assert_eq!(at(&x, 5, 6), sixth / 6.0);
    assert_eq!(at(&x, 6, 6), (sixth / 6.0 + sixth / 6.0) / 6.0);
}

#[test]
fn lin_solve_counts_the_cell_itself_twice() {
    let mut x = vec![ZERO; CELLS];
    let x0 = vec![ZERO; CELLS];
    x[IX(5, 5)] = bits(3.0);
    fluid_cube::lin_solve(NONE, &mut x, &x0, bits(1.0), bits(6.0), 1, &hardware);
    let above = (0.0 + 1.0 * 3.0) / 6.0;
    let left = (0.0 + 1.0 * 3.0) / 6.0;
    assert_eq!(at(&x, 5, 4), above);
    assert_eq!(at(&x, 4, 5), left);
    assert_eq!(at(&x, 5, 5), (0.0 + 1.0 * (0.0 + left + 0.0 + above + 3.0 + 3.0)) / 6.0);
}

#[test]
fn lin_solve_without_sweeps_leaves_the_grid() {
    let start = pack(&wave(0.25, 3));
    let mut x = start.clone();
    let x0 = pack(&wave(0.5, 1));
    fluid_cube::lin_solve(X_VELOCITY, &mut x, &x0, bits(1.0), bits(6.0), 0, &hardware);
    assert_eq!(x, start);
}

#[test]
fn lin_solve_agrees_with_plain_code() {
    for b in [NONE, X_VELOCITY, Y_VELOCITY] {
        let mut x = pack(&wave(0.25, 3));
        let x0 = pack(&wave(0.5, 1));
        let mut px = wave(0.25, 3);
        let px0 = wave(0.5, 1);
        fluid_cube::lin_solve(b, &mut x, &x0, bits(0.7), bits(5.2), 4, &hardware);
        plain_lin_solve(b, &mut px, &px0, 0.7, 5.2, 4);
        assert_eq!(x, pack(&px));
    }
}

#[test]
fn diffuse_derives_its_coefficients_from_the_rate() {
    let mut x = vec![ZERO; CELLS];
    let mut x0 = vec![ZERO; CELLS];
    x0[IX(5, 5)] = bits(1.0);
    fluid_cube::diffuse(NONE, &mut x, &x0, bits(0.1), bits(0.1), 1, &hardware);
    let a = 0.1 * 0.1 * 98.0 * 98.0;
    let c = 1.0 + 6.0 * a;
    assert_eq!(at(&x, 5, 5), 1.0 / c);
    assert_eq!(at(&x, 6, 5), (0.0 + a * (1.0 / c)) / c);
}

#[test]
fn diffuse_at_rate_zero_copies_the_interior() {
    let x0 = pack(&wave(0.5, 1));
    let mut x = vec![ZERO; CELLS];
    fluid_cube::diffuse(NONE, &mut x, &x0, bits(0.0), bits(0.1), 4, &hardware);
    for j in 1..SIZE - 1 {
        for i in 1..SIZE - 1 {
            assert_eq!(at(&x, i, j), at(&x0, i, j));
        }
    }
}

#[test]
fn diffuse_agrees_with_plain_code() {
    let mut x = pack(&wave(0.25, 3));
    let x0 = pack(&wave(0.5, 1));
    let mut px = wave(0.25, 3);
    let px0 = wave(0.5, 1);
    fluid_cube::diffuse(Y_VELOCITY, &mut x, &x0, bits(0.003), bits(0.1), 4, &hardware);
    plain_diffuse(Y_VELOCITY, &mut px, &px0, 0.003, 0.1, 4);
    assert_eq!(x, pack(&px));
}

#[test]
fn project_agrees_with_plain_code() {
    let mut vx = pack(&wave(0.01, 0));
    let mut vy = pack(&wave(0.02, 5));
    let mut p = pack(&wave(1.0, 9));
    let mut div = pack(&wave(2.0, 4));
    let mut pvx = wave(0.01, 0);
    let mut pvy = wave(0.02, 5);
    let mut pp = wave(1.0, 9);
    let mut pdiv = wave(2.0, 4);
    fluid_cube::project(&mut vx, &mut vy, &mut p, &mut div, 4, &hardware);
    plain_project(&mut pvx, &mut pvy, &mut pp, &mut pdiv, 4);
    assert_eq!(vx, pack(&pvx));
    assert_eq!(vy, pack(&pvy));
    assert_eq!(p, pack(&pp));
    assert_eq!(div, pack(&pdiv));
}

#[test]
fn project_writes_the_divergence() {
    let vx0 = wave(0.01, 0);
    let vy0 = wave(0.02, 5);
    let mut vx = pack(&vx0);
    let mut vy = pack(&vy0);
    let mut p = vec![ZERO; CELLS];
    let mut div = vec![ZERO; CELLS];
    fluid_cube::project(&mut vx, &mut vy, &mut p, &mut div, 4, &hardware);
    let expected = -0.5
        * (vx0[IX(21, 30)] - vx0[IX(19, 30)] + vy0[IX(20, 31)] - vy0[IX(20, 29)])
        / 100.0;
    assert_eq!(at(&div, 20, 30), expected);
}

#[test]
fn project_keeps_the_interior_of_the_vertical_velocity() {
    let vy0 = pack(&wave(0.02, 5));
    let mut vx = pack(&wave(0.01, 0));
    let mut vy = vy0.clone();
    let mut p = vec![ZERO; CELLS];
    let mut div = vec![ZERO; CELLS];
    fluid_cube::project(&mut vx, &mut vy, &mut p, &mut div, 4, &hardware);
    for j in 1..SIZE - 1 {
        for i in 1..SIZE - 1 {
            assert_eq!(vy[IX(i, j)], vy0[IX(i, j)]);
        }
    }
    for i in 1..SIZE - 1 {
        assert_eq!(vy[IX(i, 0)], negate(vy[IX(i, 1)]));
    }
}

#[test]
fn project_reduces_the_divergence_of_a_source() {
    let mut vx = vec![0.0; CELLS];
    let mut vy = vec![0.0; CELLS];
    for j in 40..60 {
        for i in 40..60 {
            vx[IX(i, j)] = (i as f64 - 50.0) * 0.1;
            vy[IX(i, j)] = (j as f64 - 50.0) * 0.1;
        }
    }
    let total = |vx: &Vec<f64>, vy: &Vec<f64>| {
        let mut sum = 0.0;
        for j in 1..SIZE - 1 {
            for i in 1..SIZE - 1 {
                sum += plain_divergence(vx, vy, i, j).abs();
            }
        }
        sum
    };
    let before = total(&vx, &vy);
    let mut bx = pack(&vx);
    let mut by = pack(&vy);
    let mut p = vec![ZERO; CELLS];
    let mut div = vec![ZERO; CELLS];
    fluid_cube::project(&mut bx, &mut by, &mut p, &mut div, SWEEPS, &hardware);
    let after = total(&unpack(&bx), &unpack(&by));
    assert!(before > 1.0);
    assert!(after < before);
}

#[test]
fn advect_at_rest_copies_the_interior() {
    let d0 = pack(&wave(0.5, 1));
    let mut d = vec![ZERO; CELLS];
    let still = vec![ZERO; CELLS];
    assert!(fluid_cube::can_advect(&still, &still, bits(0.1), &hardware));
    fluid_cube::advert(NONE, &mut d, &d0, &still, &still, bits(0.1), &hardware);
    for j in 1..SIZE - 1 {
        for i in 1..SIZE - 1 {
            assert_eq!(at(&d, i, j), at(&d0, i, j));
        }
    }
    assert_eq!(d[IX(0, 7)], d[IX(1, 7)]);
}

#[test]
fn advect_blends_between_cells() {
    let mut d0 = vec![ZERO; CELLS];
    d0[IX(18, 30)] = bits(2.0);
    d0[IX(19, 30)] = bits(8.0);
    let mut vx = vec![ZERO; CELLS];
    let vy = vec![ZERO; CELLS];
    let dt = 0.0078125;
    assert_eq!(dt * 98.0, 0.765625);
    vx[IX(20, 30)] = bits(2.0);
    let mut d = vec![ZERO; CELLS];
    assert!(fluid_cube::can_advect(&vx, &vy, bits(dt), &hardware));
    fluid_cube::advert(NONE, &mut d, &d0, &vx, &vy, bits(dt), &hardware);
    // The trace lands at 20 - 1.53125 = 18.46875 in row 30.
    assert_eq!(at(&d, 20, 30), 0.53125 * 2.0 + 0.46875 * 8.0);
    assert_eq!(at(&d, 20, 30), 4.8125);
    assert_eq!(at(&d, 19, 30), 8.0);
    assert_eq!(at(&d, 18, 30), 2.0);
    assert_eq!(at(&d, 21, 30), 0.0);
}

#[test]
fn advect_takes_the_coordinate_from_the_cell_itself() {
    let d0 = pack(&wave(0.5, 1));
    let still = vec![ZERO; CELLS];
    let mut d = vec![ZERO; CELLS];
    fluid_cube::advert(NONE, &mut d, &d0, &still, &still, bits(0.1), &hardware);
    assert_eq!(d[IX(1, 2)], d0[IX(1, 2)]);
    assert_eq!(d[IX(98, 98)], d0[IX(98, 98)]);
    assert_eq!(d[IX(1, 98)], d0[IX(1, 98)]);
}

#[test]
fn advect_agrees_with_plain_code() {
    for b in [NONE, X_VELOCITY, Y_VELOCITY] {
        let mut vxf = wave(0.3, 0);
        let mut vyf = wave(0.2, 5);
        // Keep every trace on the grid: nothing flows in from the far edges.
        for j in 0..SIZE {
            for i in 0..SIZE {
                if i > 60 {
                    vxf[IX(i, j)] = vxf[IX(i, j)].abs();
                }
                if j > 60 {
                    vyf[IX(i, j)] = vyf[IX(i, j)].abs();
                }
            }
        }
        let d0f = wave(0.5, 1);
        let mut df = wave(1.5, 2);
        let mut d = pack(&df);
        assert!(plain_can_advect(&vxf, &vyf, 0.1));
        assert!(fluid_cube::can_advect(&pack(&vxf), &pack(&vyf), bits(0.1), &hardware));
        fluid_cube::advert(b, &mut d, &pack(&d0f), &pack(&vxf), &pack(&vyf), bits(0.1), &hardware);
        plain_advect(b, &mut df, &d0f, &vxf, &vyf, 0.1);
        assert_eq!(d, pack(&df));
    }
}

#[test]
fn advect_clamps_traces_that_leave_at_the_near_edges() {
    let mut d0 = vec![ZERO; CELLS];
    d0[IX(0, 30)] = bits(3.0);
    d0[IX(1, 30)] = bits(5.0);
    let mut vx = vec![ZERO; CELLS];
    let vy = vec![ZERO; CELLS];
    vx[IX(20, 30)] = bits(1000.0);
    let mut d = vec![ZERO; CELLS];
    assert!(fluid_cube::can_advect(&vx, &vy, bits(0.1), &hardware));
    fluid_cube::advert(NONE, &mut d, &d0, &vx, &vy, bits(0.1), &hardware);
    assert_eq!(at(&d, 20, 30), 0.5 * 3.0 + 0.5 * 5.0);
}

#[test]
fn can_advect_refuses_traces_past_the_far_edges() {
    let still = vec![ZERO; CELLS];
    let mut vx = vec![ZERO; CELLS];
    vx[IX(20, 30)] = bits(-1000.0);
    assert!(!fluid_cube::can_advect(&vx, &still, bits(0.1), &hardware));
    assert!(!fluid_cube::can_advect(&still, &vx, bits(0.1), &hardware));
    let mut gentle = vec![ZERO; CELLS];
    gentle[IX(98, 30)] = bits(-0.05);
    assert!(fluid_cube::can_advect(&gentle, &still, bits(0.1), &hardware));
    let mut last = vec![ZERO; CELLS];
    last[IX(98, 30)] = bits(-0.2);
    assert!(!fluid_cube::can_advect(&last, &still, bits(0.1), &hardware));
}

#[test]
fn advect_passes_on_what_is_not_a_number() {
    let d0 = pack(&wave(0.5, 1));
    let mut vx = vec![ZERO; CELLS];
    let vy = vec![ZERO; CELLS];
    vx[IX(20, 30)] = bits(f64::NAN);
    let mut d = vec![ZERO; CELLS];
    assert!(fluid_cube::can_advect(&vx, &vy, bits(0.1), &hardware));
    fluid_cube::advert(NONE, &mut d, &d0, &vx, &vy, bits(0.1), &hardware);
    assert!(not_a_number(d[IX(20, 30)]));
    assert_eq!(d[IX(21, 30)], d0[IX(21, 30)]);
}

#[test]
fn cube_at_rest_stays_at_rest() {
    let mut c = fluid_cube::fluid_cube_create(100, bits(0.1), bits(0.1), bits(0.1));
    for _ in 0..5 {
        assert!(c.step(&hardware));
        for g in [&c.s, &c.density, &c.vx, &c.vy, &c.vx0, &c.vy0] {
            assert!(all_zero(g));
        }
    }
}

#[test]
fn dye_stays_put_without_diffusion_and_flow() {
    let mut c = fluid_cube::fluid_cube_create(100, bits(0.0), bits(0.0), bits(0.1));
    c.add_density(50, 50, bits(100.0), &hardware);
    for _ in 0..5 {
        assert!(c.step(&hardware));
        for y in 0..SIZE {
            for x in 0..SIZE {
                let expected = if x == 50 && y == 50 { 100.0 } else { 0.0 };
                assert_eq!(at(&c.density, x, y), expected);
            }
        }
    }
}

#[test]
fn one_push_keeps_the_wall_law_and_a_still_vertical_velocity() {
    let mut c = fluid_cube::fluid_cube_create(100, bits(0.1), bits(0.0), bits(0.1));
    c.add_velocity(10, 10, bits(5.0), bits(0.0), &hardware);
    assert!(c.step(&hardware));
    assert_eq!(at(&c.vx, 0, 10), -at(&c.vx, 1, 10));
    assert!(at(&c.vx, 1, 10) != 0.0);
    for j in 1..SIZE - 1 {
        assert_eq!(at(&c.vx, 0, j), -at(&c.vx, 1, j));
        assert_eq!(at(&c.vx, SIZE - 1, j), -at(&c.vx, SIZE - 2, j));
    }
    // The projection takes the pressure's slope out of the horizontal
    // velocity alone, so the vertical one is still zero everywhere.
    assert!(all_zero(&c.vy));
    assert!(!all_zero(&c.vx));
}

#[test]
fn equal_runs_give_equal_cells() {
    let run = || {
        let mut c = fluid_cube::fluid_cube_create(100, bits(0.1), bits(0.001), bits(0.1));
        c.add_density(30, 40, bits(50.0), &hardware);
        c.add_velocity(30, 40, bits(0.5), bits(0.25), &hardware);
        assert!(c.step(&hardware));
        c.add_density(31, 40, bits(5.0), &hardware);
        assert!(c.step(&hardware));
        c
    };
    let a = run();
    let b = run();
    assert_eq!(a.s, b.s);
    assert_eq!(a.density, b.density);
    assert_eq!(a.vx, b.vx);
    assert_eq!(a.vy, b.vy);
    assert_eq!(a.vx0, b.vx0);
    assert_eq!(a.vy0, b.vy0);
}

#[test]
fn step_agrees_with_plain_code() {
    let mut c = fluid_cube::fluid_cube_create(100, bits(0.1), bits(0.001), bits(0.1));
    c.add_density(30, 40, bits(50.0), &hardware);
    c.add_density(60, 20, bits(25.0), &hardware);
    c.add_velocity(30, 40, bits(0.5), bits(0.25), &hardware);
    c.add_velocity(61, 20, bits(-0.5), bits(0.75), &hardware);
    let mut p = plain_of(&c);
    for _ in 0..3 {
        let done = c.step(&hardware);
        assert_eq!(done, plain_step(&mut p));
        assert!(done);
        same_cells(&c, &p);
    }
    assert!(!all_zero(&c.density));
    assert!(!all_zero(&c.vy));
}

#[test]
fn step_stops_before_a_trace_leaves_the_grid() {
    let mut c = fluid_cube::fluid_cube_create(100, bits(0.1), bits(0.0), bits(0.1));
    c.add_density(50, 50, bits(1.0), &hardware);
    c.add_velocity(50, 50, bits(0.0), bits(-1.0e6), &hardware);
    let mut p = plain_of(&c);
    let done = c.step(&hardware);
    assert!(!done);
    assert_eq!(done, plain_step(&mut p));
    same_cells(&c, &p);
    assert_eq!(at(&c.density, 50, 50), 1.0);
}

#[test]
fn a_tick_length_that_is_not_a_number_spreads_silently() {
    let mut c = fluid_cube::fluid_cube_create(100, bits(0.1), bits(0.1), bits(f64::NAN));
    c.add_density(50, 50, bits(1.0), &hardware);
    assert!(c.step(&hardware));
    assert!(not_a_number(c.density[IX(50, 50)]));
    assert!(not_a_number(c.vx[IX(20, 20)]));
}
