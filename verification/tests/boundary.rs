use stable_fluids::arith::Op;
use stable_fluids::boundary::{NONE, X_VELOCITY, Y_VELOCITY};
use stable_fluids::fluid_cube_mod::fluid_cube;
use stable_fluids::grid::{CELLS, IX, SIZE};

fn hardware(op: Op, a: u64, b: u64) -> u64 {
    let x = f64::from_bits(a);
    let y = f64::from_bits(b);
    let r = match op {
        Op::Add => x + y,
        Op::Sub => x - y,
        Op::Mul => x * y,
        Op::Div => x / y,
    };
    r.to_bits()
}

fn pattern() -> Vec<u64> {
    let mut g = vec![0u64; CELLS];
    for y in 0..SIZE {
        for x in 0..SIZE {
            let v = (x as f64) * 1.25 - (y as f64) * 0.75 + 0.125;
            g[IX(x, y)] = v.to_bits();
        }
    }
    g
}

fn at(g: &Vec<u64>, x: usize, y: usize) -> f64 {
    f64::from_bits(g[IX(x, y)])
}

#[test]
fn x_velocity_mirrors_columns_with_flipped_sign() {
    let mut g = pattern();
    fluid_cube::set_bnd(X_VELOCITY, &mut g, &hardware);
    let n = SIZE;
    for j in 1..n - 1 {
        assert_eq!(at(&g, 0, j), -at(&g, 1, j));
        assert_eq!(at(&g, n - 1, j), -at(&g, n - 2, j));
        assert_eq!(g[IX(0, j)], (-at(&g, 1, j)).to_bits());
    }
    for i in 1..n - 1 {
        assert_eq!(at(&g, i, 0), at(&g, i, 1));
        assert_eq!(at(&g, i, n - 1), at(&g, i, n - 2));
    }
}

#[test]
fn y_velocity_mirrors_rows_with_flipped_sign() {
    let mut g = pattern();
    fluid_cube::set_bnd(Y_VELOCITY, &mut g, &hardware);
    let n = SIZE;
    for i in 1..n - 1 {
        assert_eq!(at(&g, i, 0), -at(&g, i, 1));
        assert_eq!(at(&g, i, n - 1), -at(&g, i, n - 2));
    }
    for j in 1..n - 1 {
        assert_eq!(at(&g, 0, j), at(&g, 1, j));
        assert_eq!(at(&g, n - 1, j), at(&g, n - 2, j));
    }
}

#[test]
fn plain_field_mirrors_unchanged() {
    let mut g = pattern();
    fluid_cube::set_bnd(NONE, &mut g, &hardware);
    let n = SIZE;
    for i in 1..n - 1 {
        assert_eq!(g[IX(i, 0)], g[IX(i, 1)]);
        assert_eq!(g[IX(i, n - 1)], g[IX(i, n - 2)]);
        assert_eq!(g[IX(0, i)], g[IX(1, i)]);
        assert_eq!(g[IX(n - 1, i)], g[IX(n - 2, i)]);
    }
}

#[test]
fn unknown_kind_mirrors_unchanged() {
    let mut g = pattern();
    let mut h = pattern();
    fluid_cube::set_bnd(7, &mut g, &hardware);
    fluid_cube::set_bnd(NONE, &mut h, &hardware);
    assert_eq!(g, h);
}

#[test]
fn boundary_leaves_the_interior() {
    let before = pattern();
    let mut g = pattern();
    fluid_cube::set_bnd(X_VELOCITY, &mut g, &hardware);
    for j in 1..SIZE - 1 {
        for i in 1..SIZE - 1 {
            assert_eq!(g[IX(i, j)], before[IX(i, j)]);
        }
    }
}

#[test]
fn corners_blend_edges_with_old_corner() {
    let before = pattern();
    let mut g = pattern();
    fluid_cube::set_bnd(NONE, &mut g, &hardware);
    let n = SIZE;
    let old = |x: usize, y: usize| f64::from_bits(before[IX(x, y)]);
    assert_eq!(at(&g, 0, 0), 0.33 * (at(&g, 1, 0) + at(&g, 0, 1) + old(0, 0)));
    assert_eq!(at(&g, 0, n - 1), 0.33 * (at(&g, 1, n - 1) + at(&g, 0, n - 2) + old(0, n - 1)));
    assert_eq!(at(&g, n - 1, 0), 0.33 * (at(&g, n - 2, 0) + at(&g, n - 1, 1) + old(n - 1, 0)));
    assert_eq!(
        at(&g, n - 1, n - 1),
        0.33 * (at(&g, n - 2, n - 1) + at(&g, n - 1, n - 2) + old(n - 1, n - 1))
    );
}

#[test]
fn corner_formula_on_chosen_values() {
    let mut g = vec![0u64; CELLS];
    g[IX(1, 1)] = 2.0f64.to_bits();
    g[IX(0, 0)] = 4.0f64.to_bits();
    fluid_cube::set_bnd(NONE, &mut g, &hardware);
    assert_eq!(at(&g, 1, 0), 2.0);
    assert_eq!(at(&g, 0, 1), 2.0);
    assert_eq!(at(&g, 0, 0), 0.33 * (2.0 + 2.0 + 4.0));
    assert_eq!(g[IX(0, 0)], 2.64f64.to_bits());
    let mut h = vec![0u64; CELLS];
    h[IX(1, 1)] = 2.0f64.to_bits();
    h[IX(0, 0)] = 4.0f64.to_bits();
    fluid_cube::set_bnd(X_VELOCITY, &mut h, &hardware);
    assert_eq!(at(&h, 1, 0), 2.0);
    assert_eq!(at(&h, 0, 1), -2.0);
    assert_eq!(at(&h, 0, 0), 0.33 * (2.0 + -2.0 + 4.0));
}
