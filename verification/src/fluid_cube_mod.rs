//! The fluid cube: the six grids of one simulation, its configuration, and
//! the sequence of steps that makes one tick.

use vstd::prelude::*;
use crate::advection::{advected, traceable};
use crate::arith::{lawful, plus, sum, Op};
use crate::bits::ZERO;
use crate::boundary::{NONE, X_VELOCITY, Y_VELOCITY};
use crate::grid::{is_grid, ix, CELLS, IX, SIZE};
use crate::projection::{divergence, pressure, projected_x, projected_y};
use crate::solver::diffused;

verus! {

/// Number of relaxation sweeps of every solve within a tick.
pub const SWEEPS: usize = 4;

/// One simulation. Every grid has `SIZE` rows of `SIZE` cells, and every
/// cell and every rate is the bit pattern of a binary64 number.
#[allow(non_camel_case_types)]
pub struct fluid_cube {
    /// Side length of the grids.
    pub size: usize,
    /// Length of a tick.
    pub dt: u64,
    /// Diffusion rate of the dye.
    pub diff: u64,
    /// Viscosity of the fluid.
    pub visc: u64,
    /// Scratch grid of the dye.
    pub s: Vec<u64>,
    /// Dye density.
    pub density: Vec<u64>,
    /// Horizontal velocity.
    pub vx: Vec<u64>,
    /// Vertical velocity.
    pub vy: Vec<u64>,
    /// Scratch grid of the horizontal velocity.
    pub vx0: Vec<u64>,
    /// Scratch grid of the vertical velocity.
    pub vy0: Vec<u64>,
}

/// What a cube holds: its configuration and its six grids.
pub struct CubeState {
    pub dt: u64,
    pub diff: u64,
    pub visc: u64,
    pub s: Seq<u64>,
    pub density: Seq<u64>,
    pub vx: Seq<u64>,
    pub vy: Seq<u64>,
    pub vx0: Seq<u64>,
    pub vy0: Seq<u64>,
}

impl View for fluid_cube {
    type V = CubeState;

    open spec fn view(&self) -> CubeState {
        CubeState {
            dt: self.dt,
            diff: self.diff,
            visc: self.visc,
            s: self.s@,
            density: self.density@,
            vx: self.vx@,
            vy: self.vy@,
            vx0: self.vx0@,
            vy0: self.vy0@,
        }
    }
}

/// The grid whose every cell is zero.
pub open spec fn still() -> Seq<u64> {
    Seq::new(CELLS as nat, |k: int| ZERO)
}

/// The cube after `amount` of dye has been added to the cell in column `x`
/// and row `y`.
pub open spec fn with_density<F: Fn(Op, u64, u64) -> u64>(
    arith: &F,
    c: CubeState,
    x: int,
    y: int,
    amount: u64,
) -> CubeState {
    CubeState { density: c.density.update(ix(x, y), sum(arith, c.density[ix(x, y)], amount)), ..c }
}

/// The cube after the velocity `(amount_x, amount_y)` has been added to
/// the cell in column `x` and row `y`.
pub open spec fn with_velocity<F: Fn(Op, u64, u64) -> u64>(
    arith: &F,
    c: CubeState,
    x: int,
    y: int,
    amount_x: u64,
    amount_y: u64,
) -> CubeState {
    CubeState {
        vx: c.vx.update(ix(x, y), sum(arith, c.vx[ix(x, y)], amount_x)),
        vy: c.vy.update(ix(x, y), sum(arith, c.vy[ix(x, y)], amount_y)),
        ..c
    }
}

/// First stage of a tick: both velocities are diffused at the viscosity
/// into their scratch grids, and the result is projected there, with the
/// velocity grids themselves as scratch for pressure and divergence.
pub open spec fn velocity_spread<F: Fn(Op, u64, u64) -> u64>(arith: &F, c: CubeState) -> CubeState {
    let n = SWEEPS as nat;
    let vx0 = diffused(arith, X_VELOCITY, c.vx0, c.vx, c.visc, c.dt, n);
    let vy0 = diffused(arith, Y_VELOCITY, c.vy0, c.vy, c.visc, c.dt, n);
    CubeState {
        vx0: projected_x(arith, vx0, vy0, c.vx, c.vy, n),
        vy0: projected_y(arith, vy0),
        vx: pressure(arith, vx0, vy0, c.vx, c.vy, n),
        vy: divergence(arith, vx0, vy0, c.vy),
        ..c
    }
}

/// Second stage of a tick: both velocities are carried along the velocity
/// held in the scratch grids, and the result is projected, with the scratch
/// grids as scratch for pressure and divergence.
pub open spec fn velocity_carried<F: Fn(Op, u64, u64) -> u64>(
    arith: &F,
    c: CubeState,
) -> CubeState {
    let n = SWEEPS as nat;
    let vx = advected(arith, X_VELOCITY, c.vx, c.vx0, c.vx0, c.vy0, c.dt);
    let vy = advected(arith, Y_VELOCITY, c.vy, c.vy0, c.vx0, c.vy0, c.dt);
    CubeState {
        vx: projected_x(arith, vx, vy, c.vx0, c.vy0, n),
        vy: projected_y(arith, vy),
        vx0: pressure(arith, vx, vy, c.vx0, c.vy0, n),
        vy0: divergence(arith, vx, vy, c.vy0),
        ..c
    }
}

/// Third stage of a tick: the dye is diffused into its scratch grid.
pub open spec fn density_spread<F: Fn(Op, u64, u64) -> u64>(arith: &F, c: CubeState) -> CubeState {
    CubeState { s: diffused(arith, NONE, c.s, c.density, c.diff, c.dt, SWEEPS as nat), ..c }
}

/// Last stage of a tick: the dye is carried from its scratch grid along
/// the velocity.
pub open spec fn density_carried<F: Fn(Op, u64, u64) -> u64>(
    arith: &F,
    c: CubeState,
) -> CubeState {
    CubeState { density: advected(arith, NONE, c.density, c.s, c.vx, c.vy, c.dt), ..c }
}

/// The cube after one tick, and whether the tick ran to its end. A tick
/// stops before an advection whose backward traces would leave the grid,
/// and the cube then stays as the stages before it left it.
pub open spec fn ticked<F: Fn(Op, u64, u64) -> u64>(arith: &F, c: CubeState) -> (CubeState, bool) {
    let spread = velocity_spread(arith, c);
    if !traceable(arith, spread.vx0, spread.vy0, spread.dt) {
        (spread, false)
    } else {
        let carried = density_spread(arith, velocity_carried(arith, spread));
        if !traceable(arith, carried.vx, carried.vy, carried.dt) {
            (carried, false)
        } else {
            (density_carried(arith, carried), true)
        }
    }
}

/// One call on a cube.
pub enum Call {
    AddDensity { x: usize, y: usize, amount: u64 },
    AddVelocity { x: usize, y: usize, amount_x: u64, amount_y: u64 },
    Step,
}

/// The cube after one call.
pub open spec fn after<F: Fn(Op, u64, u64) -> u64>(arith: &F, c: CubeState, call: Call) -> CubeState {
    match call {
        Call::AddDensity { x, y, amount } => with_density(arith, c, x as int, y as int, amount),
        Call::AddVelocity { x, y, amount_x, amount_y } => with_velocity(
            arith,
            c,
            x as int,
            y as int,
            amount_x,
            amount_y,
        ),
        Call::Step => ticked(arith, c).0,
    }
}

/// The cube after a run of calls, made in order.
pub open spec fn replayed<F: Fn(Op, u64, u64) -> u64>(
    arith: &F,
    c: CubeState,
    calls: Seq<Call>,
) -> CubeState
    decreases calls.len(),
{
    if calls.len() == 0 {
        c
    } else {
        after(arith, replayed(arith, c, calls.drop_last()), calls.last())
    }
}

/// Two runs agree: cubes with the same configuration and the same cells,
/// put through the same calls under the same arithmetic, end with the same
/// cells in every grid.
pub proof fn lemma_runs_agree<F: Fn(Op, u64, u64) -> u64>(
    arith: &F,
    a: CubeState,
    b: CubeState,
    calls: Seq<Call>,
)
    requires
        a.dt == b.dt,
        a.diff == b.diff,
        a.visc == b.visc,
        a.s =~= b.s,
        a.density =~= b.density,
        a.vx =~= b.vx,
        a.vy =~= b.vy,
        a.vx0 =~= b.vx0,
        a.vy0 =~= b.vy0,
    ensures
        replayed(arith, a, calls) == replayed(arith, b, calls),
{
}

impl fluid_cube {
    /// Every grid of the cube has its full set of cells.
    pub open spec fn wf(&self) -> bool {
        &&& self.size == SIZE
        &&& is_grid(self.s@)
        &&& is_grid(self.density@)
        &&& is_grid(self.vx@)
        &&& is_grid(self.vy@)
        &&& is_grid(self.vx0@)
        &&& is_grid(self.vy0@)
    }

    /// A cube at rest: every cell of every grid is zero. The side length is
    /// always `SIZE`; `size` is not consulted.
    pub fn fluid_cube_create(size: usize, diff: u64, visc: u64, dt: u64) -> (cube: Self)
        ensures
            cube.wf(),
            cube.size == SIZE,
            cube@ == (CubeState {
                dt,
                diff,
                visc,
                s: still(),
                density: still(),
                vx: still(),
                vy: still(),
                vx0: still(),
                vy0: still(),
            }),
    {
        let cube = fluid_cube {
            size: SIZE,
            diff,
            visc,
            dt,
            s: vec![ZERO; CELLS],
            density: vec![ZERO; CELLS],
            vx: vec![ZERO; CELLS],
            vy: vec![ZERO; CELLS],
            vx0: vec![ZERO; CELLS],
            vy0: vec![ZERO; CELLS],
        };
        assert(cube.s@ =~= still());
        assert(cube.density@ =~= still());
        assert(cube.vx@ =~= still());
        assert(cube.vy@ =~= still());
        assert(cube.vx0@ =~= still());
        assert(cube.vy0@ =~= still());
        cube
    }

    /// Adds `amount` of dye to the cell in column `x` and row `y`.
    pub fn add_density<F: Fn(Op, u64, u64) -> u64>(
        &mut self,
        x: usize,
        y: usize,
        amount: u64,
        arith: &F,
    )
        requires
            lawful(arith),
            old(self).wf(),
            x < SIZE,
            y < SIZE,
        ensures
            final(self).wf(),
            final(self).size == old(self).size,
            final(self)@ == with_density(arith, old(self)@, x as int, y as int, amount),
    {
        let k: usize = IX(x, y);
        let v: u64 = plus(arith, self.density[k], amount);
        self.density[k] = v;
    }

    /// Adds the velocity `(amount_x, amount_y)` to the cell in column `x`
    /// and row `y`.
    pub fn add_velocity<F: Fn(Op, u64, u64) -> u64>(
        &mut self,
        x: usize,
        y: usize,
        amount_x: u64,
        amount_y: u64,
        arith: &F,
    )
        requires
            lawful(arith),
            old(self).wf(),
            x < SIZE,
            y < SIZE,
        ensures
            final(self).wf(),
            final(self).size == old(self).size,
            final(self)@ == with_velocity(
                arith,
                old(self)@,
                x as int,
                y as int,
                amount_x,
                amount_y,
            ),
    {
        let k: usize = IX(x, y);
        let across: u64 = plus(arith, self.vx[k], amount_x);
        self.vx[k] = across;
        let along: u64 = plus(arith, self.vy[k], amount_y);
        self.vy[k] = along;
    }

    /// Advances the cube by one tick and tells whether the tick ran to its
    /// end.
    ///
    /// The stages, in order: both velocities are diffused at the viscosity
    /// and projected; both are carried along the velocity before the
    /// carrying and projected again; the dye is diffused at the diffusion
    /// rate and carried along the new velocity. Every solve makes `SWEEPS`
    /// sweeps. The tick stops, and `false` is returned, before an advection
    /// whose backward traces would leave the grid.
    pub fn step<F: Fn(Op, u64, u64) -> u64>(&mut self, arith: &F) -> (done: bool)
        requires
            lawful(arith),
            old(self).wf(),
        ensures
            final(self).wf(),
            final(self).size == old(self).size,
            final(self)@ == ticked(arith, old(self)@).0,
            done == ticked(arith, old(self)@).1,
    {
        Self::diffuse(X_VELOCITY, &mut self.vx0, &self.vx, self.visc, self.dt, SWEEPS, arith);
        Self::diffuse(Y_VELOCITY, &mut self.vy0, &self.vy, self.visc, self.dt, SWEEPS, arith);
        Self::project(&mut self.vx0, &mut self.vy0, &mut self.vx, &mut self.vy, SWEEPS, arith);
        if !Self::can_advect(&self.vx0, &self.vy0, self.dt, arith) {
            return false;
        }
        Self::advert(X_VELOCITY, &mut self.vx, &self.vx0, &self.vx0, &self.vy0, self.dt, arith);
        Self::advert(Y_VELOCITY, &mut self.vy, &self.vy0, &self.vx0, &self.vy0, self.dt, arith);
        Self::project(&mut self.vx, &mut self.vy, &mut self.vx0, &mut self.vy0, SWEEPS, arith);
        Self::diffuse(NONE, &mut self.s, &self.density, self.diff, self.dt, SWEEPS, arith);
        if !Self::can_advect(&self.vx, &self.vy, self.dt, arith) {
            return false;
        }
        Self::advert(NONE, &mut self.density, &self.s, &self.vx, &self.vy, self.dt, arith);
        true
    }
}

} // verus!
