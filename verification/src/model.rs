//! The simulation state: per-run scene parameters and the field buffers of
//! a padded square grid, allocated once at setup and mutated in place by the
//! solver stages every frame.

use vstd::prelude::*;

use crate::fixed::FX_ONE;
use crate::grid::make_field;

verus! {

/// Per-run scene parameters, fixed when the run starts.
pub struct Scene {
    /// Gravity magnitude added to the vertical velocity each frame.
    pub gravity: i64,
    /// Timestep of one frame.
    pub dt: i64,
    /// Gauss-Seidel iteration budget per frame.
    pub num_iters: u32,
    /// Frames simulated so far.
    pub frame_nr: u32,
    /// Over-relaxation factor of the incompressibility sweep.
    pub over_relaxation: i64,
    /// Obstacle centre, x.
    pub obstacle_x: i64,
    /// Obstacle centre, y.
    pub obstacle_y: i64,
    /// Obstacle radius.
    pub obstacle_radius: i64,
    /// Whether the simulation is paused.
    pub paused: bool,
    /// Which prepared scene is loaded.
    pub scene_nr: u32,
    /// Whether the obstacle is drawn.
    pub show_obstacle: bool,
    /// Whether stream lines are drawn.
    pub show_stream_lines: bool,
    /// Whether velocities are drawn.
    pub show_velocities: bool,
    /// Whether the pressure field is drawn.
    pub show_pressure: bool,
    /// Whether the smoke field is drawn.
    pub show_smoke: bool,
    /// Whether the scene still needs its one-time setup.
    pub initial_run: bool,
}

impl Scene {
    /// A scene with the given parameters.
    pub fn new(
        gravity: i64,
        dt: i64,
        num_iters: u32,
        frame_nr: u32,
        over_relaxation: i64,
        obstacle_x: i64,
        obstacle_y: i64,
        obstacle_radius: i64,
        paused: bool,
        scene_nr: u32,
        show_obstacle: bool,
        show_stream_lines: bool,
        show_velocities: bool,
        show_pressure: bool,
        show_smoke: bool,
        initial_run: bool,
    ) -> (r: Scene)
        ensures
            r.gravity == gravity,
            r.dt == dt,
            r.num_iters == num_iters,
            r.frame_nr == frame_nr,
            r.over_relaxation == over_relaxation,
            r.obstacle_x == obstacle_x,
            r.obstacle_y == obstacle_y,
            r.obstacle_radius == obstacle_radius,
            r.paused == paused,
            r.scene_nr == scene_nr,
            r.show_obstacle == show_obstacle,
            r.show_stream_lines == show_stream_lines,
            r.show_velocities == show_velocities,
            r.show_pressure == show_pressure,
            r.show_smoke == show_smoke,
            r.initial_run == initial_run,
    {
        Scene {
            gravity,
            dt,
            num_iters,
            frame_nr,
            over_relaxation,
            obstacle_x,
            obstacle_y,
            obstacle_radius,
            paused,
            scene_nr,
            show_obstacle,
            show_stream_lines,
            show_velocities,
            show_pressure,
            show_smoke,
            initial_run,
        }
    }
}

/// The field buffers of one simulation run: a `grid_size`-by-`grid_size`
/// working area with a one-cell halo on each side.  All fields live for the
/// whole run and are never reallocated.
pub struct Model {
    /// The working grid side, without the halo.
    pub grid_size: usize,
    /// Fluid density.
    pub density: i64,
    /// Grid width including the halo.
    pub num_x: usize,
    /// Grid height including the halo.
    pub num_y: usize,
    /// Cells per field.
    pub num_cells: usize,
    /// Grid spacing.
    pub h: i64,
    /// Velocity x-components.
    pub u: Vec<i64>,
    /// Velocity y-components.
    pub v: Vec<i64>,
    /// Scratch buffer for the x-velocity advection pass.
    pub new_u: Vec<i64>,
    /// Scratch buffer for the y-velocity advection pass.
    pub new_v: Vec<i64>,
    /// Pressure.
    pub p: Vec<i64>,
    /// Solidity mask: open fluid or solid obstacle, per cell.
    pub s: Vec<i64>,
    /// Smoke density.
    pub m: Vec<i64>,
    /// Scratch buffer for the smoke advection pass.
    pub new_m: Vec<i64>,
    /// Cells of the working area, without the halo.
    pub num: usize,
}

impl Model {
    /// The dimensions are consistent and every field has exactly one value
    /// per cell.
    pub open spec fn wf(self) -> bool {
        &&& self.num_x == self.grid_size + 2
        &&& self.num_y == self.grid_size + 2
        &&& self.num_cells == self.num_x * self.num_y
        &&& self.num == self.grid_size * self.grid_size
        &&& self.u@.len() == self.num_cells
        &&& self.v@.len() == self.num_cells
        &&& self.new_u@.len() == self.num_cells
        &&& self.new_v@.len() == self.num_cells
        &&& self.p@.len() == self.num_cells
        &&& self.s@.len() == self.num_cells
        &&& self.m@.len() == self.num_cells
        &&& self.new_m@.len() == self.num_cells
        &&& 3 <= self.num_x
        &&& 3 <= self.num_y
        &&& 1 <= self.h
    }

    /// A freshly allocated run: every field zero except the smoke scratch
    /// buffer, which starts at one.
    pub fn new(grid_size: usize, density: i64, h: i64) -> (r: Model)
        requires
            1 <= grid_size <= 10000,
            1 <= h,
        ensures
            r.wf(),
            r.grid_size == grid_size,
            r.density == density,
            r.h == h,
            forall|k: int|
                0 <= k < r.num_cells ==> r.u@[k] == 0i64 && r.v@[k] == 0i64 && r.new_u@[k] == 0i64
                    && r.new_v@[k] == 0i64 && r.p@[k] == 0i64 && r.s@[k] == 0i64 && r.m@[k] == 0i64
                    && r.new_m@[k] == FX_ONE,
    {
        proof {
            assert((grid_size as int + 2) * (grid_size as int + 2) <= 10002 * 10002)
                by (nonlinear_arith)
                requires
                    1 <= grid_size as int <= 10000,
            ;
            assert(grid_size as int * grid_size as int <= 10000 * 10000) by (nonlinear_arith)
                requires
                    1 <= grid_size as int <= 10000,
            ;
        }
        let num_x: usize = grid_size + 2;
        let num_y: usize = grid_size + 2;
        let num_cells: usize = num_x * num_y;
        Model {
            grid_size,
            density,
            num_x,
            num_y,
            num_cells,
            h,
            u: make_field(num_cells, 0),
            v: make_field(num_cells, 0),
            new_u: make_field(num_cells, 0),
            new_v: make_field(num_cells, 0),
            p: make_field(num_cells, 0),
            s: make_field(num_cells, 0),
            m: make_field(num_cells, 0),
            new_m: make_field(num_cells, FX_ONE),
            num: grid_size * grid_size,
        }
    }
}

} // verus!
