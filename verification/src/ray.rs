//! DDA stepping: walking a ray across the grid one grid-line crossing at a
//! time.  The two axis intersectors share one stepping skeleton
//! ([`dda_walk`]) and differ only in how the first crossing and the step
//! vector are derived: the horizontal-line variant crosses one horizontal
//! grid line per step, the vertical-line variant one vertical grid line.

use vstd::prelude::*;

verus! {

use vstd::arithmetic::div_mod::{
    lemma_div_minus_one, lemma_div_of0, lemma_div_plus_one, lemma_div_pos_is_pos,
    lemma_fundamental_div_mod, lemma_fundamental_div_mod_converse,
    lemma_mod_add_multiples_vanish, lemma_mod_sub_multiples_vanish,
    lemma_multiply_divide_lt,
};
use crate::grid::GridMap;
use crate::nums::floor_div;
use crate::overlay::VisitedOverlay;

/// Largest accepted per-step run or rise, in world units.
pub const RUN_LIMIT: i64 = 35184372088832;

/// Largest world coordinate a stepping walk may start from.
pub const START_LIMIT: i64 = 140737488355328;

/// Largest world coordinate a bounded walk can reach from an in-range
/// start: the start limit plus a full walk of maximal steps.
pub const WALK_LIMIT: i64 = 576460752303423488;

/// Integer summary of a ray's angle: everything the stepping logic reads.
///
/// `run` is the absolute horizontal distance the ray covers while rising or
/// falling through one full grid cell (`grid_size * |cot(angle)|`); `rise`
/// is the absolute vertical distance covered while running through one full
/// grid cell (`grid_size * |tan(angle)|`).  `h_parallel` marks a ray
/// (near-)parallel to the horizontal grid lines, which therefore never
/// crosses one; `v_parallel` likewise for the vertical grid lines.
#[derive(Clone, Copy, Debug, PartialEq, Eq, Structural)]
pub struct RayDir {
    pub facing_right: bool,
    pub facing_up: bool,
    pub h_parallel: bool,
    pub v_parallel: bool,
    pub run: i64,
    pub rise: i64,
}

impl RayDir {
    /// Well-formedness: the per-cell run and rise are nonnegative and small
    /// enough that a full walk stays in range.
    pub open spec fn wf(&self) -> bool {
        &&& 0 <= self.run <= RUN_LIMIT
        &&& 0 <= self.rise <= RUN_LIMIT
    }

    /// Builds a direction summary, rejecting out-of-range step lengths.
    pub fn new(
        facing_right: bool,
        facing_up: bool,
        h_parallel: bool,
        v_parallel: bool,
        run: i64,
        rise: i64,
    ) -> (r: Option<RayDir>)
        ensures
            match r {
                Some(dir) => {
                    &&& dir.wf()
                    &&& dir == (RayDir {
                        facing_right,
                        facing_up,
                        h_parallel,
                        v_parallel,
                        run,
                        rise,
                    })
                },
                None => !(0 <= run <= RUN_LIMIT && 0 <= rise <= RUN_LIMIT),
            },
    {
        if 0 <= run && run <= RUN_LIMIT && 0 <= rise && rise <= RUN_LIMIT {
            Some(RayDir { facing_right, facing_up, h_parallel, v_parallel, run, rise })
        } else {
            None
        }
    }

    /// Sign of the ray's cotangent (and tangent): positive exactly when the
    /// horizontal and vertical facing directions agree.
    pub open spec fn slope_sign(&self) -> int {
        if self.facing_right == self.facing_up {
            1
        } else {
            -1
        }
    }
}

/// Where stepping along one grid-line family ended: a blocking cell entered
/// at `(x, y)`, or no crossing at all (a parallel ray, an origin outside the
/// grid, or fuel exhausted).
pub enum MaybePoint {
    At { x: int, y: int },
    Infinite,
}

/// Run-time result of one axis intersector.
#[derive(Clone, Copy, Debug, PartialEq, Eq, Structural)]
pub enum Intersection {
    Hit { x: i64, y: i64 },
    Infinite,
}

impl Intersection {
    /// The mathematical value of this result.
    pub open spec fn model(self) -> MaybePoint {
        match self {
            Intersection::Hit { x, y } => MaybePoint::At { x: x as int, y: y as int },
            Intersection::Infinite => MaybePoint::Infinite,
        }
    }
}

/// One DDA walk: from `(x, y)`, step by `(dx, dy)` until a blocking cell is
/// reached, giving up (`Infinite`) once the fuel runs out.
pub open spec fn dda_hit(map: GridMap, x: int, y: int, dx: int, dy: int, fuel: nat) -> MaybePoint
    decreases fuel,
{
    if map.wall_world(x, y) {
        MaybePoint::At { x, y }
    } else if fuel == 0 {
        MaybePoint::Infinite
    } else {
        dda_hit(map, x + dx, y + dy, dx, dy, (fuel - 1) as nat)
    }
}

/// The shared stepping skeleton: walks from the first crossing by the step
/// vector until a blocking cell, bounded by the map's step bound.
pub fn dda_walk(map: &GridMap, start_x: i64, start_y: i64, dx: i64, dy: i64) -> (r: Intersection)
    requires
        map.wf(),
        -START_LIMIT <= start_x <= START_LIMIT,
        -START_LIMIT <= start_y <= START_LIMIT,
        -RUN_LIMIT <= dx <= RUN_LIMIT,
        -RUN_LIMIT <= dy <= RUN_LIMIT,
    ensures
        r.model() == dda_hit(
            *map,
            start_x as int,
            start_y as int,
            dx as int,
            dy as int,
            map.step_bound(),
        ),
        match r {
            Intersection::Hit { x, y } => {
                &&& -WALK_LIMIT <= x <= WALK_LIMIT
                &&& -WALK_LIMIT <= y <= WALK_LIMIT
            },
            Intersection::Infinite => true,
        },
{
    let bound = map.step_bound_exec();
    let mut x = start_x;
    let mut y = start_y;
    let mut k: usize = 0;
    let mut hit_wall = map.is_wall_at(x, y);
    #[verifier::loop_isolation(false)]
    while !hit_wall && k < bound
        invariant
            k <= bound,
            x == start_x + k * (dx as int),
            y == start_y + k * (dy as int),
            -(START_LIMIT as int) - (k as int) * (RUN_LIMIT as int) <= x
                <= START_LIMIT as int + (k as int) * (RUN_LIMIT as int),
            -(START_LIMIT as int) - (k as int) * (RUN_LIMIT as int) <= y
                <= START_LIMIT as int + (k as int) * (RUN_LIMIT as int),
            hit_wall == map.wall_world(x as int, y as int),
            dda_hit(
                *map,
                start_x as int,
                start_y as int,
                dx as int,
                dy as int,
                map.step_bound(),
            ) == dda_hit(*map, x as int, y as int, dx as int, dy as int, (bound - k) as nat),
        decreases bound - k,
    {
        proof {
            assert((k + 1) * (dx as int) == k * (dx as int) + dx) by (nonlinear_arith);
            assert((k + 1) * (dy as int) == k * (dy as int) + dy) by (nonlinear_arith);
        }
        x = x + dx;
        y = y + dy;
        k = k + 1;
        hit_wall = map.is_wall_at(x, y);
    }
    if hit_wall {
        Intersection::Hit { x, y }
    } else {
        Intersection::Infinite
    }
}

impl GridMap {
    /// World-coordinate extent of the map along the x axis.
    pub open spec fn x_extent(&self) -> int {
        self.width() * self.grid_size
    }

    /// World-coordinate extent of the map along the y axis.
    pub open spec fn y_extent(&self) -> int {
        self.height() * self.grid_size
    }

    /// Checks whether `(x, y)` lies strictly inside the grid's
    /// world-coordinate range.
    pub fn contains_point(&self, x: i64, y: i64) -> (b: bool)
        requires
            self.wf(),
        ensures
            b == self.in_grid(x as int, y as int),
    {
        proof {
            assert(self.layout()[0] == self.cells@[0]@);
            assert(0 < self.x_extent() <= 4096 * 1048576 && 0 < self.y_extent() <= 4096
                * 1048576) by (nonlinear_arith)
                requires
                    1 <= self.width() <= 4096,
                    1 <= self.height() <= 4096,
                    1 <= self.grid_size <= 1048576,
                    self.x_extent() == self.width() * self.grid_size,
                    self.y_extent() == self.height() * self.grid_size,
            ;
        }
        let w_extent = (self.cells[0].len() as i64) * self.grid_size;
        let h_extent = (self.cells.len() as i64) * self.grid_size;
        0 <= x && x < w_extent && 0 <= y && y < h_extent
    }
}

/// First crossing of a horizontal grid line: the y coordinate, snapped to
/// the grid line just past the cell edge in the ray's vertical direction.
pub open spec fn h_entry_y(map: GridMap, y: int, dir: RayDir) -> int {
    let gs = map.grid_size as int;
    if dir.facing_up {
        (y / gs) * gs - 1
    } else {
        (y / gs) * gs + gs
    }
}

/// First crossing of a horizontal grid line: the x coordinate, offset from
/// the origin by the run matching the snapped rise.
pub open spec fn h_entry_x(map: GridMap, x: int, y: int, dir: RayDir) -> int {
    let gs = map.grid_size as int;
    x + ((y - h_entry_y(map, y, dir)) * dir.slope_sign() * dir.run) / gs
}

/// Horizontal-line stepping: x advances by the run, signed by the facing
/// direction.
pub open spec fn h_step_x(dir: RayDir) -> int {
    if dir.facing_right {
        dir.run as int
    } else {
        -(dir.run as int)
    }
}

/// Horizontal-line stepping: y advances by one cell edge toward the facing
/// direction.
pub open spec fn h_step_y(map: GridMap, dir: RayDir) -> int {
    if dir.facing_up {
        -(map.grid_size as int)
    } else {
        map.grid_size as int
    }
}

/// What the horizontal-line intersector returns: `Infinite` for a ray
/// parallel to the horizontal lines or an origin outside the grid, else the
/// bounded walk from the first crossing.
pub open spec fn spec_h_intersect(map: GridMap, x: int, y: int, dir: RayDir) -> MaybePoint {
    if dir.h_parallel || !map.in_grid(x, y) {
        MaybePoint::Infinite
    } else {
        dda_hit(
            map,
            h_entry_x(map, x, y, dir),
            h_entry_y(map, y, dir),
            h_step_x(dir),
            h_step_y(map, dir),
            map.step_bound(),
        )
    }
}

/// First crossing of a vertical grid line: the x coordinate, snapped to the
/// grid line just past the cell edge in the ray's horizontal direction.
pub open spec fn v_entry_x(map: GridMap, x: int, dir: RayDir) -> int {
    let gs = map.grid_size as int;
    if dir.facing_right {
        (x / gs) * gs + gs
    } else {
        (x / gs) * gs - 1
    }
}

/// First crossing of a vertical grid line: the y coordinate, offset from
/// the origin by the rise matching the snapped run.
pub open spec fn v_entry_y(map: GridMap, x: int, y: int, dir: RayDir) -> int {
    let gs = map.grid_size as int;
    y + ((x - v_entry_x(map, x, dir)) * dir.slope_sign() * dir.rise) / gs
}

/// Vertical-line stepping: x advances by one cell edge toward the facing
/// direction.
pub open spec fn v_step_x(map: GridMap, dir: RayDir) -> int {
    if dir.facing_right {
        map.grid_size as int
    } else {
        -(map.grid_size as int)
    }
}

/// Vertical-line stepping: y advances by the rise, signed by the facing
/// direction.
pub open spec fn v_step_y(dir: RayDir) -> int {
    if dir.facing_up {
        -(dir.rise as int)
    } else {
        dir.rise as int
    }
}

/// What the vertical-line intersector returns.
pub open spec fn spec_v_intersect(map: GridMap, x: int, y: int, dir: RayDir) -> MaybePoint {
    if dir.v_parallel || !map.in_grid(x, y) {
        MaybePoint::Infinite
    } else {
        dda_hit(
            map,
            v_entry_x(map, x, dir),
            v_entry_y(map, x, y, dir),
            v_step_x(map, dir),
            v_step_y(dir),
            map.step_bound(),
        )
    }
}

/// Bounds the quotient of the partial-cell offset: the product of at most
/// one cell edge (plus one) and one run, divided by the cell edge.
proof fn lemma_entry_offset_bounds(p: int, gs: int, q: int)
    requires
        1 <= gs,
        -(gs + 1) * (RUN_LIMIT as int) <= p <= (gs + 1) * (RUN_LIMIT as int),
        q == p / gs,
    ensures
        -2 * (RUN_LIMIT as int) - 1 <= q <= 2 * (RUN_LIMIT as int) + 1,
{
    lemma_fundamental_div_mod(p, gs);
    assert(-2 * (RUN_LIMIT as int) - 1 <= q <= 2 * (RUN_LIMIT as int) + 1) by (nonlinear_arith)
        requires
            1 <= gs,
            -(gs + 1) * (RUN_LIMIT as int) <= p <= (gs + 1) * (RUN_LIMIT as int),
            p == gs * q + (p % gs),
            0 <= p % gs < gs,
            RUN_LIMIT == 35184372088832i64,
    ;
}

/// Computes the first horizontal-line crossing and the step vector for a
/// non-parallel ray from inside the grid.
fn h_setup(map: &GridMap, x: i64, y: i64, dir: &RayDir) -> (e: (i64, i64, i64, i64))
    requires
        map.wf(),
        dir.wf(),
        !dir.h_parallel,
        map.in_grid(x as int, y as int),
    ensures
        e.0 == h_entry_x(*map, x as int, y as int, *dir),
        e.1 == h_entry_y(*map, y as int, *dir),
        e.2 == h_step_x(*dir),
        e.3 == h_step_y(*map, *dir),
        -START_LIMIT <= e.0 <= START_LIMIT,
        -START_LIMIT <= e.1 <= START_LIMIT,
        -RUN_LIMIT <= e.2 <= RUN_LIMIT,
        -RUN_LIMIT <= e.3 <= RUN_LIMIT,
{
    let gs = map.grid_size;
    let row = floor_div(y as i128, gs as i128) as i64;
    proof {
        assert(0 < map.x_extent() <= 4096 * 1048576 && 0 < map.y_extent() <= 4096 * 1048576)
            by (nonlinear_arith)
            requires
                1 <= map.width() <= 4096,
                1 <= map.height() <= 4096,
                1 <= map.grid_size <= 1048576,
                map.x_extent() == map.width() * map.grid_size,
                map.y_extent() == map.height() * map.grid_size,
        ;
        lemma_div_pos_is_pos(y as int, gs as int);
        assert(y < gs as int * map.height()) by (nonlinear_arith)
            requires
                (y as int) < map.height() * (map.grid_size as int),
                gs == map.grid_size,
        ;
        lemma_multiply_divide_lt(y as int, gs as int, map.height());
        lemma_fundamental_div_mod(y as int, gs as int);
        assert(row * (gs as int) <= y < row * (gs as int) + gs) by (nonlinear_arith)
            requires
                row == (y as int) / (gs as int),
                0 < gs,
                y as int == (gs as int) * ((y as int) / (gs as int)) + (y as int) % (gs as int),
                0 <= (y as int) % (gs as int) < gs,
        ;
        assert(0 <= row * (gs as int)) by (nonlinear_arith)
            requires
                0 <= row,
                0 < gs,
        ;
    }
    let entry_y = if dir.facing_up {
        row * gs - 1
    } else {
        row * gs + gs
    };
    let step_y = if dir.facing_up {
        -gs
    } else {
        gs
    };
    let step_x = if dir.facing_right {
        dir.run
    } else {
        -dir.run
    };
    let signed_diff: i64 = if dir.facing_right == dir.facing_up {
        y - entry_y
    } else {
        entry_y - y
    };
    proof {
        assert(signed_diff as int == (y - h_entry_y(*map, y as int, *dir)) * dir.slope_sign())
            by (nonlinear_arith)
            requires
                dir.slope_sign() == if dir.facing_right == dir.facing_up { 1int } else { -1int },
                signed_diff == if dir.facing_right == dir.facing_up {
                    y - entry_y
                } else {
                    entry_y - y
                },
                entry_y == h_entry_y(*map, y as int, *dir),
        ;
        assert(-((gs as int + 1) * (RUN_LIMIT as int)) <= (signed_diff as int) * (dir.run as int)
            <= (gs as int + 1) * (RUN_LIMIT as int)) by (nonlinear_arith)
            requires
                -(gs as int) - 1 <= signed_diff <= gs as int + 1,
                0 <= dir.run <= RUN_LIMIT,
                0 < gs,
        ;
    }
    let p = (signed_diff as i128) * (dir.run as i128);
    let off = floor_div(p, gs as i128);
    proof {
        lemma_entry_offset_bounds(p as int, gs as int, off as int);
        assert((signed_diff as int) * (dir.run as int) == (y - h_entry_y(*map, y as int, *dir))
            * dir.slope_sign() * (dir.run as int)) by (nonlinear_arith)
            requires
                signed_diff as int == (y - h_entry_y(*map, y as int, *dir)) * dir.slope_sign(),
        ;
    }
    let entry_x = x + (off as i64);
    (entry_x, entry_y, step_x, step_y)
}

/// The horizontal-line intersector: finds the nearest point where the ray
/// crosses a horizontal grid line inside a blocking cell, stepping one such
/// line at a time; `Infinite` if the ray never crosses one (parallel), the
/// origin lies outside the grid, or the step bound runs out.
pub fn calc_horizontal_intersection(map: &GridMap, x: i64, y: i64, dir: &RayDir) -> (r:
    Intersection)
    requires
        map.wf(),
        dir.wf(),
    ensures
        r.model() == spec_h_intersect(*map, x as int, y as int, *dir),
        match r {
            Intersection::Hit { x, y } => {
                &&& -WALK_LIMIT <= x <= WALK_LIMIT
                &&& -WALK_LIMIT <= y <= WALK_LIMIT
            },
            Intersection::Infinite => true,
        },
{
    if dir.h_parallel {
        return Intersection::Infinite;
    }
    if !map.contains_point(x, y) {
        return Intersection::Infinite;
    }
    let e = h_setup(map, x, y, dir);
    dda_walk(map, e.0, e.1, e.2, e.3)
}

/// Computes the first vertical-line crossing and the step vector for a
/// non-parallel ray from inside the grid.
fn v_setup(map: &GridMap, x: i64, y: i64, dir: &RayDir) -> (e: (i64, i64, i64, i64))
    requires
        map.wf(),
        dir.wf(),
        !dir.v_parallel,
        map.in_grid(x as int, y as int),
    ensures
        e.0 == v_entry_x(*map, x as int, *dir),
        e.1 == v_entry_y(*map, x as int, y as int, *dir),
        e.2 == v_step_x(*map, *dir),
        e.3 == v_step_y(*dir),
        -START_LIMIT <= e.0 <= START_LIMIT,
        -START_LIMIT <= e.1 <= START_LIMIT,
        -RUN_LIMIT <= e.2 <= RUN_LIMIT,
        -RUN_LIMIT <= e.3 <= RUN_LIMIT,
{
    let gs = map.grid_size;
    let col = floor_div(x as i128, gs as i128) as i64;
    proof {
        assert(0 < map.x_extent() <= 4096 * 1048576 && 0 < map.y_extent() <= 4096 * 1048576)
            by (nonlinear_arith)
            requires
                1 <= map.width() <= 4096,
                1 <= map.height() <= 4096,
                1 <= map.grid_size <= 1048576,
                map.x_extent() == map.width() * map.grid_size,
                map.y_extent() == map.height() * map.grid_size,
        ;
        lemma_div_pos_is_pos(x as int, gs as int);
        assert(x < gs as int * map.width()) by (nonlinear_arith)
            requires
                (x as int) < map.width() * (map.grid_size as int),
                gs == map.grid_size,
        ;
        lemma_multiply_divide_lt(x as int, gs as int, map.width());
        lemma_fundamental_div_mod(x as int, gs as int);
        assert(col * (gs as int) <= x < col * (gs as int) + gs) by (nonlinear_arith)
            requires
                col == (x as int) / (gs as int),
                0 < gs,
                x as int == (gs as int) * ((x as int) / (gs as int)) + (x as int) % (gs as int),
                0 <= (x as int) % (gs as int) < gs,
        ;
        assert(0 <= col * (gs as int)) by (nonlinear_arith)
            requires
                0 <= col,
                0 < gs,
        ;
    }
    let entry_x = if dir.facing_right {
        col * gs + gs
    } else {
        col * gs - 1
    };
    let step_x = if dir.facing_right {
        gs
    } else {
        -gs
    };
    let step_y = if dir.facing_up {
        -dir.rise
    } else {
        dir.rise
    };
    let signed_diff: i64 = if dir.facing_right == dir.facing_up {
        x - entry_x
    } else {
        entry_x - x
    };
    proof {
        assert(signed_diff as int == (x - v_entry_x(*map, x as int, *dir)) * dir.slope_sign())
            by (nonlinear_arith)
            requires
                dir.slope_sign() == if dir.facing_right == dir.facing_up { 1int } else { -1int },
                signed_diff == if dir.facing_right == dir.facing_up {
                    x - entry_x
                } else {
                    entry_x - x
                },
                entry_x == v_entry_x(*map, x as int, *dir),
        ;
        assert(-((gs as int + 1) * (RUN_LIMIT as int)) <= (signed_diff as int) * (dir.rise as int)
            <= (gs as int + 1) * (RUN_LIMIT as int)) by (nonlinear_arith)
            requires
                -(gs as int) - 1 <= signed_diff <= gs as int + 1,
                0 <= dir.rise <= RUN_LIMIT,
                0 < gs,
        ;
    }
    let p = (signed_diff as i128) * (dir.rise as i128);
    let off = floor_div(p, gs as i128);
    proof {
        lemma_entry_offset_bounds(p as int, gs as int, off as int);
        assert((signed_diff as int) * (dir.rise as int) == (x - v_entry_x(*map, x as int, *dir))
            * dir.slope_sign() * (dir.rise as int)) by (nonlinear_arith)
            requires
                signed_diff as int == (x - v_entry_x(*map, x as int, *dir)) * dir.slope_sign(),
        ;
    }
    let entry_y = y + (off as i64);
    (entry_x, entry_y, step_x, step_y)
}

/// The vertical-line intersector: the mirror of
/// [`calc_horizontal_intersection`] with the axis roles swapped.
pub fn calc_vertical_intersection(map: &GridMap, x: i64, y: i64, dir: &RayDir) -> (r: Intersection)
    requires
        map.wf(),
        dir.wf(),
    ensures
        r.model() == spec_v_intersect(*map, x as int, y as int, *dir),
        match r {
            Intersection::Hit { x, y } => {
                &&& -WALK_LIMIT <= x <= WALK_LIMIT
                &&& -WALK_LIMIT <= y <= WALK_LIMIT
            },
            Intersection::Infinite => true,
        },
{
    if dir.v_parallel {
        return Intersection::Infinite;
    }
    if !map.contains_point(x, y) {
        return Intersection::Infinite;
    }
    let e = v_setup(map, x, y, dir);
    dda_walk(map, e.0, e.1, e.2, e.3)
}

/// A walk stepping one full cell downward per step crosses into a new row
/// each time, so it reaches a blocking cell (at the latest, the boundary
/// below the last row) before `height + 1 - row` steps run out.
proof fn lemma_dda_hits_down(map: GridMap, x: int, y: int, dx: int, fuel: nat)
    requires
        map.wf(),
        map.height() + 1 - y / (map.grid_size as int) <= fuel,
    ensures
        dda_hit(map, x, y, dx, map.grid_size as int, fuel) is At,
    decreases fuel,
{
    let gs = map.grid_size as int;
    if !map.wall_world(x, y) {
        lemma_div_plus_one(y, gs);
        lemma_dda_hits_down(map, x + dx, y + gs, dx, (fuel - 1) as nat);
    }
}

/// The upward mirror of [`lemma_dda_hits_down`]: the boundary above row 0
/// blocks the walk within `row + 1` steps.
proof fn lemma_dda_hits_up(map: GridMap, x: int, y: int, dx: int, fuel: nat)
    requires
        map.wf(),
        y / (map.grid_size as int) + 1 <= fuel,
    ensures
        dda_hit(map, x, y, dx, -(map.grid_size as int), fuel) is At,
    decreases fuel,
{
    let gs = map.grid_size as int;
    if !map.wall_world(x, y) {
        lemma_div_minus_one(y, gs);
        lemma_dda_hits_up(map, x + dx, y - gs, dx, (fuel - 1) as nat);
    }
}

/// A walk stepping one full cell rightward per step crosses into a new
/// column each time, so it reaches a blocking cell before
/// `width + 1 - column` steps run out.
proof fn lemma_dda_hits_right(map: GridMap, x: int, y: int, dy: int, fuel: nat)
    requires
        map.wf(),
        map.width() + 1 - x / (map.grid_size as int) <= fuel,
    ensures
        dda_hit(map, x, y, map.grid_size as int, dy, fuel) is At,
    decreases fuel,
{
    let gs = map.grid_size as int;
    if !map.wall_world(x, y) {
        lemma_div_plus_one(x, gs);
        lemma_dda_hits_right(map, x + gs, y + dy, dy, (fuel - 1) as nat);
    }
}

/// The leftward mirror of [`lemma_dda_hits_right`].
proof fn lemma_dda_hits_left(map: GridMap, x: int, y: int, dy: int, fuel: nat)
    requires
        map.wf(),
        x / (map.grid_size as int) + 1 <= fuel,
    ensures
        dda_hit(map, x, y, -(map.grid_size as int), dy, fuel) is At,
    decreases fuel,
{
    let gs = map.grid_size as int;
    if !map.wall_world(x, y) {
        lemma_div_minus_one(x, gs);
        lemma_dda_hits_left(map, x - gs, y + dy, dy, (fuel - 1) as nat);
    }
}

/// Boundary termination for the horizontal-line intersector: a ray that is
/// not parallel to the horizontal grid lines and starts inside the grid
/// always finds a blocking cell within the step bound — the walk never
/// exhausts its fuel.
pub proof fn lemma_h_intersect_hits(map: GridMap, x: int, y: int, dir: RayDir)
    requires
        map.wf(),
        dir.wf(),
        !dir.h_parallel,
        map.in_grid(x, y),
    ensures
        spec_h_intersect(map, x, y, dir) is At,
{
    let gs = map.grid_size as int;
    let row = y / gs;
    lemma_div_pos_is_pos(y, gs);
    assert(y < gs * map.height()) by (nonlinear_arith)
        requires
            y < map.height() * (map.grid_size as int),
            gs == map.grid_size as int,
    ;
    lemma_multiply_divide_lt(y, gs, map.height());
    let ny = h_entry_y(map, y, dir);
    let nx = h_entry_x(map, x, y, dir);
    if dir.facing_up {
        assert(ny == gs * (row - 1) + (gs - 1)) by (nonlinear_arith)
            requires
                ny == row * gs - 1,
        ;
        lemma_fundamental_div_mod_converse(ny, gs, row - 1, gs - 1);
        lemma_dda_hits_up(map, nx, ny, h_step_x(dir), map.step_bound());
    } else {
        assert(ny == gs * (row + 1) + 0) by (nonlinear_arith)
            requires
                ny == row * gs + gs,
        ;
        lemma_fundamental_div_mod_converse(ny, gs, row + 1, 0);
        lemma_dda_hits_down(map, nx, ny, h_step_x(dir), map.step_bound());
    }
}

/// Boundary termination for the vertical-line intersector: the mirror of
/// [`lemma_h_intersect_hits`].
pub proof fn lemma_v_intersect_hits(map: GridMap, x: int, y: int, dir: RayDir)
    requires
        map.wf(),
        dir.wf(),
        !dir.v_parallel,
        map.in_grid(x, y),
    ensures
        spec_v_intersect(map, x, y, dir) is At,
{
    let gs = map.grid_size as int;
    let col = x / gs;
    lemma_div_pos_is_pos(x, gs);
    assert(x < gs * map.width()) by (nonlinear_arith)
        requires
            x < map.width() * (map.grid_size as int),
            gs == map.grid_size as int,
    ;
    lemma_multiply_divide_lt(x, gs, map.width());
    let nx = v_entry_x(map, x, dir);
    let ny = v_entry_y(map, x, y, dir);
    if dir.facing_right {
        assert(nx == gs * (col + 1) + 0) by (nonlinear_arith)
            requires
                nx == col * gs + gs,
        ;
        lemma_fundamental_div_mod_converse(nx, gs, col + 1, 0);
        lemma_dda_hits_right(map, nx, ny, v_step_y(dir), map.step_bound());
    } else {
        assert(nx == gs * (col - 1) + (gs - 1)) by (nonlinear_arith)
            requires
                nx == col * gs - 1,
        ;
        lemma_fundamental_div_mod_converse(nx, gs, col - 1, gs - 1);
        lemma_dda_hits_left(map, nx, ny, v_step_y(dir), map.step_bound());
    }
}

/// A vertical walk upward through a column of empty cells, entering one row
/// below each grid line, exits the grid exactly one unit above row 0.
proof fn lemma_dda_empty_column_up(map: GridMap, x: int, y: int, fuel: nat)
    requires
        map.wf(),
        y >= -1,
        y % (map.grid_size as int) == map.grid_size - 1,
        forall|r: int|
            0 <= r <= y / (map.grid_size as int) ==> !(#[trigger] map.wall_cell(
                x / (map.grid_size as int),
                r,
            )),
        y / (map.grid_size as int) + 2 <= fuel,
    ensures
        dda_hit(map, x, y, 0, -(map.grid_size as int), fuel) == (MaybePoint::At { x, y: -1 }),
    decreases fuel,
{
    let gs = map.grid_size as int;
    lemma_fundamental_div_mod(y, gs);
    if y < 0 {
        assert(y == -1);
        lemma_fundamental_div_mod_converse(-1, gs, -1, gs - 1);
        assert(map.wall_world(x, y));
    } else {
        let gy = y / gs;
        lemma_div_pos_is_pos(y, gs);
        assert(!map.wall_world(x, y));
        lemma_div_minus_one(y, gs);
        lemma_mod_sub_multiples_vanish(y, gs);
        assert(y - gs >= -1) by (nonlinear_arith)
            requires
                y == gs * gy + (gs - 1),
                gy >= 0,
                0 < gs,
        ;
        lemma_dda_empty_column_up(map, x, y - gs, (fuel - 1) as nat);
    }
}

/// A ray cast straight up (no horizontal run) from inside the map, with
/// only empty cells between it and the top row, exits through the map
/// boundary: the horizontal-line intersector reports the crossing exactly
/// one world unit above row 0, on the origin's own column.
pub proof fn lemma_up_ray_exits_top(map: GridMap, x: int, y: int, dir: RayDir)
    requires
        map.wf(),
        dir.wf(),
        !dir.h_parallel,
        dir.facing_up,
        dir.run == 0,
        map.in_grid(x, y),
        forall|r: int|
            0 <= r < y / (map.grid_size as int) ==> !(#[trigger] map.wall_cell(
                x / (map.grid_size as int),
                r,
            )),
    ensures
        spec_h_intersect(map, x, y, dir) == (MaybePoint::At { x, y: -1 }),
{
    let gs = map.grid_size as int;
    let row = y / gs;
    lemma_div_pos_is_pos(y, gs);
    assert(y < gs * map.height()) by (nonlinear_arith)
        requires
            y < map.height() * (map.grid_size as int),
            gs == map.grid_size as int,
    ;
    lemma_multiply_divide_lt(y, gs, map.height());
    let ny = h_entry_y(map, y, dir);
    assert(ny == gs * (row - 1) + (gs - 1)) by (nonlinear_arith)
        requires
            ny == row * gs - 1,
    ;
    lemma_fundamental_div_mod_converse(ny, gs, row - 1, gs - 1);
    assert((y - ny) * dir.slope_sign() * (dir.run as int) == 0) by (nonlinear_arith)
        requires
            dir.run == 0i64,
    ;
    lemma_div_of0(gs);
    assert(h_entry_x(map, x, y, dir) == x);
    assert(h_step_x(dir) == 0);
    lemma_dda_empty_column_up(map, x, ny, map.step_bound());
}

/// The grid cells a DDA walk steps through before it reaches a blocking
/// cell (the blocking cell itself is not part of the path).
pub open spec fn dda_trace(map: GridMap, x: int, y: int, dx: int, dy: int, fuel: nat) -> Seq<
    (int, int),
>
    decreases fuel,
{
    if map.wall_world(x, y) {
        Seq::empty()
    } else if fuel == 0 {
        Seq::empty()
    } else {
        seq![(map.grid_index(x), map.grid_index(y))] + dda_trace(
            map,
            x + dx,
            y + dy,
            dx,
            dy,
            (fuel - 1) as nat,
        )
    }
}

/// The cells the horizontal-line intersector steps through: empty when it
/// returns without walking.
pub open spec fn spec_h_trace(map: GridMap, x: int, y: int, dir: RayDir) -> Seq<(int, int)> {
    if dir.h_parallel || !map.in_grid(x, y) {
        Seq::empty()
    } else {
        dda_trace(
            map,
            h_entry_x(map, x, y, dir),
            h_entry_y(map, y, dir),
            h_step_x(dir),
            h_step_y(map, dir),
            map.step_bound(),
        )
    }
}

/// The cells the vertical-line intersector steps through.
pub open spec fn spec_v_trace(map: GridMap, x: int, y: int, dir: RayDir) -> Seq<(int, int)> {
    if dir.v_parallel || !map.in_grid(x, y) {
        Seq::empty()
    } else {
        dda_trace(
            map,
            v_entry_x(map, x, dir),
            v_entry_y(map, x, y, dir),
            v_step_x(map, dir),
            v_step_y(dir),
            map.step_bound(),
        )
    }
}

/// The stepping skeleton with the minimap side channel: walks exactly like
/// [`dda_walk`] and additionally marks every cell it steps through on the
/// visited overlay.
pub fn dda_walk_marked(
    map: &GridMap,
    start_x: i64,
    start_y: i64,
    dx: i64,
    dy: i64,
    overlay: &mut VisitedOverlay,
) -> (r: Intersection)
    requires
        map.wf(),
        -START_LIMIT <= start_x <= START_LIMIT,
        -START_LIMIT <= start_y <= START_LIMIT,
        -RUN_LIMIT <= dx <= RUN_LIMIT,
        -RUN_LIMIT <= dy <= RUN_LIMIT,
        old(overlay).wf(),
        old(overlay).matches_map(*map),
    ensures
        r.model() == dda_hit(
            *map,
            start_x as int,
            start_y as int,
            dx as int,
            dy as int,
            map.step_bound(),
        ),
        match r {
            Intersection::Hit { x, y } => {
                &&& -WALK_LIMIT <= x <= WALK_LIMIT
                &&& -WALK_LIMIT <= y <= WALK_LIMIT
            },
            Intersection::Infinite => true,
        },
        final(overlay).wf(),
        final(overlay).matches_map(*map),
        forall|i: int, j: int| #[trigger]
            final(overlay).marked(i, j) == (old(overlay).marked(i, j) || dda_trace(
                *map,
                start_x as int,
                start_y as int,
                dx as int,
                dy as int,
                map.step_bound(),
            ).contains((i, j))),
{
    broadcast use vstd::seq_lib::lemma_seq_contains_after_push;

    let ghost trace_full = dda_trace(
        *map,
        start_x as int,
        start_y as int,
        dx as int,
        dy as int,
        map.step_bound(),
    );
    let ghost mut prefix: Seq<(int, int)> = Seq::empty();
    let bound = map.step_bound_exec();
    let mut x = start_x;
    let mut y = start_y;
    let mut k: usize = 0;
    let mut hit_wall = map.is_wall_at(x, y);
    #[verifier::loop_isolation(false)]
    while !hit_wall && k < bound
        invariant
            k <= bound,
            x == start_x + k * (dx as int),
            y == start_y + k * (dy as int),
            -(START_LIMIT as int) - (k as int) * (RUN_LIMIT as int) <= x
                <= START_LIMIT as int + (k as int) * (RUN_LIMIT as int),
            -(START_LIMIT as int) - (k as int) * (RUN_LIMIT as int) <= y
                <= START_LIMIT as int + (k as int) * (RUN_LIMIT as int),
            hit_wall == map.wall_world(x as int, y as int),
            dda_hit(
                *map,
                start_x as int,
                start_y as int,
                dx as int,
                dy as int,
                map.step_bound(),
            ) == dda_hit(*map, x as int, y as int, dx as int, dy as int, (bound - k) as nat),
            trace_full == prefix + dda_trace(
                *map,
                x as int,
                y as int,
                dx as int,
                dy as int,
                (bound - k) as nat,
            ),
            overlay.wf(),
            overlay.matches_map(*map),
            forall|i: int, j: int| #[trigger]
                overlay.marked(i, j) == (old(overlay).marked(i, j) || prefix.contains((i, j))),
        decreases bound - k,
    {
        let (gx, gy) = map.convert_to_grid(x, y);
        overlay.mark(gx, gy);
        proof {
            let ghost rest = dda_trace(
                *map,
                (x + dx) as int,
                (y + dy) as int,
                dx as int,
                dy as int,
                (bound - k - 1) as nat,
            );
            assert(prefix.push((gx as int, gy as int)) =~= prefix + seq![
                (gx as int, gy as int),
            ]);
            assert((prefix + seq![(gx as int, gy as int)]) + rest =~= prefix + (seq![
                (gx as int, gy as int),
            ] + rest));
            prefix = prefix.push((gx as int, gy as int));
            assert((k + 1) * (dx as int) == k * (dx as int) + dx) by (nonlinear_arith);
            assert((k + 1) * (dy as int) == k * (dy as int) + dy) by (nonlinear_arith);
        }
        x = x + dx;
        y = y + dy;
        k = k + 1;
        hit_wall = map.is_wall_at(x, y);
    }
    proof {
        assert(trace_full =~= prefix);
    }
    if hit_wall {
        Intersection::Hit { x, y }
    } else {
        Intersection::Infinite
    }
}

/// The horizontal-line intersector with the minimap side channel: returns
/// exactly what [`calc_horizontal_intersection`] returns and marks the
/// cells its walk stepped through on the overlay.
pub fn calc_horizontal_intersection_marked(
    map: &GridMap,
    x: i64,
    y: i64,
    dir: &RayDir,
    overlay: &mut VisitedOverlay,
) -> (r: Intersection)
    requires
        map.wf(),
        dir.wf(),
        old(overlay).wf(),
        old(overlay).matches_map(*map),
    ensures
        r.model() == spec_h_intersect(*map, x as int, y as int, *dir),
        match r {
            Intersection::Hit { x, y } => {
                &&& -WALK_LIMIT <= x <= WALK_LIMIT
                &&& -WALK_LIMIT <= y <= WALK_LIMIT
            },
            Intersection::Infinite => true,
        },
        final(overlay).wf(),
        final(overlay).matches_map(*map),
        forall|i: int, j: int| #[trigger]
            final(overlay).marked(i, j) == (old(overlay).marked(i, j) || spec_h_trace(
                *map,
                x as int,
                y as int,
                *dir,
            ).contains((i, j))),
{
    if dir.h_parallel {
        return Intersection::Infinite;
    }
    if !map.contains_point(x, y) {
        return Intersection::Infinite;
    }
    let e = h_setup(map, x, y, dir);
    dda_walk_marked(map, e.0, e.1, e.2, e.3, overlay)
}

/// The vertical-line intersector with the minimap side channel.
pub fn calc_vertical_intersection_marked(
    map: &GridMap,
    x: i64,
    y: i64,
    dir: &RayDir,
    overlay: &mut VisitedOverlay,
) -> (r: Intersection)
    requires
        map.wf(),
        dir.wf(),
        old(overlay).wf(),
        old(overlay).matches_map(*map),
    ensures
        r.model() == spec_v_intersect(*map, x as int, y as int, *dir),
        match r {
            Intersection::Hit { x, y } => {
                &&& -WALK_LIMIT <= x <= WALK_LIMIT
                &&& -WALK_LIMIT <= y <= WALK_LIMIT
            },
            Intersection::Infinite => true,
        },
        final(overlay).wf(),
        final(overlay).matches_map(*map),
        forall|i: int, j: int| #[trigger]
            final(overlay).marked(i, j) == (old(overlay).marked(i, j) || spec_v_trace(
                *map,
                x as int,
                y as int,
                *dir,
            ).contains((i, j))),
{
    if dir.v_parallel {
        return Intersection::Infinite;
    }
    if !map.contains_point(x, y) {
        return Intersection::Infinite;
    }
    let e = v_setup(map, x, y, dir);
    dda_walk_marked(map, e.0, e.1, e.2, e.3, overlay)
}

/// Whatever a walk returns as a hit lies in a blocking cell: the walk stops
/// at the first crossing whose cell blocks the ray, never earlier or later.
proof fn lemma_dda_hit_blocks(map: GridMap, x: int, y: int, dx: int, dy: int, fuel: nat)
    ensures
        match dda_hit(map, x, y, dx, dy, fuel) {
            MaybePoint::At { x: hx, y: hy } => map.wall_world(hx, hy),
            MaybePoint::Infinite => true,
        },
    decreases fuel,
{
    if !map.wall_world(x, y) && fuel > 0 {
        lemma_dda_hit_blocks(map, x + dx, y + dy, dx, dy, (fuel - 1) as nat);
    }
}

/// A walk that steps a whole cell edge vertically keeps its y coordinate in
/// the same residue class modulo the cell edge length.
proof fn lemma_dda_keeps_y_mod(map: GridMap, x: int, y: int, dx: int, dy: int, fuel: nat)
    requires
        map.wf(),
        dy == map.grid_size || dy == -(map.grid_size as int),
    ensures
        match dda_hit(map, x, y, dx, dy, fuel) {
            MaybePoint::At { x: hx, y: hy } => hy % (map.grid_size as int) == y % (
            map.grid_size as int),
            MaybePoint::Infinite => true,
        },
    decreases fuel,
{
    let gs = map.grid_size as int;
    if !map.wall_world(x, y) && fuel > 0 {
        lemma_mod_add_multiples_vanish(y, gs);
        lemma_mod_sub_multiples_vanish(y, gs);
        lemma_dda_keeps_y_mod(map, x + dx, y + dy, dx, dy, (fuel - 1) as nat);
    }
}

/// The horizontal mirror of [`lemma_dda_keeps_y_mod`].
proof fn lemma_dda_keeps_x_mod(map: GridMap, x: int, y: int, dx: int, dy: int, fuel: nat)
    requires
        map.wf(),
        dx == map.grid_size || dx == -(map.grid_size as int),
    ensures
        match dda_hit(map, x, y, dx, dy, fuel) {
            MaybePoint::At { x: hx, y: hy } => hx % (map.grid_size as int) == x % (
            map.grid_size as int),
            MaybePoint::Infinite => true,
        },
    decreases fuel,
{
    let gs = map.grid_size as int;
    if !map.wall_world(x, y) && fuel > 0 {
        lemma_mod_add_multiples_vanish(x, gs);
        lemma_mod_sub_multiples_vanish(x, gs);
        lemma_dda_keeps_x_mod(map, x + dx, y + dy, dx, dy, (fuel - 1) as nat);
    }
}

/// Every hit an intersector returns lies in a blocking cell: a wall of the
/// map, or the implicit boundary wall around it.
pub proof fn lemma_intersections_block(map: GridMap, x: int, y: int, dir: RayDir)
    ensures
        match spec_h_intersect(map, x, y, dir) {
            MaybePoint::At { x: hx, y: hy } => map.wall_world(hx, hy),
            MaybePoint::Infinite => true,
        },
        match spec_v_intersect(map, x, y, dir) {
            MaybePoint::At { x: hx, y: hy } => map.wall_world(hx, hy),
            MaybePoint::Infinite => true,
        },
{
    if !dir.h_parallel && map.in_grid(x, y) {
        lemma_dda_hit_blocks(
            map,
            h_entry_x(map, x, y, dir),
            h_entry_y(map, y, dir),
            h_step_x(dir),
            h_step_y(map, dir),
            map.step_bound(),
        );
    }
    if !dir.v_parallel && map.in_grid(x, y) {
        lemma_dda_hit_blocks(
            map,
            v_entry_x(map, x, dir),
            v_entry_y(map, x, y, dir),
            v_step_x(map, dir),
            v_step_y(dir),
            map.step_bound(),
        );
    }
}

/// A horizontal-line hit lands on a cell edge: one world unit above a grid
/// line for an upward ray, exactly on one for a downward ray.  Together
/// with boundary termination this pins the hit of a boundary-facing ray to
/// the boundary's exact cell edge.
pub proof fn lemma_h_hit_on_cell_edge(map: GridMap, x: int, y: int, dir: RayDir)
    requires
        map.wf(),
        dir.wf(),
        map.in_grid(x, y),
    ensures
        match spec_h_intersect(map, x, y, dir) {
            MaybePoint::At { x: hx, y: hy } => hy % (map.grid_size as int) == (if dir.facing_up {
                map.grid_size - 1
            } else {
                0
            }),
            MaybePoint::Infinite => true,
        },
{
    let gs = map.grid_size as int;
    if !dir.h_parallel {
        let row = y / gs;
        lemma_div_pos_is_pos(y, gs);
        let ny = h_entry_y(map, y, dir);
        if dir.facing_up {
            assert(ny == gs * (row - 1) + (gs - 1)) by (nonlinear_arith)
                requires
                    ny == row * gs - 1,
            ;
            lemma_fundamental_div_mod_converse(ny, gs, row - 1, gs - 1);
        } else {
            assert(ny == gs * (row + 1) + 0) by (nonlinear_arith)
                requires
                    ny == row * gs + gs,
            ;
            lemma_fundamental_div_mod_converse(ny, gs, row + 1, 0);
        }
        lemma_dda_keeps_y_mod(
            map,
            h_entry_x(map, x, y, dir),
            ny,
            h_step_x(dir),
            h_step_y(map, dir),
            map.step_bound(),
        );
    }
}

/// The vertical mirror of [`lemma_h_hit_on_cell_edge`]: a vertical-line hit
/// lands exactly on a grid line for a rightward ray, one world unit left of
/// one for a leftward ray.
pub proof fn lemma_v_hit_on_cell_edge(map: GridMap, x: int, y: int, dir: RayDir)
    requires
        map.wf(),
        dir.wf(),
        map.in_grid(x, y),
    ensures
        match spec_v_intersect(map, x, y, dir) {
            MaybePoint::At { x: hx, y: hy } => hx % (map.grid_size as int) == (
            if dir.facing_right {
                0
            } else {
                map.grid_size - 1
            }),
            MaybePoint::Infinite => true,
        },
{
    let gs = map.grid_size as int;
    if !dir.v_parallel {
        let col = x / gs;
        lemma_div_pos_is_pos(x, gs);
        let nx = v_entry_x(map, x, dir);
        if dir.facing_right {
            assert(nx == gs * (col + 1) + 0) by (nonlinear_arith)
                requires
                    nx == col * gs + gs,
            ;
            lemma_fundamental_div_mod_converse(nx, gs, col + 1, 0);
        } else {
            assert(nx == gs * (col - 1) + (gs - 1)) by (nonlinear_arith)
                requires
                    nx == col * gs - 1,
            ;
            lemma_fundamental_div_mod_converse(nx, gs, col - 1, gs - 1);
        }
        lemma_dda_keeps_x_mod(
            map,
            nx,
            v_entry_y(map, x, y, dir),
            v_step_x(map, dir),
            v_step_y(dir),
            map.step_bound(),
        );
    }
}

} // verus!
