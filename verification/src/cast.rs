//! The ray caster: for one origin and direction it runs both axis
//! intersectors, measures the squared Euclidean distance to each candidate
//! hit, and keeps the nearer one.  Squared distances are compared exactly,
//! so the tie-break is deterministic: a corner hit (equal distances)
//! resolves to the horizontal-line hit.  The texture offset is the hit
//! coordinate along the wall, reduced modulo the cell edge length.

use vstd::prelude::*;

verus! {

use vstd::arithmetic::div_mod::lemma_mod_division_less_than_divisor;
use crate::grid::{lemma_in_grid_bounds, GridMap};
use crate::nums::{floor_mod, isqrt, sqrt_floor};
use crate::overlay::VisitedOverlay;
use crate::ray::{
    calc_horizontal_intersection, calc_horizontal_intersection_marked,
    calc_vertical_intersection, calc_vertical_intersection_marked, spec_h_intersect,
    spec_h_trace, spec_v_intersect, spec_v_trace, Intersection, MaybePoint, RayDir, WALK_LIMIT,
};

/// Largest distance a cast can report: the floor square root of the
/// largest possible squared distance.
pub const DIST_LIMIT: i64 = 2305843009213693952;

/// Which grid-line family the nearest wall was found on.
#[derive(Clone, Copy, Debug, PartialEq, Eq, Structural)]
pub enum Orientation {
    Horizontal,
    Vertical,
}

/// Mathematical value of a completed cast.
pub struct HitModel {
    pub x: int,
    pub y: int,
    pub dist_sq: int,
    pub dist: int,
    pub orientation: Orientation,
    pub tex_offset: int,
}

/// Mathematical outcome of a cast: the nearest hit, or no hit at all (both
/// intersectors came back empty).
pub enum CastOutcome {
    Hit(HitModel),
    Miss,
}

/// Squared Euclidean distance between two points.
pub open spec fn dist_sq_of(x0: int, y0: int, x1: int, y1: int) -> int {
    (x1 - x0) * (x1 - x0) + (y1 - y0) * (y1 - y0)
}

/// The model of a hit found on a grid line of the given family: the
/// texture offset samples the coordinate that runs along the wall — x for a
/// horizontal line, y for a vertical one — modulo the cell edge length.
pub open spec fn hit_model_of(
    map: GridMap,
    x0: int,
    y0: int,
    hx: int,
    hy: int,
    orientation: Orientation,
) -> HitModel {
    let d = dist_sq_of(x0, y0, hx, hy);
    HitModel {
        x: hx,
        y: hy,
        dist_sq: d,
        dist: sqrt_floor(d),
        orientation,
        tex_offset: if orientation == Orientation::Horizontal {
            hx % (map.grid_size as int)
        } else {
            hy % (map.grid_size as int)
        },
    }
}

/// Selection of the nearer of the two axis hits, preferring the
/// horizontal-line hit when the squared distances tie.
pub open spec fn combine_hits(map: GridMap, x: int, y: int, h: MaybePoint, v: MaybePoint)
    -> CastOutcome {
    match h {
        MaybePoint::At { x: hx, y: hy } => match v {
            MaybePoint::At { x: vx, y: vy } => {
                if dist_sq_of(x, y, hx, hy) <= dist_sq_of(x, y, vx, vy) {
                    CastOutcome::Hit(hit_model_of(map, x, y, hx, hy, Orientation::Horizontal))
                } else {
                    CastOutcome::Hit(hit_model_of(map, x, y, vx, vy, Orientation::Vertical))
                }
            },
            MaybePoint::Infinite => CastOutcome::Hit(
                hit_model_of(map, x, y, hx, hy, Orientation::Horizontal),
            ),
        },
        MaybePoint::Infinite => match v {
            MaybePoint::At { x: vx, y: vy } => CastOutcome::Hit(
                hit_model_of(map, x, y, vx, vy, Orientation::Vertical),
            ),
            MaybePoint::Infinite => CastOutcome::Miss,
        },
    }
}

/// What `cast_ray` returns: the nearer of the two axis hits.
pub open spec fn spec_cast(map: GridMap, x: int, y: int, dir: RayDir) -> CastOutcome {
    combine_hits(
        map,
        x,
        y,
        spec_h_intersect(map, x, y, dir),
        spec_v_intersect(map, x, y, dir),
    )
}

/// Run-time record of the nearest wall hit by one ray.
#[derive(Clone, Copy, Debug, PartialEq, Eq, Structural)]
pub struct RayHit {
    pub x: i64,
    pub y: i64,
    pub dist_sq: u128,
    pub dist: i64,
    pub orientation: Orientation,
    pub tex_offset: i64,
}

/// Run-time outcome of one cast.
#[derive(Clone, Copy, Debug, PartialEq, Eq, Structural)]
pub enum CastResult {
    Hit(RayHit),
    Miss,
}

impl RayHit {
    /// The mathematical value of this record.
    pub open spec fn model(self) -> HitModel {
        HitModel {
            x: self.x as int,
            y: self.y as int,
            dist_sq: self.dist_sq as int,
            dist: self.dist as int,
            orientation: self.orientation,
            tex_offset: self.tex_offset as int,
        }
    }
}

impl CastResult {
    /// The mathematical value of this outcome.
    pub open spec fn model(self) -> CastOutcome {
        match self {
            CastResult::Hit(h) => CastOutcome::Hit(h.model()),
            CastResult::Miss => CastOutcome::Miss,
        }
    }
}

/// Squared Euclidean distance between two in-range points.
fn dist_sq_exec(x0: i64, y0: i64, x1: i64, y1: i64) -> (d: u128)
    requires
        -WALK_LIMIT <= x0 <= WALK_LIMIT,
        -WALK_LIMIT <= y0 <= WALK_LIMIT,
        -WALK_LIMIT <= x1 <= WALK_LIMIT,
        -WALK_LIMIT <= y1 <= WALK_LIMIT,
    ensures
        d == dist_sq_of(x0 as int, y0 as int, x1 as int, y1 as int),
        d <= 2658455991569831745807614120560689152,
{
    let dx = (x1 as i128) - (x0 as i128);
    let dy = (y1 as i128) - (y0 as i128);
    proof {
        assert(0 <= dx * dx <= 1329227995784915872903807060280344576 && 0 <= dy * dy
            <= 1329227995784915872903807060280344576) by (nonlinear_arith)
            requires
                -1152921504606846976 <= dx <= 1152921504606846976,
                -1152921504606846976 <= dy <= 1152921504606846976,
        ;
    }
    let sq_sum = (dx * dx) as u128 + (dy * dy) as u128;
    sq_sum
}

/// A floor square root of a bounded squared distance fits comfortably in
/// `i64`.
proof fn lemma_dist_fits(d: int, r: int)
    requires
        0 <= r,
        r * r <= d,
        d <= 2658455991569831745807614120560689152,
    ensures
        r <= DIST_LIMIT,
{
    assert(r <= 2305843009213693952) by (nonlinear_arith)
        requires
            0 <= r,
            r * r <= 2658455991569831745807614120560689152,
    ;
}

/// Builds the run-time hit record for a hit point found on the given
/// grid-line family.
fn finish_hit(map: &GridMap, x: i64, y: i64, hx: i64, hy: i64, orientation: Orientation) -> (h:
    RayHit)
    requires
        map.wf(),
        -WALK_LIMIT <= x <= WALK_LIMIT,
        -WALK_LIMIT <= y <= WALK_LIMIT,
        -WALK_LIMIT <= hx <= WALK_LIMIT,
        -WALK_LIMIT <= hy <= WALK_LIMIT,
    ensures
        h.model() == hit_model_of(*map, x as int, y as int, hx as int, hy as int, orientation),
        0 <= h.dist <= DIST_LIMIT,
{
    let d = dist_sq_exec(x, y, hx, hy);
    let root = isqrt(d);
    proof {
        lemma_dist_fits(d as int, root as int);
    }
    let along = if orientation == Orientation::Horizontal {
        hx
    } else {
        hy
    };
    let tex = floor_mod(along as i128, map.grid_size as i128) as i64;
    RayHit { x: hx, y: hy, dist_sq: d, dist: root as i64, orientation, tex_offset: tex }
}

/// Picks the nearer of the two axis intersections and finishes the hit
/// record.
fn select_hit(map: &GridMap, x: i64, y: i64, h: Intersection, v: Intersection) -> (r: CastResult)
    requires
        map.wf(),
        (h.model() is At || v.model() is At) ==> -WALK_LIMIT <= x <= WALK_LIMIT && -WALK_LIMIT
            <= y <= WALK_LIMIT,
        match h {
            Intersection::Hit { x, y } => -WALK_LIMIT <= x <= WALK_LIMIT && -WALK_LIMIT <= y
                <= WALK_LIMIT,
            Intersection::Infinite => true,
        },
        match v {
            Intersection::Hit { x, y } => -WALK_LIMIT <= x <= WALK_LIMIT && -WALK_LIMIT <= y
                <= WALK_LIMIT,
            Intersection::Infinite => true,
        },
    ensures
        r.model() == combine_hits(*map, x as int, y as int, h.model(), v.model()),
        match r {
            CastResult::Hit(hit) => 0 <= hit.dist <= DIST_LIMIT,
            CastResult::Miss => true,
        },
{
    match h {
        Intersection::Hit { x: hx, y: hy } => match v {
            Intersection::Hit { x: vx, y: vy } => {
                let hd = dist_sq_exec(x, y, hx, hy);
                let vd = dist_sq_exec(x, y, vx, vy);
                if hd <= vd {
                    CastResult::Hit(finish_hit(map, x, y, hx, hy, Orientation::Horizontal))
                } else {
                    CastResult::Hit(finish_hit(map, x, y, vx, vy, Orientation::Vertical))
                }
            },
            Intersection::Infinite => CastResult::Hit(
                finish_hit(map, x, y, hx, hy, Orientation::Horizontal),
            ),
        },
        Intersection::Infinite => match v {
            Intersection::Hit { x: vx, y: vy } => CastResult::Hit(
                finish_hit(map, x, y, vx, vy, Orientation::Vertical),
            ),
            Intersection::Infinite => CastResult::Miss,
        },
    }
}

/// Casts one ray: runs both axis intersectors and returns the nearer hit,
/// or `Miss` when neither family of grid lines is ever crossed inside a
/// blocking cell.  Equal distances (a corner hit) resolve to the
/// horizontal-line hit, so the outcome is a function of the inputs alone.
pub fn cast_ray(map: &GridMap, x: i64, y: i64, dir: &RayDir) -> (r: CastResult)
    requires
        map.wf(),
        dir.wf(),
    ensures
        r.model() == spec_cast(*map, x as int, y as int, *dir),
        match r {
            CastResult::Hit(h) => 0 <= h.dist <= DIST_LIMIT,
            CastResult::Miss => true,
        },
{
    let h = calc_horizontal_intersection(map, x, y, dir);
    let v = calc_vertical_intersection(map, x, y, dir);
    proof {
        if h.model() is At || v.model() is At {
            lemma_in_grid_bounds(*map, x as int, y as int);
        }
    }
    select_hit(map, x, y, h, v)
}

/// Casts one ray with the minimap side channel: returns exactly what
/// `cast_ray` returns and marks the cells both axis walks stepped through
/// on the visited overlay.
pub fn cast_ray_marked(
    map: &GridMap,
    x: i64,
    y: i64,
    dir: &RayDir,
    overlay: &mut VisitedOverlay,
) -> (r: CastResult)
    requires
        map.wf(),
        dir.wf(),
        old(overlay).wf(),
        old(overlay).matches_map(*map),
    ensures
        r.model() == spec_cast(*map, x as int, y as int, *dir),
        match r {
            CastResult::Hit(h) => 0 <= h.dist <= DIST_LIMIT,
            CastResult::Miss => true,
        },
        final(overlay).wf(),
        final(overlay).matches_map(*map),
        forall|i: int, j: int| #[trigger]
            final(overlay).marked(i, j) == (old(overlay).marked(i, j) || spec_h_trace(
                *map,
                x as int,
                y as int,
                *dir,
            ).contains((i, j)) || spec_v_trace(*map, x as int, y as int, *dir).contains((i, j))),
{
    let h = calc_horizontal_intersection_marked(map, x, y, dir, overlay);
    let v = calc_vertical_intersection_marked(map, x, y, dir, overlay);
    proof {
        if h.model() is At || v.model() is At {
            lemma_in_grid_bounds(*map, x as int, y as int);
        }
    }
    select_hit(map, x, y, h, v)
}

/// The cast outcome is a function of the map, the origin and the direction
/// alone: two casts of the same ray agree, in particular on orientation and
/// texture offset.
pub proof fn lemma_cast_deterministic(
    map: GridMap,
    x: int,
    y: int,
    dir: RayDir,
    r1: CastOutcome,
    r2: CastOutcome,
)
    requires
        r1 == spec_cast(map, x, y, dir),
        r2 == spec_cast(map, x, y, dir),
    ensures
        r1 == r2,
{
}

/// The texture offset of any hit lies in `[0, grid_size)`, whatever cell or
/// map quadrant was hit.
pub proof fn lemma_tex_offset_in_range(map: GridMap, x: int, y: int, dir: RayDir)
    requires
        map.wf(),
    ensures
        match spec_cast(map, x, y, dir) {
            CastOutcome::Hit(h) => 0 <= h.tex_offset < map.grid_size,
            CastOutcome::Miss => true,
        },
{
    match spec_cast(map, x, y, dir) {
        CastOutcome::Hit(h) => {
            if h.orientation == Orientation::Horizontal {
                lemma_mod_division_less_than_divisor(h.x, map.grid_size as int);
            } else {
                lemma_mod_division_less_than_divisor(h.y, map.grid_size as int);
            }
        },
        CastOutcome::Miss => {},
    }
}

/// A ray cast straight up at a face of the boundary wall — from inside the
/// map, with only empty cells above it — hits the boundary's exact cell
/// edge: one world unit above row 0, straight above the origin, at a
/// distance of exactly `y + 1`.
pub proof fn lemma_up_ray_hits_boundary(map: GridMap, x: int, y: int, dir: RayDir)
    requires
        map.wf(),
        dir.wf(),
        !dir.h_parallel,
        dir.v_parallel,
        dir.facing_up,
        dir.run == 0,
        map.in_grid(x, y),
        forall|r: int|
            0 <= r < y / (map.grid_size as int) ==> !(#[trigger] map.wall_cell(
                x / (map.grid_size as int),
                r,
            )),
    ensures
        spec_cast(map, x, y, dir) == CastOutcome::Hit(
            HitModel {
                x,
                y: -1,
                dist_sq: (y + 1) * (y + 1),
                dist: y + 1,
                orientation: Orientation::Horizontal,
                tex_offset: x % (map.grid_size as int),
            },
        ),
{
    crate::ray::lemma_up_ray_exits_top(map, x, y, dir);
    assert(dist_sq_of(x, y, x, -1) == (y + 1) * (y + 1)) by (nonlinear_arith);
    assert((y + 1) * (y + 1) < (y + 1 + 1) * (y + 1 + 1)) by (nonlinear_arith)
        requires
            0 <= y,
    ;
    crate::nums::lemma_sqrt_floor_is((y + 1) * (y + 1), y + 1);
}

/// A ray cast from inside the grid that can cross at least one grid-line
/// family always hits something: the implicit boundary wall stops every
/// walk, so only a doubly parallel (degenerate) ray yields a background
/// column.
pub proof fn lemma_cast_hits_from_inside(map: GridMap, x: int, y: int, dir: RayDir)
    requires
        map.wf(),
        dir.wf(),
        map.in_grid(x, y),
        !dir.h_parallel || !dir.v_parallel,
    ensures
        spec_cast(map, x, y, dir) is Hit,
{
    if !dir.h_parallel {
        crate::ray::lemma_h_intersect_hits(map, x, y, dir);
    } else {
        crate::ray::lemma_v_intersect_hits(map, x, y, dir);
    }
}

/// The distance of a cast hit is the smaller of the two axis-intersection
/// distances: no nearer crossing exists on either grid-line family.
pub proof fn lemma_cast_distance_min(map: GridMap, x: int, y: int, dir: RayDir)
    requires
        map.wf(),
    ensures
        match spec_cast(map, x, y, dir) {
            CastOutcome::Hit(h) => {
                &&& match spec_h_intersect(map, x, y, dir) {
                    MaybePoint::At { x: hx, y: hy } => h.dist_sq <= dist_sq_of(x, y, hx, hy),
                    MaybePoint::Infinite => true,
                }
                &&& match spec_v_intersect(map, x, y, dir) {
                    MaybePoint::At { x: vx, y: vy } => h.dist_sq <= dist_sq_of(x, y, vx, vy),
                    MaybePoint::Infinite => true,
                }
                &&& h.dist_sq == dist_sq_of(x, y, h.x, h.y)
                &&& match h.orientation {
                    Orientation::Horizontal => spec_h_intersect(map, x, y, dir)
                        == (MaybePoint::At { x: h.x, y: h.y }),
                    Orientation::Vertical => spec_v_intersect(map, x, y, dir)
                        == (MaybePoint::At { x: h.x, y: h.y }),
                }
                &&& 0 <= h.dist_sq
            },
            CastOutcome::Miss => {
                &&& spec_h_intersect(map, x, y, dir) is Infinite
                &&& spec_v_intersect(map, x, y, dir) is Infinite
            },
        },
{
    match spec_cast(map, x, y, dir) {
        CastOutcome::Hit(h) => {
            assert(0 <= h.dist_sq) by (nonlinear_arith)
                requires
                    h.dist_sq == (h.x - x) * (h.x - x) + (h.y - y) * (h.y - y),
            ;
        },
        CastOutcome::Miss => {},
    }
}

} // verus!
