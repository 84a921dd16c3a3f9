//! The projection builder: sweeps the field of view one screen column at a
//! time, casts that column's ray, applies the fisheye correction (scaling
//! the raw distance by the cosine of the angle between the column's ray and
//! the view direction, carried as a fixed-point factor), and converts the
//! corrected distance into an on-screen wall height.  Columns are
//! independent: each output slot is a function of the map, the camera
//! position and that column's ray alone.

use vstd::prelude::*;

verus! {

use vstd::arithmetic::div_mod::{
    lemma_div_is_ordered, lemma_div_multiples_vanish, lemma_div_pos_is_pos,
};
use crate::cast::{cast_ray, cast_ray_marked, spec_cast, CastOutcome, CastResult, Orientation};
use crate::grid::GridMap;
use crate::overlay::VisitedOverlay;
use crate::ray::{spec_h_trace, spec_v_trace, RayDir};

/// Fixed-point unit for the fisheye-correction cosine factor: a factor of
/// `COS_SCALE` means a cosine of exactly 1.
pub const COS_SCALE: i64 = 65536;

/// Largest accepted projection scale (the pinhole constant that ties
/// apparent size to distance).
pub const PROJ_LIMIT: i64 = 1048576;

/// One screen column's ray: the direction summary plus the fixed-point
/// cosine of the angle between this ray and the camera's view direction.
#[derive(Clone, Copy, Debug, PartialEq, Eq, Structural)]
pub struct ColumnRay {
    pub dir: RayDir,
    pub cos_q: i64,
}

impl ColumnRay {
    /// Well-formedness: a well-formed direction and a cosine factor in
    /// `[0, COS_SCALE]`.
    pub open spec fn wf(&self) -> bool {
        &&& self.dir.wf()
        &&& 0 <= self.cos_q <= COS_SCALE
    }

    /// Builds a column ray, rejecting an out-of-range cosine factor or
    /// direction.
    pub fn new(dir: RayDir, cos_q: i64) -> (r: Option<ColumnRay>)
        ensures
            match r {
                Some(ray) => ray.wf() && ray == (ColumnRay { dir, cos_q }),
                None => !(dir.wf() && 0 <= cos_q <= COS_SCALE),
            },
    {
        if 0 <= dir.run && dir.run <= crate::ray::RUN_LIMIT && 0 <= dir.rise && dir.rise
            <= crate::ray::RUN_LIMIT && 0 <= cos_q && cos_q <= COS_SCALE {
            Some(ColumnRay { dir, cos_q })
        } else {
            None
        }
    }
}

/// Fisheye correction: the raw distance scaled by the fixed-point cosine
/// factor.  A factor of `COS_SCALE` (cosine 1, the central column) leaves
/// the distance unchanged.
pub open spec fn corrected_of(dist: int, cos_q: int) -> int {
    dist * cos_q / (COS_SCALE as int)
}

/// Projected wall height in pixels: the cell edge length scaled by the
/// projection constant and divided by the corrected distance, saturated at
/// `i32::MAX` (a corrected distance of zero projects beyond any screen).
pub open spec fn height_of(grid_size: int, proj_scale: int, corrected: int) -> int {
    if corrected <= 0 {
        i32::MAX as int
    } else if grid_size * proj_scale / corrected > i32::MAX {
        i32::MAX as int
    } else {
        grid_size * proj_scale / corrected
    }
}

/// Mathematical value of one output column.
pub enum ColumnModel {
    Background,
    Wall { height: int, orientation: Orientation, tex_offset: int, corrected_dist: int },
}

/// What the projection builder computes for one column: the cast outcome
/// with the fisheye correction and the height scaling applied, or a
/// background column when the ray hits nothing.
pub open spec fn spec_column(map: GridMap, x: int, y: int, proj_scale: int, ray: ColumnRay)
    -> ColumnModel {
    match spec_cast(map, x, y, ray.dir) {
        CastOutcome::Miss => ColumnModel::Background,
        CastOutcome::Hit(h) => {
            let corrected = corrected_of(h.dist, ray.cos_q as int);
            ColumnModel::Wall {
                height: height_of(map.grid_size as int, proj_scale, corrected),
                orientation: h.orientation,
                tex_offset: h.tex_offset,
                corrected_dist: corrected,
            }
        },
    }
}

/// Run-time record of one output column.
#[derive(Clone, Copy, Debug, PartialEq, Eq, Structural)]
pub enum ColumnResult {
    Background,
    Wall { height: i32, orientation: Orientation, tex_offset: i64, corrected_dist: i64 },
}

impl ColumnResult {
    /// The mathematical value of this column.
    pub open spec fn model(self) -> ColumnModel {
        match self {
            ColumnResult::Background => ColumnModel::Background,
            ColumnResult::Wall { height, orientation, tex_offset, corrected_dist } => {
                ColumnModel::Wall {
                    height: height as int,
                    orientation,
                    tex_offset: tex_offset as int,
                    corrected_dist: corrected_dist as int,
                }
            },
        }
    }
}

/// The corrected distance is between zero and the raw distance: the cosine
/// factor only ever shortens it.
pub proof fn lemma_corrected_bounds(dist: int, cos_q: int)
    requires
        0 <= dist,
        0 <= cos_q <= COS_SCALE,
    ensures
        0 <= corrected_of(dist, cos_q) <= dist,
{
    let scale = COS_SCALE as int;
    assert(0 <= dist * cos_q <= dist * scale) by (nonlinear_arith)
        requires
            0 <= dist,
            0 <= cos_q <= scale,
    ;
    lemma_div_pos_is_pos(dist * cos_q, scale);
    lemma_div_is_ordered(dist * cos_q, dist * scale, scale);
    lemma_div_multiples_vanish(dist, scale);
    assert(dist * scale == scale * dist) by (nonlinear_arith);
}

/// Fisheye correction identity: a cosine factor of exactly 1 (the central
/// column, whose ray angle equals the view direction) leaves the raw
/// distance unchanged.
pub proof fn lemma_fisheye_identity(dist: int)
    requires
        0 <= dist,
    ensures
        corrected_of(dist, COS_SCALE as int) == dist,
{
    let scale = COS_SCALE as int;
    lemma_div_multiples_vanish(dist, scale);
    assert(dist * scale == scale * dist) by (nonlinear_arith);
}

/// For the central column — the ray whose angle equals the view direction,
/// so its cosine factor is exactly 1 — the corrected distance equals the
/// raw cast distance.
pub proof fn lemma_central_column_identity(
    map: GridMap,
    x: int,
    y: int,
    proj_scale: int,
    ray: ColumnRay,
)
    requires
        map.wf(),
        ray.cos_q == COS_SCALE,
    ensures
        match spec_column(map, x, y, proj_scale, ray) {
            ColumnModel::Wall { corrected_dist, .. } => match spec_cast(map, x, y, ray.dir) {
                CastOutcome::Hit(h) => corrected_dist == h.dist,
                CastOutcome::Miss => false,
            },
            ColumnModel::Background => spec_cast(map, x, y, ray.dir) is Miss,
        },
{
    match spec_cast(map, x, y, ray.dir) {
        CastOutcome::Hit(h) => {
            assert(0 <= h.dist_sq) by (nonlinear_arith)
                requires
                    h.dist_sq == (h.x - x) * (h.x - x) + (h.y - y) * (h.y - y),
            ;
            crate::nums::lemma_sqrt_floor_props(h.dist_sq);
            lemma_fisheye_identity(h.dist);
        },
        CastOutcome::Miss => {},
    }
}

/// Applies the fisheye correction and the height scaling to one cast hit.
fn wall_column(grid_size: i64, proj_scale: i64, hit: &crate::cast::RayHit, cos_q: i64) -> (c:
    ColumnResult)
    requires
        1 <= grid_size <= crate::grid::GRID_SIZE_LIMIT,
        1 <= proj_scale <= PROJ_LIMIT,
        0 <= hit.dist <= crate::cast::DIST_LIMIT,
        0 <= cos_q <= COS_SCALE,
    ensures
        ({
            let corrected = corrected_of(hit.dist as int, cos_q as int);
            c.model() == (ColumnModel::Wall {
                height: height_of(grid_size as int, proj_scale as int, corrected),
                orientation: hit.orientation,
                tex_offset: hit.tex_offset as int,
                corrected_dist: corrected,
            })
        }),
{
    proof {
        lemma_corrected_bounds(hit.dist as int, cos_q as int);
        assert((hit.dist as int) * (cos_q as int) <= 151115727451828646838272 * 65536)
            by (nonlinear_arith)
            requires
                0 <= hit.dist <= 2305843009213693952,
                0 <= cos_q <= 65536,
        ;
    }
    let prod = (hit.dist as i128) * (cos_q as i128);
    let corrected = ((prod as u128) / (COS_SCALE as u128)) as i64;
    let height = height_exec(grid_size, proj_scale, corrected);
    ColumnResult::Wall {
        height,
        orientation: hit.orientation,
        tex_offset: hit.tex_offset,
        corrected_dist: corrected,
    }
}

/// Computes one output column.
pub fn build_column(map: &GridMap, x: i64, y: i64, proj_scale: i64, ray: &ColumnRay) -> (c:
    ColumnResult)
    requires
        map.wf(),
        ray.wf(),
        1 <= proj_scale <= PROJ_LIMIT,
    ensures
        c.model() == spec_column(*map, x as int, y as int, proj_scale as int, *ray),
{
    match cast_ray(map, x, y, &ray.dir) {
        CastResult::Miss => ColumnResult::Background,
        CastResult::Hit(h) => wall_column(map.grid_size, proj_scale, &h, ray.cos_q),
    }
}

/// Computes the saturated projected wall height.
fn height_exec(grid_size: i64, proj_scale: i64, corrected: i64) -> (h: i32)
    requires
        1 <= grid_size <= crate::grid::GRID_SIZE_LIMIT,
        1 <= proj_scale <= PROJ_LIMIT,
    ensures
        h == height_of(grid_size as int, proj_scale as int, corrected as int),
{
    if corrected <= 0 {
        return i32::MAX;
    }
    proof {
        assert(0 < (grid_size as int) * (proj_scale as int) <= 1048576 * 1048576)
            by (nonlinear_arith)
            requires
                1 <= grid_size <= 1048576,
                1 <= proj_scale <= 1048576,
        ;
    }
    let scaled = (grid_size as u64) * (proj_scale as u64);
    let q = scaled / (corrected as u64);
    if q > i32::MAX as u64 {
        i32::MAX
    } else {
        q as i32
    }
}

/// Sweeps the field of view: casts one ray per column and fills one output
/// slot per ray.  Each slot depends only on the map, the camera position
/// and its own column's ray.
pub fn build_columns(
    map: &GridMap,
    x: i64,
    y: i64,
    proj_scale: i64,
    rays: &Vec<ColumnRay>,
) -> (out: Vec<ColumnResult>)
    requires
        map.wf(),
        1 <= proj_scale <= PROJ_LIMIT,
        forall|i: int| 0 <= i < rays@.len() ==> (#[trigger] rays@[i]).wf(),
    ensures
        out@.len() == rays@.len(),
        forall|i: int|
            0 <= i < rays@.len() ==> (#[trigger] out@[i]).model() == spec_column(
                *map,
                x as int,
                y as int,
                proj_scale as int,
                rays@[i],
            ),
{
    let mut out: Vec<ColumnResult> = Vec::new();
    let mut i: usize = 0;
    #[verifier::loop_isolation(false)]
    while i < rays.len()
        invariant
            i <= rays@.len(),
            out@.len() == i,
            forall|j: int|
                0 <= j < i ==> (#[trigger] out@[j]).model() == spec_column(
                    *map,
                    x as int,
                    y as int,
                    proj_scale as int,
                    rays@[j],
                ),
        decreases rays@.len() - i,
    {
        let ray = rays[i];
        let c = build_column(map, x, y, proj_scale, &ray);
        out.push(c);
        i = i + 1;
    }
    out
}

/// Whether one column ray's walks step through the cell `(i, j)`.
pub open spec fn ray_marks(map: GridMap, x: int, y: int, ray: ColumnRay, i: int, j: int) -> bool {
    ||| spec_h_trace(map, x, y, ray.dir).contains((i, j))
    ||| spec_v_trace(map, x, y, ray.dir).contains((i, j))
}

/// Whether any of the first `n` column rays steps through the cell
/// `(i, j)`.
pub open spec fn sweep_marks(
    map: GridMap,
    x: int,
    y: int,
    rays: Seq<ColumnRay>,
    n: int,
    i: int,
    j: int,
) -> bool {
    exists|k: int| 0 <= k < n && ray_marks(map, x, y, #[trigger] rays[k], i, j)
}

/// Computes one output column with the minimap side channel: marks the
/// cells this column's walks stepped through on the visited overlay.
pub fn build_column_marked(
    map: &GridMap,
    x: i64,
    y: i64,
    proj_scale: i64,
    ray: &ColumnRay,
    overlay: &mut VisitedOverlay,
) -> (c: ColumnResult)
    requires
        map.wf(),
        ray.wf(),
        1 <= proj_scale <= PROJ_LIMIT,
        old(overlay).wf(),
        old(overlay).matches_map(*map),
    ensures
        c.model() == spec_column(*map, x as int, y as int, proj_scale as int, *ray),
        final(overlay).wf(),
        final(overlay).matches_map(*map),
        forall|i: int, j: int| #[trigger]
            final(overlay).marked(i, j) == (old(overlay).marked(i, j) || ray_marks(
                *map,
                x as int,
                y as int,
                *ray,
                i,
                j,
            )),
{
    match cast_ray_marked(map, x, y, &ray.dir, overlay) {
        CastResult::Miss => ColumnResult::Background,
        CastResult::Hit(h) => wall_column(map.grid_size, proj_scale, &h, ray.cos_q),
    }
}

/// Sweeps the field of view with the minimap side channel: fills one output
/// slot per ray and marks, over the whole sweep, exactly the cells some
/// column's walks stepped through.
pub fn build_columns_marked(
    map: &GridMap,
    x: i64,
    y: i64,
    proj_scale: i64,
    rays: &Vec<ColumnRay>,
    overlay: &mut VisitedOverlay,
) -> (out: Vec<ColumnResult>)
    requires
        map.wf(),
        1 <= proj_scale <= PROJ_LIMIT,
        forall|i: int| 0 <= i < rays@.len() ==> (#[trigger] rays@[i]).wf(),
        old(overlay).wf(),
        old(overlay).matches_map(*map),
    ensures
        out@.len() == rays@.len(),
        forall|i: int|
            0 <= i < rays@.len() ==> (#[trigger] out@[i]).model() == spec_column(
                *map,
                x as int,
                y as int,
                proj_scale as int,
                rays@[i],
            ),
        final(overlay).wf(),
        final(overlay).matches_map(*map),
        forall|i: int, j: int| #[trigger]
            final(overlay).marked(i, j) == (old(overlay).marked(i, j) || sweep_marks(
                *map,
                x as int,
                y as int,
                rays@,
                rays@.len() as int,
                i,
                j,
            )),
{
    let mut out: Vec<ColumnResult> = Vec::new();
    let mut n: usize = 0;
    #[verifier::loop_isolation(false)]
    while n < rays.len()
        invariant
            n <= rays@.len(),
            out@.len() == n,
            forall|j: int|
                0 <= j < n ==> (#[trigger] out@[j]).model() == spec_column(
                    *map,
                    x as int,
                    y as int,
                    proj_scale as int,
                    rays@[j],
                ),
            overlay.wf(),
            overlay.matches_map(*map),
            forall|i: int, j: int| #[trigger]
                overlay.marked(i, j) == (old(overlay).marked(i, j) || sweep_marks(
                    *map,
                    x as int,
                    y as int,
                    rays@,
                    n as int,
                    i,
                    j,
                )),
        decreases rays@.len() - n,
    {
        let ray = rays[n];
        let ghost marked_before = *overlay;
        let c = build_column_marked(map, x, y, proj_scale, &ray, overlay);
        out.push(c);
        proof {
            let gx = x as int;
            let gy = y as int;
            assert forall|i: int, j: int| #[trigger]
                overlay.marked(i, j) == (old(overlay).marked(i, j) || sweep_marks(
                    *map,
                    gx,
                    gy,
                    rays@,
                    n as int + 1,
                    i,
                    j,
                )) by {
                if overlay.marked(i, j) {
                    if marked_before.marked(i, j) {
                        if !old(overlay).marked(i, j) {
                            let k = choose|k: int|
                                0 <= k < n && ray_marks(*map, gx, gy, #[trigger] rays@[k], i, j);
                            assert(0 <= k < n as int + 1 && ray_marks(
                                *map,
                                gx,
                                gy,
                                rays@[k],
                                i,
                                j,
                            ));
                        }
                    } else {
                        assert(ray_marks(*map, gx, gy, rays@[n as int], i, j));
                        assert(0 <= (n as int) < (n as int) + 1 && ray_marks(
                            *map,
                            gx,
                            gy,
                            rays@[n as int],
                            i,
                            j,
                        ));
                    }
                }
                if sweep_marks(*map, gx, gy, rays@, n as int + 1, i, j) {
                    let k = choose|k: int|
                        0 <= k < n as int + 1 && ray_marks(*map, gx, gy, #[trigger] rays@[k], i, j);
                    if k < n as int {
                        assert(sweep_marks(*map, gx, gy, rays@, n as int, i, j));
                        assert(marked_before.marked(i, j));
                    } else {
                        assert(ray_marks(*map, gx, gy, rays@[n as int], i, j));
                    }
                }
            }
        }
        n = n + 1;
    }
    out
}

} // verus!
