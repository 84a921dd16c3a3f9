use raycast::grid::GridMap;
use raycast::overlay::VisitedOverlay;
use raycast::project::{
    build_column, build_columns, build_columns_marked, ColumnRay, ColumnResult, COS_SCALE,
};
use raycast::ray::RayDir;

fn empty_map(width: usize, height: usize, grid_size: i64) -> GridMap {
    let mut rows: Vec<Vec<u8>> = Vec::new();
    for _ in 0..height {
        rows.push(vec![0u8; width]);
    }
    GridMap::new(rows, grid_size).unwrap()
}

fn up_ray() -> RayDir {
    RayDir::new(false, true, false, true, 0, 0).unwrap()
}

#[test]
fn central_column_keeps_raw_distance() {
    // Fisheye correction identity: for the central column the ray angle
    // equals the heading, the cosine factor is exactly 1, and the corrected
    // distance equals the raw distance.
    let map = empty_map(5, 8, 64);
    let ray = ColumnRay::new(up_ray(), COS_SCALE).unwrap();
    match build_column(&map, 224, 481, 800, &ray) {
        ColumnResult::Wall { height, tex_offset, corrected_dist, .. } => {
            assert_eq!(corrected_dist, 482);
            assert_eq!(height, 64 * 800 / 482);
            assert_eq!(tex_offset, 224 % 64);
        }
        ColumnResult::Background => panic!("the boundary wall must stop the ray"),
    }
}

#[test]
fn fisheye_correction_scales_distance() {
    // A cosine factor of one half shortens the corrected distance to half
    // the raw distance.
    let map = empty_map(5, 8, 64);
    let ray = ColumnRay::new(up_ray(), COS_SCALE / 2).unwrap();
    match build_column(&map, 224, 481, 800, &ray) {
        ColumnResult::Wall { corrected_dist, .. } => {
            assert_eq!(corrected_dist, 241);
        }
        ColumnResult::Background => panic!("the boundary wall must stop the ray"),
    }
}

#[test]
fn doubly_parallel_ray_renders_background() {
    // When both intersectors report no crossing, the column is background.
    let map = empty_map(5, 8, 64);
    let dir = RayDir::new(false, true, true, true, 0, 0).unwrap();
    let ray = ColumnRay::new(dir, COS_SCALE).unwrap();
    assert_eq!(build_column(&map, 224, 481, 800, &ray), ColumnResult::Background);
}

#[test]
fn zero_corrected_distance_saturates_height() {
    // A corrected distance of zero (a hit at the origin's own edge with a
    // vanishing cosine factor) projects a wall taller than any screen.
    let map = empty_map(5, 8, 64);
    let ray = ColumnRay::new(up_ray(), 0).unwrap();
    match build_column(&map, 224, 481, 800, &ray) {
        ColumnResult::Wall { height, corrected_dist, .. } => {
            assert_eq!(corrected_dist, 0);
            assert_eq!(height, i32::MAX);
        }
        ColumnResult::Background => panic!("the boundary wall must stop the ray"),
    }
}

#[test]
fn columns_are_independent_and_match_single_casts() {
    let map = empty_map(5, 8, 64);
    let rays = vec![
        ColumnRay::new(up_ray(), COS_SCALE).unwrap(),
        ColumnRay::new(RayDir::new(true, true, false, false, 31, 129).unwrap(), 60000).unwrap(),
        ColumnRay::new(RayDir::new(false, true, true, true, 0, 0).unwrap(), COS_SCALE).unwrap(),
        ColumnRay::new(RayDir::new(true, false, true, false, 0, 0).unwrap(), 50000).unwrap(),
    ];
    let out = build_columns(&map, 224, 481, 800, &rays);
    assert_eq!(out.len(), rays.len());
    for (i, ray) in rays.iter().enumerate() {
        assert_eq!(out[i], build_column(&map, 224, 481, 800, ray));
    }
}

#[test]
fn marked_sweep_traces_every_column() {
    let map = empty_map(5, 8, 64);
    let mut overlay = VisitedOverlay::new(&map);
    let rays = vec![
        // Due up from (224, 481): the horizontal walk climbs column 3.
        ColumnRay::new(up_ray(), COS_SCALE).unwrap(),
        // Due right: the vertical walk crosses into cell (4, 7) and then
        // leaves the grid.
        ColumnRay::new(RayDir::new(true, false, true, false, 0, 0).unwrap(), COS_SCALE).unwrap(),
    ];
    let marked_out = build_columns_marked(&map, 224, 481, 800, &rays, &mut overlay);
    assert_eq!(marked_out, build_columns(&map, 224, 481, 800, &rays));
    for gy in 0..=6 {
        assert!(overlay.is_marked(3, gy));
    }
    assert!(overlay.is_marked(4, 7));
    assert!(!overlay.is_marked(4, 6));
    assert!(!overlay.is_marked(2, 3));
}

#[test]
fn height_shrinks_with_distance() {
    // The same wall seen from farther away projects a shorter column.
    let map = empty_map(5, 8, 64);
    let ray = ColumnRay::new(up_ray(), COS_SCALE).unwrap();
    let near = build_column(&map, 224, 100, 800, &ray);
    let far = build_column(&map, 224, 481, 800, &ray);
    match (near, far) {
        (
            ColumnResult::Wall { height: near_h, .. },
            ColumnResult::Wall { height: far_h, .. },
        ) => {
            assert!(near_h > far_h);
        }
        _ => panic!("both rays must hit the boundary"),
    }
}
