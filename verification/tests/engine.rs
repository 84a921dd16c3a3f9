use raycast::cast::{cast_ray, CastResult, Orientation};
use raycast::grid::GridMap;
use raycast::overlay::VisitedOverlay;
use raycast::ray::{
    calc_horizontal_intersection, calc_horizontal_intersection_marked,
    calc_vertical_intersection, Intersection, RayDir,
};

fn empty_map(width: usize, height: usize, grid_size: i64) -> GridMap {
    let mut rows: Vec<Vec<u8>> = Vec::new();
    for _ in 0..height {
        rows.push(vec![0u8; width]);
    }
    GridMap::new(rows, grid_size).unwrap()
}

/// A map with a solid one-cell border of walls around an empty interior.
fn boxed_map(width: usize, height: usize, grid_size: i64) -> GridMap {
    let mut rows: Vec<Vec<u8>> = Vec::new();
    for r in 0..height {
        let mut row: Vec<u8> = Vec::new();
        for c in 0..width {
            let edge = r == 0 || c == 0 || r == height - 1 || c == width - 1;
            row.push(if edge { 1 } else { 0 });
        }
        rows.push(row);
    }
    GridMap::new(rows, grid_size).unwrap()
}

fn up_ray() -> RayDir {
    RayDir::new(false, true, false, true, 0, 0).unwrap()
}

#[test]
fn up_ray_hits_northern_boundary_edge() {
    // A ray cast due "up" from (224, 481) in a map whose northern boundary
    // wall is above row 0 at grid size 64: the horizontal hit lands one unit
    // outside row 0 (y == -1) at distance 481 - (-1) == 482.
    let map = empty_map(5, 8, 64);
    let dir = up_ray();
    let h = calc_horizontal_intersection(&map, 224, 481, &dir);
    assert_eq!(h, Intersection::Hit { x: 224, y: -1 });
    match cast_ray(&map, 224, 481, &dir) {
        CastResult::Hit(hit) => {
            assert_eq!(hit.x, 224);
            assert_eq!(hit.y, -1);
            assert_eq!(hit.dist, 482);
            assert_eq!(hit.dist_sq, 482 * 482);
            assert_eq!(hit.orientation, Orientation::Horizontal);
            assert_eq!(hit.tex_offset, 224 % 64);
        }
        CastResult::Miss => panic!("the boundary wall must stop the ray"),
    }
}

#[test]
fn right_ray_hits_eastern_boundary_edge() {
    // The vertical-line mirror: due "right" from (100, 100) in an empty
    // 5-column map, the first blocking crossing is the boundary at x == 320.
    let map = empty_map(5, 8, 64);
    let dir = RayDir::new(true, false, true, false, 0, 0).unwrap();
    let v = calc_vertical_intersection(&map, 100, 100, &dir);
    assert_eq!(v, Intersection::Hit { x: 320, y: 100 });
    match cast_ray(&map, 100, 100, &dir) {
        CastResult::Hit(hit) => {
            assert_eq!(hit.dist, 220);
            assert_eq!(hit.orientation, Orientation::Vertical);
            assert_eq!(hit.tex_offset, 100 % 64);
        }
        CastResult::Miss => panic!("the boundary wall must stop the ray"),
    }
}

#[test]
fn parallel_ray_reports_no_crossing() {
    let map = empty_map(5, 8, 64);
    // A horizontal ray never crosses a horizontal grid line.
    let dir = RayDir::new(true, false, true, false, 0, 0).unwrap();
    assert_eq!(calc_horizontal_intersection(&map, 100, 100, &dir), Intersection::Infinite);
    // A vertical ray never crosses a vertical grid line.
    let dir = up_ray();
    assert_eq!(calc_vertical_intersection(&map, 100, 100, &dir), Intersection::Infinite);
}

#[test]
fn origin_outside_grid_misses() {
    let map = empty_map(5, 5, 64);
    let dir = RayDir::new(true, true, false, false, 64, 64).unwrap();
    assert_eq!(calc_horizontal_intersection(&map, -5, -5, &dir), Intersection::Infinite);
    assert_eq!(calc_vertical_intersection(&map, 400, 10, &dir), Intersection::Infinite);
    assert_eq!(cast_ray(&map, -5, -5, &dir), CastResult::Miss);
}

#[test]
fn cast_twice_is_deterministic() {
    let map = boxed_map(13, 13, 64);
    let dirs = [
        RayDir::new(true, true, false, false, 93, 44).unwrap(),
        RayDir::new(false, true, false, false, 64, 64).unwrap(),
        RayDir::new(true, false, false, false, 7, 581).unwrap(),
    ];
    for dir in dirs.iter() {
        let first = cast_ray(&map, 224, 481, dir);
        let second = cast_ray(&map, 224, 481, dir);
        assert_eq!(first, second);
        match (first, second) {
            (CastResult::Hit(a), CastResult::Hit(b)) => {
                assert_eq!(a.orientation, b.orientation);
                assert_eq!(a.tex_offset, b.tex_offset);
            }
            _ => panic!("rays inside a boxed map must hit"),
        }
    }
}

#[test]
fn corner_tie_resolves_to_horizontal() {
    // From (63, 63), an up-left diagonal ray meets the corner of the map at
    // (-1, -1) on both grid-line families at the same distance; the
    // deterministic tie-break keeps the horizontal-line hit.
    let map = empty_map(3, 3, 64);
    let dir = RayDir::new(false, true, false, false, 64, 64).unwrap();
    match cast_ray(&map, 63, 63, &dir) {
        CastResult::Hit(hit) => {
            assert_eq!((hit.x, hit.y), (-1, -1));
            assert_eq!(hit.orientation, Orientation::Horizontal);
            assert_eq!(hit.tex_offset, 63);
        }
        CastResult::Miss => panic!("the corner blocks the ray"),
    }
}

#[test]
fn interior_wall_stops_ray_before_boundary() {
    // A wall cell in the path is hit instead of the boundary.
    let mut rows = vec![vec![0u8; 5]; 8];
    rows[2][3] = 1; // cell (3, 2): x in [192, 256), y in [128, 192)
    let map = GridMap::new(rows, 64).unwrap();
    let dir = up_ray();
    let h = calc_horizontal_intersection(&map, 224, 481, &dir);
    // Walking up from (224, 481), the first crossing inside the wall cell is
    // its southern edge at y == 191.
    assert_eq!(h, Intersection::Hit { x: 224, y: 191 });
}

#[test]
fn rays_terminate_within_step_bound_in_every_direction() {
    // Boundary termination: no cast hangs or runs out of fuel, even aimed
    // exactly along a grid line, from an origin on a grid line.
    let map = boxed_map(13, 13, 64);
    let runs = [0i64, 1, 13, 64, 100, 4096, 35184372088832];
    for &run in runs.iter() {
        for &rise in runs.iter() {
            for &right in [true, false].iter() {
                for &up in [true, false].iter() {
                    let dir = RayDir::new(right, up, false, false, run, rise).unwrap();
                    for &(x, y) in [(224i64, 481i64), (64, 64), (416, 416), (65, 701)].iter() {
                        let h = calc_horizontal_intersection(&map, x, y, &dir);
                        let v = calc_vertical_intersection(&map, x, y, &dir);
                        assert!(matches!(h, Intersection::Hit { .. }));
                        assert!(matches!(v, Intersection::Hit { .. }));
                        assert!(matches!(cast_ray(&map, x, y, &dir), CastResult::Hit(_)));
                    }
                }
            }
        }
    }
}

#[test]
fn texture_offset_always_within_grid_size() {
    let map = boxed_map(13, 13, 64);
    let runs = [0i64, 5, 64, 129, 1000];
    for &run in runs.iter() {
        for &rise in runs.iter() {
            for &right in [true, false].iter() {
                for &up in [true, false].iter() {
                    let dir = RayDir::new(right, up, false, false, run, rise).unwrap();
                    match cast_ray(&map, 224, 481, &dir) {
                        CastResult::Hit(hit) => {
                            assert!(0 <= hit.tex_offset && hit.tex_offset < 64);
                        }
                        CastResult::Miss => panic!("rays inside a boxed map must hit"),
                    }
                }
            }
        }
    }
    // Hits on the implicit boundary outside the grid still sample in range.
    let open = empty_map(5, 8, 64);
    match cast_ray(&open, 224, 481, &up_ray()) {
        CastResult::Hit(hit) => {
            assert!(0 <= hit.tex_offset && hit.tex_offset < 64);
        }
        CastResult::Miss => panic!("the boundary wall must stop the ray"),
    }
}

#[test]
fn marked_intersector_traces_the_walked_column() {
    let map = empty_map(5, 8, 64);
    let mut overlay = VisitedOverlay::new(&map);
    let dir = up_ray();
    let r = calc_horizontal_intersection_marked(&map, 224, 481, &dir, &mut overlay);
    assert_eq!(r, Intersection::Hit { x: 224, y: -1 });
    // The walk enters one row above the origin's row and steps up to row 0.
    for gy in 0..=6 {
        assert!(overlay.is_marked(3, gy), "column cell (3, {}) should be marked", gy);
    }
    assert!(!overlay.is_marked(3, 7));
    for gy in 0..8 {
        assert!(!overlay.is_marked(2, gy));
        assert!(!overlay.is_marked(4, gy));
    }
    overlay.reset();
    for gy in 0..8 {
        assert!(!overlay.is_marked(3, gy));
    }
}
