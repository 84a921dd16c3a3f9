use raycast::grid::{CellState, GridError, GridMap};
use raycast::nums::{floor_div, floor_mod, isqrt};

fn empty_map(width: usize, height: usize, grid_size: i64) -> GridMap {
    let mut rows: Vec<Vec<u8>> = Vec::new();
    for _ in 0..height {
        rows.push(vec![0u8; width]);
    }
    GridMap::new(rows, grid_size).unwrap()
}

#[test]
fn new_accepts_rectangular_layout() {
    let map = GridMap::new(vec![vec![1, 1, 1], vec![1, 0, 1], vec![1, 1, 1]], 64).unwrap();
    assert_eq!(map.cell_state(96, 96), CellState::Empty);
    assert_eq!(map.cell_state(0, 0), CellState::Wall);
}

#[test]
fn new_rejects_ragged_rows() {
    let r = GridMap::new(vec![vec![0, 0], vec![0]], 64);
    assert_eq!(r.unwrap_err(), GridError::RaggedRows);
}

#[test]
fn new_rejects_bad_grid_size() {
    assert_eq!(GridMap::new(vec![vec![0]], 0).unwrap_err(), GridError::BadGridSize);
    assert_eq!(GridMap::new(vec![vec![0]], -64).unwrap_err(), GridError::BadGridSize);
    assert_eq!(GridMap::new(vec![vec![0]], 1048577).unwrap_err(), GridError::BadGridSize);
}

#[test]
fn new_rejects_empty_layout() {
    assert_eq!(GridMap::new(vec![], 64).unwrap_err(), GridError::EmptyLayout);
    assert_eq!(GridMap::new(vec![vec![]], 64).unwrap_err(), GridError::EmptyLayout);
}

#[test]
fn new_rejects_oversized_layout() {
    let rows = vec![vec![0u8]; 4097];
    assert_eq!(GridMap::new(rows, 64).unwrap_err(), GridError::OversizedLayout);
}

#[test]
fn new_rejects_bad_cell_code() {
    let r = GridMap::new(vec![vec![0, 2], vec![0, 0]], 64);
    assert_eq!(r.unwrap_err(), GridError::BadCellCode);
}

#[test]
fn negative_coordinates_floor_toward_negative_infinity() {
    let map = empty_map(5, 5, 64);
    assert_eq!(map.convert_to_grid(-1, -1), (-1, -1));
    assert_eq!(map.convert_to_grid(-64, -64), (-1, -1));
    assert_eq!(map.convert_to_grid(-65, -65), (-2, -2));
    assert_eq!(map.convert_to_grid(0, 63), (0, 0));
    assert_eq!(map.convert_to_grid(64, 127), (1, 1));
}

#[test]
fn out_of_bounds_acts_as_wall() {
    let map = empty_map(5, 5, 64);
    assert_eq!(map.cell_state(-1, -1), CellState::OutOfBounds);
    assert_eq!(map.cell_state(320, 10), CellState::OutOfBounds);
    assert!(map.is_wall_at(-1, -1));
    assert!(map.is_wall_at(10, 320));
    assert!(!map.is_wall_at(10, 10));
}

#[test]
fn floor_div_rounds_toward_negative_infinity() {
    assert_eq!(floor_div(-1, 64), -1);
    assert_eq!(floor_div(-64, 64), -1);
    assert_eq!(floor_div(-65, 64), -2);
    assert_eq!(floor_div(0, 64), 0);
    assert_eq!(floor_div(63, 64), 0);
    assert_eq!(floor_div(64, 64), 1);
}

#[test]
fn floor_mod_stays_in_range() {
    assert_eq!(floor_mod(-1, 64), 63);
    assert_eq!(floor_mod(-64, 64), 0);
    assert_eq!(floor_mod(-65, 64), 63);
    assert_eq!(floor_mod(5, 64), 5);
    assert_eq!(floor_mod(64, 64), 0);
}

#[test]
fn isqrt_brackets_squares() {
    assert_eq!(isqrt(0), 0);
    assert_eq!(isqrt(1), 1);
    assert_eq!(isqrt(15), 3);
    assert_eq!(isqrt(16), 4);
    assert_eq!(isqrt(482 * 482), 482);
    assert_eq!(isqrt(482 * 482 + 1), 482);
    assert_eq!(isqrt(u128::from(u64::MAX) * u128::from(u64::MAX)), u64::MAX);
}
