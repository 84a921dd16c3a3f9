//! The occupancy grid: a rectangular map of empty and wall cells with a
//! shared cell edge length, plus the world-coordinate to cell-index
//! conversion.  Out-of-bounds queries act as walls, so the map boundary is an
//! implicit wall and every ray eventually terminates on it.

use vstd::prelude::*;

verus! {

use crate::nums::floor_div;

/// The rows of a layout vector as a sequence of sequences of cell codes.
pub open spec fn rows_of(cells: Seq<Vec<u8>>) -> Seq<Seq<u8>> {
    Seq::new(cells.len(), |r: int| cells[r]@)
}

/// Largest accepted world-unit edge length of one grid cell.
pub const GRID_SIZE_LIMIT: i64 = 1048576;

/// Largest accepted width or height of a map, in cells.
pub const DIM_LIMIT: usize = 4096;

/// What a world-coordinate query finds at a point.
#[derive(Clone, Copy, Debug, PartialEq, Eq, Structural)]
pub enum CellState {
    /// The point lies in a cell a ray passes through.
    Empty,
    /// The point lies in a wall cell.
    Wall,
    /// The point lies outside the grid; it blocks rays like a wall.
    OutOfBounds,
}

/// Why a layout was rejected at construction time.
#[derive(Clone, Copy, Debug, PartialEq, Eq, Structural)]
pub enum GridError {
    /// The cell edge length is not in `1 ..= GRID_SIZE_LIMIT`.
    BadGridSize,
    /// The layout has no rows, or its first row has no cells.
    EmptyLayout,
    /// The layout is wider or taller than `DIM_LIMIT` cells.
    OversizedLayout,
    /// Some row differs in length from the first row.
    RaggedRows,
    /// Some cell code is neither 0 (empty) nor 1 (wall).
    BadCellCode,
}

/// An immutable rectangular occupancy grid.  Cell codes are 0 (empty) and
/// 1 (wall); `grid_size` is the world-unit edge length of one square cell.
#[derive(Debug)]
pub struct GridMap {
    pub cells: Vec<Vec<u8>>,
    pub grid_size: i64,
}

/// The grid-size check of `GridMap::new`.
pub open spec fn grid_size_ok(grid_size: i64) -> bool {
    1 <= grid_size <= GRID_SIZE_LIMIT
}

/// The shape checks of `GridMap::new` on a layout.
pub open spec fn layout_ok(layout: Seq<Seq<u8>>) -> bool {
    &&& 1 <= layout.len() <= DIM_LIMIT
    &&& 1 <= layout[0].len() <= DIM_LIMIT
    &&& forall|r: int| 0 <= r < layout.len() ==> #[trigger] layout[r].len() == layout[0].len()
    &&& forall|r: int, c: int|
        0 <= r < layout.len() && 0 <= c < layout[0].len() ==> #[trigger] layout[r][c] < 2
}

/// The first check of `GridMap::new` that a rejected input fails.
pub open spec fn layout_error(layout: Seq<Seq<u8>>, grid_size: i64) -> GridError {
    if !grid_size_ok(grid_size) {
        GridError::BadGridSize
    } else if layout.len() == 0 || layout[0].len() == 0 {
        GridError::EmptyLayout
    } else if layout.len() > DIM_LIMIT || layout[0].len() > DIM_LIMIT {
        GridError::OversizedLayout
    } else if exists|r: int| 0 <= r < layout.len() && #[trigger] layout[r].len() != layout[0].len() {
        GridError::RaggedRows
    } else {
        GridError::BadCellCode
    }
}

impl GridMap {
    /// The layout as a sequence of rows of cell codes.
    pub open spec fn layout(&self) -> Seq<Seq<u8>> {
        rows_of(self.cells@)
    }

    /// Width of the map in cells.
    pub open spec fn width(&self) -> int {
        self.layout()[0].len() as int
    }

    /// Height of the map in cells.
    pub open spec fn height(&self) -> int {
        self.layout().len() as int
    }

    /// Well-formedness: a validated grid size and a rectangular layout of
    /// 0/1 cell codes within the size limits.
    pub open spec fn wf(&self) -> bool {
        grid_size_ok(self.grid_size) && layout_ok(self.layout())
    }

    /// The cell code at cell indices `(gx, gy)` (column, row).
    pub open spec fn cell_code(&self, gx: int, gy: int) -> u8 {
        self.layout()[gy][gx]
    }

    /// Whether the cell at `(gx, gy)` blocks a ray: a wall cell, or any
    /// out-of-bounds index (the implicit boundary wall).
    pub open spec fn wall_cell(&self, gx: int, gy: int) -> bool {
        gx < 0 || gy < 0 || gx >= self.width() || gy >= self.height() || self.cell_code(
            gx,
            gy,
        ) == 1
    }

    /// Cell index of a world coordinate: floor division by the cell edge
    /// length, rounding toward negative infinity.
    pub open spec fn grid_index(&self, w: int) -> int {
        w / (self.grid_size as int)
    }

    /// Whether the world point `(x, y)` lies in a blocking cell.
    pub open spec fn wall_world(&self, x: int, y: int) -> bool {
        self.wall_cell(self.grid_index(x), self.grid_index(y))
    }

    /// What `cell_state` reports for the world point `(x, y)`.
    pub open spec fn spec_cell_state(&self, x: int, y: int) -> CellState {
        let gx = self.grid_index(x);
        let gy = self.grid_index(y);
        if gx < 0 || gy < 0 || gx >= self.width() || gy >= self.height() {
            CellState::OutOfBounds
        } else if self.cell_code(gx, gy) == 1 {
            CellState::Wall
        } else {
            CellState::Empty
        }
    }

    /// Whether the world point `(x, y)` lies strictly inside the grid's
    /// world-coordinate range.
    pub open spec fn in_grid(&self, x: int, y: int) -> bool {
        &&& 0 <= x < self.width() * self.grid_size
        &&& 0 <= y < self.height() * self.grid_size
    }

    /// Fuel for the stepping loop: a walk that crosses one grid line per
    /// step leaves the cell-index range within this many steps from
    /// anywhere inside the grid.
    pub open spec fn step_bound(&self) -> nat {
        (self.width() + self.height() + 2) as nat
    }

    /// Validates a layout and a cell edge length and builds the grid.
    ///
    /// Returns `Err` exactly on malformed input: a grid size out of range, an
    /// empty or oversized layout, rows of unequal length, or a cell code
    /// other than 0 and 1.
    #[verifier::loop_isolation(false)]
    pub fn new(cells: Vec<Vec<u8>>, grid_size: i64) -> (result: Result<GridMap, GridError>)
        ensures
            match result {
                Ok(map) => {
                    &&& map.wf()
                    &&& map.layout() == rows_of(cells@)
                    &&& map.grid_size == grid_size
                },
                Err(e) => {
                    &&& !(grid_size_ok(grid_size) && layout_ok(rows_of(cells@)))
                    &&& e == layout_error(rows_of(cells@), grid_size)
                },
            },
    {
        if grid_size < 1 || grid_size > GRID_SIZE_LIMIT {
            return Err(GridError::BadGridSize);
        }
        if cells.len() == 0 || cells[0].len() == 0 {
            return Err(GridError::EmptyLayout);
        }
        if cells.len() > DIM_LIMIT || cells[0].len() > DIM_LIMIT {
            return Err(GridError::OversizedLayout);
        }
        let width = cells[0].len();
        let height = cells.len();
        let mut r: usize = 0;
        while r < height
            invariant
                height == rows_of(cells@).len(),
                width == rows_of(cells@)[0].len(),
                forall|i: int| 0 <= i < r ==> #[trigger] rows_of(cells@)[i].len() == width,
                r <= height,
            decreases height - r,
        {
            if cells[r].len() != width {
                proof {
                    assert(rows_of(cells@)[r as int] == cells@[r as int]@);
                    assert(rows_of(cells@)[r as int].len() != rows_of(cells@)[0].len());
                }
                return Err(GridError::RaggedRows);
            }
            proof {
                assert(rows_of(cells@)[r as int] == cells@[r as int]@);
            }
            r = r + 1;
        }
        let mut r: usize = 0;
        while r < height
            invariant
                height == rows_of(cells@).len(),
                width == rows_of(cells@)[0].len(),
                forall|i: int| 0 <= i < height ==> #[trigger] rows_of(cells@)[i].len() == width,
                forall|i: int, j: int|
                    0 <= i < r && 0 <= j < width ==> #[trigger] rows_of(cells@)[i][j] < 2,
                r <= height,
            decreases height - r,
        {
            let mut c: usize = 0;
            while c < width
                invariant
                    height == rows_of(cells@).len(),
                    width == rows_of(cells@)[0].len(),
                    forall|i: int| 0 <= i < height ==> #[trigger] rows_of(cells@)[i].len()
                        == width,
                    forall|i: int, j: int|
                        0 <= i < r && 0 <= j < width ==> #[trigger] rows_of(cells@)[i][j] < 2,
                    forall|j: int| 0 <= j < c ==> #[trigger] rows_of(cells@)[r as int][j] < 2,
                    r < height,
                    c <= width,
                decreases width - c,
            {
                proof {
                    assert(rows_of(cells@)[r as int] == cells@[r as int]@);
                    assert(rows_of(cells@)[r as int].len() == width);
                }
                if cells[r][c] > 1 {
                    proof {
                        assert(rows_of(cells@)[r as int][c as int] >= 2);
                    }
                    return Err(GridError::BadCellCode);
                }
                c = c + 1;
            }
            r = r + 1;
        }
        Ok(GridMap { cells, grid_size })
    }

    /// World coordinates to cell indices `(gx, gy)`, rounding toward
    /// negative infinity on both axes, so negative coordinates map to
    /// negative cell indices.
    pub fn convert_to_grid(&self, x: i64, y: i64) -> (r: (i64, i64))
        requires
            self.wf(),
        ensures
            r.0 == self.grid_index(x as int),
            r.1 == self.grid_index(y as int),
    {
        let gs = self.grid_size as i128;
        let gx = floor_div(x as i128, gs);
        let gy = floor_div(y as i128, gs);
        proof {
            lemma_floor_div_fits_i64(x as int, self.grid_size as int);
            lemma_floor_div_fits_i64(y as int, self.grid_size as int);
        }
        (gx as i64, gy as i64)
    }

    /// Whether the cell at indices `(gx, gy)` blocks a ray.
    pub fn is_wall_cell(&self, gx: i64, gy: i64) -> (b: bool)
        requires
            self.wf(),
        ensures
            b == self.wall_cell(gx as int, gy as int),
    {
        if gx < 0 || gy < 0 {
            return true;
        }
        if gy >= self.cells.len() as i64 {
            return true;
        }
        if gx >= self.cells[0].len() as i64 {
            return true;
        }
        proof {
            assert(self.layout()[gy as int] == self.cells@[gy as int]@);
            assert(self.layout()[gy as int].len() == self.width());
        }
        self.cells[gy as usize][gx as usize] == 1
    }

    /// Whether the world point `(x, y)` lies in a blocking cell.
    pub fn is_wall_at(&self, x: i64, y: i64) -> (b: bool)
        requires
            self.wf(),
        ensures
            b == self.wall_world(x as int, y as int),
    {
        let (gx, gy) = self.convert_to_grid(x, y);
        self.is_wall_cell(gx, gy)
    }

    /// State of the cell containing the world point `(x, y)`: `Empty` or
    /// `Wall` inside the grid, `OutOfBounds` beyond it.
    pub fn cell_state(&self, x: i64, y: i64) -> (s: CellState)
        requires
            self.wf(),
        ensures
            s == self.spec_cell_state(x as int, y as int),
            (s == CellState::Empty) == !self.wall_world(x as int, y as int),
    {
        let (gx, gy) = self.convert_to_grid(x, y);
        if gx < 0 || gy < 0 {
            return CellState::OutOfBounds;
        }
        if gy >= self.cells.len() as i64 || gx >= self.cells[0].len() as i64 {
            return CellState::OutOfBounds;
        }
        proof {
            assert(self.layout()[gy as int] == self.cells@[gy as int]@);
            assert(self.layout()[gy as int].len() == self.width());
        }
        if self.cells[gy as usize][gx as usize] == 1 {
            CellState::Wall
        } else {
            CellState::Empty
        }
    }

    /// The stepping-loop fuel as a run-time value.
    pub fn step_bound_exec(&self) -> (b: usize)
        requires
            self.wf(),
        ensures
            b == self.step_bound(),
    {
        self.cells[0].len() + self.cells.len() + 2
    }
}

/// A point inside the grid has coordinates below the largest possible map
/// extent.
pub proof fn lemma_in_grid_bounds(map: GridMap, x: int, y: int)
    requires
        map.wf(),
        map.in_grid(x, y),
    ensures
        0 <= x < 4294967296,
        0 <= y < 4294967296,
{
    assert(map.width() * map.grid_size <= 4294967296 && map.height() * map.grid_size
        <= 4294967296) by (nonlinear_arith)
        requires
            1 <= map.width() <= 4096,
            1 <= map.height() <= 4096,
            1 <= map.grid_size <= 1048576,
    ;
}

/// A floor quotient of an `i64` by a positive divisor stays in `i64` range.
proof fn lemma_floor_div_fits_i64(a: int, b: int)
    requires
        0 < b,
        i64::MIN <= a <= i64::MAX,
    ensures
        i64::MIN <= a / b <= i64::MAX,
{
    vstd::arithmetic::div_mod::lemma_fundamental_div_mod(a, b);
    assert(i64::MIN <= a / b <= i64::MAX) by (nonlinear_arith)
        requires
            0 < b,
            i64::MIN <= a <= i64::MAX,
            a == b * (a / b) + (a % b),
            0 <= a % b < b,
    ;
}

} // verus!
