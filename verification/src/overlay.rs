//! The visited overlay: a per-frame minimap side channel with the same
//! shape as the map.  The marking intersector variants set a cell's flag
//! when a DDA step passes through it; the renderer reads the flags and
//! resets the overlay once per frame.  Marking is monotonic within a frame
//! and never feeds back into the cast itself.

use vstd::prelude::*;

verus! {

use crate::grid::{DIM_LIMIT, GridMap};

/// A rectangular grid of "a ray passed through this cell" flags, stored
/// row-major.
pub struct VisitedOverlay {
    pub flags: Vec<bool>,
    pub width: usize,
    pub height: usize,
}

/// A row-major cell index lies within the flag vector.
proof fn lemma_cell_index_in_range(w: int, h: int, i: int, j: int)
    requires
        0 <= i < w,
        0 <= j < h,
        w <= 4096,
        h <= 4096,
    ensures
        0 <= j * w + i < w * h,
        j * w + i < 16777216,
        w * h <= 16777216,
    {
    assert(0 <= j * w + i < w * h && j * w + i < 16777216 && w * h <= 16777216)
        by (nonlinear_arith)
        requires
            0 <= i < w,
            0 <= j < h,
            w <= 4096,
            h <= 4096,
    ;
}

/// Row-major cell indices are unique within the rectangle.
proof fn lemma_row_major_unique(w: int, i1: int, j1: int, i2: int, j2: int)
    requires
        0 <= i1 < w,
        0 <= i2 < w,
        0 <= j1,
        0 <= j2,
        j1 * w + i1 == j2 * w + i2,
    ensures
        i1 == i2 && j1 == j2,
{
    assert(i1 == i2 && j1 == j2) by (nonlinear_arith)
        requires
            0 <= i1 < w,
            0 <= i2 < w,
            0 <= j1,
            0 <= j2,
            j1 * w + i1 == j2 * w + i2,
    ;
}

impl VisitedOverlay {
    /// Well-formedness: nonempty dimensions within the map size limits and
    /// one flag per cell.
    pub open spec fn wf(&self) -> bool {
        &&& 1 <= self.width <= DIM_LIMIT
        &&& 1 <= self.height <= DIM_LIMIT
        &&& self.flags@.len() == self.width * self.height
    }

    /// Whether this overlay has the same shape as the map.
    pub open spec fn matches_map(&self, map: GridMap) -> bool {
        self.width == map.width() && self.height == map.height()
    }

    /// Whether the cell at indices `(gx, gy)` is marked.  Out-of-range
    /// indices are never marked.
    pub open spec fn marked(&self, gx: int, gy: int) -> bool {
        &&& 0 <= gx < self.width
        &&& 0 <= gy < self.height
        &&& self.flags@[gy * self.width + gx]
    }

    /// Builds an all-clear overlay with the map's shape.
    pub fn new(map: &GridMap) -> (o: VisitedOverlay)
        requires
            map.wf(),
        ensures
            o.wf(),
            o.matches_map(*map),
            forall|gx: int, gy: int| !(#[trigger] o.marked(gx, gy)),
    {
        proof {
            assert(map.layout()[0] == map.cells@[0]@);
            assert(map.width() * map.height() <= 16777216) by (nonlinear_arith)
                requires
                    1 <= map.width() <= 4096,
                    1 <= map.height() <= 4096,
            ;
        }
        let width = map.cells[0].len();
        let height = map.cells.len();
        let flags = cleared_flags(width, height);
        let o = VisitedOverlay { flags, width, height };
        proof {
            assert forall|gx: int, gy: int| !(#[trigger] o.marked(gx, gy)) by {
                if 0 <= gx < o.width && 0 <= gy < o.height {
                    lemma_cell_index_in_range(o.width as int, o.height as int, gx, gy);
                }
            }
        }
        o
    }

    /// Clears every mark, keeping the shape.
    pub fn reset(&mut self)
        requires
            old(self).wf(),
        ensures
            final(self).wf(),
            final(self).width == old(self).width,
            final(self).height == old(self).height,
            forall|gx: int, gy: int| !(#[trigger] final(self).marked(gx, gy)),
    {
        proof {
            lemma_cell_index_in_range(self.width as int, self.height as int, 0, 0);
        }
        self.flags = cleared_flags(self.width, self.height);
        proof {
            assert forall|gx: int, gy: int| !(#[trigger] self.marked(gx, gy)) by {
                if 0 <= gx < self.width && 0 <= gy < self.height {
                    lemma_cell_index_in_range(self.width as int, self.height as int, gx, gy);
                }
            }
        }
    }

    /// Marks the cell at `(gx, gy)`; indices outside the shape are ignored.
    pub fn mark(&mut self, gx: i64, gy: i64)
        requires
            old(self).wf(),
        ensures
            final(self).wf(),
            final(self).width == old(self).width,
            final(self).height == old(self).height,
            forall|i: int, j: int| #[trigger]
                final(self).marked(i, j) == (old(self).marked(i, j) || (i == gx && j == gy && 0
                    <= gx < old(self).width && 0 <= gy < old(self).height)),
    {
        if gx < 0 || gy < 0 || gx >= self.width as i64 || gy >= self.height as i64 {
            return ;
        }
        proof {
            lemma_cell_index_in_range(self.width as int, self.height as int, gx as int, gy as int);
        }
        let idx = (gy as usize) * self.width + (gx as usize);
        self.flags.set(idx, true);
        proof {
            assert forall|i: int, j: int| #[trigger]
                self.marked(i, j) == (old(self).marked(i, j) || (i == gx && j == gy && 0 <= gx
                    < old(self).width && 0 <= gy < old(self).height)) by {
                if 0 <= i < self.width && 0 <= j < self.height {
                    lemma_cell_index_in_range(self.width as int, self.height as int, i, j);
                    if j * self.width + i == idx {
                        lemma_row_major_unique(self.width as int, i, j, gx as int, gy as int);
                    }
                }
            }
        }
    }

    /// Whether the cell at `(gx, gy)` is marked.
    pub fn is_marked(&self, gx: i64, gy: i64) -> (b: bool)
        requires
            self.wf(),
        ensures
            b == self.marked(gx as int, gy as int),
    {
        if gx < 0 || gy < 0 || gx >= self.width as i64 || gy >= self.height as i64 {
            return false;
        }
        proof {
            lemma_cell_index_in_range(self.width as int, self.height as int, gx as int, gy as int);
        }
        self.flags[(gy as usize) * self.width + (gx as usize)]
    }
}

/// An all-false flag vector for a `width` by `height` rectangle.
fn cleared_flags(width: usize, height: usize) -> (flags: Vec<bool>)
    requires
        width * height <= usize::MAX,
    ensures
        flags@.len() == width * height,
        forall|n: int| 0 <= n < flags@.len() ==> !(#[trigger] flags@[n]),
{
    let total = width * height;
    let mut flags: Vec<bool> = Vec::new();
    let mut n: usize = 0;
    #[verifier::loop_isolation(false)]
    while n < total
        invariant
            n <= total,
            flags@.len() == n,
            forall|m: int| 0 <= m < n ==> !(#[trigger] flags@[m]),
        decreases total - n,
    {
        flags.push(false);
        n = n + 1;
    }
    flags
}

} // verus!
