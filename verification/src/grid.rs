//! A rectangular-ish grid of tiles addressed by `(column, row)` positions,
//! shared by the keypad layouts.

use vstd::prelude::*;

verus! {

/// One row of tiles.
#[derive(Debug, Clone)]
pub struct Row<T> {
    pub tiles: Vec<T>,
}

/// A grid of tiles, stored row by row.
#[derive(Debug, Clone)]
pub struct Grid<T> {
    pub rows: Vec<Row<T>>,
}

/// Whether `(x, y)` addresses a tile of `g`: the coordinates are
/// non-negative and inside the stored rows.
pub open spec fn in_bounds<T>(g: &Grid<T>, x: int, y: int) -> bool {
    0 <= y < g.rows@.len() && 0 <= x < g.rows@[y].tiles@.len()
}

impl<T: Copy> Grid<T> {
    /// The tile at `pos`, or `None` when `pos` lies outside the grid.
    pub fn at(&self, pos: (isize, isize)) -> (r: Option<T>)
        ensures
            r == (if in_bounds(self, pos.0 as int, pos.1 as int) {
                Some(self.rows@[pos.1 as int].tiles@[pos.0 as int])
            } else {
                None::<T>
            }),
    {
        let (x, y) = pos;
        if x < 0 || y < 0 {
            return None;
        }
        let xu = x as usize;
        let yu = y as usize;
        if yu >= self.rows.len() {
            return None;
        }
        let row = &self.rows[yu];
        if xu >= row.tiles.len() {
            return None;
        }
        Some(row.tiles[xu])
    }
}

} // verus!
