//! A ship placement: a straight run of cells from an anchor.

use vstd::prelude::*;
use crate::geometry::{on_board, Coord, GameError, Orientation};

verus! {

/// A ship of `len` cells that starts at `coord` and extends along `orient`.
#[derive(Clone, Copy, Debug, PartialEq, Eq, Structural)]
pub struct Ship {
    pub len: usize,
    pub coord: Coord,
    pub orient: Orientation,
}

impl Ship {
    /// Column of the ship's `i`-th cell, counted from the anchor.
    pub open spec fn cell_x(self, i: int) -> int {
        self.coord.moved_x(self.orient, i)
    }

    /// Row of the ship's `i`-th cell, counted from the anchor.
    pub open spec fn cell_y(self, i: int) -> int {
        self.coord.moved_y(self.orient, i)
    }

    /// Whether `(x, y)` is one of the ship's cells.
    pub open spec fn covers(self, x: int, y: int) -> bool {
        match self.orient {
            Orientation::Up => x == self.coord.x && self.coord.y <= y < self.coord.y + self.len,
            Orientation::Down => x == self.coord.x && self.coord.y - self.len < y <= self.coord.y,
            Orientation::Left => y == self.coord.y && self.coord.x - self.len < x <= self.coord.x,
            Orientation::Right => y == self.coord.y && self.coord.x <= x < self.coord.x + self.len,
        }
    }

    /// Whether every cell of the ship lies on the board.
    pub open spec fn fits(self) -> bool {
        self.len == 0 || (self.coord.valid() && on_board(
            self.cell_x(self.len - 1),
            self.cell_y(self.len - 1),
        ))
    }

    /// Smallest column that the ship touches.
    pub open spec fn min_x(self) -> int {
        if self.orient == Orientation::Left {
            self.coord.x - (self.len - 1)
        } else {
            self.coord.x as int
        }
    }

    /// Largest column that the ship touches.
    pub open spec fn max_x(self) -> int {
        if self.orient == Orientation::Right {
            self.coord.x + (self.len - 1)
        } else {
            self.coord.x as int
        }
    }

    /// Whether some cell of `other` is also a cell of this ship.
    pub open spec fn overlaps(self, other: Ship) -> bool {
        exists|i: int| 0 <= i < other.len && #[trigger] self.covers(other.cell_x(i), other.cell_y(i))
    }

    /// Whether this ship and `other` are both horizontal, lie on neighbouring
    /// rows, and share at least one column.
    pub open spec fn adjacent_horizontal(self, other: Ship) -> bool {
        &&& self.orient.horizontal()
        &&& other.orient.horizontal()
        &&& (self.coord.y - other.coord.y == 1 || other.coord.y - self.coord.y == 1)
        &&& self.min_x() <= other.max_x()
        &&& other.min_x() <= self.max_x()
    }

    /// Whether every cell of the ship lies on the board.
    pub fn check_fits(&self) -> (r: bool)
        ensures
            r == self.fits(),
    {
        if self.len == 0 {
            return true;
        }
        if !self.coord.in_board() {
            return false;
        }
        match self.coord.shift_dist(self.orient, self.len - 1) {
            Ok(_) => true,
            Err(_) => false,
        }
    }

    /// The ship's `i`-th cell.
    pub(crate) fn cell(&self, i: usize) -> (c: Coord)
        requires
            self.fits(),
            i < self.len,
        ensures
            c.x == self.cell_x(i as int),
            c.y == self.cell_y(i as int),
            c.valid(),
            self.covers(c.x as int, c.y as int),
    {
        match self.coord.shift_dist(self.orient, i) {
            Ok(c) => c,
            Err(_) => self.coord,
        }
    }

    /// The smallest and the largest column that the ship touches.
    pub(crate) fn x_span(&self) -> (r: (usize, usize))
        requires
            self.fits(),
            self.len >= 1,
        ensures
            r.0 == self.min_x(),
            r.1 == self.max_x(),
    {
        let last = self.cell(self.len - 1);
        if self.coord.x > last.x {
            (last.x, self.coord.x)
        } else {
            (self.coord.x, last.x)
        }
    }

    /// Whether this ship and `other` break the rule that keeps horizontal
    /// ships off neighbouring rows where their columns meet.
    pub(crate) fn is_adjacent_horizontal(&self, other: &Ship) -> (r: bool)
        requires
            self.fits(),
            other.fits(),
            self.len >= 1,
            other.len >= 1,
        ensures
            r == self.adjacent_horizontal(*other),
    {
        let both = self.orient.is_horizontal() && other.orient.is_horizontal();
        let near = (self.coord.y > other.coord.y && self.coord.y - other.coord.y == 1) || (
        other.coord.y > self.coord.y && other.coord.y - self.coord.y == 1);
        let a = self.x_span();
        let b = other.x_span();
        both && near && a.0 <= b.1 && b.0 <= a.1
    }
}

/// A point is covered exactly when it is one of the numbered cells.
pub proof fn lemma_covers_is_cell(s: Ship, x: int, y: int)
    ensures
        s.covers(x, y) <==> exists|i: int| 0 <= i < s.len && s.cell_x(i) == x && #[trigger] s.cell_y(i) == y,
{
    if s.covers(x, y) {
        let i = match s.orient {
            Orientation::Up => y - s.coord.y,
            Orientation::Down => s.coord.y - y,
            Orientation::Left => s.coord.x - x,
            Orientation::Right => x - s.coord.x,
        };
        assert(0 <= i < s.len && s.cell_x(i) == x && s.cell_y(i) == y);
    }
}

/// Overlap does not depend on which of the two ships is asked.
pub proof fn lemma_overlaps_symmetric(a: Ship, b: Ship)
    ensures
        a.overlaps(b) == b.overlaps(a),
{
    if a.overlaps(b) {
        let i = choose|i: int| 0 <= i < b.len && #[trigger] a.covers(b.cell_x(i), b.cell_y(i));
        lemma_covers_is_cell(a, b.cell_x(i), b.cell_y(i));
        let j = choose|j: int| 0 <= j < a.len && a.cell_x(j) == b.cell_x(i) && #[trigger] a.cell_y(j) == b.cell_y(i);
        lemma_covers_is_cell(b, a.cell_x(j), a.cell_y(j));
        assert(b.covers(a.cell_x(j), a.cell_y(j)));
    }
    if b.overlaps(a) {
        let i = choose|i: int| 0 <= i < a.len && #[trigger] b.covers(a.cell_x(i), a.cell_y(i));
        lemma_covers_is_cell(b, a.cell_x(i), a.cell_y(i));
        let j = choose|j: int| 0 <= j < b.len && b.cell_x(j) == a.cell_x(i) && #[trigger] b.cell_y(j) == a.cell_y(i);
        lemma_covers_is_cell(a, b.cell_x(j), b.cell_y(j));
        assert(a.covers(b.cell_x(j), b.cell_y(j)));
    }
}

} // verus!
