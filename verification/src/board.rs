//! The occupancy board: where one side's own ships lie.

use vstd::prelude::*;
use crate::geometry::{on_board, Coord, GameError, SIZE};
use crate::grid::{count_prefix, count_true, flat_index, lemma_count_none, lemma_count_update, CELLS};
use crate::ship::Ship;

verus! {

/// An 8 x 8 grid of flags, one per cell, set where a ship lies.
#[derive(Clone, Copy, Debug)]
pub struct Board {
    pub state: [[bool; SIZE]; SIZE],
}

impl Board {
    /// Whether cell `(x, y)` holds part of a ship. Off the board nothing does.
    pub open spec fn occupied(self, x: int, y: int) -> bool {
        on_board(x, y) && self.state[x][y]
    }

    /// The flags as one sequence, column after column.
    pub open spec fn marks(self) -> Seq<bool> {
        Seq::new(CELLS as nat, |k: int| self.state[k / 8][k % 8])
    }

    /// Number of occupied cells.
    pub open spec fn count(self) -> nat {
        count_true(self.marks())
    }

    /// Whether some cell of `ship` is occupied.
    pub open spec fn collides(self, ship: Ship) -> bool {
        exists|i: int| 0 <= i < ship.len && #[trigger] self.occupied(ship.cell_x(i), ship.cell_y(i))
    }

    /// A board without ships.
    pub fn new() -> (b: Board)
        ensures
            forall|x: int, y: int| !b.occupied(x, y),
            b.count() == 0,
    {
        let b = Board { state: [[false; SIZE]; SIZE] };
        proof {
            lemma_count_none(b.marks(), CELLS as nat);
        }
        b
    }

    /// Whether the cell at `coord` holds part of a ship.
    pub fn is_occupied(&self, coord: Coord) -> (r: bool)
        ensures
            r == self.occupied(coord.x as int, coord.y as int),
    {
        coord.in_board() && self.state[coord.x][coord.y]
    }

    /// Number of occupied cells.
    pub fn occupied_cells(&self) -> (n: usize)
        ensures
            n == self.count(),
    {
        let mut n: usize = 0;
        let mut k: usize = 0;
        while k < CELLS
            invariant
                k <= CELLS,
                n == count_prefix(self.marks(), k as nat),
                n <= k,
            decreases CELLS - k,
        {
            if self.state[k / 8][k % 8] {
                n = n + 1;
            }
            k = k + 1;
        }
        n
    }

    /// The board with `ship` added.
    ///
    /// Fails with `OutOfBounds` if the ship does not fit on the board, and
    /// otherwise with `Overlap` if one of its cells is already occupied.
    pub fn place(&self, ship: Ship) -> (r: Result<Board, GameError>)
        ensures
            !ship.fits() ==> r == Err::<Board, GameError>(GameError::OutOfBounds),
            ship.fits() && self.collides(ship) ==> r == Err::<Board, GameError>(
                GameError::Overlap,
            ),
            ship.fits() && !self.collides(ship) ==> r is Ok,
            r is Ok ==> forall|x: int, y: int|
                #[trigger] r->Ok_0.occupied(x, y) == (self.occupied(x, y) || (on_board(x, y)
                    && ship.covers(x, y))),
            r is Ok ==> r->Ok_0.count() == self.count() + ship.len,
    {
        if !ship.check_fits() {
            return Err(GameError::OutOfBounds);
        }
        let mut next = *self;
        let mut i: usize = 0;
        while i < ship.len
            invariant
                i <= ship.len,
                ship.fits(),
                forall|j: int| 0 <= j < i ==> !#[trigger] self.occupied(ship.cell_x(j), ship.cell_y(j)),
                forall|x: int, y: int|
                    #[trigger] next.occupied(x, y) == (self.occupied(x, y) || (on_board(x, y) && (Ship {
                        len: i,
                        ..ship
                    }).covers(x, y))),
                next.count() == self.count() + i,
            decreases ship.len - i,
        {
            let c = ship.cell(i);
            if self.state[c.x][c.y] {
                assert(self.occupied(ship.cell_x(i as int), ship.cell_y(i as int)));
                return Err(GameError::Overlap);
            }
            let ghost before = next;
            assert(!before.occupied(c.x as int, c.y as int));
            next.state[c.x][c.y] = true;
            proof {
                let k = flat_index(c.x as int, c.y as int);
                assert(next.marks() =~= before.marks().update(k, true));
                lemma_count_update(before.marks(), k, true, CELLS as nat);
                let shorter = Ship { len: i, ..ship };
                let longer = Ship { len: (i + 1) as usize, ..ship };
                assert forall|x: int, y: int|
                    #[trigger] next.occupied(x, y) == (self.occupied(x, y) || (on_board(x, y)
                        && longer.covers(x, y))) by {
                    assert(longer.covers(x, y) == (shorter.covers(x, y) || (x == c.x && y == c.y)));
                    assert(before.occupied(x, y) == (self.occupied(x, y) || (on_board(x, y)
                        && shorter.covers(x, y))));
                    if on_board(x, y) {
                        assert(next.state[x][y] == (before.state[x][y] || (x == c.x && y == c.y)));
                    }
                }
            }
            i = i + 1;
        }
        assert(Ship { len: i, ..ship } == ship);
        Ok(next)
    }
}

} // verus!
