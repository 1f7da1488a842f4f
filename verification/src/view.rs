//! The observer view: what one side has learned about the other side's board.

use vstd::prelude::*;
use crate::geometry::{on_board, Coord, GameError, Orientation, SIZE};
use crate::grid::{count_prefix, count_true, flat_index, lemma_count_update, CELLS};
use crate::ship::Ship;

verus! {

/// What is known about one cell.
#[derive(Clone, Copy, Debug, PartialEq, Eq, Structural)]
pub enum ViewState {
    Hit,
    Miss,
    Blank,
}

/// An 8 x 8 grid of cell states, indexed `state[x][y]`.
#[derive(Clone, Copy, Debug)]
pub struct PlayerView {
    pub state: [[ViewState; SIZE]; SIZE],
}

impl PlayerView {
    /// The state of cell `(x, y)`. Off the board every cell counts as `Blank`.
    pub open spec fn at(self, x: int, y: int) -> ViewState {
        if on_board(x, y) {
            self.state[x][y]
        } else {
            ViewState::Blank
        }
    }

    /// For each cell, column after column, whether it is marked `Hit`.
    pub open spec fn hit_marks(self) -> Seq<bool> {
        Seq::new(CELLS as nat, |k: int| self.state[k / 8][k % 8] == ViewState::Hit)
    }

    /// Number of cells marked `Hit`.
    pub open spec fn hits(self) -> nat {
        count_true(self.hit_marks())
    }

    /// Whether some cell of `ship` is not `Blank`.
    pub open spec fn blocked(self, ship: Ship) -> bool {
        exists|i: int|
            0 <= i < ship.len && #[trigger] self.at(ship.cell_x(i), ship.cell_y(i)) != ViewState::Blank
    }

    /// A view in which every cell is `Blank`.
    pub fn new() -> (v: PlayerView)
        ensures
            forall|x: int, y: int| v.at(x, y) == ViewState::Blank,
    {
        PlayerView { state: [[ViewState::Blank; SIZE]; SIZE] }
    }

    /// The state of the cell at `coord`; `Blank` off the board.
    pub fn get(&self, coord: Coord) -> (s: ViewState)
        ensures
            s == self.at(coord.x as int, coord.y as int),
    {
        if coord.in_board() {
            self.state[coord.x][coord.y]
        } else {
            ViewState::Blank
        }
    }

    /// Records the outcome of a shot at `coord`: `Hit` or `Miss`.
    ///
    /// An earlier record for the same cell is overwritten.
    pub fn record(&mut self, coord: Coord, hit: bool)
        requires
            coord.valid(),
        ensures
            forall|x: int, y: int|
                #[trigger] final(self).at(x, y) == if x == coord.x && y == coord.y {
                    if hit {
                        ViewState::Hit
                    } else {
                        ViewState::Miss
                    }
                } else {
                    old(self).at(x, y)
                },
            final(self).hits() + (if old(self).at(coord.x as int, coord.y as int) == ViewState::Hit {
                1nat
            } else {
                0nat
            }) == old(self).hits() + (if hit {
                1nat
            } else {
                0nat
            }),
    {
        let outcome = if hit {
            ViewState::Hit
        } else {
            ViewState::Miss
        };
        self.state[coord.x][coord.y] = outcome;
        proof {
            let k = flat_index(coord.x as int, coord.y as int);
            assert(self.hit_marks() =~= old(self).hit_marks().update(k, hit));
            lemma_count_update(old(self).hit_marks(), k, hit, CELLS as nat);
        }
    }

    /// Number of cells marked `Hit`.
    pub fn count_hits(&self) -> (n: usize)
        ensures
            n == self.hits(),
            n <= CELLS,
    {
        let mut n: usize = 0;
        let mut k: usize = 0;
        while k < CELLS
            invariant
                k <= CELLS,
                n == count_prefix(self.hit_marks(), k as nat),
                n <= k,
            decreases CELLS - k,
        {
            if self.state[k / 8][k % 8] == ViewState::Hit {
                n = n + 1;
            }
            k = k + 1;
        }
        n
    }

    /// The view with a ship of `ship_size` cells marked from `coord` along `orient`.
    ///
    /// Fails with `OutOfBounds` if the ship does not fit on the board, and
    /// otherwise with `Overlap` if one of its cells is not `Blank`. The cells
    /// of the ship are marked `Hit`; all others stay as they are.
    pub fn place_ship(&self, ship_size: usize, coord: Coord, orient: Orientation) -> (r: Result<
        PlayerView,
        GameError,
    >)
        ensures
            !(Ship { len: ship_size, coord, orient }).fits() ==> r == Err::<PlayerView, GameError>(
                GameError::OutOfBounds,
            ),
            (Ship { len: ship_size, coord, orient }).fits() && self.blocked(
                (Ship { len: ship_size, coord, orient }),
            ) ==> r == Err::<PlayerView, GameError>(GameError::Overlap),
            (Ship { len: ship_size, coord, orient }).fits() && !self.blocked(
                (Ship { len: ship_size, coord, orient }),
            ) ==> r is Ok,
            r is Ok ==> forall|x: int, y: int|
                #[trigger] r->Ok_0.at(x, y) == if on_board(x, y) && (Ship {
                    len: ship_size,
                    coord,
                    orient,
                }).covers(x, y) {
                    ViewState::Hit
                } else {
                    self.at(x, y)
                },
    {
        let ship = Ship { len: ship_size, coord, orient };
        if !ship.check_fits() {
            return Err(GameError::OutOfBounds);
        }
        let mut next = *self;
        let mut i: usize = 0;
        while i < ship_size
            invariant
                i <= ship_size,
                ship == (Ship { len: ship_size, coord, orient }),
                ship.fits(),
                forall|j: int|
                    0 <= j < i ==> #[trigger] self.at(ship.cell_x(j), ship.cell_y(j)) == ViewState::Blank,
                forall|x: int, y: int|
                    #[trigger] next.at(x, y) == if on_board(x, y) && (Ship { len: i, ..ship }).covers(
                        x,
                        y,
                    ) {
                        ViewState::Hit
                    } else {
                        self.at(x, y)
                    },
            decreases ship_size - i,
        {
            let c = ship.cell(i);
            if self.state[c.x][c.y] != ViewState::Blank {
                assert(self.at(ship.cell_x(i as int), ship.cell_y(i as int)) != ViewState::Blank);
                return Err(GameError::Overlap);
            }
            let ghost before = next;
            next.state[c.x][c.y] = ViewState::Hit;
            proof {
                let shorter = Ship { len: i, ..ship };
                let longer = Ship { len: (i + 1) as usize, ..ship };
                assert forall|x: int, y: int|
                    #[trigger] next.at(x, y) == if on_board(x, y) && longer.covers(x, y) {
                        ViewState::Hit
                    } else {
                        self.at(x, y)
                    } by {
                    assert(longer.covers(x, y) == (shorter.covers(x, y) || (x == c.x && y == c.y)));
                    assert(before.at(x, y) == if on_board(x, y) && shorter.covers(x, y) {
                        ViewState::Hit
                    } else {
                        self.at(x, y)
                    });
                    if on_board(x, y) {
                        assert(next.state[x][y] == if x == c.x && y == c.y {
                            ViewState::Hit
                        } else {
                            before.state[x][y]
                        });
                    }
                }
            }
            i = i + 1;
        }
        assert(Ship { len: i, ..ship } == ship);
        Ok(next)
    }
}

} // verus!
