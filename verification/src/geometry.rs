//! Board coordinates, the four directions, and bounds-checked movement.

use vstd::prelude::*;

verus! {

/// Side length of the square board.
pub const SIZE: usize = 8;

/// Number of ships each side places; their lengths run from 2 to `NUM_SHIPS + 1`.
pub const NUM_SHIPS: usize = 5;

/// A unit direction along one of the board's two axes.
///
/// `Up` and `Right` increase `y` and `x`; `Down` and `Left` decrease them.
#[derive(Clone, Copy, Debug, PartialEq, Eq, Structural)]
pub enum Orientation {
    Up,
    Down,
    Left,
    Right,
}

/// Why a request was turned down.
#[derive(Clone, Copy, Debug, PartialEq, Eq, Structural)]
pub enum GameError {
    /// Coordinate or orientation text is malformed.
    ParseError,
    /// A shift or a placement would leave the board.
    OutOfBounds,
    /// A placement covers a cell that another ship already occupies.
    Overlap,
    /// A horizontal ship lies directly above or below another horizontal ship.
    AdjacentHorizontal,
}

/// A pair of zero-based grid indices. Values off the board can be represented.
#[derive(Clone, Copy, Debug, PartialEq, Eq, Structural)]
pub struct Coord {
    pub x: usize,
    pub y: usize,
}

impl Orientation {
    /// Whether the direction runs along a row.
    pub open spec fn horizontal(self) -> bool {
        self == Orientation::Left || self == Orientation::Right
    }

    /// Whether the direction runs along a row.
    pub fn is_horizontal(self) -> (r: bool)
        ensures
            r == self.horizontal(),
    {
        match self {
            Orientation::Left | Orientation::Right => true,
            _ => false,
        }
    }

    /// The direction that undoes this one.
    pub open spec fn reversed(self) -> Orientation {
        match self {
            Orientation::Up => Orientation::Down,
            Orientation::Down => Orientation::Up,
            Orientation::Left => Orientation::Right,
            Orientation::Right => Orientation::Left,
        }
    }

    /// The direction that undoes this one.
    pub fn opposite(self) -> (r: Orientation)
        ensures
            r == self.reversed(),
    {
        match self {
            Orientation::Up => Orientation::Down,
            Orientation::Down => Orientation::Up,
            Orientation::Left => Orientation::Right,
            Orientation::Right => Orientation::Left,
        }
    }
}

/// Whether the integer pair `(x, y)` names a cell of the board.
pub open spec fn on_board(x: int, y: int) -> bool {
    0 <= x < SIZE && 0 <= y < SIZE
}

impl Coord {
    /// Whether both indices lie on the board.
    pub open spec fn valid(self) -> bool {
        on_board(self.x as int, self.y as int)
    }

    /// The `x` index after `dist` steps in direction `dir`, as an unbounded integer.
    pub open spec fn moved_x(self, dir: Orientation, dist: int) -> int {
        match dir {
            Orientation::Left => self.x - dist,
            Orientation::Right => self.x + dist,
            _ => self.x as int,
        }
    }

    /// The `y` index after `dist` steps in direction `dir`, as an unbounded integer.
    pub open spec fn moved_y(self, dir: Orientation, dist: int) -> int {
        match dir {
            Orientation::Down => self.y - dist,
            Orientation::Up => self.y + dist,
            _ => self.y as int,
        }
    }

    /// Whether `dist` steps in direction `dir` end on a cell of the board.
    pub open spec fn can_shift(self, dir: Orientation, dist: int) -> bool {
        on_board(self.moved_x(dir, dist), self.moved_y(dir, dist))
    }

    /// The coordinate `dist` steps away in direction `dir`, where that is on the board.
    pub open spec fn moved(self, dir: Orientation, dist: int) -> Coord {
        Coord { x: self.moved_x(dir, dist) as usize, y: self.moved_y(dir, dist) as usize }
    }

    /// Moves `dist` steps in direction `dir`.
    ///
    /// Fails with `OutOfBounds` exactly when the end point is not a cell of
    /// the board; never wraps.
    pub fn shift_dist(&self, dir: Orientation, dist: usize) -> (r: Result<Coord, GameError>)
        ensures
            self.can_shift(dir, dist as int) ==> r == Ok::<Coord, GameError>(
                self.moved(dir, dist as int),
            ),
            !self.can_shift(dir, dist as int) ==> r == Err::<Coord, GameError>(
                GameError::OutOfBounds,
            ),
    {
        match dir {
            Orientation::Up => {
                if self.x >= SIZE || self.y >= SIZE || dist >= SIZE - self.y {
                    return Err(GameError::OutOfBounds);
                }
                Ok(Coord { x: self.x, y: self.y + dist })
            },
            Orientation::Down => {
                if self.x >= SIZE || dist > self.y || self.y - dist >= SIZE {
                    return Err(GameError::OutOfBounds);
                }
                Ok(Coord { x: self.x, y: self.y - dist })
            },
            Orientation::Left => {
                if self.y >= SIZE || dist > self.x || self.x - dist >= SIZE {
                    return Err(GameError::OutOfBounds);
                }
                Ok(Coord { x: self.x - dist, y: self.y })
            },
            Orientation::Right => {
                if self.x >= SIZE || self.y >= SIZE || dist >= SIZE - self.x {
                    return Err(GameError::OutOfBounds);
                }
                Ok(Coord { x: self.x + dist, y: self.y })
            },
        }
    }

    /// Moves one step in direction `dir`.
    pub fn shift(&self, dir: Orientation) -> (r: Result<Coord, GameError>)
        ensures
            self.can_shift(dir, 1) ==> r == Ok::<Coord, GameError>(self.moved(dir, 1)),
            !self.can_shift(dir, 1) ==> r == Err::<Coord, GameError>(GameError::OutOfBounds),
    {
        self.shift_dist(dir, 1)
    }

    /// Whether both indices lie on the board.
    pub fn in_board(&self) -> (r: bool)
        ensures
            r == self.valid(),
    {
        self.x < SIZE && self.y < SIZE
    }
}

/// A step followed by the opposite step, where both stay on the board,
/// returns to the start.
pub proof fn lemma_shift_round_trip(c: Coord, dir: Orientation)
    requires
        c.can_shift(dir, 1),
        c.moved(dir, 1).can_shift(dir.reversed(), 1),
    ensures
        c.moved(dir, 1).moved(dir.reversed(), 1) == c,
{
}

/// A step from the last row or column outwards, or from the first row or
/// column outwards, leaves the board.
pub proof fn lemma_shift_past_edge(c: Coord, dir: Orientation)
    requires
        match dir {
            Orientation::Up => c.y >= SIZE - 1,
            Orientation::Right => c.x >= SIZE - 1,
            Orientation::Down => c.y == 0,
            Orientation::Left => c.x == 0,
        },
    ensures
        !c.can_shift(dir, 1),
{
}

} // verus!
