//! The match: two participants, their occupancy boards, and whose turn it is.

use vstd::prelude::*;
use crate::board::Board;
pub use crate::geometry::{Coord, Orientation, NUM_SHIPS, SIZE};
use crate::placement::{
    covered, legal_batch, lemma_batch_covers_same, lemma_complete_fleet_cells, Fleet, FLEET_CELLS,
};
pub use crate::ship::Ship;

verus! {

/// What a participant must be able to do to take part in a match.
pub trait Player {
    /// The five placements, one of each length from 2 to 6, in any order.
    fn place_ships(&self) -> [Ship; NUM_SHIPS];

    /// The next cell to fire at.
    fn turn(&mut self) -> Coord;

    /// Told once per shot that was fired at the board, with its outcome.
    fn hit_feedback(&mut self, coord: Coord, hit: bool)
        requires
            coord.valid(),
    ;

    /// Number of confirmed hits so far.
    fn count_hits(&self) -> usize;

    /// Display name.
    fn get_name(&self) -> &str;
}

/// The triangular number `NUM_SHIPS * (NUM_SHIPS + 1) / 2`, for matches that
/// are to end after fifteen hits rather than after the whole fleet is hit.
pub const TRIANGULAR_HITS: usize = NUM_SHIPS * (NUM_SHIPS + 1) / 2;

/// Where a match stands.
#[derive(Clone, Copy, Debug, PartialEq, Eq, Structural)]
pub enum GameStatus {
    Initialization,
    P1Turn,
    P2Turn,
    P1Win,
    P2Win,
}

impl GameStatus {
    /// Whether the match is over.
    pub open spec fn terminal(self) -> bool {
        self == GameStatus::P1Win || self == GameStatus::P2Win
    }

    /// The status after the side to move has fired and now counts `hits`
    /// hits, where `win_hits` hits win the match.
    ///
    /// The side to move wins if the two numbers are equal; otherwise the
    /// other side moves next. Outside a turn nothing changes.
    pub open spec fn scored(self, hits: int, win_hits: int) -> GameStatus {
        match self {
            GameStatus::P1Turn => if hits == win_hits {
                GameStatus::P1Win
            } else {
                GameStatus::P2Turn
            },
            GameStatus::P2Turn => if hits == win_hits {
                GameStatus::P2Win
            } else {
                GameStatus::P1Turn
            },
            _ => self,
        }
    }

    /// Whether the match is over.
    pub fn is_terminal(self) -> (r: bool)
        ensures
            r == self.terminal(),
    {
        match self {
            GameStatus::P1Win | GameStatus::P2Win => true,
            _ => false,
        }
    }

    /// The status after the side to move has fired and now counts `hits` hits.
    pub fn after_shot(self, hits: usize, win_hits: usize) -> (r: GameStatus)
        ensures
            r == self.scored(hits as int, win_hits as int),
    {
        match self {
            GameStatus::P1Turn => if hits == win_hits {
                GameStatus::P1Win
            } else {
                GameStatus::P2Turn
            },
            GameStatus::P2Turn => if hits == win_hits {
                GameStatus::P2Win
            } else {
                GameStatus::P1Turn
            },
            _ => self,
        }
    }
}

/// The outcome of a shot at `shot` while the match stands at `status`:
/// whether the opponent's board is occupied there. There is none outside a
/// turn, or where the shot misses the board altogether.
pub open spec fn shot_outcome(status: GameStatus, first: Board, second: Board, shot: Coord) -> Option<
    bool,
> {
    if !shot.valid() {
        None
    } else {
        match status {
            GameStatus::P1Turn => Some(second.occupied(shot.x as int, shot.y as int)),
            GameStatus::P2Turn => Some(first.occupied(shot.x as int, shot.y as int)),
            _ => None,
        }
    }
}

/// A match between two participants.
pub struct Game<A: Player, B: Player> {
    status: GameStatus,
    p1: A,
    p2: B,
    p1_board: Board,
    p2_board: Board,
    win_hits: usize,
}

impl<A: Player, B: Player> Game<A, B> {
    /// Where the match stands.
    pub closed spec fn phase(self) -> GameStatus {
        self.status
    }

    /// The first participant.
    pub closed spec fn first(self) -> A {
        self.p1
    }

    /// The second participant.
    pub closed spec fn second(self) -> B {
        self.p2
    }

    /// The first participant's occupancy board.
    pub closed spec fn first_board(self) -> Board {
        self.p1_board
    }

    /// The second participant's occupancy board.
    pub closed spec fn second_board(self) -> Board {
        self.p2_board
    }

    /// The hit count that wins the match.
    pub closed spec fn threshold(self) -> usize {
        self.win_hits
    }

    /// Once the ships are placed, each board has exactly twenty occupied cells.
    pub open spec fn wf(self) -> bool {
        self.phase() != GameStatus::Initialization ==> self.first_board().count() == FLEET_CELLS
            && self.second_board().count() == FLEET_CELLS
    }

    /// Everything but the status and the first participant is as in `before`.
    pub open spec fn same_but_first(self, before: Self) -> bool {
        &&& self.second() == before.second()
        &&& self.first_board() == before.first_board()
        &&& self.second_board() == before.second_board()
        &&& self.threshold() == before.threshold()
    }

    /// Everything but the status and the second participant is as in `before`.
    pub open spec fn same_but_second(self, before: Self) -> bool {
        &&& self.first() == before.first()
        &&& self.first_board() == before.first_board()
        &&& self.second_board() == before.second_board()
        &&& self.threshold() == before.threshold()
    }

    /// A match that waits for the ships to be placed and is won by hitting
    /// every cell of the opponent's fleet.
    pub fn new(p1: A, p2: B) -> (g: Self)
        ensures
            g.wf(),
            g.phase() == GameStatus::Initialization,
            g.first() == p1,
            g.second() == p2,
            g.threshold() == FLEET_CELLS,
            forall|x: int, y: int| !g.first_board().occupied(x, y) && !g.second_board().occupied(x, y),
    {
        Game::with_win_hits(p1, p2, FLEET_CELLS)
    }

    /// A match that waits for the ships to be placed and is won by the side
    /// whose hit count reaches `win_hits`.
    pub fn with_win_hits(p1: A, p2: B, win_hits: usize) -> (g: Self)
        ensures
            g.wf(),
            g.phase() == GameStatus::Initialization,
            g.first() == p1,
            g.second() == p2,
            g.threshold() == win_hits,
            forall|x: int, y: int| !g.first_board().occupied(x, y) && !g.second_board().occupied(x, y),
    {
        Game {
            status: GameStatus::Initialization,
            p1,
            p2,
            p1_board: Board::new(),
            p2_board: Board::new(),
            win_hits,
        }
    }

    /// Where the match stands.
    pub fn status(&self) -> (s: GameStatus)
        ensures
            s == self.phase(),
    {
        self.status
    }

    /// The hit count that wins the match.
    pub fn win_hits(&self) -> (n: usize)
        ensures
            n == self.threshold(),
    {
        self.win_hits
    }

    /// The first participant.
    pub fn player_one(&self) -> (p: &A)
        ensures
            *p == self.first(),
    {
        &self.p1
    }

    /// The second participant.
    pub fn player_two(&self) -> (p: &B)
        ensures
            *p == self.second(),
    {
        &self.p2
    }

    /// The occupancy boards of the first and of the second participant.
    pub fn boards(&self) -> (r: (Board, Board))
        ensures
            r.0 == self.first_board(),
            r.1 == self.second_board(),
    {
        (self.p1_board, self.p2_board)
    }

    /// Starts the match from the two batches of placements.
    ///
    /// While the match waits for ships and both batches are legal fleets,
    /// each listed in any order of length, each board takes the cells of
    /// its side's ships and the first participant is to move. In every other
    /// case nothing changes.
    pub fn begin(&mut self, first: &[Ship; NUM_SHIPS], second: &[Ship; NUM_SHIPS]) -> (r:
        GameStatus)
        requires
            old(self).wf(),
        ensures
            final(self).wf(),
            r == final(self).phase(),
            final(self).first() == old(self).first(),
            final(self).second() == old(self).second(),
            final(self).threshold() == old(self).threshold(),
            old(self).phase() == GameStatus::Initialization && legal_batch(first@) && legal_batch(
                second@,
            ) ==> {
                &&& r == GameStatus::P1Turn
                &&& forall|x: int, y: int|
                    #[trigger] final(self).first_board().occupied(x, y) == covered(first@, x, y)
                &&& forall|x: int, y: int|
                    #[trigger] final(self).second_board().occupied(x, y) == covered(second@, x, y)
            },
            !(old(self).phase() == GameStatus::Initialization && legal_batch(first@) && legal_batch(
                second@,
            )) ==> *final(self) == *old(self),
    {
        if self.status != GameStatus::Initialization {
            return self.status;
        }
        let a = match Fleet::from_placements(first) {
            Some(f) => f,
            None => {
                return self.status;
            },
        };
        let b = match Fleet::from_placements(second) {
            Some(f) => f,
            None => {
                return self.status;
            },
        };
        proof {
            lemma_complete_fleet_cells(a);
            lemma_complete_fleet_cells(b);
            lemma_batch_covers_same(first@);
            lemma_batch_covers_same(second@);
        }
        self.p1_board = a.board();
        self.p2_board = b.board();
        self.status = GameStatus::P1Turn;
        self.status
    }

    /// Asks both participants for their placements and starts the match
    /// with them.
    ///
    /// The match stays as it is unless it waits for ships and both batches
    /// are legal fleets.
    pub fn initialize(&mut self) -> (r: GameStatus)
        requires
            old(self).wf(),
        ensures
            final(self).wf(),
            r == final(self).phase(),
            final(self).first() == old(self).first(),
            final(self).second() == old(self).second(),
            final(self).threshold() == old(self).threshold(),
            r == old(self).phase() ==> *final(self) == *old(self),
            r != old(self).phase() ==> old(self).phase() == GameStatus::Initialization && r
                == GameStatus::P1Turn,
    {
        let first = self.p1.place_ships();
        let second = self.p2.place_ships();
        self.begin(&first, &second)
    }

    /// The outcome of a shot at `shot` by the side to move.
    pub fn target_hit(&self, shot: Coord) -> (r: Option<bool>)
        ensures
            r == shot_outcome(self.phase(), self.first_board(), self.second_board(), shot),
    {
        if !shot.in_board() {
            return None;
        }
        match self.status {
            GameStatus::P1Turn => Some(self.p2_board.is_occupied(shot)),
            GameStatus::P2Turn => Some(self.p1_board.is_occupied(shot)),
            _ => None,
        }
    }

    /// Closes the turn of the side to move, which now counts `hits` hits.
    pub fn score(&mut self, hits: usize) -> (r: GameStatus)
        requires
            old(self).wf(),
        ensures
            final(self).wf(),
            r == final(self).phase(),
            r == old(self).phase().scored(hits as int, old(self).threshold() as int),
            final(self).first() == old(self).first(),
            final(self).same_but_first(*old(self)),
    {
        self.status = self.status.after_shot(hits, self.win_hits);
        self.status
    }

    /// Advances the match by one step and returns the new status.
    ///
    /// A finished match stays as it is and no participant is called. A match
    /// that waits for ships is initialized. Otherwise the side to move is
    /// asked for a target. A target on the board is looked up in the
    /// opponent's board, the outcome is reported back to the side to move,
    /// and its hit count decides between a win and the opponent's turn. A
    /// target off the board is not acted on: the same side moves again.
    pub fn turn(&mut self) -> (r: GameStatus)
        requires
            old(self).wf(),
        ensures
            final(self).wf(),
            r == final(self).phase(),
            final(self).threshold() == old(self).threshold(),
            match old(self).phase() {
                GameStatus::P1Win | GameStatus::P2Win => *final(self) == *old(self),
                GameStatus::Initialization => {
                    &&& final(self).first() == old(self).first()
                    &&& final(self).second() == old(self).second()
                    &&& r == GameStatus::Initialization || r == GameStatus::P1Turn
                    &&& r == GameStatus::Initialization ==> *final(self) == *old(self)
                },
                GameStatus::P1Turn => {
                    &&& final(self).same_but_first(*old(self))
                    &&& r == GameStatus::P1Turn || r == GameStatus::P2Turn || r == GameStatus::P1Win
                },
                GameStatus::P2Turn => {
                    &&& final(self).same_but_second(*old(self))
                    &&& r == GameStatus::P2Turn || r == GameStatus::P1Turn || r == GameStatus::P2Win
                },
            },
    {
        match self.status {
            GameStatus::Initialization => {
                return self.initialize();
            },
            GameStatus::P1Win | GameStatus::P2Win => {
                return self.status;
            },
            GameStatus::P1Turn => {
                let shot = self.p1.turn();
                match self.target_hit(shot) {
                    Some(hit) => {
                        self.p1.hit_feedback(shot, hit);
                        let hits = self.p1.count_hits();
                        self.score(hits)
                    },
                    None => self.status,
                }
            },
            GameStatus::P2Turn => {
                let shot = self.p2.turn();
                match self.target_hit(shot) {
                    Some(hit) => {
                        self.p2.hit_feedback(shot, hit);
                        let hits = self.p2.count_hits();
                        self.score(hits)
                    },
                    None => self.status,
                }
            },
        }
    }
}

} // verus!
