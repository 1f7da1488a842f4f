//! The placement validator: one side's ships, accepted one length at a time.

use vstd::prelude::*;
use crate::board::Board;
use crate::geometry::{Coord, GameError, Orientation, NUM_SHIPS};
use crate::ship::{lemma_overlaps_symmetric, Ship};
use crate::text::{orientation_of, parse_coord, reads_as, strip};

verus! {

/// Length of the shortest ship.
pub const FIRST_LEN: usize = 2;

/// Number of cells that a complete fleet occupies: 2 + 3 + 4 + 5 + 6.
pub const FLEET_CELLS: usize = 20;

/// Total number of cells of the `n` shortest ships.
pub open spec fn fleet_cells(n: nat) -> nat
    decreases n,
{
    if n == 0 {
        0
    } else {
        fleet_cells((n - 1) as nat) + n + 1
    }
}

/// Whether one of `ships` has `(x, y)` among its cells.
pub open spec fn covered(ships: Seq<Ship>, x: int, y: int) -> bool {
    exists|k: int| 0 <= k < ships.len() && #[trigger] ships[k].covers(x, y)
}

/// Why `cand` may not join the ships in `placed`, or `None` if it may.
///
/// The three rules are tried in a fixed order: the candidate must fit on the
/// board, then share no cell with a placed ship, then not be a horizontal
/// ship next to a placed horizontal ship.
pub open spec fn verdict(placed: Seq<Ship>, cand: Ship) -> Option<GameError> {
    if !cand.fits() {
        Some(GameError::OutOfBounds)
    } else if exists|k: int| 0 <= k < placed.len() && #[trigger] placed[k].overlaps(cand) {
        Some(GameError::Overlap)
    } else if exists|k: int| 0 <= k < placed.len() && #[trigger] placed[k].adjacent_horizontal(cand) {
        Some(GameError::AdjacentHorizontal)
    } else {
        None
    }
}

/// Whether `ships` is a legal fleet, possibly still incomplete: the `k`-th
/// ship has length `k + 2` and fits on the board, and no two ships share a
/// cell or are horizontal neighbours.
pub open spec fn valid_fleet(ships: Seq<Ship>) -> bool {
    &&& ships.len() <= NUM_SHIPS
    &&& forall|k: int| 0 <= k < ships.len() ==> (#[trigger] ships[k]).len == k + FIRST_LEN && ships[k].fits()
    &&& forall|j: int, k: int|
        0 <= j < k < ships.len() ==> !(#[trigger] ships[j]).overlaps(#[trigger] ships[k])
            && !ships[j].adjacent_horizontal(ships[k])
}

/// The first index at or after `from` at which `batch` holds a ship of
/// length `len`, or the length of `batch` if there is none.
pub open spec fn first_of_len(batch: Seq<Ship>, len: int, from: int) -> int
    decreases batch.len() - from,
{
    if from < 0 || from >= batch.len() {
        batch.len() as int
    } else if batch[from].len == len {
        from
    } else {
        first_of_len(batch, len, from + 1)
    }
}

/// Whether `batch` holds a ship of each length from 2 to `NUM_SHIPS + 1`.
pub open spec fn has_every_length(batch: Seq<Ship>) -> bool {
    forall|len: int|
        FIRST_LEN <= len < FIRST_LEN + NUM_SHIPS ==> #[trigger] first_of_len(batch, len, 0)
            < batch.len()
}

/// The ships of `batch` taken by increasing length, from 2 to `NUM_SHIPS + 1`.
pub open spec fn by_length(batch: Seq<Ship>) -> Seq<Ship> {
    Seq::new(NUM_SHIPS as nat, |k: int| batch[first_of_len(batch, k + FIRST_LEN, 0)])
}

/// Whether `batch` is a legal complete fleet, listed in any order: it holds
/// `NUM_SHIPS` ships, one of each length, and taken by increasing length
/// they form a legal fleet.
pub open spec fn legal_batch(batch: Seq<Ship>) -> bool {
    &&& batch.len() == NUM_SHIPS
    &&& has_every_length(batch)
    &&& valid_fleet(by_length(batch))
}

/// The ships that one side has placed so far, with the board they occupy.
pub struct Fleet {
    board: Board,
    ships: Vec<Ship>,
}

impl View for Fleet {
    type V = Seq<Ship>;

    /// The placed ships, shortest first.
    closed spec fn view(&self) -> Seq<Ship> {
        self.ships@
    }
}

impl Fleet {
    /// The occupancy board of the placed ships.
    pub closed spec fn grid(self) -> Board {
        self.board
    }

    /// The ships form a legal fleet and the board marks exactly their cells.
    pub open spec fn wf(self) -> bool {
        &&& valid_fleet(self@)
        &&& forall|x: int, y: int| #[trigger] self.grid().occupied(x, y) == covered(self@, x, y)
        &&& self.grid().count() == fleet_cells(self@.len())
    }

    /// A fleet without ships.
    pub fn new() -> (f: Fleet)
        ensures
            f.wf(),
            f@.len() == 0,
    {
        Fleet { board: Board::new(), ships: Vec::new() }
    }

    /// Number of ships placed so far.
    pub fn len(&self) -> (n: usize)
        ensures
            n == self@.len(),
    {
        self.ships.len()
    }

    /// Whether all `NUM_SHIPS` ships are placed.
    pub fn is_complete(&self) -> (r: bool)
        ensures
            r == (self@.len() == NUM_SHIPS),
    {
        self.ships.len() == NUM_SHIPS
    }

    /// The occupancy board of the placed ships.
    pub fn board(&self) -> (b: Board)
        ensures
            b == self.grid(),
    {
        self.board
    }

    /// The `k`-th placed ship, if there are more than `k`.
    pub fn ship(&self, k: usize) -> (s: Option<Ship>)
        ensures
            k < self@.len() ==> s == Some(self@[k as int]),
            k >= self@.len() ==> s is None,
    {
        if k < self.ships.len() {
            Some(self.ships[k])
        } else {
            None
        }
    }

    /// All five placements, once the fleet is complete.
    pub fn placements(&self) -> (r: Option<[Ship; NUM_SHIPS]>)
        ensures
            self@.len() == NUM_SHIPS ==> r is Some && r->Some_0@ == self@,
            self@.len() != NUM_SHIPS ==> r is None,
    {
        if self.ships.len() != NUM_SHIPS {
            return None;
        }
        let a = [self.ships[0], self.ships[1], self.ships[2], self.ships[3], self.ships[4]];
        assert(a@ =~= self@);
        Some(a)
    }

    /// Places the next ship, of length `self.len() + 2`, at `coord` along `orient`.
    ///
    /// The placement is judged by `verdict`. On an error the fleet is left as
    /// it was.
    pub fn place(&mut self, coord: Coord, orient: Orientation) -> (r: Result<(), GameError>)
        requires
            old(self).wf(),
            old(self)@.len() < NUM_SHIPS,
        ensures
            final(self).wf(),
            match verdict(
                old(self)@,
                (Ship { len: (old(self)@.len() + FIRST_LEN) as usize, coord, orient }),
            ) {
                Some(e) => r == Err::<(), GameError>(e) && *final(self) == *old(self),
                None => r is Ok && final(self)@ == old(self)@.push(
                    (Ship { len: (old(self)@.len() + FIRST_LEN) as usize, coord, orient }),
                ),
            },
    {
        let cand = Ship { len: self.ships.len() + FIRST_LEN, coord, orient };
        proof {
            if self.board.collides(cand) {
                let i = choose|i: int|
                    0 <= i < cand.len && #[trigger] self.board.occupied(cand.cell_x(i), cand.cell_y(i));
                assert(covered(self@, cand.cell_x(i), cand.cell_y(i)));
                let k = choose|k: int|
                    0 <= k < self@.len() && #[trigger] self@[k].covers(cand.cell_x(i), cand.cell_y(i));
                assert(self@[k].overlaps(cand));
            }
            if exists|k: int| 0 <= k < self@.len() && #[trigger] self@[k].overlaps(cand) {
                let k = choose|k: int| 0 <= k < self@.len() && #[trigger] self@[k].overlaps(cand);
                let i = choose|i: int|
                    0 <= i < cand.len && #[trigger] self@[k].covers(cand.cell_x(i), cand.cell_y(i));
                assert(covered(self@, cand.cell_x(i), cand.cell_y(i)));
                assert(self.board.occupied(cand.cell_x(i), cand.cell_y(i)));
            }
        }
        let next = match self.board.place(cand) {
            Ok(b) => b,
            Err(e) => {
                return Err(e);
            },
        };
        let n = self.ships.len();
        let mut k: usize = 0;
        while k < n
            invariant
                k <= n,
                n == self.ships.len(),
                *self == *old(self),
                self.wf(),
                cand.fits(),
                cand == (Ship { len: (n + FIRST_LEN) as usize, coord, orient }),
                forall|j: int| 0 <= j < self@.len() ==> !(#[trigger] self@[j]).overlaps(cand),
                forall|j: int| 0 <= j < k ==> !(#[trigger] self@[j]).adjacent_horizontal(cand),
            decreases n - k,
        {
            let other = self.ships[k];
            if other.is_adjacent_horizontal(&cand) {
                assert(self@[k as int].adjacent_horizontal(cand));
                return Err(GameError::AdjacentHorizontal);
            }
            k = k + 1;
        }
        self.board = next;
        self.ships.push(cand);
        proof {
            let before = old(self)@;
            let after = self@;
            assert(after =~= before.push(cand));
            assert forall|x: int, y: int| #[trigger] self.grid().occupied(x, y) == covered(after, x, y) by {
                assert(old(self).grid().occupied(x, y) == covered(before, x, y));
                if covered(before, x, y) {
                    let j = choose|j: int| 0 <= j < before.len() && #[trigger] before[j].covers(x, y);
                    assert(after[j].covers(x, y));
                }
                if cand.covers(x, y) {
                    assert(after[n as int].covers(x, y));
                }
                if covered(after, x, y) {
                    let j = choose|j: int| 0 <= j < after.len() && #[trigger] after[j].covers(x, y);
                    if j < n {
                        assert(before[j].covers(x, y));
                    }
                }
            }
        }
        Ok(())
    }

    /// Places the next ship from the two lines of text that describe it: the
    /// anchor as `(x, y)` and the orientation by its name.
    ///
    /// Fails with `ParseError` if either line cannot be read, and otherwise
    /// as `place` does. On an error the fleet is left as it was.
    pub fn place_text(&mut self, anchor: &str, direction: &str) -> (r: Result<(), GameError>)
        requires
            old(self).wf(),
            old(self)@.len() < NUM_SHIPS,
        ensures
            final(self).wf(),
            (forall|c: Coord| !reads_as(strip(anchor@), c)) || orientation_of(direction@) is None ==> r
                == Err::<(), GameError>(GameError::ParseError) && *final(self) == *old(self),
            forall|c: Coord|
                #[trigger] reads_as(strip(anchor@), c) && orientation_of(direction@) is Some
                    ==> match verdict(
                    old(self)@,
                    (Ship {
                        len: (old(self)@.len() + FIRST_LEN) as usize,
                        coord: c,
                        orient: orientation_of(direction@)->Some_0,
                    }),
                ) {
                    Some(e) => r == Err::<(), GameError>(e) && *final(self) == *old(self),
                    None => r is Ok && final(self)@ == old(self)@.push(
                        (Ship {
                            len: (old(self)@.len() + FIRST_LEN) as usize,
                            coord: c,
                            orient: orientation_of(direction@)->Some_0,
                        }),
                    ),
                },
    {
        let coord = parse_coord(anchor);
        let orient = Orientation::parse(direction);
        match (coord, orient) {
            (Ok(c), Ok(o)) => {
                proof {
                    assert forall|d: Coord| #[trigger] reads_as(strip(anchor@), d) implies d == c by {
                        crate::text::lemma_reads_as_unique(strip(anchor@), c, d);
                    }
                }
                self.place(c, o)
            },
            _ => Err(GameError::ParseError),
        }
    }

    /// The first index at which `placements` holds a ship of length `len`.
    pub fn find_len(placements: &[Ship; NUM_SHIPS], len: usize) -> (r: Option<usize>)
        ensures
            match r {
                Some(i) => i < NUM_SHIPS && i == first_of_len(placements@, len as int, 0)
                    && placements@[i as int].len == len,
                None => first_of_len(placements@, len as int, 0) == NUM_SHIPS,
            },
    {
        let mut i: usize = 0;
        while i < NUM_SHIPS
            invariant
                i <= NUM_SHIPS,
                placements@.len() == NUM_SHIPS,
                first_of_len(placements@, len as int, 0) == first_of_len(
                    placements@,
                    len as int,
                    i as int,
                ),
            decreases NUM_SHIPS - i,
        {
            if placements[i].len == len {
                return Some(i);
            }
            i = i + 1;
        }
        None
    }

    /// Validates a whole batch of placements, listed in any order of length.
    ///
    /// Returns the fleet exactly when the batch is a legal complete fleet.
    /// The ships of the fleet are those of the batch, shortest first.
    pub fn from_placements(placements: &[Ship; NUM_SHIPS]) -> (r: Option<Fleet>)
        ensures
            legal_batch(placements@) <==> r is Some,
            r is Some ==> r->Some_0@ == by_length(placements@) && r->Some_0.wf(),
    {
        let ghost sorted = by_length(placements@);
        let mut fleet = Fleet::new();
        let mut k: usize = 0;
        while k < NUM_SHIPS
            invariant
                k <= NUM_SHIPS,
                placements@.len() == NUM_SHIPS,
                sorted == by_length(placements@),
                fleet.wf(),
                fleet@ == sorted.take(k as int),
                forall|len: int|
                    FIRST_LEN <= len < FIRST_LEN + k ==> #[trigger] first_of_len(placements@, len, 0)
                        < NUM_SHIPS,
            decreases NUM_SHIPS - k,
        {
            let i = match Fleet::find_len(placements, k + FIRST_LEN) {
                Some(i) => i,
                None => {
                    return None;
                },
            };
            let s = placements[i];
            assert(s == sorted[k as int]);
            let ghost placed = fleet@;
            match fleet.place(s.coord, s.orient) {
                Ok(_) => {},
                Err(_) => {
                    proof {
                        if valid_fleet(sorted) {
                            assert(sorted[k as int].fits());
                            assert forall|j: int| 0 <= j < placed.len() implies !(
                            #[trigger] placed[j]).overlaps(s) && !placed[j].adjacent_horizontal(s) by {
                                assert(placed[j] == sorted[j]);
                                assert(!sorted[j].overlaps(sorted[k as int])
                                    && !sorted[j].adjacent_horizontal(sorted[k as int]));
                            }
                        }
                    }
                    return None;
                },
            }
            assert(fleet@ =~= sorted.take(k + 1));
            k = k + 1;
        }
        assert(fleet@ =~= sorted);
        Some(fleet)
    }
}

/// The result of `first_of_len` lies between `from` and the end of the
/// batch; below the end it is the first index from `from` on at which a ship
/// of that length stands.
pub proof fn lemma_first_of_len(batch: Seq<Ship>, len: int, from: int)
    requires
        0 <= from <= batch.len(),
    ensures
        from <= first_of_len(batch, len, from) <= batch.len(),
        first_of_len(batch, len, from) < batch.len() ==> batch[first_of_len(batch, len, from)].len
            == len,
        forall|j: int| from <= j < first_of_len(batch, len, from) ==> (#[trigger] batch[j]).len != len,
    decreases batch.len() - from,
{
    if from < batch.len() && batch[from].len != len {
        lemma_first_of_len(batch, len, from + 1);
    }
}

/// In a batch of `NUM_SHIPS` ships with one of each length, every entry is
/// one of the ships taken by length.
pub proof fn lemma_every_entry_is_listed(batch: Seq<Ship>, i: int)
    requires
        batch.len() == NUM_SHIPS,
        has_every_length(batch),
        0 <= i < NUM_SHIPS,
    ensures
        exists|k: int| 0 <= k < NUM_SHIPS && #[trigger] by_length(batch)[k] == batch[i],
{
    let i0 = first_of_len(batch, 2, 0);
    let i1 = first_of_len(batch, 3, 0);
    let i2 = first_of_len(batch, 4, 0);
    let i3 = first_of_len(batch, 5, 0);
    let i4 = first_of_len(batch, 6, 0);
    lemma_first_of_len(batch, 2, 0);
    lemma_first_of_len(batch, 3, 0);
    lemma_first_of_len(batch, 4, 0);
    lemma_first_of_len(batch, 5, 0);
    lemma_first_of_len(batch, 6, 0);
    assert(i == i0 || i == i1 || i == i2 || i == i3 || i == i4);
    let k = if i == i0 {
        0int
    } else if i == i1 {
        1int
    } else if i == i2 {
        2int
    } else if i == i3 {
        3int
    } else {
        4int
    };
    assert(by_length(batch)[k] == batch[i]);
}

/// Listing a batch by length neither adds nor drops a cell.
pub proof fn lemma_batch_covers_same(batch: Seq<Ship>)
    requires
        batch.len() == NUM_SHIPS,
        has_every_length(batch),
    ensures
        forall|x: int, y: int| covered(by_length(batch), x, y) == covered(batch, x, y),
{
    let sorted = by_length(batch);
    assert forall|x: int, y: int| covered(sorted, x, y) == covered(batch, x, y) by {
        if covered(sorted, x, y) {
            let k = choose|k: int| 0 <= k < sorted.len() && #[trigger] sorted[k].covers(x, y);
            let i = first_of_len(batch, k + FIRST_LEN, 0);
            assert(0 <= i < batch.len()) by {
                lemma_first_of_len(batch, k + FIRST_LEN, 0);
            }
            assert(batch[i].covers(x, y));
        }
        if covered(batch, x, y) {
            let i = choose|i: int| 0 <= i < batch.len() && #[trigger] batch[i].covers(x, y);
            lemma_every_entry_is_listed(batch, i);
            let k = choose|k: int| 0 <= k < NUM_SHIPS && #[trigger] by_length(batch)[k] == batch[i];
            assert(sorted[k].covers(x, y));
        }
    }
}

/// A legal fleet of `NUM_SHIPS` ships listed shortest first is a legal
/// batch, and taking it by length changes nothing.
pub proof fn lemma_sorted_batch_is_legal(batch: Seq<Ship>)
    requires
        batch.len() == NUM_SHIPS,
        valid_fleet(batch),
    ensures
        by_length(batch) == batch,
        legal_batch(batch),
{
    assert forall|len: int| FIRST_LEN <= len < FIRST_LEN + NUM_SHIPS implies #[trigger] first_of_len(
        batch,
        len,
        0,
    ) == len - FIRST_LEN by {
        lemma_first_of_len(batch, len, 0);
        let k = len - FIRST_LEN;
        assert(batch[k].len == len);
        let r = first_of_len(batch, len, 0);
        if r < batch.len() {
            assert(batch[r].len == r + FIRST_LEN);
        }
    }
    assert(by_length(batch) =~= batch);
}

/// A horizontal candidate on the row directly above or below a placed
/// horizontal ship, with a column in common, is never accepted.
pub proof fn lemma_neighbouring_rows_rejected(placed: Seq<Ship>, k: int, cand: Ship)
    requires
        0 <= k < placed.len(),
        placed[k].orient.horizontal(),
        cand.orient.horizontal(),
        cand.coord.y == placed[k].coord.y + 1 || placed[k].coord.y == cand.coord.y + 1,
        placed[k].min_x() <= cand.max_x(),
        cand.min_x() <= placed[k].max_x(),
    ensures
        verdict(placed, cand) is Some,
{
    assert(placed[k].adjacent_horizontal(cand));
}

/// A horizontal candidate that fits on the board is accepted where every
/// placed ship is horizontal and lies two or more rows away, whatever
/// columns the ships span.
pub proof fn lemma_two_rows_apart_accepted(placed: Seq<Ship>, cand: Ship)
    requires
        cand.orient.horizontal(),
        cand.fits(),
        forall|k: int|
            0 <= k < placed.len() ==> (#[trigger] placed[k]).orient.horizontal() && (cand.coord.y
                >= placed[k].coord.y + 2 || placed[k].coord.y >= cand.coord.y + 2),
    ensures
        verdict(placed, cand) is None,
{
    assert forall|k: int| 0 <= k < placed.len() implies !(#[trigger] placed[k]).overlaps(cand)
        && !placed[k].adjacent_horizontal(cand) by {
        assert forall|i: int| 0 <= i < cand.len implies !#[trigger] placed[k].covers(
            cand.cell_x(i),
            cand.cell_y(i),
        ) by {
            assert(cand.cell_y(i) == cand.coord.y);
        }
    }
}

/// Adding a ship keeps a fleet legal exactly when the ship has the next
/// length and the verdict on it is favourable.
pub proof fn lemma_fleet_grows_by_verdict(placed: Seq<Ship>, cand: Ship)
    requires
        valid_fleet(placed),
        placed.len() < NUM_SHIPS,
    ensures
        valid_fleet(placed.push(cand)) <==> cand.len == placed.len() + FIRST_LEN && verdict(
            placed,
            cand,
        ) is None,
{
    let grown = placed.push(cand);
    let n = placed.len() as int;
    assert(grown[n] == cand);
    assert forall|k: int| 0 <= k < n implies grown[k] == placed[k] by {}
    if valid_fleet(grown) {
        assert forall|k: int| 0 <= k < n implies !(#[trigger] placed[k]).overlaps(cand)
            && !placed[k].adjacent_horizontal(cand) by {
            assert(!grown[k].overlaps(grown[n]) && !grown[k].adjacent_horizontal(grown[n]));
        }
    }
    if cand.len == n + FIRST_LEN && verdict(placed, cand) is None {
        assert forall|j: int, k: int| 0 <= j < k < grown.len() implies !(#[trigger] grown[j]).overlaps(
            #[trigger] grown[k],
        ) && !grown[j].adjacent_horizontal(grown[k]) by {
            if k < n {
                assert(!placed[j].overlaps(placed[k]) && !placed[j].adjacent_horizontal(placed[k]));
            } else {
                assert(!placed[j].overlaps(cand) && !placed[j].adjacent_horizontal(cand));
            }
        }
        assert forall|k: int| 0 <= k < grown.len() implies (#[trigger] grown[k]).len == k + FIRST_LEN
            && grown[k].fits() by {
            if k < n {
                assert(placed[k].len == k + FIRST_LEN && placed[k].fits());
            }
        }
    }
}

/// A candidate that fits on the board and shares a cell with a placed ship is
/// rejected as an overlap, whatever the two orientations are and whichever
/// of the two ships the shared cell is counted from.
pub proof fn lemma_overlap_rejected(placed: Seq<Ship>, k: int, cand: Ship)
    requires
        0 <= k < placed.len(),
        placed[k].overlaps(cand) || cand.overlaps(placed[k]),
        cand.fits(),
    ensures
        verdict(placed, cand) == Some(GameError::Overlap),
{
    lemma_overlaps_symmetric(placed[k], cand);
}

/// A complete fleet occupies exactly twenty cells of its board.
pub proof fn lemma_complete_fleet_cells(fleet: Fleet)
    requires
        fleet.wf(),
        fleet@.len() == NUM_SHIPS,
    ensures
        fleet.grid().count() == FLEET_CELLS,
{
    reveal_with_fuel(fleet_cells, 6);
}

} // verus!
