use battleship::board::Board;
use battleship::geometry::{Coord, GameError, Orientation};
use battleship::placement::{Fleet, FLEET_CELLS};
use battleship::ship::Ship;

fn at(x: usize, y: usize) -> Coord {
    Coord { x, y }
}

fn sample() -> [Ship; 5] {
    [
        Ship { len: 2, coord: at(0, 0), orient: Orientation::Right },
        Ship { len: 3, coord: at(0, 2), orient: Orientation::Right },
        Ship { len: 4, coord: at(3, 4), orient: Orientation::Left },
        Ship { len: 5, coord: at(0, 6), orient: Orientation::Right },
        Ship { len: 6, coord: at(7, 5), orient: Orientation::Down },
    ]
}

#[test]
fn ships_must_fit_on_the_board() {
    assert!(Ship { len: 6, coord: at(2, 0), orient: Orientation::Right }.check_fits());
    assert!(!Ship { len: 6, coord: at(3, 0), orient: Orientation::Right }.check_fits());
    assert!(Ship { len: 6, coord: at(5, 0), orient: Orientation::Left }.check_fits());
    assert!(!Ship { len: 6, coord: at(4, 0), orient: Orientation::Left }.check_fits());
    assert!(!Ship { len: 2, coord: at(8, 0), orient: Orientation::Left }.check_fits());
    assert!(!Ship { len: 2, coord: at(0, 8), orient: Orientation::Down }.check_fits());
    assert!(Ship { len: 0, coord: at(9, 9), orient: Orientation::Up }.check_fits());
}

#[test]
fn board_place_marks_exactly_the_ship() {
    let b = Board::new();
    assert_eq!(b.occupied_cells(), 0);
    let s = Ship { len: 3, coord: at(1, 2), orient: Orientation::Up };
    let b = b.place(s).unwrap();
    assert_eq!(b.occupied_cells(), 3);
    for x in 0..8 {
        for y in 0..8 {
            assert_eq!(b.is_occupied(at(x, y)), x == 1 && (2..5).contains(&y));
        }
    }
    assert!(!b.is_occupied(at(8, 0)));
    assert!(!b.is_occupied(at(1, 9)));
}

#[test]
fn board_place_reports_bounds_before_overlap() {
    let b = Board::new().place(Ship { len: 2, coord: at(6, 0), orient: Orientation::Right }).unwrap();
    let r = b.place(Ship { len: 3, coord: at(6, 0), orient: Orientation::Right });
    assert_eq!(r.err(), Some(GameError::OutOfBounds));
    let r = b.place(Ship { len: 3, coord: at(7, 0), orient: Orientation::Up });
    assert_eq!(r.err(), Some(GameError::Overlap));
}

#[test]
fn first_ship_has_length_two() {
    let mut f = Fleet::new();
    assert_eq!(f.len(), 0);
    assert!(!f.is_complete());
    assert_eq!(f.place(at(0, 0), Orientation::Right), Ok(()));
    assert_eq!(f.len(), 1);
    assert_eq!(f.ship(0), Some(Ship { len: 2, coord: at(0, 0), orient: Orientation::Right }));
    assert_eq!(f.ship(1), None);
    assert_eq!(f.board().occupied_cells(), 2);
    assert!(f.board().is_occupied(at(1, 0)));
    assert!(!f.board().is_occupied(at(2, 0)));
}

#[test]
fn out_of_bounds_placement_is_rejected() {
    let mut f = Fleet::new();
    assert_eq!(f.place(at(7, 0), Orientation::Right), Err(GameError::OutOfBounds));
    assert_eq!(f.place(at(0, 0), Orientation::Down), Err(GameError::OutOfBounds));
    assert_eq!(f.place(at(0, 0), Orientation::Left), Err(GameError::OutOfBounds));
    assert_eq!(f.place(at(0, 7), Orientation::Up), Err(GameError::OutOfBounds));
    assert_eq!(f.place(at(8, 3), Orientation::Left), Err(GameError::OutOfBounds));
    assert_eq!(f.len(), 0);
    assert_eq!(f.board().occupied_cells(), 0);
}

#[test]
fn overlapping_placement_is_rejected_for_every_orientation() {
    for o in [Orientation::Up, Orientation::Down, Orientation::Left, Orientation::Right] {
        let mut f = Fleet::new();
        assert_eq!(f.place(at(3, 3), Orientation::Right), Ok(()));
        assert_eq!(f.place(at(4, 3), o), Err(GameError::Overlap), "{:?}", o);
        assert_eq!(f.len(), 1);
        assert_eq!(f.board().occupied_cells(), 2);
    }
}

#[test]
fn crossing_ships_overlap() {
    let mut f = Fleet::new();
    assert_eq!(f.place(at(3, 3), Orientation::Right), Ok(()));
    assert_eq!(f.place(at(4, 2), Orientation::Up), Err(GameError::Overlap));
    assert_eq!(f.place(at(4, 4), Orientation::Down), Err(GameError::Overlap));
}

#[test]
fn horizontal_ships_on_neighbouring_rows_are_rejected() {
    let mut f = Fleet::new();
    assert_eq!(f.place(at(2, 3), Orientation::Right), Ok(()));
    assert_eq!(f.place(at(3, 4), Orientation::Right), Err(GameError::AdjacentHorizontal));
    assert_eq!(f.place(at(3, 2), Orientation::Left), Err(GameError::AdjacentHorizontal));
    assert_eq!(f.place(at(0, 4), Orientation::Right), Err(GameError::AdjacentHorizontal));
    assert_eq!(f.len(), 1);
}

#[test]
fn horizontal_ships_two_rows_apart_are_accepted() {
    let mut f = Fleet::new();
    assert_eq!(f.place(at(2, 3), Orientation::Right), Ok(()));
    assert_eq!(f.place(at(3, 5), Orientation::Right), Ok(()));
    assert_eq!(f.place(at(5, 1), Orientation::Left), Ok(()));
    assert_eq!(f.len(), 3);
    assert_eq!(f.board().occupied_cells(), 9);
}

#[test]
fn neighbouring_rows_without_a_common_column_are_accepted() {
    let mut f = Fleet::new();
    assert_eq!(f.place(at(0, 3), Orientation::Right), Ok(()));
    assert_eq!(f.place(at(2, 4), Orientation::Right), Ok(()));
}

#[test]
fn vertical_and_mixed_neighbours_are_exempt() {
    let mut f = Fleet::new();
    assert_eq!(f.place(at(2, 3), Orientation::Up), Ok(()));
    assert_eq!(f.place(at(3, 3), Orientation::Up), Ok(()));
    assert_eq!(f.place(at(1, 7), Orientation::Right), Ok(()));
    assert_eq!(f.place(at(0, 6), Orientation::Right), Err(GameError::AdjacentHorizontal));
    assert_eq!(f.place(at(5, 6), Orientation::Down), Ok(()));
}

#[test]
fn spans_that_only_touch_at_one_column_count_as_adjacent() {
    let mut f = Fleet::new();
    assert_eq!(f.place(at(0, 0), Orientation::Right), Ok(()));
    assert_eq!(f.place(at(1, 1), Orientation::Right), Err(GameError::AdjacentHorizontal));
    assert_eq!(f.place(at(3, 1), Orientation::Left), Err(GameError::AdjacentHorizontal));
    assert_eq!(f.place(at(1, 1), Orientation::Up), Ok(()));
    let mut g = Fleet::new();
    assert_eq!(g.place(at(0, 0), Orientation::Right), Ok(()));
    assert_eq!(g.place(at(2, 1), Orientation::Right), Ok(()));
    let mut h = Fleet::new();
    assert_eq!(h.place(at(0, 0), Orientation::Right), Ok(()));
    assert_eq!(h.place(at(4, 1), Orientation::Left), Ok(()));
}

#[test]
fn a_complete_fleet_covers_twenty_cells() {
    let mut f = Fleet::new();
    for s in sample() {
        assert_eq!(f.len() + 2, s.len);
        assert_eq!(f.place(s.coord, s.orient), Ok(()));
    }
    assert!(f.is_complete());
    assert_eq!(FLEET_CELLS, 20);
    assert_eq!(f.board().occupied_cells(), 20);
    assert_eq!(f.placements(), Some(sample()));
}

#[test]
fn placements_are_withheld_until_complete() {
    let mut f = Fleet::new();
    assert_eq!(f.placements(), None);
    assert_eq!(f.place(at(0, 0), Orientation::Right), Ok(()));
    assert_eq!(f.placements(), None);
}

#[test]
fn a_legal_batch_becomes_a_fleet() {
    let f = Fleet::from_placements(&sample()).unwrap();
    assert!(f.is_complete());
    assert_eq!(f.board().occupied_cells(), 20);
    assert_eq!(f.ship(2), Some(sample()[2]));
    assert_eq!(f.ship(5), None);
    assert!(f.board().is_occupied(at(0, 4)));
    assert!(!f.board().is_occupied(at(4, 4)));
    assert!(f.board().is_occupied(at(7, 0)));
    assert!(!f.board().is_occupied(at(7, 6)));
}

#[test]
fn an_illegal_batch_is_refused() {
    let mut wrong_len = sample();
    wrong_len[1].len = 4;
    assert!(Fleet::from_placements(&wrong_len).is_none());
    let mut too_long = sample();
    too_long[4].len = 7;
    assert!(Fleet::from_placements(&too_long).is_none());
    let mut too_short = sample();
    too_short[0].len = 1;
    assert!(Fleet::from_placements(&too_short).is_none());
    let mut overlap = sample();
    overlap[4].coord = at(4, 6);
    assert!(Fleet::from_placements(&overlap).is_none());
    let mut adjacent = sample();
    adjacent[1].coord = at(0, 1);
    assert!(Fleet::from_placements(&adjacent).is_none());
    let mut outside = sample();
    outside[3].coord = at(4, 6);
    assert!(Fleet::from_placements(&outside).is_none());
}

#[test]
fn a_batch_may_list_its_ships_in_any_order() {
    let mut swapped = sample();
    swapped.swap(0, 1);
    let f = Fleet::from_placements(&swapped).unwrap();
    assert_eq!(f.placements(), Some(sample()));
    assert_eq!(f.board().occupied_cells(), 20);
    let mut reversed = sample();
    reversed.reverse();
    assert_eq!(reversed[0].len, 6);
    let g = Fleet::from_placements(&reversed).unwrap();
    assert_eq!(g.placements(), Some(sample()));
    assert_eq!(g.ship(0), Some(sample()[0]));
    assert_eq!(g.ship(4), Some(sample()[4]));
    for x in 0..8 {
        for y in 0..8 {
            assert_eq!(g.board().is_occupied(at(x, y)), f.board().is_occupied(at(x, y)));
        }
    }
}

#[test]
fn vertical_ships_listed_longest_first_are_a_fleet() {
    let batch = [
        Ship { len: 6, coord: at(0, 0), orient: Orientation::Up },
        Ship { len: 5, coord: at(1, 0), orient: Orientation::Up },
        Ship { len: 4, coord: at(2, 7), orient: Orientation::Down },
        Ship { len: 3, coord: at(3, 0), orient: Orientation::Up },
        Ship { len: 2, coord: at(4, 0), orient: Orientation::Up },
    ];
    let f = Fleet::from_placements(&batch).unwrap();
    assert_eq!(f.board().occupied_cells(), 20);
    assert_eq!(f.ship(0), Some(batch[4]));
    assert_eq!(f.ship(1), Some(batch[3]));
    assert_eq!(f.ship(2), Some(batch[2]));
    assert_eq!(f.ship(3), Some(batch[1]));
    assert_eq!(f.ship(4), Some(batch[0]));
    assert!(f.board().is_occupied(at(0, 5)));
    assert!(!f.board().is_occupied(at(0, 6)));
    assert!(f.board().is_occupied(at(2, 4)));
    assert!(!f.board().is_occupied(at(2, 3)));
}

#[test]
fn an_illegal_batch_is_refused_in_any_order() {
    let mut overlap = sample();
    overlap[4].coord = at(4, 6);
    overlap.reverse();
    assert!(Fleet::from_placements(&overlap).is_none());
    let mut adjacent = sample();
    adjacent[1].coord = at(0, 1);
    adjacent.swap(1, 3);
    assert!(Fleet::from_placements(&adjacent).is_none());
    let mut twice = sample();
    twice.reverse();
    twice[0].len = 5;
    assert!(Fleet::from_placements(&twice).is_none());
}

#[test]
fn find_len_gives_the_first_ship_of_a_length() {
    let mut batch = sample();
    batch.reverse();
    assert_eq!(Fleet::find_len(&batch, 6), Some(0));
    assert_eq!(Fleet::find_len(&batch, 2), Some(4));
    assert_eq!(Fleet::find_len(&batch, 4), Some(2));
    assert_eq!(Fleet::find_len(&batch, 7), None);
    batch[3].len = 6;
    assert_eq!(Fleet::find_len(&batch, 6), Some(0));
    assert_eq!(Fleet::find_len(&batch, 3), None);
}
