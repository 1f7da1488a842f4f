use battleship::geometry::{Coord, GameError, Orientation};
use battleship::user::User;
use battleship::view::{PlayerView, ViewState};

fn at(x: usize, y: usize) -> Coord {
    Coord { x, y }
}

#[test]
fn a_new_view_is_blank() {
    let v = PlayerView::new();
    for x in 0..8 {
        for y in 0..8 {
            assert_eq!(v.get(at(x, y)), ViewState::Blank);
            assert_eq!(v.state[x][y], ViewState::Blank);
        }
    }
    assert_eq!(v.count_hits(), 0);
    assert_eq!(v.get(at(8, 8)), ViewState::Blank);
}

#[test]
fn record_sets_one_cell() {
    let mut v = PlayerView::new();
    v.record(at(2, 5), true);
    v.record(at(5, 2), false);
    assert_eq!(v.get(at(2, 5)), ViewState::Hit);
    assert_eq!(v.get(at(5, 2)), ViewState::Miss);
    assert_eq!(v.get(at(2, 2)), ViewState::Blank);
    assert_eq!(v.count_hits(), 1);
}

#[test]
fn the_last_record_for_a_cell_wins() {
    let mut v = PlayerView::new();
    v.record(at(1, 1), true);
    v.record(at(1, 1), true);
    assert_eq!(v.count_hits(), 1);
    v.record(at(1, 1), false);
    assert_eq!(v.get(at(1, 1)), ViewState::Miss);
    assert_eq!(v.count_hits(), 0);
}

#[test]
fn count_hits_counts_every_hit() {
    let mut v = PlayerView::new();
    for x in 0..8 {
        for y in 0..8 {
            v.record(at(x, y), (x + y) % 2 == 0);
        }
    }
    assert_eq!(v.count_hits(), 32);
    for x in 0..8 {
        for y in 0..8 {
            v.record(at(x, y), true);
        }
    }
    assert_eq!(v.count_hits(), 64);
}

#[test]
fn place_ship_marks_its_cells() {
    let v = PlayerView::new();
    let w = v.place_ship(3, at(4, 4), Orientation::Down).unwrap();
    assert_eq!(w.count_hits(), 3);
    for x in 0..8 {
        for y in 0..8 {
            let expected = if x == 4 && (2..=4).contains(&y) { ViewState::Hit } else { ViewState::Blank };
            assert_eq!(w.get(at(x, y)), expected);
        }
    }
    assert_eq!(v.count_hits(), 0);
}

#[test]
fn place_ship_may_end_on_the_edge() {
    let v = PlayerView::new();
    assert!(v.place_ship(4, at(4, 0), Orientation::Right).is_ok());
    assert!(v.place_ship(8, at(0, 7), Orientation::Down).is_ok());
    assert_eq!(v.place_ship(5, at(4, 0), Orientation::Right).err(), Some(GameError::OutOfBounds));
    assert_eq!(v.place_ship(1, at(8, 0), Orientation::Left).err(), Some(GameError::OutOfBounds));
}

#[test]
fn place_ship_of_no_cells_changes_nothing() {
    let mut v = PlayerView::new();
    v.record(at(0, 0), true);
    let w = v.place_ship(0, at(0, 0), Orientation::Up).unwrap();
    assert_eq!(w.state, v.state);
}

#[test]
fn place_ship_rejects_marked_cells() {
    let mut v = PlayerView::new();
    v.record(at(3, 3), false);
    assert_eq!(v.place_ship(3, at(1, 3), Orientation::Right).err(), Some(GameError::Overlap));
    let w = v.place_ship(2, at(1, 3), Orientation::Right).unwrap();
    assert_eq!(w.place_ship(2, at(2, 2), Orientation::Up).err(), Some(GameError::Overlap));
    assert_eq!(w.place_ship(9, at(2, 2), Orientation::Up).err(), Some(GameError::OutOfBounds));
}

#[test]
fn a_user_starts_with_a_blank_view() {
    let u = User::new("Player 1");
    assert_eq!(u.get_name(), "Player 1");
    assert_eq!(u.name, "Player 1");
    assert_eq!(u.count_hits(), 0);
    assert_eq!(u.view.get(at(0, 0)), ViewState::Blank);
}

#[test]
fn a_user_counts_its_hits() {
    let mut u = User::new("Ada");
    u.hit_feedback(at(0, 0), true);
    u.hit_feedback(at(0, 1), false);
    u.hit_feedback(at(7, 7), true);
    assert_eq!(u.count_hits(), 2);
    assert_eq!(u.view.get(at(0, 0)), ViewState::Hit);
    assert_eq!(u.view.get(at(0, 1)), ViewState::Miss);
    assert_eq!(u.get_name(), "Ada");
}

#[test]
fn a_user_never_counts_more_hits_than_cells() {
    let mut u = User::new("Ada");
    for x in 0..8 {
        for y in 0..8 {
            u.hit_feedback(at(x, y), true);
            u.hit_feedback(at(x, y), true);
        }
    }
    assert_eq!(u.count_hits(), 64);
}
