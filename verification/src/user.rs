//! A named participant and the observer view it keeps.

use vstd::prelude::*;
use crate::geometry::Coord;
use crate::grid::CELLS;
pub use crate::view::{PlayerView, ViewState};

verus! {

/// A participant's identity and what it has learned from its shots.
pub struct User {
    pub name: String,
    pub view: PlayerView,
}

impl User {
    /// A participant called `name` that has not fired yet.
    pub fn new(name: &str) -> (u: User)
        ensures
            u.name@ == name@,
            forall|x: int, y: int| u.view.at(x, y) == ViewState::Blank,
    {
        User { name: name.to_owned(), view: PlayerView::new() }
    }

    /// Notes the outcome of a shot at `coord` in the participant's view.
    pub fn hit_feedback(&mut self, coord: Coord, hit: bool)
        requires
            coord.valid(),
        ensures
            final(self).name == old(self).name,
            forall|x: int, y: int|
                #[trigger] final(self).view.at(x, y) == if x == coord.x && y == coord.y {
                    if hit {
                        ViewState::Hit
                    } else {
                        ViewState::Miss
                    }
                } else {
                    old(self).view.at(x, y)
                },
            final(self).view.hits() + (if old(self).view.at(coord.x as int, coord.y as int)
                == ViewState::Hit {
                1nat
            } else {
                0nat
            }) == old(self).view.hits() + (if hit {
                1nat
            } else {
                0nat
            }),
    {
        self.view.record(coord, hit);
    }

    /// Number of confirmed hits so far.
    pub fn count_hits(&self) -> (n: usize)
        ensures
            n == self.view.hits(),
            n <= CELLS,
    {
        self.view.count_hits()
    }

    /// The participant's display name.
    pub fn get_name(&self) -> (s: &str)
        ensures
            s@ == self.name@,
    {
        self.name.as_str()
    }
}

} // verus!
