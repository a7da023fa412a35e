//! Territory: the empty regions that touch stones of one colour only.

use vstd::prelude::*;
use crate::board::PyGoban;
use crate::count::count_where;
use crate::stones::{Color, Player};

verus! {

impl PyGoban {
    /// Whether a marked point is adjacent to a point in the state `color`.
    /// The marked points are those connected to the point at `a`.
    fn region_touches(&self, marks: &Vec<bool>, color: Color, Ghost(a): Ghost<int>) -> (r: bool)
        requires
            self.wf(),
            marks.len() == self@.area(),
            forall|j: int| 0 <= j < marks.len() ==> marks[j] == self@.connected(a, j),
        ensures
            r == self@.borders(a, color),
    {
        let total: usize = self.area();
        let mut found: bool = false;
        let mut j: usize = 0;
        while j < total
            invariant
                self.wf(),
                total == self@.area(),
                total == self.cells.len(),
                marks.len() == total,
                j <= total,
                found == exists|m: int, k: int|
                    0 <= m < total && marks[m] && #[trigger] self@.adjacent(m, k) && 0 <= k < j
                        && self.cells[k] == color,
            decreases total - j,
        {
            if self.cells[j] == color && self.touches(marks, j) {
                proof {
                    let m = choose|m: int|
                        0 <= m < marks.len() && marks[m] && #[trigger] self@.adjacent(m, j as int);
                    assert(self@.adjacent(m, j as int) && 0 <= j < j + 1);
                }
                found = true;
            }
            j += 1;
        }
        proof {
            if found {
                let (m, k) = choose|m: int, k: int|
                    0 <= m < total && marks[m] && #[trigger] self@.adjacent(m, k) && 0 <= k < total
                        && self.cells[k] == color;
                assert(self@.connected(a, m));
            }
            if self@.borders(a, color) {
                let (m, k) = choose|m: int, k: int|
                    self@.connected(a, m) && #[trigger] self@.adjacent(m, k) && self@.cells[k]
                        == color;
                self@.lemma_connected_same(a, m);
                assert(marks[m]);
            }
        }
        found
    }

    /// Whose territory the point at `index` is, if anyone's.
    pub(crate) fn owner_at(&self, index: usize) -> (r: Option<Player>)
        requires
            self.wf(),
            index < self@.area(),
        ensures
            r == self@.owner(index as int),
    {
        if self.cells[index] != Color::Empty {
            return None;
        }
        let marks: Vec<bool> = self.flood(index);
        let black: bool = self.region_touches(&marks, Color::Black, Ghost(index as int));
        let white: bool = self.region_touches(&marks, Color::White, Ghost(index as int));
        if black && !white {
            Some(Player::Black)
        } else if white && !black {
            Some(Player::White)
        } else {
            None
        }
    }

    /// The territory of each side, Black's first: the number of empty
    /// points whose region touches stones of that side only.
    pub fn calculate_territories(&self) -> (r: (usize, usize))
        requires
            self.wf(),
        ensures
            r.0 == self@.territory(Player::Black),
            r.1 == self@.territory(Player::White),
            r.0 + r.1 <= self@.area(),
    {
        let total: usize = self.area();
        let mut black: usize = 0;
        let mut white: usize = 0;
        let mut i: usize = 0;
        while i < total
            invariant
                self.wf(),
                total == self@.area(),
                total == self.cells.len(),
                i <= total,
                black == count_where(self@.owned(Player::Black), i as nat),
                white == count_where(self@.owned(Player::White), i as nat),
                black + white <= i,
            decreases total - i,
        {
            match self.owner_at(i) {
                Some(Player::Black) => {
                    black += 1;
                },
                Some(Player::White) => {
                    white += 1;
                },
                None => {},
            }
            i += 1;
        }
        (black, white)
    }

    /// The area of each side, Black's first: its stones on the board and
    /// its territory.
    pub fn calculate_areas(&self) -> (r: (usize, usize))
        requires
            self.wf(),
        ensures
            r.0 == self@.area_of(Player::Black),
            r.1 == self@.area_of(Player::White),
            r.0 <= 722,
            r.1 <= 722,
    {
        proof {
            self@.lemma_area_bound();
        }
        let territory: (usize, usize) = self.calculate_territories();
        let black: usize = self.stones_on_board(Color::Black);
        let white: usize = self.stones_on_board(Color::White);
        (black + territory.0, white + territory.1)
    }
}

} // verus!
