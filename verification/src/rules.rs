//! The rules of the game, stated over the model of a board: stones and
//! liberties, captures, territory, eyes and area.

use vstd::prelude::*;
use crate::count::{count_where, indices_where, lemma_count_partition};
use crate::position::{Point, Position};
use crate::stones::{Color, Player};

verus! {

impl Position {
    /// The indices of the points in the state `color`.
    pub open spec fn colored(self, color: Color) -> spec_fn(int) -> bool {
        |i: int| 0 <= i < self.cells.len() && self.cells[i] == color
    }

    /// How many points are in the state `color`.
    pub open spec fn count(self, color: Color) -> nat {
        count_where(self.colored(color), self.cells.len())
    }

    /// The empty points, in the order of the rows and of the columns in
    /// each.
    pub open spec fn empty_points(self) -> Seq<Point> {
        self.points(indices_where(self.colored(Color::Empty), self.cells.len()))
    }

    /// The indices of the points connected to `a`.
    pub open spec fn joined(self, a: int) -> spec_fn(int) -> bool {
        |j: int| self.connected(a, j)
    }

    /// The chain of the stone at `a`, by index in increasing order; empty
    /// where no stone stands.
    pub open spec fn chain(self, a: int) -> Seq<int> {
        if self.cells[a] == Color::Empty {
            Seq::empty()
        } else {
            indices_where(self.joined(a), self.cells.len())
        }
    }

    /// Whether `j` is a liberty of what is connected to `a`: an empty point
    /// adjacent to one of those points.
    pub open spec fn is_liberty(self, a: int, j: int) -> bool {
        &&& 0 <= j < self.area()
        &&& self.cells[j] == Color::Empty
        &&& exists|m: int| self.connected(a, m) && #[trigger] self.adjacent(m, j)
    }

    /// The indices of the liberties of what is connected to `a`.
    pub open spec fn liberties(self, a: int) -> spec_fn(int) -> bool {
        |j: int| self.is_liberty(a, j)
    }

    /// How many liberties the chain of the stone at `a` has, each counted
    /// once.
    pub open spec fn liberty_count(self, a: int) -> nat {
        count_where(self.liberties(a), self.cells.len())
    }

    /// Whether every stone on the board belongs to a chain with a liberty.
    pub open spec fn all_alive(self) -> bool {
        forall|x: int|
            0 <= x < self.cells.len() && #[trigger] self.cells[x] != Color::Empty
                ==> self.liberty_count(x) > 0
    }

    /// How many liberties the stone at `a` has with its chain; none where
    /// no stone stands.
    pub open spec fn chain_liberties(self, a: int) -> nat {
        if self.cells[a] == Color::Empty {
            0
        } else {
            self.liberty_count(a)
        }
    }

    /// Whether `x` is the index of one of `points`.
    pub open spec fn names(self, points: Seq<Point>, x: int) -> bool {
        exists|t: int| 0 <= t < points.len() && self.index(#[trigger] points[t]) == x
    }

    /// The board with each of `points` emptied.
    pub open spec fn cleared(self, points: Seq<Point>) -> Position {
        Position {
            size: self.size,
            cells: Seq::new(
                self.cells.len(),
                |x: int|
                    if self.names(points, x) {
                        Color::Empty
                    } else {
                        self.cells[x]
                    },
            ),
        }
    }

    /// The board with the point at `i` set to `color`.
    pub open spec fn with_stone(self, i: int, color: Color) -> Position {
        Position { size: self.size, cells: self.cells.update(i, color) }
    }

    /// Whether the stone at `m` starts a chain that the stone at `i` takes:
    /// a stone of the other colour without a liberty.
    pub open spec fn is_taken(self, i: int, m: int) -> bool {
        &&& self.cells[m] != Color::Empty
        &&& self.cells[m] != self.cells[i]
        &&& self.liberty_count(m) == 0
    }

    /// Whether the point at `x` belongs to a chain of the other colour that
    /// is adjacent to the stone at `i` and has no liberty.
    pub open spec fn is_captured(self, i: int, x: int) -> bool {
        exists|m: int| #[trigger] self.adjacent(i, m) && self.is_taken(i, m) && self.connected(m, x)
    }

    /// The board without the chains that the stone at `i` captures.
    pub open spec fn without_captured(self, i: int) -> Position {
        Position {
            size: self.size,
            cells: Seq::new(
                self.cells.len(),
                |x: int|
                    if self.is_captured(i, x) {
                        Color::Empty
                    } else {
                        self.cells[x]
                    },
            ),
        }
    }

    /// The board after a stone of `color` is put on the point at `i` and
    /// the chains that it captures are taken off.
    pub open spec fn settle(self, i: int, color: Color) -> Position {
        self.with_stone(i, color).without_captured(i)
    }

    /// Whether the empty region of `i` touches a stone of `color`.
    pub open spec fn borders(self, i: int, color: Color) -> bool {
        exists|m: int, j: int|
            self.connected(i, m) && #[trigger] self.adjacent(m, j) && self.cells[j] == color
    }

    /// Whose territory the point at `i` is: the one colour that the empty
    /// region of `i` touches. A region that touches both colours or none is
    /// neutral, and a stone is nobody's territory.
    pub open spec fn owner(self, i: int) -> Option<Player> {
        if !(0 <= i < self.area()) || self.cells[i] != Color::Empty {
            None
        } else if self.borders(i, Color::Black) && !self.borders(i, Color::White) {
            Some(Player::Black)
        } else if self.borders(i, Color::White) && !self.borders(i, Color::Black) {
            Some(Player::White)
        } else {
            None
        }
    }

    /// The indices of the points that are territory of `player`.
    pub open spec fn owned(self, player: Player) -> spec_fn(int) -> bool {
        |i: int| self.owner(i) == Some(player)
    }

    /// How many points are territory of `player`.
    pub open spec fn territory(self, player: Player) -> nat {
        count_where(self.owned(player), self.cells.len())
    }

    /// The area of `player`: stones on the board and territory.
    pub open spec fn area_of(self, player: Player) -> nat {
        self.count(player.spec_color()) + self.territory(player)
    }

    /// Whether row `r`, column `c` counts for `color` around an eye: it is
    /// off the board or holds a stone of that colour.
    pub open spec fn friendly(self, r: int, c: int, color: Color) -> bool {
        !self.on_board(r, c) || self.at(r, c) == color
    }

    /// How many of the four diagonal neighbours of row `r`, column `c` are
    /// friendly to `color`.
    pub open spec fn friendly_corners(self, r: int, c: int, color: Color) -> int {
        (if self.friendly(r - 1, c - 1, color) {
            1int
        } else {
            0int
        }) + (if self.friendly(r - 1, c + 1, color) {
            1int
        } else {
            0int
        }) + (if self.friendly(r + 1, c - 1, color) {
            1int
        } else {
            0int
        }) + (if self.friendly(r + 1, c + 1, color) {
            1int
        } else {
            0int
        })
    }

    /// Whether row `r`, column `c` is an eye of `player`: an empty point of
    /// the board whose four neighbours in row and column are friendly, and
    /// at least three of whose four diagonal neighbours are.
    pub open spec fn is_eye(self, r: int, c: int, player: Player) -> bool {
        let color = player.spec_color();
        &&& self.on_board(r, c)
        &&& self.at(r, c) == Color::Empty
        &&& self.friendly(r - 1, c, color)
        &&& self.friendly(r + 1, c, color)
        &&& self.friendly(r, c - 1, color)
        &&& self.friendly(r, c + 1, color)
        &&& self.friendly_corners(r, c, color) >= 3
    }
}

impl Position {
    /// One point more names one index more.
    pub proof fn lemma_names_one_more(self, points: Seq<Point>, t: int, x: int)
        requires
            0 <= t < points.len(),
        ensures
            self.names(points.take(t + 1), x) == (self.names(points.take(t), x) || x
                == self.index(points[t])),
    {
        let now = points.take(t + 1);
        let was = points.take(t);
        if self.names(now, x) {
            let s = choose|s: int| 0 <= s < now.len() && self.index(#[trigger] now[s]) == x;
            if s < t {
                assert(self.index(was[s]) == x);
            }
        }
        if self.names(was, x) {
            let s = choose|s: int| 0 <= s < was.len() && self.index(#[trigger] was[s]) == x;
            assert(self.index(now[s]) == x);
        }
        if x == self.index(points[t]) {
            assert(self.index(now[t]) == x);
        }
    }
}

/// Every point is empty, black or white: the three counts make up the board.
pub proof fn lemma_conservation(p: Position)
    requires
        p.wf(),
    ensures
        p.count(Color::Black) + p.count(Color::White) + p.count(Color::Empty) == p.size * p.size,
{
    lemma_count_partition(
        p.colored(Color::Black),
        p.colored(Color::White),
        p.colored(Color::Empty),
        p.cells.len(),
    );
}

} // verus!
