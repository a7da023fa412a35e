//! The mathematical model of a board: its points, which of them are next to
//! each other, and which are connected.

use vstd::prelude::*;
use vstd::arithmetic::div_mod::{
    lemma_fundamental_div_mod,
    lemma_fundamental_div_mod_converse,
    lemma_mod_pos_bound,
};
use crate::stones::Color;

verus! {

/// The largest board side.
pub const MAX_SIZE: u8 = 19;

/// A point of the board: row and column, counted from 0.
pub type Point = (u8, u8);

/// A board: `size` rows of `size` points, row after row.
pub struct Position {
    pub size: nat,
    pub cells: Seq<Color>,
}

impl Position {
    /// The side is between 1 and 19 and every point has a state.
    pub open spec fn wf(self) -> bool {
        &&& 1 <= self.size <= MAX_SIZE
        &&& self.cells.len() == self.size * self.size
    }

    /// The number of points.
    pub open spec fn area(self) -> int {
        (self.size * self.size) as int
    }

    /// Whether row `r`, column `c` is a point of the board.
    pub open spec fn on_board(self, r: int, c: int) -> bool {
        0 <= r < self.size && 0 <= c < self.size
    }

    /// Where the point at row `r`, column `c` stands in `cells`.
    pub open spec fn index_of(self, r: int, c: int) -> int {
        r * self.size + c
    }

    /// The row of the point at index `i`.
    pub open spec fn row(self, i: int) -> int {
        i / (self.size as int)
    }

    /// The column of the point at index `i`.
    pub open spec fn col(self, i: int) -> int {
        i % (self.size as int)
    }

    /// The state of the point at row `r`, column `c`.
    pub open spec fn at(self, r: int, c: int) -> Color {
        self.cells[self.index_of(r, c)]
    }

    /// Whether `p` is a point of the board.
    pub open spec fn holds(self, p: Point) -> bool {
        self.on_board(p.0 as int, p.1 as int)
    }

    /// Where the point `p` stands in `cells`.
    pub open spec fn index(self, p: Point) -> int {
        self.index_of(p.0 as int, p.1 as int)
    }

    /// The state of the point `p`.
    pub open spec fn color(self, p: Point) -> Color {
        self.cells[self.index(p)]
    }

    /// The point at index `i`.
    pub open spec fn point(self, i: int) -> Point {
        (self.row(i) as u8, self.col(i) as u8)
    }

    /// The points at the indices `idx`, in their order.
    pub open spec fn points(self, idx: Seq<int>) -> Seq<Point> {
        Seq::new(idx.len(), |t: int| self.point(idx[t]))
    }

    /// Two points of the board that are next to each other in a row or in a
    /// column.
    pub open spec fn adjacent(self, i: int, j: int) -> bool {
        &&& 0 <= i < self.area()
        &&& 0 <= j < self.area()
        &&& (self.row(i) == self.row(j) && (self.col(i) == self.col(j) + 1 || self.col(j)
            == self.col(i) + 1) || self.col(i) == self.col(j) && (self.row(i) == self.row(j) + 1
            || self.row(j) == self.row(i) + 1))
    }

    /// The points next to `i`: above, below, left, right, as far as the
    /// board has them.
    pub open spec fn neighbors(self, i: int) -> Seq<int> {
        let n = self.size as int;
        let up = if self.row(i) > 0 {
            seq![i - n]
        } else {
            Seq::empty()
        };
        let down = if self.row(i) + 1 < n {
            seq![i + n]
        } else {
            Seq::empty()
        };
        let left = if self.col(i) > 0 {
            seq![i - 1]
        } else {
            Seq::empty()
        };
        let right = if self.col(i) + 1 < n {
            seq![i + 1]
        } else {
            Seq::empty()
        };
        up + down + left + right
    }
}

/// Whether a board of side `n` has `len` points.
pub open spec fn is_side(n: nat, len: nat) -> bool {
    1 <= n <= MAX_SIZE && n * n == len
}

/// Whether `len` points make a board.
pub open spec fn has_side(len: nat) -> bool {
    exists|n: nat| is_side(n, len)
}

/// A point on the board has an index below the area, and the index gives
/// its row and column back.
pub proof fn lemma_point_index(n: int, r: int, c: int)
    requires
        0 < n,
        0 <= r < n,
        0 <= c < n,
    ensures
        0 <= r * n + c < n * n,
        (r * n + c) / n == r,
        (r * n + c) % n == c,
{
    lemma_fundamental_div_mod_converse(r * n + c, n, r, c);
    assert(0 <= r * n && r * n + n <= n * n) by (nonlinear_arith)
        requires
            0 <= r < n,
    ;
}

/// An index below the area has a row and a column on the board, and they
/// give the index back.
pub proof fn lemma_index_point(n: int, i: int)
    requires
        0 < n,
        0 <= i < n * n,
    ensures
        0 <= i / n < n,
        0 <= i % n < n,
        i == (i / n) * n + i % n,
{
    lemma_fundamental_div_mod(i, n);
    lemma_mod_pos_bound(i, n);
    let q = i / n;
    assert(q * n == n * q) by (nonlinear_arith);
    assert(0 <= q < n) by (nonlinear_arith)
        requires
            0 < n,
            0 <= i < n * n,
            i == n * q + i % n,
            0 <= i % n < n,
    ;
}

impl Position {
    /// A sound board has from 1 to 361 points.
    pub proof fn lemma_area_bound(self)
        requires
            self.wf(),
        ensures
            1 <= self.area() <= 361,
            self.cells.len() == self.area(),
    {
        let n = self.size as int;
        assert(1 <= n * n <= 361) by (nonlinear_arith)
            requires
                1 <= n <= 19,
        ;
    }

    /// `neighbors` lists exactly the adjacent points, each once.
    pub proof fn lemma_neighbors(self, i: int)
        requires
            self.wf(),
            0 <= i < self.area(),
        ensures
            forall|j: int| self.neighbors(i).contains(j) <==> self.adjacent(i, j),
            self.neighbors(i).no_duplicates(),
            self.neighbors(i).len() <= 4,
    {
        let n = self.size as int;
        let r = i / n;
        let c = i % n;
        let nb = self.neighbors(i);
        lemma_index_point(n, i);
        if r > 0 {
            lemma_point_index(n, r - 1, c);
            assert((r - 1) * n + c == i - n) by (nonlinear_arith)
                requires
                    i == r * n + c,
            ;
        }
        if r + 1 < n {
            lemma_point_index(n, r + 1, c);
            assert((r + 1) * n + c == i + n) by (nonlinear_arith)
                requires
                    i == r * n + c,
            ;
        }
        if c > 0 {
            lemma_point_index(n, r, c - 1);
        }
        if c + 1 < n {
            lemma_point_index(n, r, c + 1);
        }
        assert forall|j: int| self.adjacent(i, j) implies nb.contains(j) by {
            lemma_index_point(n, j);
            let rj = j / n;
            let cj = j % n;
            if rj == r - 1 {
                assert(j == i - n) by (nonlinear_arith)
                    requires
                        i == r * n + c,
                        j == rj * n + cj,
                        rj == r - 1,
                        cj == c,
                ;
            } else if rj == r + 1 {
                assert(j == i + n) by (nonlinear_arith)
                    requires
                        i == r * n + c,
                        j == rj * n + cj,
                        rj == r + 1,
                        cj == c,
                ;
            } else {
                assert(rj == r);
            }
            assert(exists|t: int| 0 <= t < nb.len() && nb[t] == j) by {
                let up: Seq<int> = if r > 0 { seq![i - n] } else { Seq::empty() };
                let down: Seq<int> = if r + 1 < n { seq![i + n] } else { Seq::empty() };
                let left: Seq<int> = if c > 0 { seq![i - 1] } else { Seq::empty() };
                let right: Seq<int> = if c + 1 < n { seq![i + 1] } else { Seq::empty() };
                assert(nb == up + down + left + right);
                if j == i - n {
                    assert(nb[0] == j);
                } else if j == i + n {
                    assert(nb[up.len() as int] == j);
                } else if j == i - 1 {
                    assert(nb[(up.len() + down.len()) as int] == j);
                } else {
                    assert(j == i + 1);
                    assert(nb[(up.len() + down.len() + left.len()) as int] == j);
                }
            }
        }
        assert forall|j: int| nb.contains(j) implies self.adjacent(i, j) by {
            assert(j == i - n && r > 0 || j == i + n && r + 1 < n || j == i - 1 && c > 0 || j == i
                + 1 && c + 1 < n);
        }
        assert(nb.no_duplicates());
    }
}

impl Position {
    /// A walk: one or more points of one state, each adjacent to the next.
    pub open spec fn is_walk(self, path: Seq<int>) -> bool {
        &&& path.len() > 0
        &&& 0 <= path[0] < self.area()
        &&& forall|t: int|
            0 <= t < path.len() - 1 ==> self.adjacent(#[trigger] path[t], path[t + 1])
                && self.cells[path[t + 1]] == self.cells[path[0]]
    }

    /// Whether a walk leads from `a` to `b`. For a stone `a` these `b` are
    /// its chain; for an empty point, its empty region.
    pub open spec fn connected(self, a: int, b: int) -> bool {
        exists|path: Seq<int>| #[trigger] self.is_walk(path) && path[0] == a && path.last() == b
    }

    /// Every point of the board is connected to itself.
    pub proof fn lemma_connected_self(self, a: int)
        requires
            0 <= a < self.area(),
        ensures
            self.connected(a, a),
    {
        let path = seq![a];
        assert(self.is_walk(path) && path[0] == a && path.last() == a);
    }

    /// What is connected to `a` is a point of the board in the state of `a`.
    pub proof fn lemma_connected_same(self, a: int, b: int)
        requires
            self.connected(a, b),
        ensures
            0 <= a < self.area(),
            0 <= b < self.area(),
            self.cells[b] == self.cells[a],
    {
        let path = choose|path: Seq<int>| #[trigger]
            self.is_walk(path) && path[0] == a && path.last() == b;
        if path.len() > 1 {
            let t = path.len() - 2;
            assert(self.adjacent(path[t], path[t + 1]));
        }
    }

    /// A walk goes on to an adjacent point in the same state.
    pub proof fn lemma_connected_step(self, a: int, m: int, j: int)
        requires
            self.connected(a, m),
            self.adjacent(m, j),
            self.cells[j] == self.cells[a],
        ensures
            self.connected(a, j),
    {
        let path = choose|path: Seq<int>| #[trigger]
            self.is_walk(path) && path[0] == a && path.last() == m;
        let longer = path.push(j);
        assert forall|t: int| 0 <= t < longer.len() - 1 implies self.adjacent(
            #[trigger] longer[t],
            longer[t + 1],
        ) && self.cells[longer[t + 1]] == self.cells[longer[0]] by {
            if t < path.len() - 1 {
                assert(self.adjacent(path[t], path[t + 1]));
            }
        }
        assert(self.is_walk(longer) && longer[0] == a && longer.last() == j);
    }

    /// A set of points that holds `a` and, with each of its points, the
    /// adjacent points in the state of `a`, holds all that is connected to
    /// `a`.
    pub proof fn lemma_closed_holds_connected(self, a: int, inside: spec_fn(int) -> bool, b: int)
        requires
            inside(a),
            forall|m: int, j: int|
                #[trigger] inside(m) && #[trigger] self.adjacent(m, j) && self.cells[j]
                    == self.cells[a] ==> inside(j),
            self.connected(a, b),
        ensures
            inside(b),
    {
        let path = choose|path: Seq<int>| #[trigger]
            self.is_walk(path) && path[0] == a && path.last() == b;
        self.lemma_walk_stays_inside(path, inside, path.len() - 1);
    }

    proof fn lemma_walk_stays_inside(self, path: Seq<int>, inside: spec_fn(int) -> bool, t: int)
        requires
            self.is_walk(path),
            0 <= t < path.len(),
            inside(path[0]),
            forall|m: int, j: int|
                #[trigger] inside(m) && #[trigger] self.adjacent(m, j) && self.cells[j]
                    == self.cells[path[0]] ==> inside(j),
        ensures
            inside(path[t]),
        decreases t,
    {
        if t > 0 {
            self.lemma_walk_stays_inside(path, inside, t - 1);
            assert(self.adjacent(path[t - 1], path[t - 1 + 1]));
        }
    }
}

impl Position {
    /// Being connected goes both ways.
    pub proof fn lemma_connected_back(self, a: int, b: int)
        requires
            self.connected(a, b),
        ensures
            self.connected(b, a),
    {
        let path = choose|path: Seq<int>| #[trigger]
            self.is_walk(path) && path[0] == a && path.last() == b;
        let back = Seq::new(path.len(), |t: int| path[path.len() - 1 - t]);
        self.lemma_connected_same(a, b);
        assert forall|t: int| 0 <= t < back.len() - 1 implies self.adjacent(
            #[trigger] back[t],
            back[t + 1],
        ) && self.cells[back[t + 1]] == self.cells[back[0]] by {
            let s = path.len() - 2 - t;
            assert(self.adjacent(path[s], path[s + 1]));
            assert(back[t] == path[s + 1]);
            assert(back[t + 1] == path[s]);
            if s > 0 {
                assert(self.adjacent(path[s - 1], path[s - 1 + 1]));
            }
        }
        assert(self.is_walk(back) && back[0] == b && back.last() == a);
    }

    /// What is connected to a point that is connected to `a` is connected
    /// to `a`.
    pub proof fn lemma_connected_on(self, a: int, b: int, c: int)
        requires
            self.connected(a, b),
            self.connected(b, c),
        ensures
            self.connected(a, c),
    {
        let first = choose|path: Seq<int>| #[trigger]
            self.is_walk(path) && path[0] == a && path.last() == b;
        let second = choose|path: Seq<int>| #[trigger]
            self.is_walk(path) && path[0] == b && path.last() == c;
        let whole = first + second.subrange(1, second.len() as int);
        self.lemma_connected_same(a, b);
        assert forall|t: int| 0 <= t < whole.len() - 1 implies self.adjacent(
            #[trigger] whole[t],
            whole[t + 1],
        ) && self.cells[whole[t + 1]] == self.cells[whole[0]] by {
            if t < first.len() - 1 {
                assert(self.adjacent(first[t], first[t + 1]));
            } else {
                let s = t - (first.len() - 1);
                assert(self.adjacent(second[s], second[s + 1]));
                assert(whole[t] == second[s]);
                assert(whole[t + 1] == second[s + 1]);
            }
        }
        assert(self.is_walk(whole) && whole[0] == a && whole.last() == c);
    }

    /// A walk on this board is a walk on another board of the same side
    /// that holds the same along it.
    pub proof fn lemma_walk_carries(self, other: Position, path: Seq<int>)
        requires
            self.size == other.size,
            self.cells.len() == other.cells.len(),
            self.is_walk(path),
            forall|t: int| 0 <= t < path.len() ==> other.cells[#[trigger] path[t]] == self.cells[path[t]],
        ensures
            other.is_walk(path),
    {
        assert forall|t: int| 0 <= t < path.len() - 1 implies other.adjacent(
            #[trigger] path[t],
            path[t + 1],
        ) && other.cells[path[t + 1]] == other.cells[path[0]] by {
            assert(self.adjacent(path[t], path[t + 1]));
        }
    }

    /// Every point of a walk is connected to its first point.
    pub proof fn lemma_walk_connects(self, path: Seq<int>, t: int)
        requires
            self.is_walk(path),
            0 <= t < path.len(),
        ensures
            self.connected(path[0], path[t]),
    {
        let part = path.subrange(0, t + 1);
        assert forall|s: int| 0 <= s < part.len() - 1 implies self.adjacent(
            #[trigger] part[s],
            part[s + 1],
        ) && self.cells[part[s + 1]] == self.cells[part[0]] by {
            assert(self.adjacent(path[s], path[s + 1]));
        }
        assert(self.is_walk(part) && part[0] == path[0] && part.last() == path[t]);
    }

    /// Two points that are connected here are connected on another board
    /// of the same side that holds the same wherever this board holds what
    /// the two points hold.
    pub proof fn lemma_connected_carries(self, other: Position, a: int, b: int)
        requires
            self.wf(),
            other.wf(),
            self.size == other.size,
            self.connected(a, b),
            forall|x: int|
                0 <= x < self.cells.len() && #[trigger] self.cells[x] == self.cells[a]
                    ==> other.cells[x] == self.cells[x],
        ensures
            other.connected(a, b),
    {
        let path = choose|path: Seq<int>| #[trigger]
            self.is_walk(path) && path[0] == a && path.last() == b;
        assert forall|t: int| 0 <= t < path.len() implies other.cells[#[trigger] path[t]]
            == self.cells[path[t]] by {
            self.lemma_walk_connects(path, t);
            self.lemma_connected_same(a, path[t]);
            assert(self.cells[path[t]] == self.cells[a]);
        }
        self.lemma_walk_carries(other, path);
        assert(other.is_walk(path) && path[0] == a && path.last() == b);
    }
}

} // verus!
