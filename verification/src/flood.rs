//! Chains and empty regions: the points connected to a given point.

use vstd::prelude::*;
use crate::board::PyGoban;
use crate::position::Point;
use crate::count::{count_where, indices_where, lemma_count_switch_on, lemma_indices_agree};
use crate::errors::GoError;
use crate::stones::Color;

verus! {

/// The indices that a row of marks leaves unmarked.
pub open spec fn unmarked(marks: Seq<bool>) -> spec_fn(int) -> bool {
    |i: int| 0 <= i < marks.len() && !marks[i]
}

/// The indices that a row of marks marks.
pub open spec fn marked(marks: Seq<bool>) -> spec_fn(int) -> bool {
    |i: int| 0 <= i < marks.len() && marks[i]
}

/// Whether `x` is one of the indices in `work`.
pub open spec fn listed(work: Seq<usize>, x: int) -> bool {
    exists|t: int| 0 <= t < work.len() && #[trigger] work[t] == x
}

impl PyGoban {
    /// Marks the points connected to the point at `start`: its chain if a
    /// stone stands there, its empty region if not.
    pub(crate) fn flood(&self, start: usize) -> (marks: Vec<bool>)
        requires
            self.wf(),
            start < self@.area(),
        ensures
            marks.len() == self@.area(),
            forall|j: int| 0 <= j < marks.len() ==> marks[j] == self@.connected(start as int, j),
    {
        let total: usize = self.area();
        let color: Color = self.cells[start];
        let mut marks: Vec<bool> = vec![false; total];
        let mut work: Vec<usize> = Vec::new();
        marks.set(start, true);
        work.push(start);
        proof {
            self@.lemma_connected_self(start as int);
            assert(work[0] == start);
        }
        while work.len() > 0
            invariant
                self.wf(),
                total == self@.area(),
                total == self.cells.len(),
                start < total,
                color == self.cells[start as int],
                marks.len() == total,
                marks[start as int],
                forall|j: int| 0 <= j < total && marks[j] ==> self@.connected(start as int, j),
                forall|t: int|
                    0 <= t < work.len() ==> (#[trigger] work[t]) < total && marks[work[t] as int],
                forall|m: int, j: int|
                    0 <= m < total && marks[m] && #[trigger] self@.adjacent(m, j) && self.cells[j]
                        == color && !marks[j] ==> listed(work@, m),
            decreases 2 * count_where(unmarked(marks@), total as nat) + work.len(),
        {
            let ghost before: int = 2 * count_where(unmarked(marks@), total as nat) + work.len();
            let ghost work_before = work@;
            let m: usize = work.pop().unwrap();
            assert forall|m2: int| listed(work_before, m2) implies listed(work@, m2) || m2
                == m by {
                let t = choose|t: int| 0 <= t < work_before.len() && #[trigger] work_before[t] == m2;
                if t < work@.len() {
                    assert(work@[t] == m2);
                }
            }
            let nb: Vec<usize> = self.neighbor_indices(m);
            let mut t: usize = 0;
            while t < nb.len()
                invariant
                    self.wf(),
                    total == self@.area(),
                    total == self.cells.len(),
                    start < total,
                    color == self.cells[start as int],
                    marks.len() == total,
                    marks[start as int],
                    m < total,
                    marks[m as int],
                    t <= nb.len(),
                    nb.len() == self@.neighbors(m as int).len(),
                    forall|s: int|
                        0 <= s < nb.len() ==> #[trigger] nb[s] == self@.neighbors(m as int)[s],
                    forall|s: int| 0 <= s < nb.len() ==> (#[trigger] nb[s]) < total,
                    forall|j: int| 0 <= j < total && marks[j] ==> self@.connected(start as int, j),
                    forall|t: int|
                        0 <= t < work.len() ==> (#[trigger] work[t]) < total && marks[work[t] as int],
                    forall|s: int|
                        0 <= s < t && self.cells[(#[trigger] nb[s]) as int] == color
                            ==> marks[nb[s] as int],
                    forall|m2: int, j: int|
                        0 <= m2 < total && marks[m2] && #[trigger] self@.adjacent(m2, j)
                            && self.cells[j] == color && !marks[j] ==> listed(work@, m2) || m2
                            == m,
                    2 * count_where(unmarked(marks@), total as nat) + work.len() < before,
                decreases nb.len() - t,
            {
                let j: usize = nb[t];
                if self.cells[j] == color && !marks[j] {
                    let ghost old_marks = marks@;
                    let ghost old_work = work@;
                    marks.set(j, true);
                    work.push(j);
                    proof {
                        let at = self@.neighbors(m as int);
                        assert(at[t as int] == j);
                        assert(at.contains(j as int));
                        self@.lemma_neighbors(m as int);
                        self@.lemma_connected_step(start as int, m as int, j as int);
                        lemma_count_switch_on(
                            unmarked(marks@),
                            unmarked(old_marks),
                            j as int,
                            total as nat,
                        );
                        assert(work@[old_work.len() as int] == j);
                        assert forall|m2: int| listed(old_work, m2) implies listed(work@, m2) by {
                            let k = choose|k: int|
                                0 <= k < old_work.len() && #[trigger] old_work[k] == m2;
                            assert(work@[k] == m2);
                        }
                    }
                }
                t += 1;
            }
            proof {
                self@.lemma_neighbors(m as int);
                assert forall|m2: int, j: int|
                    0 <= m2 < total && marks[m2] && #[trigger] self@.adjacent(m2, j)
                        && self.cells[j] == color && !marks[j] implies listed(work@, m2) by {
                    if m2 == m {
                        let at = self@.neighbors(m as int);
                        assert(at.contains(j));
                        let s = choose|s: int| 0 <= s < at.len() && at[s] == j;
                        assert(nb[s] == j);
                    }
                }
            }
        }
        proof {
            let inside = marked(marks@);
            assert forall|j: int| 0 <= j < marks.len() implies marks[j] == self@.connected(
                start as int,
                j,
            ) by {
                if self@.connected(start as int, j) {
                    assert forall|m: int, k: int|
                        #[trigger] inside(m) && #[trigger] self@.adjacent(m, k) && self@.cells[k]
                            == self@.cells[start as int] implies inside(k) by {
                        if !marks[k] {
                            assert(listed(work@, m));
                        }
                    }
                    self@.lemma_closed_holds_connected(start as int, inside, j);
                }
            }
        }
        marks
    }

    /// Whether a marked point is adjacent to the point at `j`.
    pub(crate) fn touches(&self, marks: &Vec<bool>, j: usize) -> (r: bool)
        requires
            self.wf(),
            j < self@.area(),
            marks.len() == self@.area(),
        ensures
            r == exists|m: int|
                0 <= m < marks.len() && marks[m] && #[trigger] self@.adjacent(m, j as int),
    {
        let nb: Vec<usize> = self.neighbor_indices(j);
        let mut found: bool = false;
        let mut t: usize = 0;
        proof {
            self@.lemma_neighbors(j as int);
        }
        while t < nb.len()
            invariant
                t <= nb.len(),
                marks.len() == self@.area(),
                nb.len() == self@.neighbors(j as int).len(),
                forall|s: int| 0 <= s < nb.len() ==> #[trigger] nb[s] == self@.neighbors(j as int)[s],
                forall|s: int| 0 <= s < nb.len() ==> (#[trigger] nb[s]) < self@.area(),
                found == exists|s: int| 0 <= s < t && marks[(#[trigger] nb[s]) as int],
            decreases nb.len() - t,
        {
            if marks[nb[t]] {
                found = true;
            }
            t += 1;
        }
        proof {
            let at = self@.neighbors(j as int);
            if found {
                let s = choose|s: int| 0 <= s < nb.len() && marks[(#[trigger] nb[s]) as int];
                assert(at.contains(at[s]));
                assert(self@.adjacent(j as int, at[s]));
                assert(at[s] == nb[s]);
                assert(self@.adjacent(nb[s] as int, j as int));
            }
            if exists|m: int|
                0 <= m < marks.len() && marks[m] && #[trigger] self@.adjacent(m, j as int) {
                let m = choose|m: int|
                    0 <= m < marks.len() && marks[m] && #[trigger] self@.adjacent(m, j as int);
                assert(self@.adjacent(j as int, m));
                assert(at.contains(m));
                let s = choose|s: int| 0 <= s < at.len() && at[s] == m;
                assert(marks[nb[s] as int]);
            }
        }
        found
    }

    /// Counts the liberties of the marked points, which are those
    /// connected to the point at `a`.
    pub(crate) fn count_liberties(&self, marks: &Vec<bool>, Ghost(a): Ghost<int>) -> (r: usize)
        requires
            self.wf(),
            marks.len() == self@.area(),
            forall|j: int| 0 <= j < marks.len() ==> marks[j] == self@.connected(a, j),
        ensures
            r == self@.liberty_count(a),
            r <= self@.area(),
    {
        let total: usize = self.area();
        let mut found: usize = 0;
        let mut j: usize = 0;
        while j < total
            invariant
                self.wf(),
                total == self@.area(),
                total == self.cells.len(),
                marks.len() == total,
                forall|k: int| 0 <= k < marks.len() ==> marks[k] == self@.connected(a, k),
                j <= total,
                found == count_where(self@.liberties(a), j as nat),
                found <= j,
            decreases total - j,
        {
            let free: bool = self.cells[j] == Color::Empty && self.touches(marks, j);
            proof {
                if self@.is_liberty(a, j as int) {
                    let m = choose|m: int|
                        self@.connected(a, m) && #[trigger] self@.adjacent(m, j as int);
                    self@.lemma_connected_same(a, m);
                    assert(marks[m]);
                }
                assert(free == self@.is_liberty(a, j as int));
                assert(self@.liberties(a)(j as int) == free);
            }
            if free {
                found += 1;
            }
            j += 1;
        }
        found
    }

    /// Lists the marked points in the order of their indices.
    pub(crate) fn marked_points(&self, marks: &Vec<bool>) -> (r: Vec<Point>)
        requires
            self.wf(),
            marks.len() == self@.area(),
        ensures
            r@ == self@.points(indices_where(marked(marks@), marks.len() as nat)),
    {
        let total: usize = self.area();
        let mut out: Vec<Point> = Vec::new();
        let mut j: usize = 0;
        while j < total
            invariant
                self.wf(),
                total == self@.area(),
                marks.len() == total,
                j <= total,
                out@ == self@.points(indices_where(marked(marks@), j as nat)),
            decreases total - j,
        {
            if marks[j] {
                let p: Point = self.point_at(j);
                out.push(p);
            }
            j += 1;
            assert(out@ =~= self@.points(indices_where(marked(marks@), j as nat)));
        }
        out
    }

    /// The chain of the stone on `point`, in the order of the rows and of
    /// the columns in each, and the number of its liberties, each counted
    /// once. An empty point has no chain and no liberties. A point off the
    /// board is refused.
    pub fn chain_and_liberties(&self, point: Point) -> (r: Result<(Vec<Point>, usize), GoError>)
        requires
            self.wf(),
        ensures
            match r {
                Ok((chain, liberties)) => self@.holds(point) && chain@ == self@.points(
                    self@.chain(self@.index(point)),
                ) && liberties == self@.chain_liberties(self@.index(point)),
                Err(e) => e == GoError::OutOfBounds && !self@.holds(point),
            },
    {
        if !self.contains(point) {
            return Err(GoError::OutOfBounds);
        }
        let start: usize = self.index_at(point);
        if self.cells[start] == Color::Empty {
            return Ok((Vec::new(), 0));
        }
        let marks: Vec<bool> = self.flood(start);
        let liberties: usize = self.count_liberties(&marks, Ghost(start as int));
        let chain: Vec<Point> = self.marked_points(&marks);
        proof {
            assert forall|j: int| 0 <= j < marks.len() implies #[trigger] marked(marks@)(j)
                == self@.joined(start as int)(j) by {}
            lemma_indices_agree(marked(marks@), self@.joined(start as int), marks.len() as nat);
        }
        Ok((chain, liberties))
    }

    /// Empties each of the given points, with no regard to the rules. If
    /// one of them is off the board the call is refused, and the board
    /// stays as it is.
    pub fn remove_chain(&mut self, points: &Vec<Point>) -> (r: Result<(), GoError>)
        requires
            old(self).wf(),
        ensures
            final(self).wf(),
            match r {
                Ok(_) => final(self)@ == old(self)@.cleared(points@) && forall|t: int|
                    0 <= t < points.len() ==> old(self)@.holds(#[trigger] points[t]),
                Err(e) => e == GoError::OutOfBounds && final(self)@ == old(self)@ && exists|t: int|
                    0 <= t < points.len() && !old(self)@.holds(#[trigger] points[t]),
            },
    {
        let mut t: usize = 0;
        while t < points.len()
            invariant
                t <= points.len(),
                forall|s: int| 0 <= s < t ==> self@.holds(#[trigger] points[s]),
                *self == *old(self),
                self.wf(),
            decreases points.len() - t,
        {
            if !self.contains(points[t]) {
                return Err(GoError::OutOfBounds);
            }
            t += 1;
        }
        let ghost before = self@;
        let mut t: usize = 0;
        assert(self@.cells =~= before.cleared(points@.take(0)).cells);
        while t < points.len()
            invariant
                t <= points.len(),
                before.wf(),
                before == old(self)@,
                self@.size == before.size,
                forall|s: int| 0 <= s < points.len() ==> before.holds(#[trigger] points[s]),
                self@ == before.cleared(points@.take(t as int)),
            decreases points.len() - t,
        {
            let i: usize = self.index_at(points[t]);
            self.cells.set(i, Color::Empty);
            t += 1;
            proof {
                assert forall|x: int| 0 <= x < before.cells.len() implies before.names(
                    points@.take(t as int),
                    x,
                ) == (before.names(points@.take(t - 1), x) || x == i) by {
                    before.lemma_names_one_more(points@, t - 1, x);
                }
                assert(self@.cells =~= before.cleared(points@.take(t as int)).cells);
            }
        }
        assert(points@.take(t as int) =~= points@);
        Ok(())
    }
}

} // verus!
