//! Putting a stone on the board and taking off what it captures.

use vstd::prelude::*;
use crate::board::PyGoban;
use crate::position::Position;
use crate::stones::Color;

verus! {

/// Whether the point at `x` is captured through one of the first `t`
/// neighbours of the stone at `i`.
spec fn captured_within(p: Position, i: int, x: int, t: int) -> bool {
    exists|s: int|
        0 <= s < t && p.is_taken(i, #[trigger] p.neighbors(i)[s]) && p.connected(
            p.neighbors(i)[s],
            x,
        )
}

proof fn lemma_captured_within_step(p: Position, i: int, x: int, t: int)
    requires
        0 <= t,
    ensures
        captured_within(p, i, x, t + 1) == (captured_within(p, i, x, t) || (p.is_taken(
            i,
            p.neighbors(i)[t],
        ) && p.connected(p.neighbors(i)[t], x))),
{
    if captured_within(p, i, x, t + 1) {
        let s = choose|s: int|
            0 <= s < t + 1 && p.is_taken(i, #[trigger] p.neighbors(i)[s]) && p.connected(
                p.neighbors(i)[s],
                x,
            );
        if s < t {
            assert(captured_within(p, i, x, t));
        }
    }
    if captured_within(p, i, x, t) {
        let s = choose|s: int|
            0 <= s < t && p.is_taken(i, #[trigger] p.neighbors(i)[s]) && p.connected(
                p.neighbors(i)[s],
                x,
            );
        assert(0 <= s < t + 1);
    }
    if p.is_taken(i, p.neighbors(i)[t]) && p.connected(p.neighbors(i)[t], x) {
        assert(0 <= t < t + 1 && p.is_taken(i, #[trigger] p.neighbors(i)[t]));
    }
}

proof fn lemma_captured_within_all(p: Position, i: int, x: int)
    requires
        p.wf(),
        0 <= i < p.area(),
    ensures
        captured_within(p, i, x, p.neighbors(i).len() as int) == p.is_captured(i, x),
{
    p.lemma_neighbors(i);
    let nb = p.neighbors(i);
    if captured_within(p, i, x, nb.len() as int) {
        let s = choose|s: int|
            0 <= s < nb.len() && p.is_taken(i, #[trigger] p.neighbors(i)[s]) && p.connected(
                p.neighbors(i)[s],
                x,
            );
        assert(nb.contains(nb[s]));
        assert(p.adjacent(i, nb[s]));
    }
    if p.is_captured(i, x) {
        let m = choose|m: int| #[trigger] p.adjacent(i, m) && p.is_taken(i, m) && p.connected(m, x);
        assert(nb.contains(m));
        let s = choose|s: int| 0 <= s < nb.len() && nb[s] == m;
        assert(p.is_taken(i, p.neighbors(i)[s]));
    }
}

impl PyGoban {
    /// The board after a stone of `color` is put on the point at `index`
    /// and the chains of the other colour next to it that are left without
    /// a liberty are taken off.
    pub(crate) fn settle(&self, index: usize, color: Color) -> (r: PyGoban)
        requires
            self.wf(),
            index < self@.area(),
        ensures
            r.wf(),
            r@ == self@.settle(index as int, color),
    {
        let mut placed: PyGoban = self.clone();
        placed.cells.set(index, color);
        let total: usize = placed.area();
        let mut out: Vec<Color> = placed.cells.clone();
        let nb: Vec<usize> = placed.neighbor_indices(index);
        let mut t: usize = 0;
        while t < nb.len()
            invariant
                placed.wf(),
                placed@ == self@.with_stone(index as int, color),
                placed.cells[index as int] == color,
                total == placed@.area(),
                total == placed.cells.len(),
                index < total,
                t <= nb.len(),
                nb.len() == placed@.neighbors(index as int).len(),
                forall|s: int|
                    0 <= s < nb.len() ==> #[trigger] nb[s] == placed@.neighbors(index as int)[s],
                forall|s: int| 0 <= s < nb.len() ==> (#[trigger] nb[s]) < total,
                out.len() == total,
                forall|x: int|
                    0 <= x < total ==> #[trigger] out[x] == (if captured_within(
                        placed@,
                        index as int,
                        x,
                        t as int,
                    ) {
                        Color::Empty
                    } else {
                        placed.cells[x]
                    }),
            decreases nb.len() - t,
        {
            let m: usize = nb[t];
            if placed.cells[m] != Color::Empty && placed.cells[m] != color {
                let marks: Vec<bool> = placed.flood(m);
                let liberties: usize = placed.count_liberties(&marks, Ghost(m as int));
                if liberties == 0 {
                    let mut x: usize = 0;
                    while x < total
                        invariant
                            x <= total,
                            out.len() == total,
                            marks.len() == total,
                            total == placed.cells.len(),
                            forall|y: int|
                                0 <= y < x ==> #[trigger] out[y] == (if captured_within(
                                    placed@,
                                    index as int,
                                    y,
                                    t as int,
                                ) || marks[y] {
                                    Color::Empty
                                } else {
                                    placed.cells[y]
                                }),
                            forall|y: int|
                                x <= y < total ==> #[trigger] out[y] == (if captured_within(
                                    placed@,
                                    index as int,
                                    y,
                                    t as int,
                                ) {
                                    Color::Empty
                                } else {
                                    placed.cells[y]
                                }),
                        decreases total - x,
                    {
                        if marks[x] {
                            out.set(x, Color::Empty);
                        }
                        x += 1;
                    }
                }
            }
            proof {
                assert forall|x: int| 0 <= x < total implies #[trigger] out[x] == (
                if captured_within(placed@, index as int, x, t + 1) {
                    Color::Empty
                } else {
                    placed.cells[x]
                }) by {
                    lemma_captured_within_step(placed@, index as int, x, t as int);
                }
            }
            t += 1;
        }
        proof {
            let goal = self@.settle(index as int, color);
            assert forall|x: int| 0 <= x < total implies out[x] == goal.cells[x] by {
                lemma_captured_within_all(placed@, index as int, x);
            }
            assert(out@ =~= goal.cells);
        }
        PyGoban { size: self.size, cells: out }
    }
}

} // verus!
