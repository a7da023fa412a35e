//! No chain is left on the board without a liberty.

use vstd::prelude::*;
use crate::count::{lemma_count_agree, lemma_count_zero};
use crate::game::{Game, Move};
use crate::laws::{after_moves, lemma_move_keeps_sound};
use crate::position::{lemma_point_index, Point, Position};
use crate::stones::Color;

verus! {

impl Position {
    /// A chain has a liberty exactly where its liberties count above zero.
    pub proof fn lemma_liberty_counted(self, a: int)
        requires
            self.wf(),
        ensures
            self.liberty_count(a) > 0 <==> exists|j: int| self.is_liberty(a, j),
    {
        lemma_count_zero(self.liberties(a), self.cells.len());
        if self.liberty_count(a) > 0 {
            let j = choose|j: int| 0 <= j < self.cells.len() && #[trigger] self.liberties(a)(j);
            assert(self.is_liberty(a, j));
        }
        if exists|j: int| self.is_liberty(a, j) {
            let j = choose|j: int| self.is_liberty(a, j);
            assert(self.liberties(a)(j));
        }
    }

    /// The stones of one chain have the same liberties.
    pub proof fn lemma_chain_shares_liberties(self, a: int, b: int)
        requires
            self.wf(),
            self.connected(a, b),
        ensures
            forall|j: int| self.is_liberty(a, j) == self.is_liberty(b, j),
            self.liberty_count(a) == self.liberty_count(b),
    {
        self.lemma_connected_back(a, b);
        assert forall|j: int| self.is_liberty(a, j) == self.is_liberty(b, j) by {
            if self.is_liberty(a, j) {
                let m = choose|m: int| self.connected(a, m) && #[trigger] self.adjacent(m, j);
                self.lemma_connected_on(b, a, m);
                assert(self.connected(b, m) && self.adjacent(m, j));
            }
            if self.is_liberty(b, j) {
                let m = choose|m: int| self.connected(b, m) && #[trigger] self.adjacent(m, j);
                self.lemma_connected_on(a, b, m);
                assert(self.connected(a, m) && self.adjacent(m, j));
            }
        }
        assert forall|j: int| 0 <= j < self.cells.len() implies #[trigger] self.liberties(a)(j)
            == self.liberties(b)(j) by {}
        lemma_count_agree(self.liberties(a), self.liberties(b), self.cells.len());
    }

    /// A capture takes whole chains: what is connected to a stone that
    /// stays is still connected to it once the captured stones are off.
    proof fn lemma_survivors_stay_connected(self, i: int, x: int, y: int)
        requires
            self.wf(),
            0 <= i < self.area(),
            self.connected(x, y),
            !self.is_captured(i, x),
        ensures
            self.without_captured(i).connected(x, y),
            !self.is_captured(i, y),
    {
        let after = self.without_captured(i);
        let path = choose|path: Seq<int>| #[trigger]
            self.is_walk(path) && path[0] == x && path.last() == y;
        assert forall|t: int| 0 <= t < path.len() implies !self.is_captured(
            i,
            #[trigger] path[t],
        ) by {
            if self.is_captured(i, path[t]) {
                let m = choose|m: int| #[trigger]
                    self.adjacent(i, m) && self.is_taken(i, m) && self.connected(m, path[t]);
                self.lemma_walk_connects(path, t);
                self.lemma_connected_back(x, path[t]);
                self.lemma_connected_on(m, path[t], x);
                assert(self.is_captured(i, x));
            }
        }
        assert forall|t: int| 0 <= t < path.len() implies after.cells[#[trigger] path[t]]
            == self.cells[path[t]] by {
            self.lemma_walk_connects(path, t);
            self.lemma_connected_same(x, path[t]);
            assert(!self.is_captured(i, path[t]));
        }
        self.lemma_walk_carries(after, path);
        assert(after.is_walk(path) && path[0] == x && path.last() == y);
        assert(!self.is_captured(i, path[path.len() - 1]));
    }

    /// What a stone captures is of another colour than the stone.
    pub proof fn lemma_captured_is_other(self, i: int, x: int)
        requires
            self.is_captured(i, x),
        ensures
            self.cells[x] != Color::Empty,
            self.cells[x] != self.cells[i],
    {
        let m = choose|m: int| #[trigger]
            self.adjacent(i, m) && self.is_taken(i, m) && self.connected(m, x);
        self.lemma_connected_same(m, x);
    }

    /// Where every chain has a liberty, an empty point gets a stone, and
    /// the chain of that stone has a liberty once its captures are off,
    /// every chain has a liberty again.
    pub proof fn lemma_settle_keeps_alive(self, i: int, color: Color)
        requires
            self.wf(),
            0 <= i < self.area(),
            self.cells[i] == Color::Empty,
            color != Color::Empty,
            self.all_alive(),
            self.settle(i, color).liberty_count(i) > 0,
        ensures
            self.settle(i, color).all_alive(),
    {
        let placed = self.with_stone(i, color);
        let after = self.settle(i, color);
        assert(placed.wf() && after.wf());
        assert(placed.cells[i] == color);
        assert(!placed.is_captured(i, i)) by {
            if placed.is_captured(i, i) {
                placed.lemma_captured_is_other(i, i);
            }
        }
        assert(after.cells[i] == color);
        assert forall|x: int|
            0 <= x < after.cells.len() && #[trigger] after.cells[x] != Color::Empty implies after.liberty_count(
            x,
        ) > 0 by {
            let kind = after.cells[x];
            assert(placed.cells[x] == kind && !placed.is_captured(i, x));
            if kind == color && after.connected(i, x) {
                after.lemma_chain_shares_liberties(i, x);
            } else {
                assert(x != i) by {
                    after.lemma_connected_self(i);
                }
                assert(self.cells[x] == kind);
                assert(self.liberty_count(x) > 0);
                self.lemma_liberty_counted(x);
                let j = choose|j: int| self.is_liberty(x, j);
                let m = choose|m: int| self.connected(x, m) && #[trigger] self.adjacent(m, j);
                self.lemma_connected_same(x, m);
                // The chain of `x` is the same before and after the stone.
                assert forall|y: int|
                    0 <= y < self.cells.len() && #[trigger] self.cells[y]
                        == self.cells[x] implies placed.cells[y] == self.cells[y] by {}
                self.lemma_connected_carries(placed, x, m);
                placed.lemma_survivors_stay_connected(i, x, m);
                assert(after.connected(x, m));
                assert(after.adjacent(m, j));
                if j != i {
                    assert(placed.cells[j] == Color::Empty);
                    assert(after.cells[j] == Color::Empty) by {
                        if placed.is_captured(i, j) {
                            placed.lemma_captured_is_other(i, j);
                        }
                    }
                    assert(after.is_liberty(x, j));
                    after.lemma_liberty_counted(x);
                } else if kind == color {
                    // The stone at `m` is next to the new stone and of its
                    // colour: `x` would be in the chain of the new stone.
                    after.lemma_connected_same(x, m);
                    after.lemma_connected_step(x, m, i);
                    after.lemma_connected_back(x, i);
                    assert(false);
                } else {
                    // The new stone took this liberty. The chain was not
                    // captured, so it has another one.
                    assert(placed.adjacent(i, m));
                    placed.lemma_connected_back(x, m);
                    if placed.liberty_count(m) == 0 {
                        assert(placed.is_taken(i, m));
                        assert(placed.is_captured(i, x));
                    }
                    placed.lemma_liberty_counted(m);
                    let j2 = choose|j2: int| placed.is_liberty(m, j2);
                    let m2 = choose|m2: int|
                        placed.connected(m, m2) && #[trigger] placed.adjacent(m2, j2);
                    placed.lemma_connected_on(x, m, m2);
                    placed.lemma_survivors_stay_connected(i, x, m2);
                    assert(after.adjacent(m2, j2));
                    assert(after.cells[j2] == Color::Empty) by {
                        if placed.is_captured(i, j2) {
                            placed.lemma_captured_is_other(i, j2);
                        }
                    }
                    assert(after.is_liberty(x, j2));
                    after.lemma_liberty_counted(x);
                }
            }
        }
    }
}

/// Where every chain on the board has a liberty, it has one again after
/// every stone that is accepted: the chains that the stone leaves without
/// a liberty are off the board before the move is over.
pub proof fn lemma_place_keeps_alive(g: Game, p: Point)
    requires
        g.wf(),
        g.board.all_alive(),
        g.place(p) is Ok,
    ensures
        g.place(p)->Ok_0.board.all_alive(),
{
    lemma_point_index(g.board.size as int, p.0 as int, p.1 as int);
    g.board.lemma_settle_keeps_alive(g.board.index(p), g.turn.spec_color());
}

/// Where every chain on the board has a liberty, it has one again after
/// every move that is accepted.
pub proof fn lemma_move_keeps_alive(g: Game, mv: Move)
    requires
        g.wf(),
        g.board.all_alive(),
        g.apply(mv) is Ok,
    ensures
        g.apply(mv)->Ok_0.board.all_alive(),
{
    match mv {
        Move::Play(p) => {
            lemma_place_keeps_alive(g, p);
        },
        Move::Pass => {},
        Move::Resign(_) => {},
    }
}

/// A game that starts with a liberty for every chain, as every game on an
/// empty board does, keeps one for every chain whatever moves are made.
pub proof fn lemma_moves_keep_alive(g: Game, moves: Seq<Move>)
    requires
        g.wf(),
        g.board.all_alive(),
        after_moves(g, moves) is Some,
    ensures
        after_moves(g, moves)->Some_0.wf(),
        after_moves(g, moves)->Some_0.board.all_alive(),
    decreases moves.len(),
{
    if moves.len() > 0 {
        lemma_moves_keep_alive(g, moves.drop_last());
        let h = after_moves(g, moves.drop_last())->Some_0;
        lemma_move_keeps_sound(h, moves.last());
        lemma_move_keeps_alive(h, moves.last());
    }
}

} // verus!
