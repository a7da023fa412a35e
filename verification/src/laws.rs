//! What holds of every game.

use vstd::prelude::*;
use crate::count::{
    indices_where,
    lemma_count_bound,
    lemma_count_monotone,
    lemma_count_partition,
    lemma_count_switch_on,
    lemma_count_zero,
    lemma_indices_where,
};
use crate::errors::GoError;
use crate::game::{lemma_settle_shrinks, most_captured, Game, GameState, Move, Outcome};
use crate::position::{lemma_point_index, Point, Position};
use crate::rules::lemma_conservation;
use crate::stones::{Color, Player};

verus! {

/// The game after a row of moves, each made in the game that the ones
/// before it left; nothing where one of them is refused.
pub open spec fn after_moves(g: Game, moves: Seq<Move>) -> Option<Game>
    decreases moves.len(),
{
    if moves.len() == 0 {
        Some(g)
    } else {
        match after_moves(g, moves.drop_last()) {
            None => None,
            Some(h) => match h.apply(moves.last()) {
                Ok(next) => Some(next),
                Err(_) => None,
            },
        }
    }
}

/// A move that is accepted leaves a sound game on a board of the same
/// side.
pub proof fn lemma_move_keeps_sound(g: Game, mv: Move)
    requires
        g.wf(),
        g.apply(mv) is Ok,
    ensures
        g.apply(mv)->Ok_0.wf(),
        g.apply(mv)->Ok_0.board.size == g.board.size,
        g.apply(mv)->Ok_0.komi == g.komi,
{
    let next = g.apply(mv)->Ok_0;
    match mv {
        Move::Play(p) => {
            let other = g.turn.spec_opponent().spec_color();
            lemma_point_index(g.board.size as int, p.0 as int, p.1 as int);
            lemma_settle_shrinks(g.board, g.board.index(p), g.turn.spec_color(), other);
            lemma_count_bound(g.board.colored(other), g.board.cells.len());
            g.board.lemma_area_bound();
            assert(g.captured(next.board) <= most_captured());
        },
        Move::Pass => {},
        Move::Resign(_) => {},
    }
    assert forall|k: int| 0 <= k < next.past.len() implies {
        &&& (#[trigger] next.past[k]).cells.len() == next.board.cells.len()
        &&& next.past[k].passes <= 1
        &&& next.past[k].prisoners.0 + next.past[k].prisoners.1 <= most_captured() * k
    } by {
        if k < g.past.len() {
            assert(next.past[k] == g.past[k]);
        }
    }
}

/// Whatever moves are made, every point of the board is empty, black or
/// white: the stones of both colours and the empty points together are as
/// many as the board has points.
pub proof fn lemma_moves_conserve(g: Game, moves: Seq<Move>)
    requires
        g.wf(),
        after_moves(g, moves) is Some,
    ensures
        ({
            let h = after_moves(g, moves)->Some_0;
            &&& h.wf()
            &&& h.board.size == g.board.size
            &&& h.board.count(Color::Black) + h.board.count(Color::White) + h.board.count(
                Color::Empty,
            ) == g.board.size * g.board.size
        }),
    decreases moves.len(),
{
    if moves.len() > 0 {
        lemma_moves_conserve(g, moves.drop_last());
        let h = after_moves(g, moves.drop_last())->Some_0;
        lemma_move_keeps_sound(h, moves.last());
    }
    lemma_conservation(after_moves(g, moves)->Some_0.board);
}

/// A stone that is accepted stands on its point afterwards, on a point
/// that was empty; what it captured was of the other colour, and nothing
/// else has changed on the board.
pub proof fn lemma_place_puts_stone(g: Game, p: Point)
    requires
        g.wf(),
        g.place(p) is Ok,
    ensures
        g.board.holds(p),
        g.board.color(p) == Color::Empty,
        g.place(p)->Ok_0.board.color(p) == g.turn.spec_color(),
        forall|x: int|
            0 <= x < g.board.cells.len() && x != g.board.index(p) ==> #[trigger] g.place(
                p,
            )->Ok_0.board.cells[x] == g.board.cells[x] || (g.place(p)->Ok_0.board.cells[x]
                == Color::Empty && g.board.cells[x] == g.turn.spec_opponent().spec_color()),
{
    let at = g.board.index(p);
    let color = g.turn.spec_color();
    let placed = g.board.with_stone(at, color);
    lemma_point_index(g.board.size as int, p.0 as int, p.1 as int);
    assert(!placed.is_captured(at, at)) by {
        if placed.is_captured(at, at) {
            placed.lemma_captured_is_other(at, at);
        }
    }
    assert forall|x: int| 0 <= x < g.board.cells.len() && x != at implies #[trigger] g.place(
        p,
    )->Ok_0.board.cells[x] == g.board.cells[x] || (g.place(p)->Ok_0.board.cells[x] == Color::Empty
        && g.board.cells[x] == g.turn.spec_opponent().spec_color()) by {
        if placed.is_captured(at, x) {
            placed.lemma_captured_is_other(at, x);
        }
    }
}

/// No stone is lost: after a stone that is accepted, the stones on the
/// board and the stones captured are together one more than before.
pub proof fn lemma_place_conserves_stones(g: Game, p: Point)
    requires
        g.wf(),
        g.place(p) is Ok,
    ensures
        ({
            let next = g.place(p)->Ok_0;
            next.board.count(Color::Black) + next.board.count(Color::White) + next.prisoners.0
                + next.prisoners.1 == g.board.count(Color::Black) + g.board.count(Color::White)
                + g.prisoners.0 + g.prisoners.1 + 1
        }),
{
    let next = g.place(p)->Ok_0;
    let at = g.board.index(p);
    let color = g.turn.spec_color();
    let other = g.turn.spec_opponent().spec_color();
    lemma_point_index(g.board.size as int, p.0 as int, p.1 as int);
    lemma_place_puts_stone(g, p);
    lemma_settle_shrinks(g.board, at, color, other);
    assert forall|x: int| 0 <= x < g.board.cells.len() && x != at implies #[trigger] next.board.colored(
        color,
    )(x) == g.board.colored(color)(x) by {
        assert(next.board.cells[x] == g.board.cells[x] || (next.board.cells[x] == Color::Empty
            && g.board.cells[x] == other));
    }
    lemma_count_switch_on(
        g.board.colored(color),
        next.board.colored(color),
        at,
        g.board.cells.len(),
    );
}

/// A stone that has no stone of its colour next to it is a chain of its
/// own.
pub proof fn lemma_lone_stone(b: Position, a: int, x: int)
    requires
        b.wf(),
        0 <= a < b.area(),
        forall|j: int| #[trigger] b.adjacent(a, j) ==> b.cells[j] != b.cells[a],
        b.connected(a, x),
    ensures
        x == a,
{
    let alone = |y: int| y == a;
    assert forall|m: int, j: int|
        #[trigger] alone(m) && #[trigger] b.adjacent(m, j) && b.cells[j]
            == b.cells[a] implies alone(j) by {}
    b.lemma_closed_holds_connected(a, alone, x);
}

/// Suicide is refused: a stone on an empty point whose neighbours all hold
/// stones of the other side, none of which it captures, is left without a
/// liberty and is not accepted.
pub proof fn lemma_enclosed_stone_is_suicide(g: Game, p: Point)
    requires
        g.wf(),
        !g.is_over(),
        g.board.holds(p),
        g.board.color(p) == Color::Empty,
        forall|m: int| #[trigger]
            g.board.adjacent(g.board.index(p), m) ==> g.board.cells[m]
                == g.turn.spec_opponent().spec_color() && g.board.with_stone(
                g.board.index(p),
                g.turn.spec_color(),
            ).liberty_count(m) > 0,
    ensures
        g.place(p) == Err::<Game, GoError>(GoError::SuicideMove),
{
    let at = g.board.index(p);
    let color = g.turn.spec_color();
    let placed = g.board.with_stone(at, color);
    let after = g.board.settle(at, color);
    lemma_point_index(g.board.size as int, p.0 as int, p.1 as int);
    g.board.lemma_area_bound();
    assert forall|x: int| !placed.is_captured(at, x) by {
        if placed.is_captured(at, x) {
            let m = choose|m: int| #[trigger]
                placed.adjacent(at, m) && placed.is_taken(at, m) && placed.connected(m, x);
            assert(g.board.adjacent(at, m));
        }
    }
    assert(after.cells =~= placed.cells);
    assert forall|j: int| 0 <= j < after.cells.len() implies !#[trigger] after.liberties(at)(
        j,
    ) by {
        if after.is_liberty(at, j) {
            let m = choose|m: int| after.connected(at, m) && #[trigger] after.adjacent(m, j);
            assert forall|k: int| #[trigger] after.adjacent(at, k) implies after.cells[k]
                != after.cells[at] by {
                assert(g.board.adjacent(at, k));
            }
            lemma_lone_stone(after, at, m);
            assert(g.board.adjacent(at, j));
        }
    }
    lemma_count_zero(after.liberties(at), after.cells.len());
}

/// A stone in atari is captured: where a stone of the other side stands
/// alone next to an empty point that is its last liberty, a stone on that
/// point takes it off the board, unless the position would come back.
pub proof fn lemma_last_liberty_captures(g: Game, p: Point, x: int)
    requires
        g.wf(),
        !g.is_over(),
        g.board.holds(p),
        g.board.color(p) == Color::Empty,
        g.board.adjacent(g.board.index(p), x),
        g.board.cells[x] == g.turn.spec_opponent().spec_color(),
        forall|j: int| #[trigger]
            g.board.adjacent(x, j) && j != g.board.index(p) ==> g.board.cells[j]
                == g.turn.spec_color(),
    ensures
        g.place(p) is Ok || g.place(p) == Err::<Game, GoError>(GoError::KoViolation),
        g.place(p) is Ok ==> g.place(p)->Ok_0.board.cells[x] == Color::Empty && g.captured(
            g.place(p)->Ok_0.board,
        ) >= 1,
{
    let at = g.board.index(p);
    let color = g.turn.spec_color();
    let other = g.turn.spec_opponent().spec_color();
    let placed = g.board.with_stone(at, color);
    let after = g.board.settle(at, color);
    lemma_point_index(g.board.size as int, p.0 as int, p.1 as int);
    g.board.lemma_area_bound();
    // The stone at `x` is alone and has no liberty once `p` is taken.
    assert forall|j: int| #[trigger] placed.adjacent(x, j) implies placed.cells[j]
        != placed.cells[x] by {
        assert(g.board.adjacent(x, j));
    }
    assert forall|j: int| 0 <= j < placed.cells.len() implies !#[trigger] placed.liberties(x)(
        j,
    ) by {
        if placed.is_liberty(x, j) {
            let m = choose|m: int| placed.connected(x, m) && #[trigger] placed.adjacent(m, j);
            lemma_lone_stone(placed, x, m);
            assert(g.board.adjacent(x, j));
        }
    }
    lemma_count_zero(placed.liberties(x), placed.cells.len());
    placed.lemma_connected_self(x);
    assert(placed.adjacent(at, x) && placed.is_taken(at, x) && placed.connected(x, x));
    assert(placed.is_captured(at, x));
    assert(after.cells[x] == Color::Empty);
    // The new stone has the emptied point as a liberty.
    assert(!placed.is_captured(at, at)) by {
        if placed.is_captured(at, at) {
            placed.lemma_captured_is_other(at, at);
        }
    }
    after.lemma_connected_self(at);
    assert(after.connected(at, at) && after.adjacent(at, x));
    assert(after.is_liberty(at, x));
    after.lemma_liberty_counted(at);
    // One stone of the other side at least is gone.
    lemma_settle_shrinks(g.board, at, color, other);
    assert forall|i: int|
        0 <= i < g.board.cells.len() && i != x && #[trigger] after.colored(other)(
            i,
        ) implies g.board.colored(other)(i) by {
        if placed.is_captured(at, i) {
            placed.lemma_captured_is_other(at, i);
        }
    }
    let without = |i: int| g.board.colored(other)(i) && i != x;
    lemma_count_monotone(after.colored(other), without, g.board.cells.len());
    lemma_count_switch_on(without, g.board.colored(other), x, g.board.cells.len());
}

/// The captures of a side never shrink with a move, and only the captures
/// of the side that moves can grow.
pub proof fn lemma_prisoners_grow(g: Game, mv: Move)
    requires
        g.wf(),
        g.apply(mv) is Ok,
    ensures
        ({
            let next = g.apply(mv)->Ok_0;
            &&& next.prisoners.0 >= g.prisoners.0
            &&& next.prisoners.1 >= g.prisoners.1
            &&& g.turn == Player::Black ==> next.prisoners.1 == g.prisoners.1
            &&& g.turn == Player::White ==> next.prisoners.0 == g.prisoners.0
        }),
{
}

/// Undoing a move that was accepted gives the game back as it was before
/// the move: board, side to move, captures, passes in a row, komi and the
/// moves that can still be undone.
pub proof fn lemma_pop_undoes(g: Game, mv: Move)
    requires
        g.wf(),
        g.apply(mv) is Ok,
    ensures
        g.apply(mv)->Ok_0.pop() == Ok::<Game, GoError>(g),
{
    let next = g.apply(mv)->Ok_0;
    let back = next.pop()->Ok_0;
    assert(next.past.last() == g.moment());
    assert(next.past.drop_last() =~= g.past);
    assert(back.board == g.board);
    assert(back == g);
}

/// The score is a matter of the board and the komi alone: two games that
/// agree in both have the same score, whatever else has happened in them.
pub proof fn lemma_score_of_board_and_komi(a: Game, b: Game)
    requires
        a.board == b.board,
        a.komi == b.komi,
    ensures
        a.score() == b.score(),
{
}

/// The score of a sound game fits the numbers that an outcome holds.
pub proof fn lemma_score_fits(g: Game)
    requires
        g.wf(),
    ensures
        0 <= g.score().0 <= 1444,
        i32::MIN <= g.score().1 <= i32::MAX + 1444,
        g.score().0 as i64 == g.score().0,
        g.score().1 as i64 == g.score().1,
{
    g.board.lemma_area_bound();
    lemma_count_bound(g.board.colored(Color::Black), g.board.cells.len());
    lemma_count_bound(g.board.colored(Color::White), g.board.cells.len());
    lemma_count_bound(g.board.owned(Player::Black), g.board.cells.len());
    lemma_count_bound(g.board.owned(Player::White), g.board.cells.len());
}

/// Two passes in a row end a game in progress: the board is as it was,
/// and the outcome is the score of that board.
pub proof fn lemma_two_passes_end(g: Game)
    requires
        g.wf(),
        g.state() == GameState::InProgress,
    ensures
        g.pass() is Ok,
        g.pass()->Ok_0.state() == GameState::AwaitingSecondPass,
        g.pass()->Ok_0.pass() is Ok,
        ({
            let end = g.pass()->Ok_0.pass()->Ok_0;
            &&& end.is_over()
            &&& end.board == g.board
            &&& end.outcome == Some(Outcome::Score(end.score().0 as i64, end.score().1 as i64))
            &&& end.score().0 as i64 == end.score().0
            &&& end.score().1 as i64 == end.score().1
        }),
{
    let once = g.pass()->Ok_0;
    lemma_move_keeps_sound(g, Move::Pass);
    let end = once.pass()->Ok_0;
    lemma_move_keeps_sound(once, Move::Pass);
    lemma_score_fits(end);
}

/// The points on which the side to move may put a stone are those that
/// the list of its legal moves holds.
pub proof fn lemma_legal_is_listed(g: Game, p: Point)
    requires
        g.wf(),
    ensures
        g.legal(p) <==> g.legal_points().contains(p),
{
    let n = g.board.size as int;
    let listed = indices_where(g.legal_indices(), g.board.cells.len());
    lemma_indices_where(g.legal_indices(), g.board.cells.len());
    g.board.lemma_area_bound();
    if g.legal(p) {
        lemma_point_index(n, p.0 as int, p.1 as int);
        let i = g.board.index(p);
        assert(g.board.point(i) == p);
        assert(g.legal_indices()(i));
        assert(listed.contains(i));
        let t = choose|t: int| 0 <= t < listed.len() && listed[t] == i;
        assert(g.board.points(listed)[t] == p);
    }
    if g.board.points(listed).contains(p) {
        let t = choose|t: int| 0 <= t < listed.len() && g.board.points(listed)[t] == p;
        assert(g.legal_indices()(listed[t]));
    }
}

/// A stone is accepted on empty points only: the empty points hold every
/// point on which the side to move may put a stone.
pub proof fn lemma_legal_is_empty(g: Game, p: Point)
    requires
        g.wf(),
        g.legal(p),
    ensures
        g.board.holds(p),
        g.board.color(p) == Color::Empty,
        g.board.empty_points().contains(p),
{
    let n = g.board.size as int;
    let empty = indices_where(g.board.colored(Color::Empty), g.board.cells.len());
    lemma_point_index(n, p.0 as int, p.1 as int);
    lemma_indices_where(g.board.colored(Color::Empty), g.board.cells.len());
    let i = g.board.index(p);
    assert(g.board.colored(Color::Empty)(i));
    assert(empty.contains(i));
    let t = choose|t: int| 0 <= t < empty.len() && empty[t] == i;
    assert(g.board.points(empty)[t] == p);
}

/// No position comes back: the board after a stone that is accepted is
/// none of the boards before the moves made so far, nor the board before
/// the stone.
pub proof fn lemma_place_is_new(g: Game, p: Point)
    requires
        g.wf(),
        g.place(p) is Ok,
    ensures
        !g.seen(g.place(p)->Ok_0.board.cells),
        g.place(p)->Ok_0.board.cells != g.board.cells,
        !g.place(p)->Ok_0.seen(g.place(p)->Ok_0.board.cells),
{
    let next = g.place(p)->Ok_0;
    lemma_place_puts_stone(g, p);
    lemma_point_index(g.board.size as int, p.0 as int, p.1 as int);
    assert(next.board.cells[g.board.index(p)] != g.board.cells[g.board.index(p)]);
    if next.seen(next.board.cells) {
        let k = choose|k: int|
            0 <= k < next.past.len() && (#[trigger] next.past[k]).cells == next.board.cells;
        if k < g.past.len() {
            assert(g.past[k].cells == next.board.cells);
        }
    }
}

/// An empty region is territory as a whole or not at all: connected empty
/// points have the same owner.
pub proof fn lemma_region_has_one_owner(b: Position, i: int, j: int)
    requires
        b.wf(),
        b.connected(i, j),
    ensures
        b.owner(i) == b.owner(j),
{
    b.lemma_connected_same(i, j);
    b.lemma_connected_back(i, j);
    assert forall|color: Color| b.borders(i, color) == b.borders(j, color) by {
        if b.borders(i, color) {
            let (m, k) = choose|m: int, k: int|
                b.connected(i, m) && #[trigger] b.adjacent(m, k) && b.cells[k] == color;
            b.lemma_connected_on(j, i, m);
            assert(b.connected(j, m) && b.adjacent(m, k) && b.cells[k] == color);
        }
        if b.borders(j, color) {
            let (m, k) = choose|m: int, k: int|
                b.connected(j, m) && #[trigger] b.adjacent(m, k) && b.cells[k] == color;
            b.lemma_connected_on(i, j, m);
            assert(b.connected(i, m) && b.adjacent(m, k) && b.cells[k] == color);
        }
    }
}

/// A board without stones is nobody's territory: its empty region touches
/// no colour.
pub proof fn lemma_empty_board_is_neutral(b: Position)
    requires
        b.wf(),
        forall|i: int| 0 <= i < b.cells.len() ==> b.cells[i] == Color::Empty,
    ensures
        b.territory(Player::Black) == 0,
        b.territory(Player::White) == 0,
{
    b.lemma_area_bound();
    assert forall|i: int, color: Color|
        color != Color::Empty implies !#[trigger] b.borders(i, color) by {
        if b.borders(i, color) {
            let (m, k) = choose|m: int, k: int|
                b.connected(i, m) && #[trigger] b.adjacent(m, k) && b.cells[k] == color;
            assert(b.cells[k] == Color::Empty);
        }
    }
    assert forall|i: int| 0 <= i < b.cells.len() implies !#[trigger] b.owned(Player::Black)(i) by {
        assert(!b.borders(i, Color::Black));
    }
    assert forall|i: int| 0 <= i < b.cells.len() implies !#[trigger] b.owned(Player::White)(i) by {
        assert(!b.borders(i, Color::White));
    }
    lemma_count_zero(b.owned(Player::Black), b.cells.len());
    lemma_count_zero(b.owned(Player::White), b.cells.len());
}

/// Territory is made of empty points, and no point is territory of both
/// sides.
pub proof fn lemma_territory_is_empty(b: Position)
    requires
        b.wf(),
    ensures
        b.territory(Player::Black) + b.territory(Player::White) <= b.count(Color::Empty),
{
    let stone = |i: int| 0 <= i < b.cells.len() && b.cells[i] != Color::Empty;
    lemma_count_partition(
        b.owned(Player::Black),
        b.owned(Player::White),
        |i: int| b.owner(i) is None,
        b.cells.len(),
    );
    lemma_count_partition(
        b.colored(Color::Empty),
        stone,
        |i: int| false,
        b.cells.len(),
    );
    lemma_count_monotone(stone, |i: int| b.owner(i) is None, b.cells.len());
    lemma_count_zero(|i: int| false, b.cells.len());
}

/// A sound board is known by its points alone: two sound boards with the
/// same point states have the same side.
pub proof fn lemma_board_by_cells(p: Position, q: Position)
    requires
        p.wf(),
        q.wf(),
        p.cells == q.cells,
    ensures
        p == q,
{
    let m = p.size as int;
    let n = q.size as int;
    assert(m == n) by (nonlinear_arith)
        requires
            1 <= m,
            1 <= n,
            m * m == n * n,
    ;
}

} // verus!
