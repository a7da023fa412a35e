//! The game: turn order, moves, captures, undo and the end of the game.

use vstd::prelude::*;
use crate::board::{same_cells, PyGoban};
use crate::count::indices_where;
use crate::errors::GoError;
use crate::game::{
    lemma_settle_shrinks,
    transition,
    Game,
    GameState,
    Moment,
    Move,
    Outcome,
    DEFAULT_KOMI,
};
use crate::position::{lemma_point_index, Point, MAX_SIZE};
use crate::stones::{black_plane_of, codes_of, white_plane_of, Color, Player};

verus! {

/// A state that the game has passed through, kept for undo and for the
/// ban on repeating a position.
#[derive(Debug, PartialEq, Eq)]
pub(crate) struct Snapshot {
    pub(crate) cells: Vec<Color>,
    pub(crate) turn: Player,
    pub(crate) prisoners: (u128, u128),
    pub(crate) passes: u8,
}

impl View for Snapshot {
    type V = Moment;

    open(crate) spec fn view(&self) -> Moment {
        Moment {
            cells: self.cells@,
            turn: self.turn,
            prisoners: (self.prisoners.0 as nat, self.prisoners.1 as nat),
            passes: self.passes as nat,
        }
    }
}

impl Clone for Snapshot {
    fn clone(&self) -> (r: Self)
        ensures
            r@ == self@,
    {
        Snapshot {
            cells: self.cells.clone(),
            turn: self.turn,
            prisoners: self.prisoners,
            passes: self.passes,
        }
    }
}

/// A game of Go under area scoring, with suicide forbidden and no position
/// allowed to come back.
#[derive(Debug, PartialEq, Eq)]
pub struct PyGame {
    pub(crate) board: PyGoban,
    pub(crate) turn: Player,
    pub(crate) komi: i32,
    pub(crate) prisoners: (u128, u128),
    pub(crate) history: Vec<Snapshot>,
    pub(crate) passes: u8,
    pub(crate) outcome: Option<Outcome>,
}

impl View for PyGame {
    type V = Game;

    open(crate) spec fn view(&self) -> Game {
        Game {
            board: self.board@,
            turn: self.turn,
            komi: self.komi as int,
            prisoners: (self.prisoners.0 as nat, self.prisoners.1 as nat),
            past: Seq::new(self.history.len() as nat, |k: int| self.history[k]@),
            passes: self.passes as nat,
            outcome: self.outcome,
        }
    }
}

impl Clone for PyGame {
    fn clone(&self) -> (r: Self)
        ensures
            r@ == self@,
    {
        let mut history: Vec<Snapshot> = Vec::with_capacity(self.history.len());
        let mut k: usize = 0;
        while k < self.history.len()
            invariant
                k <= self.history.len(),
                history.len() == k,
                forall|j: int| 0 <= j < k ==> (#[trigger] history[j])@ == self.history[j]@,
            decreases self.history.len() - k,
        {
            history.push(self.history[k].clone());
            k += 1;
        }
        let r = PyGame {
            board: self.board.clone(),
            turn: self.turn,
            komi: self.komi,
            prisoners: self.prisoners,
            history,
            passes: self.passes,
            outcome: self.outcome,
        };
        assert(r@.past =~= self@.past);
        r
    }
}

impl PyGame {
    /// The game is sound: see [`Game::wf`].
    pub open spec fn wf(&self) -> bool {
        self@.wf()
    }

    /// A new game on an empty board: Black to move, komi of seven points
    /// and a half. The side of the board is from 1 to 19.
    pub fn new(size: usize) -> (r: Result<PyGame, GoError>)
        ensures
            match r {
                Ok(g) => g.wf() && 1 <= size <= MAX_SIZE && g@ == Game::start(size as nat),
                Err(e) => e == GoError::InvalidBoardSize && !(1 <= size <= MAX_SIZE),
            },
    {
        match PyGoban::empty(size) {
            Err(e) => Err(e),
            Ok(board) => {
                let g = PyGame {
                    board,
                    turn: Player::Black,
                    komi: DEFAULT_KOMI,
                    prisoners: (0, 0),
                    history: Vec::new(),
                    passes: 0,
                    outcome: None,
                };
                proof {
                    let goal = Game::start(size as nat);
                    assert(g@.board.cells =~= goal.board.cells);
                    assert(g@.past =~= goal.past);
                }
                Ok(g)
            },
        }
    }

    /// The side of the board, as (height, width).
    pub fn size(&self) -> (r: (u8, u8))
        ensures
            r.0 == self@.board.size,
            r.1 == self@.board.size,
    {
        self.board.size()
    }

    /// A copy of the board.
    pub fn goban(&self) -> (r: PyGoban)
        ensures
            r@ == self@.board,
    {
        self.board.clone()
    }

    /// The board as bytes, one per point and row after row: 0 for an empty
    /// point, 1 for a black stone, 2 for a white one.
    pub fn raw_goban(&self) -> (r: Vec<u8>)
        ensures
            r@ == codes_of(self@.board.cells),
    {
        self.board.raw()
    }

    /// The board as two planes of flags, "is black" and "is white".
    pub fn raw_goban_split(&self) -> (r: (Vec<bool>, Vec<bool>))
        ensures
            r.0@ == black_plane_of(self@.board.cells),
            r.1@ == white_plane_of(self@.board.cells),
    {
        self.board.raw_split()
    }

    /// The side to move.
    pub fn turn(&self) -> (r: Player)
        ensures
            r == self@.turn,
    {
        self.turn
    }

    /// The stones captured so far, by Black and by White.
    pub fn prisoners(&self) -> (r: (u128, u128))
        ensures
            r.0 == self@.prisoners.0,
            r.1 == self@.prisoners.1,
    {
        self.prisoners
    }

    /// The komi in half points.
    pub fn komi(&self) -> (r: i32)
        ensures
            r == self@.komi,
    {
        self.komi
    }

    /// Sets the komi, in half points. Nothing else changes; the outcome of
    /// a game that has ended stays as it was recorded.
    pub fn set_komi(&mut self, komi: i32)
        ensures
            final(self)@ == (Game { komi: komi as int, ..old(self)@ }),
            old(self).wf() ==> final(self).wf(),
    {
        self.komi = komi;
    }

    /// Whether the game has ended.
    pub fn over(&self) -> (r: bool)
        ensures
            r == self@.is_over(),
    {
        self.outcome.is_some()
    }

    /// How the game ended, if it has.
    pub fn outcome(&self) -> (r: Option<Outcome>)
        ensures
            r == self@.outcome,
    {
        self.outcome
    }

    /// Where the game stands.
    pub fn state(&self) -> (r: GameState)
        ensures
            r == self@.state(),
    {
        match self.outcome {
            Some(o) => GameState::Over(o),
            None => if self.passes == 0 {
                GameState::InProgress
            } else {
                GameState::AwaitingSecondPass
            },
        }
    }

    /// How many moves can be undone.
    pub fn history_len(&self) -> (r: usize)
        ensures
            r == self@.past.len(),
    {
        self.history.len()
    }

    /// The scores of Black and of White in half points: for each side
    /// twice its stones and its territory, and for White the komi on top.
    pub fn calculate_score(&self) -> (r: (i64, i64))
        requires
            self.wf(),
        ensures
            r.0 == self@.score().0,
            r.1 == self@.score().1,
    {
        let areas: (usize, usize) = self.board.calculate_areas();
        (2 * areas.0 as i64, 2 * areas.1 as i64 + self.komi as i64)
    }

    /// The territory of each side, Black's first.
    pub fn calculate_territories(&self) -> (r: (usize, usize))
        requires
            self.wf(),
        ensures
            r.0 == self@.board.territory(Player::Black),
            r.1 == self@.board.territory(Player::White),
    {
        self.board.calculate_territories()
    }

    /// Who has won: the side with the higher score, nobody where the
    /// scores are equal, or the side that did not resign. A game that has
    /// not ended has no winner yet and the question is refused.
    pub fn get_winner(&self) -> (r: Result<Option<Player>, GoError>)
        ensures
            r == self@.winner(),
    {
        match self.outcome {
            None => Err(GoError::GameNotFinished),
            Some(Outcome::WinnerByResign(player)) => Ok(Some(player)),
            Some(Outcome::Score(black, white)) => if black > white {
                Ok(Some(Player::Black))
            } else if white > black {
                Ok(Some(Player::White))
            } else {
                Ok(None)
            },
        }
    }

    /// Whether `point` is an eye of `player` on the present board.
    pub fn is_point_an_eye(&self, point: Point, player: Player) -> (r: bool)
        requires
            self.wf(),
        ensures
            r == self@.board.is_eye(point.0 as int, point.1 as int, player),
    {
        self.board.is_eye(point, player)
    }

    /// Whether the board stood like `cells` before an earlier move.
    fn has_seen(&self, cells: &Vec<Color>) -> (r: bool)
        ensures
            r == self@.seen(cells@),
    {
        let mut k: usize = 0;
        while k < self.history.len()
            invariant
                k <= self.history.len(),
                forall|j: int| 0 <= j < k ==> (#[trigger] self@.past[j]).cells != cells@,
            decreases self.history.len() - k,
        {
            if same_cells(&self.history[k].cells, cells) {
                assert(self@.past[k as int].cells == cells@);
                return true;
            }
            k += 1;
        }
        false
    }

    /// The board that a stone of the side to move on `point` leaves, or
    /// why the stone cannot be put there.
    pub(crate) fn try_stone(&self, point: Point) -> (r: Result<PyGoban, GoError>)
        requires
            self.wf(),
        ensures
            match r {
                Ok(b) => b.wf() && self@.try_stone(point) == Ok::<crate::position::Position, GoError>(
                    b@,
                ),
                Err(e) => self@.try_stone(point) == Err::<crate::position::Position, GoError>(e),
            },
    {
        if !self.board.contains(point) {
            return Err(GoError::OutOfBounds);
        }
        let at: usize = self.board.index_at(point);
        if self.board.cells[at] != Color::Empty {
            return Err(GoError::PointOccupied);
        }
        let after: PyGoban = self.board.settle(at, self.turn.color());
        let marks: Vec<bool> = after.flood(at);
        let liberties: usize = after.count_liberties(&marks, Ghost(at as int));
        if liberties == 0 {
            return Err(GoError::SuicideMove);
        }
        if self.has_seen(&after.cells) {
            return Err(GoError::KoViolation);
        }
        Ok(after)
    }

    /// Whether the side to move may put a stone on `point`: the point is
    /// on the board and empty, the stone would keep a liberty once its
    /// captures are taken off, and the board would not stand as it stood
    /// before an earlier move.
    pub fn is_legal(&self, point: Point) -> (r: bool)
        requires
            self.wf(),
        ensures
            r == self@.legal(point),
    {
        self.try_stone(point).is_ok()
    }

    /// The points on which the side to move may put a stone, in the order
    /// of the rows and of the columns in each.
    pub fn legals(&self) -> (r: Vec<Point>)
        requires
            self.wf(),
        ensures
            r@ == self@.legal_points(),
    {
        let total: usize = self.board.area();
        let mut out: Vec<Point> = Vec::new();
        let mut i: usize = 0;
        while i < total
            invariant
                self.wf(),
                total == self@.board.area(),
                i <= total,
                out@ == self@.board.points(indices_where(self@.legal_indices(), i as nat)),
            decreases total - i,
        {
            let p: Point = self.board.point_at(i);
            if self.is_legal(p) {
                out.push(p);
            }
            i += 1;
            assert(out@ =~= self@.board.points(indices_where(self@.legal_indices(), i as nat)));
        }
        out
    }

    /// The empty points, in the order of the rows and of the columns in
    /// each.
    pub fn pseudo_legals(&self) -> (r: Vec<Point>)
        requires
            self.wf(),
        ensures
            r@ == self@.board.empty_points(),
    {
        let total: usize = self.board.area();
        let mut out: Vec<Point> = Vec::new();
        let mut i: usize = 0;
        while i < total
            invariant
                self.wf(),
                total == self@.board.area(),
                total == self.board.cells.len(),
                i <= total,
                out@ == self@.board.points(
                    indices_where(self@.board.colored(Color::Empty), i as nat),
                ),
            decreases total - i,
        {
            if self.board.cells[i] == Color::Empty {
                let p: Point = self.board.point_at(i);
                out.push(p);
            }
            i += 1;
            assert(out@ =~= self@.board.points(
                indices_where(self@.board.colored(Color::Empty), i as nat),
            ));
        }
        out
    }

    /// The present state as a snapshot.
    fn snapshot(&self) -> (r: Snapshot)
        ensures
            r@ == self@.moment(),
    {
        Snapshot {
            cells: self.board.cells.clone(),
            turn: self.turn,
            prisoners: self.prisoners,
            passes: self.passes,
        }
    }

    /// Puts a stone of the side to move on `point`. The stone takes off
    /// the chains of the other colour next to it that it leaves without a
    /// liberty, the side's captures grow by their stones, the turn passes
    /// to the other side, and the state before the move is kept for undo.
    /// Refused, with the game unchanged: after the end of the game, off
    /// the board, on a stone, where the stone would be left without a
    /// liberty, and where the board would stand as it stood before an
    /// earlier move.
    pub fn place(&mut self, point: Point) -> (r: Result<(), GoError>)
        requires
            old(self).wf(),
        ensures
            final(self).wf(),
            transition(old(self)@, old(self)@.place(point), final(self)@, r),
    {
        if self.outcome.is_some() {
            return Err(GoError::GameOver);
        }
        let after: PyGoban = match self.try_stone(point) {
            Ok(b) => b,
            Err(e) => {
                return Err(e);
            },
        };
        let other: Color = self.turn.opponent().color();
        proof {
            self@.board.lemma_area_bound();
            lemma_point_index(self@.board.size as int, point.0 as int, point.1 as int);
            lemma_settle_shrinks(
                self@.board,
                self@.board.index(point),
                self@.turn.spec_color(),
                other,
            );
        }
        let before_count: usize = self.board.stones_on_board(other);
        let after_count: usize = after.stones_on_board(other);
        let taken: u128 = (before_count - after_count) as u128;
        let ghost before = self@;
        let ghost goal = before.place(point)->Ok_0;
        let snapshot: Snapshot = self.snapshot();
        self.history.push(snapshot);
        self.board = after;
        match self.turn {
            Player::Black => {
                self.prisoners = (self.prisoners.0 + taken, self.prisoners.1);
            },
            Player::White => {
                self.prisoners = (self.prisoners.0, self.prisoners.1 + taken);
            },
        }
        self.turn = self.turn.opponent();
        self.passes = 0;
        proof {
            assert(self@.past =~= goal.past);
            assert(self@ == goal);
        }
        Ok(())
    }

    /// Passes. The first pass hands the turn over; the second pass in a
    /// row ends the game with the score of that moment. Either way the
    /// state before is kept for undo. Refused after the end of the game.
    pub fn pass(&mut self) -> (r: Result<(), GoError>)
        requires
            old(self).wf(),
        ensures
            final(self).wf(),
            transition(old(self)@, old(self)@.pass(), final(self)@, r),
    {
        if self.outcome.is_some() {
            return Err(GoError::GameOver);
        }
        let ghost before = self@;
        let ghost goal = before.pass()->Ok_0;
        let snapshot: Snapshot = self.snapshot();
        if self.passes >= 1 {
            let score: (i64, i64) = self.calculate_score();
            self.history.push(snapshot);
            self.passes = 2;
            self.outcome = Some(Outcome::Score(score.0, score.1));
        } else {
            self.history.push(snapshot);
            self.passes = 1;
            self.turn = self.turn.opponent();
        }
        proof {
            assert(self@.past =~= goal.past);
            assert(self@ == goal);
        }
        Ok(())
    }

    /// Ends the game by the resignation of `player`: the other side has
    /// won. The state before is kept for undo. Refused after the end of
    /// the game.
    pub fn resign(&mut self, player: Player) -> (r: Result<(), GoError>)
        requires
            old(self).wf(),
        ensures
            final(self).wf(),
            transition(old(self)@, old(self)@.resign(player), final(self)@, r),
    {
        if self.outcome.is_some() {
            return Err(GoError::GameOver);
        }
        let ghost before = self@;
        let ghost goal = before.resign(player)->Ok_0;
        let snapshot: Snapshot = self.snapshot();
        self.history.push(snapshot);
        self.outcome = Some(Outcome::WinnerByResign(player.opponent()));
        proof {
            assert(self@.past =~= goal.past);
            assert(self@ == goal);
        }
        Ok(())
    }

    /// Makes a move.
    pub fn apply(&mut self, mv: Move) -> (r: Result<(), GoError>)
        requires
            old(self).wf(),
        ensures
            final(self).wf(),
            transition(old(self)@, old(self)@.apply(mv), final(self)@, r),
    {
        match mv {
            Move::Play(p) => self.place(p),
            Move::Pass => self.pass(),
            Move::Resign(player) => self.resign(player),
        }
    }

    /// The move that a point, or none, stands for: a stone on the point,
    /// or a pass.
    pub open spec fn move_of(play: Option<Point>) -> Move {
        match play {
            Some(p) => Move::Play(p),
            None => Move::Pass,
        }
    }

    /// Puts a stone of the side to move on the point given, or passes
    /// where none is given.
    pub fn play(&mut self, play: Option<Point>) -> (r: Result<(), GoError>)
        requires
            old(self).wf(),
        ensures
            final(self).wf(),
            transition(old(self)@, old(self)@.apply(Self::move_of(play)), final(self)@, r),
    {
        match play {
            Some(p) => self.place(p),
            None => self.pass(),
        }
    }

    /// A copy of the game with the move made in it. The game itself stays
    /// as it is.
    pub fn play_and_clone(&self, play: Option<Point>) -> (r: Result<PyGame, GoError>)
        requires
            self.wf(),
        ensures
            match self@.apply(Self::move_of(play)) {
                Ok(next) => r is Ok && r->Ok_0@ == next && r->Ok_0.wf(),
                Err(e) => r is Err && r->Err_0 == e,
            },
    {
        let mut copy: PyGame = self.clone();
        match copy.play(play) {
            Ok(_) => Ok(copy),
            Err(e) => Err(e),
        }
    }

    /// Undoes the last move: the board, the side to move, the captures and
    /// the passes in a row are as before it, and the game is not over.
    /// Refused where no move has been made.
    pub fn pop(&mut self) -> (r: Result<(), GoError>)
        requires
            old(self).wf(),
        ensures
            final(self).wf(),
            transition(old(self)@, old(self)@.pop(), final(self)@, r),
    {
        let ghost before = self@;
        match self.history.pop() {
            None => Err(GoError::EmptyHistory),
            Some(last) => {
                let ghost goal = before.pop()->Ok_0;
                assert(last@ == before.past.last());
                self.board.cells = last.cells;
                self.turn = last.turn;
                self.prisoners = last.prisoners;
                self.passes = last.passes;
                self.outcome = None;
                proof {
                    assert(self@.past =~= goal.past);
                    assert(self@ == goal);
                }
                Ok(())
            },
        }
    }

    /// Takes the game up again after two passes ended it: it is in
    /// progress, with no pass counted and the turn where it was. Refused
    /// unless the game ended by two passes.
    pub fn resume(&mut self) -> (r: Result<(), GoError>)
        requires
            old(self).wf(),
        ensures
            final(self).wf(),
            transition(old(self)@, old(self)@.resume(), final(self)@, r),
    {
        match self.outcome {
            Some(Outcome::Score(_, _)) => {
                self.passes = 0;
                self.outcome = None;
                Ok(())
            },
            _ => Err(GoError::IllegalResume),
        }
    }

    /// Puts a black stone on each of the given points, whatever stands
    /// there and whatever the rules would say, and gives White the move.
    /// Refused, with the game unchanged, once a move has been made, and
    /// where a point is off the board.
    pub fn put_handicap(&mut self, coords: Vec<Point>) -> (r: Result<(), GoError>)
        requires
            old(self).wf(),
        ensures
            final(self).wf(),
            transition(old(self)@, old(self)@.put_handicap(coords@), final(self)@, r),
    {
        if self.history.len() > 0 {
            return Err(GoError::HandicapAfterStart);
        }
        let mut t: usize = 0;
        while t < coords.len()
            invariant
                t <= coords.len(),
                *self == *old(self),
                self.wf(),
                self.history.len() == 0,
                forall|s: int| 0 <= s < t ==> self@.board.holds(#[trigger] coords[s]),
            decreases coords.len() - t,
        {
            if !self.board.contains(coords[t]) {
                assert(0 <= t < coords@.len() && !self@.board.holds(coords@[t as int]));
                return Err(GoError::OutOfBounds);
            }
            t += 1;
        }
        let ghost before = self@;
        let mut t: usize = 0;
        assert(self@.board.cells =~= before.blackened(coords@.take(0)).cells);
        while t < coords.len()
            invariant
                t <= coords.len(),
                before.wf(),
                before == old(self)@,
                before.past.len() == 0,
                forall|s: int| 0 <= s < coords.len() ==> before.board.holds(#[trigger] coords[s]),
                self@ == (Game { board: before.blackened(coords@.take(t as int)), ..before }),
            decreases coords.len() - t,
        {
            let i: usize = self.board.index_at(coords[t]);
            self.board.cells.set(i, Color::Black);
            t += 1;
            proof {
                let b = before.board;
                assert forall|x: int| 0 <= x < b.cells.len() implies b.names(
                    coords@.take(t as int),
                    x,
                ) == (b.names(coords@.take(t - 1), x) || x == i) by {
                    b.lemma_names_one_more(coords@, t - 1, x);
                }
                assert(self@.board.cells =~= before.blackened(coords@.take(t as int)).cells);
                assert(self@.past =~= before.past);
            }
        }
        assert(coords@.take(t as int) =~= coords@);
        self.turn = Player::White;
        proof {
            assert(self@.past =~= before.past);
        }
        Ok(())
    }
}

} // verus!
