//! The mathematical model of a game and its transitions.

use vstd::prelude::*;
use crate::count::{indices_where, lemma_count_monotone};
use crate::errors::GoError;
use crate::position::{Point, Position};
use crate::stones::{Color, Player};

verus! {

/// What a side does when it is its turn.
#[derive(Clone, Copy, Debug, PartialEq, Eq)]
pub enum Move {
    /// Put a stone on a point.
    Play(Point),
    /// Put no stone.
    Pass,
    /// Give the game up; the side named is the one that resigns.
    Resign(Player),
}

/// How a game ended.
#[derive(Clone, Copy, Debug, PartialEq, Eq, Structural)]
pub enum Outcome {
    /// After two passes: the scores of Black and of White, in half points.
    Score(i64, i64),
    /// After a resignation: the side that did not resign.
    WinnerByResign(Player),
}

/// Where a game stands.
#[derive(Clone, Copy, Debug, PartialEq, Eq, Structural)]
pub enum GameState {
    /// A move is awaited, and the last move was not a pass.
    InProgress,
    /// A move is awaited, and the last move was a pass.
    AwaitingSecondPass,
    /// The game has ended.
    Over(Outcome),
}

/// The komi of a new game, in half points: seven points and a half.
pub const DEFAULT_KOMI: i32 = 15;

/// The most stones that one move can take off the board.
pub open spec fn most_captured() -> nat {
    361
}

/// A state that a game has passed through: what an undo brings back.
pub struct Moment {
    pub cells: Seq<Color>,
    pub turn: Player,
    pub prisoners: (nat, nat),
    pub passes: nat,
}

/// A game: the board, the side to move, the komi in half points, the
/// stones that Black and White have captured, the states before each move
/// made so far, the number of passes in a row, and how it ended.
pub struct Game {
    pub board: Position,
    pub turn: Player,
    pub komi: int,
    pub prisoners: (nat, nat),
    pub past: Seq<Moment>,
    pub passes: nat,
    pub outcome: Option<Outcome>,
}

impl Game {
    /// The game is sound: the board is, the komi is a 32-bit number, two
    /// passes in a row and no fewer have ended it by score, an ended game
    /// has a move to undo, no move has taken more stones than a board
    /// holds, and every earlier state is a state of this board before the
    /// end.
    pub open spec fn wf(self) -> bool {
        &&& self.board.wf()
        &&& i32::MIN <= self.komi <= i32::MAX
        &&& self.passes <= 2
        &&& (self.passes == 2 <==> self.outcome is Some && self.outcome->Some_0 is Score)
        &&& (self.outcome is Some ==> self.past.len() > 0)
        &&& self.prisoners.0 + self.prisoners.1 <= most_captured() * self.past.len()
        &&& forall|k: int|
            0 <= k < self.past.len() ==> {
                &&& (#[trigger] self.past[k]).cells.len() == self.board.cells.len()
                &&& self.past[k].passes <= 1
                &&& self.past[k].prisoners.0 + self.past[k].prisoners.1 <= most_captured() * k
            }
    }

    /// A new game on an empty board of the given side: Black to move.
    pub open spec fn start(size: nat) -> Game {
        Game {
            board: Position { size, cells: Seq::new(size * size, |i: int| Color::Empty) },
            turn: Player::Black,
            komi: DEFAULT_KOMI as int,
            prisoners: (0, 0),
            past: Seq::empty(),
            passes: 0,
            outcome: None,
        }
    }

    /// Whether the game has ended.
    pub open spec fn is_over(self) -> bool {
        self.outcome is Some
    }

    /// Where the game stands.
    pub open spec fn state(self) -> GameState {
        match self.outcome {
            Some(o) => GameState::Over(o),
            None => if self.passes == 0 {
                GameState::InProgress
            } else {
                GameState::AwaitingSecondPass
            },
        }
    }

    /// The present state as an undo would bring it back.
    pub open spec fn moment(self) -> Moment {
        Moment {
            cells: self.board.cells,
            turn: self.turn,
            prisoners: self.prisoners,
            passes: self.passes,
        }
    }

    /// Whether the board stood like `cells` before an earlier move.
    pub open spec fn seen(self, cells: Seq<Color>) -> bool {
        exists|k: int| 0 <= k < self.past.len() && (#[trigger] self.past[k]).cells == cells
    }

    /// The scores of Black and of White in half points: twice the area,
    /// and for White the komi on top.
    pub open spec fn score(self) -> (int, int) {
        (
            2 * (self.board.area_of(Player::Black) as int),
            2 * (self.board.area_of(Player::White) as int) + self.komi,
        )
    }

    /// What comes of a stone of the side to move on `p`. The point must be
    /// on the board and empty. The stone is put down and the chains of the
    /// other colour next to it that have no liberty left are taken off;
    /// after that its own chain must have a liberty, and the board must not
    /// stand as it stood before an earlier move.
    pub open spec fn try_stone(self, p: Point) -> Result<Position, GoError> {
        let at = self.board.index(p);
        let after = self.board.settle(at, self.turn.spec_color());
        if !self.board.holds(p) {
            Err(GoError::OutOfBounds)
        } else if self.board.color(p) != Color::Empty {
            Err(GoError::PointOccupied)
        } else if after.liberty_count(at) == 0 {
            Err(GoError::SuicideMove)
        } else if self.seen(after.cells) {
            Err(GoError::KoViolation)
        } else {
            Ok(after)
        }
    }

    /// Whether the side to move may put a stone on `p`.
    pub open spec fn legal(self, p: Point) -> bool {
        self.try_stone(p) is Ok
    }

    /// The indices of the points on which the side to move may put a stone.
    pub open spec fn legal_indices(self) -> spec_fn(int) -> bool {
        |i: int| self.legal(self.board.point(i))
    }

    /// The points on which the side to move may put a stone, in the order
    /// of the rows and of the columns in each.
    pub open spec fn legal_points(self) -> Seq<Point> {
        self.board.points(indices_where(self.legal_indices(), self.board.cells.len()))
    }

    /// How many stones of the side not to move are gone on `after`.
    pub open spec fn captured(self, after: Position) -> nat {
        let other = self.turn.spec_opponent().spec_color();
        (self.board.count(other) - after.count(other)) as nat
    }

    /// The captures of both sides after the side to move took `taken`
    /// stones more.
    pub open spec fn prisoners_with(self, taken: nat) -> (nat, nat) {
        match self.turn {
            Player::Black => (self.prisoners.0 + taken, self.prisoners.1),
            Player::White => (self.prisoners.0, self.prisoners.1 + taken),
        }
    }

    /// The game after the side to move puts a stone on `p`.
    pub open spec fn place(self, p: Point) -> Result<Game, GoError> {
        if self.is_over() {
            Err(GoError::GameOver)
        } else {
            match self.try_stone(p) {
                Err(e) => Err(e),
                Ok(after) => Ok(
                    Game {
                        board: after,
                        turn: self.turn.spec_opponent(),
                        komi: self.komi,
                        prisoners: self.prisoners_with(self.captured(after)),
                        past: self.past.push(self.moment()),
                        passes: 0,
                        outcome: None,
                    },
                ),
            }
        }
    }

    /// The game after the side to move passes. The second pass in a row
    /// ends the game with the score of that moment, and the turn stays.
    pub open spec fn pass(self) -> Result<Game, GoError> {
        if self.is_over() {
            Err(GoError::GameOver)
        } else if self.passes + 1 >= 2 {
            Ok(
                Game {
                    past: self.past.push(self.moment()),
                    passes: 2,
                    outcome: Some(Outcome::Score(self.score().0 as i64, self.score().1 as i64)),
                    ..self
                },
            )
        } else {
            Ok(
                Game {
                    turn: self.turn.spec_opponent(),
                    past: self.past.push(self.moment()),
                    passes: self.passes + 1,
                    ..self
                },
            )
        }
    }

    /// The game after `player` resigns: the other side has won.
    pub open spec fn resign(self, player: Player) -> Result<Game, GoError> {
        if self.is_over() {
            Err(GoError::GameOver)
        } else {
            Ok(
                Game {
                    past: self.past.push(self.moment()),
                    outcome: Some(Outcome::WinnerByResign(player.spec_opponent())),
                    ..self
                },
            )
        }
    }

    /// The game after a move.
    pub open spec fn apply(self, mv: Move) -> Result<Game, GoError> {
        match mv {
            Move::Play(p) => self.place(p),
            Move::Pass => self.pass(),
            Move::Resign(player) => self.resign(player),
        }
    }

    /// The game with its last move undone.
    pub open spec fn pop(self) -> Result<Game, GoError> {
        if self.past.len() == 0 {
            Err(GoError::EmptyHistory)
        } else {
            let last = self.past.last();
            Ok(
                Game {
                    board: Position { size: self.board.size, cells: last.cells },
                    turn: last.turn,
                    komi: self.komi,
                    prisoners: last.prisoners,
                    past: self.past.drop_last(),
                    passes: last.passes,
                    outcome: None,
                },
            )
        }
    }

    /// The game taken up again after two passes ended it.
    pub open spec fn resume(self) -> Result<Game, GoError> {
        if self.outcome is Some && self.outcome->Some_0 is Score {
            Ok(Game { passes: 0, outcome: None, ..self })
        } else {
            Err(GoError::IllegalResume)
        }
    }

    /// The board with a black stone on each of `points`.
    pub open spec fn blackened(self, points: Seq<Point>) -> Position {
        Position {
            size: self.board.size,
            cells: Seq::new(
                self.board.cells.len(),
                |x: int|
                    if self.board.names(points, x) {
                        Color::Black
                    } else {
                        self.board.cells[x]
                    },
            ),
        }
    }

    /// The game with handicap stones: before the first move, a black stone
    /// on each of `points`, and White to move.
    pub open spec fn put_handicap(self, points: Seq<Point>) -> Result<Game, GoError> {
        if self.past.len() > 0 {
            Err(GoError::HandicapAfterStart)
        } else if exists|t: int| 0 <= t < points.len() && !self.board.holds(#[trigger] points[t]) {
            Err(GoError::OutOfBounds)
        } else {
            Ok(Game { board: self.blackened(points), turn: Player::White, ..self })
        }
    }

    /// Who has won an ended game: the side with the higher score, nobody
    /// where the scores are equal, or the side that did not resign.
    pub open spec fn winner(self) -> Result<Option<Player>, GoError> {
        match self.outcome {
            None => Err(GoError::GameNotFinished),
            Some(Outcome::WinnerByResign(player)) => Ok(Some(player)),
            Some(Outcome::Score(black, white)) => if black > white {
                Ok(Some(Player::Black))
            } else if white > black {
                Ok(Some(Player::White))
            } else {
                Ok(None)
            },
        }
    }
}

/// How a call that makes a move relates the game before and after it to
/// the model: the call succeeds where the model does, and the game is then
/// what the model says; where the model refuses, the call reports the same
/// error and the game is as before.
pub open spec fn transition(
    before: Game,
    step: Result<Game, GoError>,
    after: Game,
    r: Result<(), GoError>,
) -> bool {
    match step {
        Ok(next) => r is Ok && after == next,
        Err(e) => r == Err::<(), GoError>(e) && after == before,
    }
}

/// A stone put on the board takes off stones of other colours only, and
/// adds none of them.
pub proof fn lemma_settle_shrinks(p: Position, i: int, color: Color, other: Color)
    requires
        p.wf(),
        0 <= i < p.area(),
        other != color,
        other != Color::Empty,
    ensures
        p.settle(i, color).count(other) <= p.count(other),
        p.settle(i, color).wf(),
{
    lemma_count_monotone(p.settle(i, color).colored(other), p.colored(other), p.cells.len());
}

} // verus!
