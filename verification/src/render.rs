//! The board as text.

use vstd::prelude::*;
use crate::board::PyGoban;
use crate::play::PyGame;
use crate::position::Position;
use crate::stones::Color;

verus! {

/// The character that stands for the point at row `r`, column `c`: a
/// filled circle for a black stone, a hollow one for a white stone, and
/// for an empty point the piece of the grid that belongs there. Of the
/// corners and edges that an empty point lies on, the first of this list
/// decides: top left, top right, bottom left, bottom right, top, bottom,
/// left, right.
pub open spec fn point_char(p: Position, r: int, c: int) -> char {
    let last = p.size - 1;
    match p.at(r, c) {
        Color::Black => '\u{25CF}',
        Color::White => '\u{25CB}',
        Color::Empty => if r == 0 && c == 0 {
            '\u{250F}'
        } else if r == 0 && c == last {
            '\u{2513}'
        } else if r == last && c == 0 {
            '\u{2517}'
        } else if r == last && c == last {
            '\u{251B}'
        } else if r == 0 {
            '\u{252F}'
        } else if r == last {
            '\u{2537}'
        } else if c == 0 {
            '\u{2520}'
        } else if c == last {
            '\u{2528}'
        } else {
            '\u{253C}'
        },
    }
}

/// The board as text: the rows from the first to the last, each as one
/// character per point and a line feed.
pub open spec fn rendered(p: Position) -> Seq<char> {
    let width = p.size + 1;
    Seq::new(
        p.size * width,
        |k: int|
            if k % (width as int) == p.size {
                '\n'
            } else {
                point_char(p, k / (width as int), k % (width as int))
            },
    )
}

/// Draws a board of side `size` with `goban`'s `Goban::pretty_string`, on a
/// `Goban` made of the same stones with `Goban::from`. Taken on trust from
/// that crate: the text is what [`rendered`] says, row by row with the
/// characters of [`point_char`]. The crate handles boards up to 19 by 19.
#[verifier::external_body]
fn draw(size: u8, cells: &Vec<Color>) -> (r: String)
    requires
        1 <= size <= 19,
        cells.len() == size * size,
    ensures
        r@ == rendered(Position { size: size as nat, cells: cells@ }),
{
    let stones: Vec<Option<goban::pieces::stones::Color>> = cells.iter().map(
        |c| match c {
            Color::Empty => None,
            Color::Black => Some(goban::pieces::stones::Color::Black),
            Color::White => Some(goban::pieces::stones::Color::White),
        },
    ).collect();
    goban::pieces::goban::Goban::from(&stones[..]).pretty_string()
}

impl PyGoban {
    /// The board as text, one line per row: a filled circle for a black
    /// stone, a hollow one for a white stone, a piece of the grid for an
    /// empty point.
    pub fn pretty_string(&self) -> (r: String)
        requires
            self.wf(),
        ensures
            r@ == rendered(self@),
    {
        draw(self.size, &self.cells)
    }
}

impl PyGame {
    /// The text that shows the board of the game: see
    /// [`PyGoban::pretty_string`].
    pub fn display_goban(&self) -> (r: String)
        requires
            self.wf(),
        ensures
            r@ == rendered(self@.board),
    {
        self.board.pretty_string()
    }
}

} // verus!
