//! Eyes: empty points that one colour surrounds.

use vstd::prelude::*;
use crate::board::PyGoban;
use crate::position::Point;
use crate::stones::{Color, Player};

verus! {

impl PyGoban {
    /// Whether row `row`, column `col` is off the board or holds a stone of
    /// `color`.
    fn friendly_at(&self, row: i16, col: i16, color: Color) -> (r: bool)
        requires
            self.wf(),
        ensures
            r == self@.friendly(row as int, col as int, color),
    {
        let n: i16 = self.size as i16;
        if row < 0 || col < 0 || row >= n || col >= n {
            return true;
        }
        let i: usize = self.index_at((row as u8, col as u8));
        self.cells[i] == color
    }

    /// Whether `point` is an eye of `player`: an empty point of the board
    /// whose neighbours in row and column each are off the board or hold a
    /// stone of `player`, and at least three of whose four diagonal
    /// neighbours are off the board or hold one.
    pub fn is_eye(&self, point: Point, player: Player) -> (r: bool)
        requires
            self.wf(),
        ensures
            r == self@.is_eye(point.0 as int, point.1 as int, player),
    {
        if !self.contains(point) {
            return false;
        }
        let at: usize = self.index_at(point);
        if self.cells[at] != Color::Empty {
            return false;
        }
        let color: Color = player.color();
        let row: i16 = point.0 as i16;
        let col: i16 = point.1 as i16;
        if !(self.friendly_at(row - 1, col, color) && self.friendly_at(row + 1, col, color)
            && self.friendly_at(row, col - 1, color) && self.friendly_at(row, col + 1, color)) {
            return false;
        }
        let mut corners: u8 = 0;
        if self.friendly_at(row - 1, col - 1, color) {
            corners += 1;
        }
        if self.friendly_at(row - 1, col + 1, color) {
            corners += 1;
        }
        if self.friendly_at(row + 1, col - 1, color) {
            corners += 1;
        }
        if self.friendly_at(row + 1, col + 1, color) {
            corners += 1;
        }
        corners >= 3
    }
}

} // verus!
