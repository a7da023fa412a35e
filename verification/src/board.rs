//! The board: a grid of point states with raw access.

use vstd::prelude::*;
use crate::count::count_where;
use crate::errors::GoError;
use crate::position::{
    has_side,
    is_side,
    lemma_index_point,
    lemma_point_index,
    Point,
    Position,
    MAX_SIZE,
};
use crate::stones::{
    black_plane_of,
    codes_of,
    vec_color_to_raw_split,
    vec_color_to_u8,
    white_plane_of,
    Color,
};

verus! {

/// A square board of at most 19 by 19 points.
#[derive(Debug, PartialEq, Eq, Hash)]
pub struct PyGoban {
    pub(crate) size: u8,
    pub(crate) cells: Vec<Color>,
}

impl View for PyGoban {
    type V = Position;

    open(crate) spec fn view(&self) -> Position {
        Position { size: self.size as nat, cells: self.cells@ }
    }
}

impl Clone for PyGoban {
    fn clone(&self) -> (r: Self)
        ensures
            r@ == self@,
    {
        PyGoban { size: self.size, cells: self.cells.clone() }
    }
}

/// The side of the board that has `len` points, if there is one.
pub(crate) fn side_of(len: usize) -> (r: Option<u8>)
    ensures
        match r {
            Some(n) => is_side(n as nat, len as nat),
            None => !has_side(len as nat),
        },
{
    let mut n: u8 = 1;
    while n <= MAX_SIZE
        invariant
            1 <= n <= MAX_SIZE + 1,
            forall|k: nat| 1 <= k < n ==> !is_side(k, len as nat),
        decreases MAX_SIZE + 1 - n,
    {
        assert(n * n <= 361) by (nonlinear_arith)
            requires
                1 <= n <= 19,
        ;
        if n as usize * n as usize == len {
            return Some(n);
        }
        n += 1;
    }
    None
}

/// Whether two rows of point states are the same.
pub(crate) fn same_cells(a: &Vec<Color>, b: &Vec<Color>) -> (r: bool)
    ensures
        r == (a@ == b@),
{
    if a.len() != b.len() {
        return false;
    }
    let mut i: usize = 0;
    while i < a.len()
        invariant
            i <= a.len(),
            a.len() == b.len(),
            forall|k: int| 0 <= k < i ==> a[k] == b[k],
        decreases a.len() - i,
    {
        if a[i] != b[i] {
            return false;
        }
        i += 1;
    }
    assert(a@ =~= b@);
    true
}

impl PyGoban {
    /// The board is sound: see [`Position::wf`].
    pub open spec fn wf(&self) -> bool {
        self@.wf()
    }

    /// An empty board of the given side. A side of 0 or above 19 is refused.
    pub fn empty(size: usize) -> (r: Result<PyGoban, GoError>)
        ensures
            match r {
                Ok(b) => b.wf() && b@.size == size && forall|i: int|
                    0 <= i < b@.cells.len() ==> b@.cells[i] == Color::Empty,
                Err(e) => e == GoError::InvalidBoardSize && !(1 <= size <= MAX_SIZE),
            },
    {
        if size < 1 || size > MAX_SIZE as usize {
            return Err(GoError::InvalidBoardSize);
        }
        assert(size * size <= 361) by (nonlinear_arith)
            requires
                1 <= size <= 19,
        ;
        let cells: Vec<Color> = vec![Color::Empty; size * size];
        Ok(PyGoban { size: size as u8, cells })
    }

    /// The board that a row of bytes encodes, one byte per point and row
    /// after row: 0 for an empty point, 1 for a black stone, 2 for a white
    /// one. The number of bytes must be the square of a side from 1 to 19,
    /// and every byte one of the three.
    pub fn new(arr: Vec<u8>) -> (r: Result<PyGoban, GoError>)
        ensures
            match r {
                Ok(b) => b.wf() && codes_of(b@.cells) == arr@,
                Err(e) => if !has_side(arr.len() as nat) {
                    e == GoError::InvalidBoardSize
                } else {
                    e == GoError::InvalidColor && exists|i: int|
                        0 <= i < arr.len() && Color::spec_from_code(#[trigger] arr[i]).is_none()
                },
            },
    {
        let size: u8 = match side_of(arr.len()) {
            Some(n) => n,
            None => {
                return Err(GoError::InvalidBoardSize);
            },
        };
        assert(has_side(arr.len() as nat)) by {
            assert(is_side(size as nat, arr.len() as nat));
        }
        let mut cells: Vec<Color> = Vec::with_capacity(arr.len());
        let mut i: usize = 0;
        while i < arr.len()
            invariant
                i <= arr.len(),
                cells.len() == i,
                has_side(arr.len() as nat),
                forall|k: int|
                    0 <= k < i ==> Color::spec_from_code(arr[k]) == Some(#[trigger] cells[k]),
            decreases arr.len() - i,
        {
            match Color::from_code(arr[i]) {
                Some(c) => {
                    cells.push(c);
                },
                None => {
                    return Err(GoError::InvalidColor);
                },
            }
            i += 1;
        }
        assert(codes_of(cells@) =~= arr@);
        Ok(PyGoban { size, cells })
    }

    /// The board that two planes of flags encode, "is black" and "is
    /// white", one flag of each per point and row after row. The planes must
    /// be equally long, their length the square of a side from 1 to 19, and
    /// no point may be flagged in both.
    pub fn from_raw_split(black: Vec<bool>, white: Vec<bool>) -> (r: Result<PyGoban, GoError>)
        ensures
            match r {
                Ok(b) => b.wf() && black_plane_of(b@.cells) == black@ && white_plane_of(b@.cells)
                    == white@,
                Err(e) => if !(black.len() == white.len() && has_side(black.len() as nat)) {
                    e == GoError::InvalidBoardSize
                } else {
                    e == GoError::InvalidColor && exists|i: int|
                        0 <= i < black.len() && #[trigger] black[i] && white[i]
                },
            },
    {
        if black.len() != white.len() {
            return Err(GoError::InvalidBoardSize);
        }
        let size: u8 = match side_of(black.len()) {
            Some(n) => n,
            None => {
                return Err(GoError::InvalidBoardSize);
            },
        };
        assert(has_side(black.len() as nat)) by {
            assert(is_side(size as nat, black.len() as nat));
        }
        let mut cells: Vec<Color> = Vec::with_capacity(black.len());
        let mut i: usize = 0;
        while i < black.len()
            invariant
                i <= black.len(),
                black.len() == white.len(),
                cells.len() == i,
                has_side(black.len() as nat),
                forall|k: int|
                    0 <= k < i ==> Color::spec_from_bits(black[k], white[k]) == Some(
                        #[trigger] cells[k],
                    ),
            decreases black.len() - i,
        {
            match Color::from_bits(black[i], white[i]) {
                Some(c) => {
                    cells.push(c);
                },
                None => {
                    return Err(GoError::InvalidColor);
                },
            }
            i += 1;
        }
        assert(black_plane_of(cells@) =~= black@);
        assert(white_plane_of(cells@) =~= white@);
        Ok(PyGoban { size, cells })
    }

    /// The board that a row of point states makes, row after row. Their
    /// number must be the square of a side from 1 to 19.
    pub fn from_snapshot(cells: Vec<Color>) -> (r: Result<PyGoban, GoError>)
        ensures
            match r {
                Ok(b) => b.wf() && b@.cells == cells@,
                Err(e) => e == GoError::InvalidBoardSize && !has_side(cells.len() as nat),
            },
    {
        match side_of(cells.len()) {
            Some(size) => Ok(PyGoban { size, cells }),
            None => Err(GoError::InvalidBoardSize),
        }
    }

    /// The point states, row after row.
    pub fn raw_snapshot(&self) -> (r: Vec<Color>)
        ensures
            r@ == self@.cells,
    {
        self.cells.clone()
    }

    /// The board as bytes, one per point and row after row: 0 for an empty
    /// point, 1 for a black stone, 2 for a white one.
    pub fn raw(&self) -> (r: Vec<u8>)
        ensures
            r@ == codes_of(self@.cells),
    {
        vec_color_to_u8(self.cells.clone())
    }

    /// The board as two planes of flags, "is black" and "is white", one
    /// flag of each per point and row after row.
    pub fn raw_split(&self) -> (r: (Vec<bool>, Vec<bool>))
        ensures
            r.0@ == black_plane_of(self@.cells),
            r.1@ == white_plane_of(self@.cells),
    {
        vec_color_to_raw_split(self.cells.clone())
    }

    /// The side of the board, as (height, width).
    pub fn size(&self) -> (r: (u8, u8))
        ensures
            r.0 == self@.size,
            r.1 == self@.size,
    {
        (self.size, self.size)
    }

    /// The number of points.
    pub(crate) fn area(&self) -> (r: usize)
        requires
            self.wf(),
        ensures
            r == self@.area(),
            r == self.cells.len(),
            1 <= r <= 361,
    {
        proof {
            self@.lemma_area_bound();
        }
        self.cells.len()
    }

    /// The index of a point of the board.
    pub(crate) fn index_at(&self, point: Point) -> (r: usize)
        requires
            self.wf(),
            self@.holds(point),
        ensures
            r == self@.index(point),
            r < self@.area(),
            self@.point(r as int) == point,
    {
        proof {
            lemma_point_index(self.size as int, point.0 as int, point.1 as int);
            self@.lemma_area_bound();
        }
        point.0 as usize * self.size as usize + point.1 as usize
    }

    /// The point at an index.
    pub(crate) fn point_at(&self, index: usize) -> (r: Point)
        requires
            self.wf(),
            index < self@.area(),
        ensures
            r == self@.point(index as int),
            self@.holds(r),
            self@.index(r) == index,
    {
        proof {
            lemma_index_point(self.size as int, index as int);
        }
        let n: usize = self.size as usize;
        ((index / n) as u8, (index % n) as u8)
    }

    /// Whether a point lies on the board.
    pub fn contains(&self, point: Point) -> (r: bool)
        ensures
            r == self@.holds(point),
    {
        point.0 < self.size && point.1 < self.size
    }

    /// What the point holds. A point off the board is refused.
    pub fn stone_at(&self, point: Point) -> (r: Result<Color, GoError>)
        requires
            self.wf(),
        ensures
            match r {
                Ok(c) => self@.holds(point) && c == self@.color(point),
                Err(e) => e == GoError::OutOfBounds && !self@.holds(point),
            },
    {
        if !self.contains(point) {
            return Err(GoError::OutOfBounds);
        }
        let i: usize = self.index_at(point);
        Ok(self.cells[i])
    }

    /// Sets what the point holds, with no regard to the rules. A point off
    /// the board is refused, and the board then stays as it is.
    pub fn set_stone(&mut self, point: Point, color: Color) -> (r: Result<(), GoError>)
        requires
            old(self).wf(),
        ensures
            final(self).wf(),
            match r {
                Ok(_) => old(self)@.holds(point) && final(self)@ == old(self)@.with_stone(
                    old(self)@.index(point),
                    color,
                ),
                Err(e) => e == GoError::OutOfBounds && !old(self)@.holds(point) && final(self)@
                    == old(self)@,
            },
    {
        if !self.contains(point) {
            return Err(GoError::OutOfBounds);
        }
        let i: usize = self.index_at(point);
        self.cells.set(i, color);
        Ok(())
    }

    /// How many points are in the state `color`.
    pub fn stones_on_board(&self, color: Color) -> (r: usize)
        ensures
            r == self@.count(color),
            r <= self@.cells.len(),
    {
        let mut found: usize = 0;
        let mut i: usize = 0;
        while i < self.cells.len()
            invariant
                i <= self.cells.len(),
                found == count_where(self@.colored(color), i as nat),
                found <= i,
            decreases self.cells.len() - i,
        {
            if self.cells[i] == color {
                found += 1;
            }
            i += 1;
        }
        found
    }

    /// The indices of the points next to the point at `index`.
    pub(crate) fn neighbor_indices(&self, index: usize) -> (r: Vec<usize>)
        requires
            self.wf(),
            index < self@.area(),
        ensures
            r.len() == self@.neighbors(index as int).len(),
            r.len() <= 4,
            forall|t: int| 0 <= t < r.len() ==> #[trigger] r[t] == self@.neighbors(index as int)[t],
            forall|t: int| 0 <= t < r.len() ==> (#[trigger] r[t]) < self@.area(),
    {
        let n: usize = self.size as usize;
        let row: usize = index / n;
        let col: usize = index % n;
        let mut out: Vec<usize> = Vec::with_capacity(4);
        let ghost nb = self@.neighbors(index as int);
        proof {
            lemma_index_point(n as int, index as int);
            self@.lemma_neighbors(index as int);
            self@.lemma_area_bound();
            assert(row > 0 ==> index >= n) by (nonlinear_arith)
                requires
                    index == row * n + col,
                    0 <= col,
                    0 < n,
            ;
        }
        if row > 0 {
            out.push(index - n);
        }
        if row + 1 < n {
            out.push(index + n);
        }
        if col > 0 {
            out.push(index - 1);
        }
        if col + 1 < n {
            out.push(index + 1);
        }
        proof {
            assert(out@.len() == nb.len());
            assert forall|t: int| 0 <= t < out.len() implies #[trigger] out[t] == nb[t] by {}
            assert forall|t: int| 0 <= t < out.len() implies (#[trigger] out[t]) < self@.area() by {
                assert(out[t] == nb[t]);
                assert(nb.contains(nb[t]));
                assert(self@.adjacent(index as int, nb[t]));
            }
        }
        out
    }
}

} // verus!
