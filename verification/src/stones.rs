use vstd::prelude::*;

verus! {

/// What a point of the board holds.
#[derive(Clone, Copy, Debug, PartialEq, Eq, Hash, Structural)]
pub enum Color {
    Empty,
    Black,
    White,
}

/// A side of the game.
#[derive(Clone, Copy, Debug, PartialEq, Eq, Hash, Structural)]
pub enum Player {
    Black,
    White,
}

impl Player {
    pub open spec fn spec_opponent(self) -> Player {
        match self {
            Player::Black => Player::White,
            Player::White => Player::Black,
        }
    }

    /// The other side.
    #[verifier::when_used_as_spec(spec_opponent)]
    pub fn opponent(self) -> (r: Player)
        ensures
            r == self.spec_opponent(),
    {
        match self {
            Player::Black => Player::White,
            Player::White => Player::Black,
        }
    }

    pub open spec fn spec_color(self) -> Color {
        match self {
            Player::Black => Color::Black,
            Player::White => Color::White,
        }
    }

    /// The colour of this side's stones.
    #[verifier::when_used_as_spec(spec_color)]
    pub fn color(self) -> (r: Color)
        ensures
            r == self.spec_color(),
    {
        match self {
            Player::Black => Color::Black,
            Player::White => Color::White,
        }
    }

    pub open spec fn spec_is_white(self) -> bool {
        self == Player::White
    }

    /// The side as a flag: `true` for White, `false` for Black.
    #[verifier::when_used_as_spec(spec_is_white)]
    pub fn is_white(self) -> (r: bool)
        ensures
            r == self.spec_is_white(),
    {
        match self {
            Player::Black => false,
            Player::White => true,
        }
    }

    pub open spec fn spec_from_white(white: bool) -> Player {
        if white {
            Player::White
        } else {
            Player::Black
        }
    }

    /// The side for a flag: White for `true`, Black for `false`.
    #[verifier::when_used_as_spec(spec_from_white)]
    pub fn from_white(white: bool) -> (r: Player)
        ensures
            r == Player::spec_from_white(white),
    {
        if white {
            Player::White
        } else {
            Player::Black
        }
    }
}

impl Color {
    pub open spec fn spec_code(self) -> u8 {
        match self {
            Color::Empty => 0u8,
            Color::Black => 1u8,
            Color::White => 2u8,
        }
    }

    /// The byte that stands for this point state: 0 for an empty point,
    /// 1 for a black stone, 2 for a white stone.
    #[verifier::when_used_as_spec(spec_code)]
    pub fn code(self) -> (r: u8)
        ensures
            r == self.spec_code(),
    {
        match self {
            Color::Empty => 0u8,
            Color::Black => 1u8,
            Color::White => 2u8,
        }
    }

    pub open spec fn spec_from_code(code: u8) -> Option<Color> {
        if code == 0 {
            Some(Color::Empty)
        } else if code == 1 {
            Some(Color::Black)
        } else if code == 2 {
            Some(Color::White)
        } else {
            None
        }
    }

    /// The point state that a byte stands for, if it stands for one.
    #[verifier::when_used_as_spec(spec_from_code)]
    pub fn from_code(code: u8) -> (r: Option<Color>)
        ensures
            r == Color::spec_from_code(code),
    {
        if code == 0 {
            Some(Color::Empty)
        } else if code == 1 {
            Some(Color::Black)
        } else if code == 2 {
            Some(Color::White)
        } else {
            None
        }
    }

    pub open spec fn spec_from_bits(black: bool, white: bool) -> Option<Color> {
        if black && white {
            None
        } else if black {
            Some(Color::Black)
        } else if white {
            Some(Color::White)
        } else {
            Some(Color::Empty)
        }
    }

    /// The point state for a pair of plane bits. Both bits set encode nothing.
    #[verifier::when_used_as_spec(spec_from_bits)]
    pub fn from_bits(black: bool, white: bool) -> (r: Option<Color>)
        ensures
            r == Color::spec_from_bits(black, white),
    {
        if black && white {
            None
        } else if black {
            Some(Color::Black)
        } else if white {
            Some(Color::White)
        } else {
            Some(Color::Empty)
        }
    }
}

/// The pair of plane bits ("is black", "is white") of a point state.
pub open spec fn spec_to_bit_tuple(color: Color) -> (bool, bool) {
    match color {
        Color::Black => (true, false),
        Color::White => (false, true),
        Color::Empty => (false, false),
    }
}

/// The stone colour for a flag: white for `true`, black for `false`.
pub fn to_color(white: bool) -> (r: Color)
    ensures
        r == Player::spec_from_white(white).spec_color(),
        r != Color::Empty,
{
    match white {
        true => Color::White,
        false => Color::Black,
    }
}

/// The pair of plane bits ("is black", "is white") of a point state.
/// At most one of the two is set, and neither for an empty point.
#[verifier::when_used_as_spec(spec_to_bit_tuple)]
pub fn to_bit_tuple(color: Color) -> (r: (bool, bool))
    ensures
        r == spec_to_bit_tuple(color),
        !(r.0 && r.1),
        Color::spec_from_bits(r.0, r.1) == Some(color),
{
    match color {
        Color::Black => (true, false),
        Color::White => (false, true),
        Color::Empty => (false, false),
    }
}

/// One byte per point, in the order of the points.
pub open spec fn codes_of(cells: Seq<Color>) -> Seq<u8> {
    Seq::new(cells.len(), |i: int| cells[i].spec_code())
}

/// The plane of black stones: one flag per point.
pub open spec fn black_plane_of(cells: Seq<Color>) -> Seq<bool> {
    Seq::new(cells.len(), |i: int| cells[i] == Color::Black)
}

/// The plane of white stones: one flag per point.
pub open spec fn white_plane_of(cells: Seq<Color>) -> Seq<bool> {
    Seq::new(cells.len(), |i: int| cells[i] == Color::White)
}

/// Encodes point states as bytes, one per point.
pub fn vec_color_to_u8(vec: Vec<Color>) -> (r: Vec<u8>)
    ensures
        r@ == codes_of(vec@),
{
    let mut out: Vec<u8> = Vec::with_capacity(vec.len());
    let mut i: usize = 0;
    while i < vec.len()
        invariant
            i <= vec.len(),
            out@ == codes_of(vec@.take(i as int)),
        decreases vec.len() - i,
    {
        out.push(vec[i].code());
        i += 1;
        assert(out@ =~= codes_of(vec@.take(i as int)));
    }
    assert(vec@.take(i as int) =~= vec@);
    out
}

/// Encodes point states as two planes of flags, black first.
pub fn vec_color_to_raw_split(vec: Vec<Color>) -> (r: (Vec<bool>, Vec<bool>))
    ensures
        r.0@ == black_plane_of(vec@),
        r.1@ == white_plane_of(vec@),
{
    let mut black: Vec<bool> = Vec::with_capacity(vec.len());
    let mut white: Vec<bool> = Vec::with_capacity(vec.len());
    let mut i: usize = 0;
    while i < vec.len()
        invariant
            i <= vec.len(),
            black@ == black_plane_of(vec@.take(i as int)),
            white@ == white_plane_of(vec@.take(i as int)),
        decreases vec.len() - i,
    {
        let bits = to_bit_tuple(vec[i]);
        black.push(bits.0);
        white.push(bits.1);
        i += 1;
        assert(black@ =~= black_plane_of(vec@.take(i as int)));
        assert(white@ =~= white_plane_of(vec@.take(i as int)));
    }
    assert(vec@.take(i as int) =~= vec@);
    (black, white)
}

/// The bytes of a row of point states give the states back: two rows with
/// the same bytes are the same row.
pub proof fn lemma_codes_keep_all(a: Seq<Color>, b: Seq<Color>)
    requires
        codes_of(a) == codes_of(b),
    ensures
        a == b,
{
    assert(a.len() == codes_of(a).len());
    assert(b.len() == codes_of(b).len());
    assert forall|i: int| 0 <= i < a.len() implies a[i] == b[i] by {
        assert(codes_of(a)[i] == a[i].spec_code());
        assert(codes_of(b)[i] == b[i].spec_code());
    }
    assert(a =~= b);
}

/// The two planes of a row of point states give the states back, and no
/// point is flagged in both.
pub proof fn lemma_planes_keep_all(a: Seq<Color>, b: Seq<Color>)
    requires
        black_plane_of(a) == black_plane_of(b),
        white_plane_of(a) == white_plane_of(b),
    ensures
        a == b,
        forall|i: int| 0 <= i < a.len() ==> !(#[trigger] black_plane_of(a)[i] && white_plane_of(a)[i]),
{
    assert(a.len() == black_plane_of(a).len());
    assert(b.len() == black_plane_of(b).len());
    assert forall|i: int| 0 <= i < a.len() implies a[i] == b[i] by {
        assert(black_plane_of(a)[i] == (a[i] == Color::Black));
        assert(black_plane_of(b)[i] == (b[i] == Color::Black));
        assert(white_plane_of(a)[i] == (a[i] == Color::White));
        assert(white_plane_of(b)[i] == (b[i] == Color::White));
    }
    assert(a =~= b);
}

} // verus!
