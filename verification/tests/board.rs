use libgoban::{
    to_bit_tuple, to_color, vec_color_to_raw_split, vec_color_to_u8, Color, GoError, Player,
    PyGoban,
};

fn board_from_rows(rows: &[&str]) -> PyGoban {
    let mut bytes: Vec<u8> = Vec::new();
    for row in rows {
        for ch in row.chars() {
            bytes.push(match ch {
                '.' => 0,
                'B' => 1,
                'W' => 2,
                _ => panic!("unknown point"),
            });
        }
    }
    PyGoban::new(bytes).unwrap()
}

#[test]
fn colors_have_fixed_bytes() {
    assert_eq!(Color::Empty.code(), 0);
    assert_eq!(Color::Black.code(), 1);
    assert_eq!(Color::White.code(), 2);
    assert_eq!(Color::from_code(0), Some(Color::Empty));
    assert_eq!(Color::from_code(1), Some(Color::Black));
    assert_eq!(Color::from_code(2), Some(Color::White));
    assert_eq!(Color::from_code(3), None);
    assert_eq!(Color::from_code(255), None);
}

#[test]
fn bit_tuples_of_colors() {
    assert_eq!(to_bit_tuple(Color::Black), (true, false));
    assert_eq!(to_bit_tuple(Color::White), (false, true));
    assert_eq!(to_bit_tuple(Color::Empty), (false, false));
    assert_eq!(Color::from_bits(true, false), Some(Color::Black));
    assert_eq!(Color::from_bits(false, true), Some(Color::White));
    assert_eq!(Color::from_bits(false, false), Some(Color::Empty));
    assert_eq!(Color::from_bits(true, true), None);
}

#[test]
fn flags_name_sides_and_colors() {
    assert_eq!(to_color(true), Color::White);
    assert_eq!(to_color(false), Color::Black);
    assert_eq!(Player::from_white(true), Player::White);
    assert_eq!(Player::from_white(false), Player::Black);
    assert!(Player::White.is_white());
    assert!(!Player::Black.is_white());
    assert_eq!(Player::Black.opponent(), Player::White);
    assert_eq!(Player::White.opponent(), Player::Black);
    assert_eq!(Player::Black.color(), Color::Black);
    assert_eq!(Player::White.color(), Color::White);
}

#[test]
fn rows_of_colors_as_bytes_and_planes() {
    let cells = vec![Color::Black, Color::Empty, Color::White, Color::White];
    assert_eq!(vec_color_to_u8(cells.clone()), vec![1, 0, 2, 2]);
    assert_eq!(
        vec_color_to_raw_split(cells),
        (vec![true, false, false, false], vec![false, false, true, true])
    );
    assert_eq!(vec_color_to_u8(Vec::new()), Vec::<u8>::new());
    assert_eq!(vec_color_to_raw_split(Vec::new()), (Vec::<bool>::new(), Vec::<bool>::new()));
}

#[test]
fn bytes_round_trip() {
    let bytes: Vec<u8> = vec![0, 1, 2, 2, 1, 0, 0, 0, 1];
    let board = PyGoban::new(bytes.clone()).unwrap();
    assert_eq!(board.size(), (3, 3));
    assert_eq!(board.raw(), bytes);
    assert_eq!(board.stone_at((0, 1)), Ok(Color::Black));
    assert_eq!(board.stone_at((0, 2)), Ok(Color::White));
    assert_eq!(board.stone_at((1, 0)), Ok(Color::White));
    assert_eq!(board.stone_at((2, 2)), Ok(Color::Black));
    let again = PyGoban::new(board.raw()).unwrap();
    assert_eq!(again.raw_snapshot(), board.raw_snapshot());
}

#[test]
fn planes_round_trip() {
    let board = board_from_rows(&["B.W", "WB.", "..B"]);
    let (black, white) = board.raw_split();
    assert_eq!(black, vec![true, false, false, false, true, false, false, false, true]);
    assert_eq!(white, vec![false, false, true, true, false, false, false, false, false]);
    for i in 0..9 {
        assert!(!(black[i] && white[i]));
    }
    let again = PyGoban::from_raw_split(black, white).unwrap();
    assert_eq!(again.raw(), board.raw());
}

#[test]
fn snapshots_round_trip() {
    let board = board_from_rows(&["B.", ".W"]);
    let cells = board.raw_snapshot();
    assert_eq!(cells, vec![Color::Black, Color::Empty, Color::Empty, Color::White]);
    let again = PyGoban::from_snapshot(cells.clone()).unwrap();
    assert_eq!(again.raw_snapshot(), cells);
    assert_eq!(again.size(), (2, 2));
}

#[test]
fn boards_of_a_wrong_length_are_refused() {
    assert_eq!(PyGoban::new(Vec::new()).err(), Some(GoError::InvalidBoardSize));
    assert_eq!(PyGoban::new(vec![0; 80]).err(), Some(GoError::InvalidBoardSize));
    assert_eq!(PyGoban::new(vec![0; 400]).err(), Some(GoError::InvalidBoardSize));
    assert_eq!(PyGoban::new(vec![7; 80]).err(), Some(GoError::InvalidBoardSize));
    assert_eq!(PyGoban::from_snapshot(vec![Color::Empty; 2]).err(), Some(GoError::InvalidBoardSize));
    assert_eq!(
        PyGoban::from_raw_split(vec![false; 4], vec![false; 9]).err(),
        Some(GoError::InvalidBoardSize)
    );
    assert_eq!(
        PyGoban::from_raw_split(vec![false; 5], vec![false; 5]).err(),
        Some(GoError::InvalidBoardSize)
    );
    assert_eq!(PyGoban::empty(0).err(), Some(GoError::InvalidBoardSize));
    assert_eq!(PyGoban::empty(20).err(), Some(GoError::InvalidBoardSize));
    assert!(PyGoban::new(vec![0; 361]).is_ok());
    assert!(PyGoban::new(vec![0; 1]).is_ok());
}

#[test]
fn bytes_that_are_no_color_are_refused() {
    assert_eq!(PyGoban::new(vec![0, 1, 2, 3]).err(), Some(GoError::InvalidColor));
    assert_eq!(PyGoban::new(vec![255]).err(), Some(GoError::InvalidColor));
    assert_eq!(
        PyGoban::from_raw_split(vec![true, false, false, false], vec![true, false, false, false])
            .err(),
        Some(GoError::InvalidColor)
    );
}

#[test]
fn stones_are_read_and_set() {
    let mut board = PyGoban::empty(9).unwrap();
    assert_eq!(board.stone_at((3, 4)), Ok(Color::Empty));
    assert_eq!(board.set_stone((3, 4), Color::White), Ok(()));
    assert_eq!(board.stone_at((3, 4)), Ok(Color::White));
    assert_eq!(board.stone_at((4, 3)), Ok(Color::Empty));
    assert_eq!(board.raw()[3 * 9 + 4], 2);
    assert_eq!(board.set_stone((3, 4), Color::Empty), Ok(()));
    assert_eq!(board.raw(), vec![0u8; 81]);
}

#[test]
fn points_off_the_board_are_refused() {
    let mut board = PyGoban::empty(9).unwrap();
    assert_eq!(board.stone_at((9, 0)), Err(GoError::OutOfBounds));
    assert_eq!(board.stone_at((0, 9)), Err(GoError::OutOfBounds));
    assert_eq!(board.set_stone((9, 9), Color::Black), Err(GoError::OutOfBounds));
    assert_eq!(board.chain_and_liberties((0, 200)).err(), Some(GoError::OutOfBounds));
    assert_eq!(board.raw(), vec![0u8; 81]);
    assert!(board.contains((8, 8)));
    assert!(!board.contains((8, 9)));
}

#[test]
fn a_lone_stone_has_its_neighbours_as_liberties() {
    let board = board_from_rows(&["...", ".B.", "..."]);
    assert_eq!(board.chain_and_liberties((1, 1)), Ok((vec![(1, 1)], 4)));
    let edge = board_from_rows(&[".B.", "...", "..."]);
    assert_eq!(edge.chain_and_liberties((0, 1)), Ok((vec![(0, 1)], 3)));
    let corner = board_from_rows(&["B..", "...", "..."]);
    assert_eq!(corner.chain_and_liberties((0, 0)), Ok((vec![(0, 0)], 2)));
}

#[test]
fn a_shared_liberty_counts_once() {
    // The empty point (1,1) touches three stones of the chain.
    let board = board_from_rows(&["BBB.", "B.B.", "....", "...."]);
    let (chain, liberties) = board.chain_and_liberties((0, 0)).unwrap();
    assert_eq!(chain, vec![(0, 0), (0, 1), (0, 2), (1, 0), (1, 2)]);
    // (0,3), (1,1), (1,3), (2,0), (2,2)
    assert_eq!(liberties, 5);
    assert_eq!(board.chain_and_liberties((1, 2)).unwrap(), (chain, 5));
}

#[test]
fn chains_stop_at_the_other_colour_and_at_diagonals() {
    let board = board_from_rows(&["BW.", "WB.", "..."]);
    assert_eq!(board.chain_and_liberties((0, 0)), Ok((vec![(0, 0)], 0)));
    assert_eq!(board.chain_and_liberties((1, 1)), Ok((vec![(1, 1)], 2)));
    assert_eq!(board.chain_and_liberties((0, 1)), Ok((vec![(0, 1)], 1)));
    assert_eq!(board.chain_and_liberties((1, 0)), Ok((vec![(1, 0)], 1)));
}

#[test]
fn an_empty_point_has_no_chain() {
    let board = board_from_rows(&["B..", "...", "..."]);
    assert_eq!(board.chain_and_liberties((1, 1)), Ok((Vec::new(), 0)));
}

#[test]
fn a_chain_does_not_wrap_around_the_edge() {
    // (0,2) and (1,0) are next to each other in the row of bytes, not on
    // the board.
    let board = board_from_rows(&["..B", "B..", "..."]);
    assert_eq!(board.chain_and_liberties((0, 2)), Ok((vec![(0, 2)], 2)));
    assert_eq!(board.chain_and_liberties((1, 0)), Ok((vec![(1, 0)], 3)));
}

#[test]
fn remove_chain_empties_the_points_given() {
    let mut board = board_from_rows(&["BB.", "W.B", "..."]);
    let (chain, _) = board.chain_and_liberties((0, 0)).unwrap();
    assert_eq!(board.remove_chain(&chain), Ok(()));
    assert_eq!(board.raw(), vec![0, 0, 0, 2, 0, 1, 0, 0, 0]);
    assert_eq!(board.remove_chain(&vec![(1, 1), (1, 1), (1, 0)]), Ok(()));
    assert_eq!(board.raw(), vec![0, 0, 0, 0, 0, 1, 0, 0, 0]);
    assert_eq!(board.remove_chain(&Vec::new()), Ok(()));
    assert_eq!(board.raw(), vec![0, 0, 0, 0, 0, 1, 0, 0, 0]);
}

#[test]
fn remove_chain_with_a_point_off_the_board_changes_nothing() {
    let mut board = board_from_rows(&["BB.", "W.B", "..."]);
    let before = board.raw();
    assert_eq!(board.remove_chain(&vec![(0, 0), (3, 0)]), Err(GoError::OutOfBounds));
    assert_eq!(board.raw(), before);
}

#[test]
fn stones_are_counted_by_colour() {
    let board = board_from_rows(&["BW.", "WB.", "..B"]);
    assert_eq!(board.stones_on_board(Color::Black), 3);
    assert_eq!(board.stones_on_board(Color::White), 2);
    assert_eq!(board.stones_on_board(Color::Empty), 4);
}

#[test]
fn territory_needs_one_colour_only() {
    let empty = PyGoban::empty(9).unwrap();
    assert_eq!(empty.calculate_territories(), (0, 0));
    let one = board_from_rows(&["...", ".B.", "..."]);
    assert_eq!(one.calculate_territories(), (8, 0));
    let both = board_from_rows(&["...", ".B.", "..W"]);
    assert_eq!(both.calculate_territories(), (0, 0));
    let full = board_from_rows(&["BB", "BB"]);
    assert_eq!(full.calculate_territories(), (0, 0));
}

#[test]
fn territory_is_counted_region_by_region() {
    let board = board_from_rows(&[
        ".B.W.", //
        ".B.W.", //
        "BB.WW", //
        ".....", //
        ".....",
    ]);
    // Left corner: 2 points for Black; right corner: 2 points for White;
    // the rest touches both.
    assert_eq!(board.calculate_territories(), (2, 2));
    assert_eq!(board.calculate_areas(), (6, 6));
}

#[test]
fn a_wall_divides_the_board() {
    let board = board_from_rows(&[
        "..B.W", //
        "..BW.", //
        "..BW.", //
        "..BW.", //
        "..BW.",
    ]);
    assert_eq!(board.calculate_territories(), (10, 4));
    assert_eq!(board.calculate_areas(), (15, 9));
    // The lone point (0,3) touches both colours.
    assert_eq!(board.stone_at((0, 3)), Ok(Color::Empty));
}

#[test]
fn an_eye_in_the_middle_needs_three_corners() {
    let four = board_from_rows(&["BBB", "B.B", "BBB"]);
    assert!(four.is_eye((1, 1), Player::Black));
    assert!(!four.is_eye((1, 1), Player::White));
    let three = board_from_rows(&["BBB", "B.B", "BBW"]);
    assert!(three.is_eye((1, 1), Player::Black));
    let two = board_from_rows(&["WBB", "B.B", "BB."]);
    assert!(!two.is_eye((1, 1), Player::Black));
    let open = board_from_rows(&["BBB", "B..", "BBB"]);
    assert!(!open.is_eye((1, 1), Player::Black));
    let enemy = board_from_rows(&["BWB", "B.B", "BBB"]);
    assert!(!enemy.is_eye((1, 1), Player::Black));
}

#[test]
fn the_edge_counts_for_the_eye() {
    let corner = board_from_rows(&[".W.", "W..", "..."]);
    assert!(corner.is_eye((0, 0), Player::White));
    assert!(!corner.is_eye((0, 0), Player::Black));
    assert!(!corner.is_eye((0, 1), Player::White));
    assert!(!corner.is_eye((2, 2), Player::White));
    let side = board_from_rows(&["W.W", "BW.", "..."]);
    // Two corners off the board and none of the two on it: not enough.
    assert!(!side.is_eye((0, 1), Player::White));
    let side_ok = board_from_rows(&["W.W", "WW.", "..."]);
    assert!(side_ok.is_eye((0, 1), Player::White));
    assert!(!side_ok.is_eye((3, 0), Player::White));
}

#[test]
fn a_board_of_one_point() {
    let mut board = PyGoban::empty(1).unwrap();
    assert!(board.is_eye((0, 0), Player::Black));
    assert_eq!(board.calculate_territories(), (0, 0));
    assert_eq!(board.set_stone((0, 0), Color::Black), Ok(()));
    assert_eq!(board.chain_and_liberties((0, 0)), Ok((vec![(0, 0)], 0)));
    assert!(!board.is_eye((0, 0), Player::Black));
}

#[test]
fn an_empty_board_as_text() {
    let board = PyGoban::empty(3).unwrap();
    assert_eq!(board.pretty_string(), "┏┯┓\n┠┼┨\n┗┷┛\n");
    let nine = PyGoban::empty(9).unwrap();
    assert_eq!(
        nine.pretty_string(),
        "┏┯┯┯┯┯┯┯┓\n┠┼┼┼┼┼┼┼┨\n┠┼┼┼┼┼┼┼┨\n┠┼┼┼┼┼┼┼┨\n┠┼┼┼┼┼┼┼┨\n┠┼┼┼┼┼┼┼┨\n┠┼┼┼┼┼┼┼┨\n┠┼┼┼┼┼┼┼┨\n┗┷┷┷┷┷┷┷┛\n"
    );
}

#[test]
fn stones_as_text() {
    let board = board_from_rows(&["B..", ".W.", "..B"]);
    assert_eq!(board.pretty_string(), "●┯┓\n┠○┨\n┗┷●\n");
    let full = board_from_rows(&["BW", "WB"]);
    assert_eq!(full.pretty_string(), "●○\n○●\n");
    let one = PyGoban::empty(1).unwrap();
    assert_eq!(one.pretty_string(), "┏\n");
    let two = PyGoban::empty(2).unwrap();
    assert_eq!(two.pretty_string(), "┏┓\n┗┛\n");
}

#[test]
fn chains_without_liberties_are_drawn_too() {
    let mut bytes = vec![1u8; 361];
    bytes[0] = 2;
    bytes[360] = 0;
    let board = PyGoban::new(bytes).unwrap();
    let text = board.pretty_string();
    assert_eq!(text.chars().count(), 19 * 20);
    assert_eq!(text.chars().next(), Some('○'));
    assert_eq!(text.chars().nth(1), Some('●'));
    assert_eq!(text.chars().nth(19), Some('\n'));
    assert_eq!(text.chars().nth(19 * 20 - 2), Some('┛'));
}

fn expected_char(size: usize, row: usize, col: usize, byte: u8) -> char {
    let last = size - 1;
    match byte {
        1 => '●',
        2 => '○',
        _ => {
            if row == 0 && col == 0 {
                '┏'
            } else if row == 0 && col == last {
                '┓'
            } else if row == last && col == 0 {
                '┗'
            } else if row == last && col == last {
                '┛'
            } else if row == 0 {
                '┯'
            } else if row == last {
                '┷'
            } else if col == 0 {
                '┠'
            } else if col == last {
                '┨'
            } else {
                '┼'
            }
        }
    }
}

#[test]
fn boards_of_every_side_as_text() {
    let mut state: u64 = 2024;
    for size in 1..=19usize {
        for round in 0..4 {
            let mut bytes: Vec<u8> = Vec::new();
            for _ in 0..size * size {
                state = state.wrapping_mul(6364136223846793005).wrapping_add(1442695040888963407);
                let roll = (state >> 33) % 4;
                bytes.push(match (round, roll) {
                    (0, _) => 0,
                    (_, 0) => 1,
                    (_, 1) => 2,
                    (3, _) => 1,
                    _ => 0,
                });
            }
            let board = PyGoban::new(bytes.clone()).unwrap();
            let mut expected = String::new();
            for row in 0..size {
                for col in 0..size {
                    expected.push(expected_char(size, row, col, bytes[row * size + col]));
                }
                expected.push('\n');
            }
            assert_eq!(board.pretty_string(), expected);
        }
    }
}
