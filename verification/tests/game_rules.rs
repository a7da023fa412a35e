use libgoban::{Color, GameState, GoError, Move, Outcome, Player, PyGame, PyGoban};

fn play_all(game: &mut PyGame, moves: &[Option<(u8, u8)>]) {
    for m in moves {
        assert_eq!(game.play(*m), Ok(()));
    }
}

#[test]
fn new_game_is_empty_and_black_moves() {
    let game = PyGame::new(9).unwrap();
    assert_eq!(game.size(), (9, 9));
    assert_eq!(game.turn(), Player::Black);
    assert_eq!(game.prisoners(), (0, 0));
    assert_eq!(game.komi(), 15);
    assert!(!game.over());
    assert_eq!(game.outcome(), None);
    assert_eq!(game.state(), GameState::InProgress);
    assert_eq!(game.history_len(), 0);
    assert_eq!(game.raw_goban(), vec![0u8; 81]);
}

#[test]
fn sizes_from_one_to_nineteen_are_accepted() {
    for size in 1..=19usize {
        let game = PyGame::new(size).unwrap();
        assert_eq!(game.size(), (size as u8, size as u8));
        assert_eq!(game.raw_goban().len(), size * size);
    }
}

#[test]
fn unsupported_sizes_are_refused() {
    assert_eq!(PyGame::new(0).err(), Some(GoError::InvalidBoardSize));
    assert_eq!(PyGame::new(20).err(), Some(GoError::InvalidBoardSize));
    assert_eq!(PyGame::new(usize::MAX).err(), Some(GoError::InvalidBoardSize));
}

#[test]
fn a_surrounded_stone_is_captured() {
    let mut game = PyGame::new(9).unwrap();
    play_all(
        &mut game,
        &[
            Some((4, 4)),
            Some((3, 4)),
            Some((8, 8)),
            Some((5, 4)),
            Some((8, 7)),
            Some((4, 3)),
            Some((8, 6)),
            Some((4, 5)),
        ],
    );
    assert_eq!(game.goban().stone_at((4, 4)), Ok(Color::Empty));
    assert_eq!(game.prisoners(), (0, 1));
    assert_eq!(game.turn(), Player::Black);
}

#[test]
fn a_surrounded_stone_is_captured_between_passes() {
    let mut game = PyGame::new(9).unwrap();
    play_all(
        &mut game,
        &[
            Some((4, 4)),
            Some((3, 4)),
            None,
            Some((5, 4)),
            None,
            Some((4, 3)),
            None,
            Some((4, 5)),
        ],
    );
    assert_eq!(game.goban().stone_at((4, 4)), Ok(Color::Empty));
    assert_eq!(game.prisoners(), (0, 1));
    assert_eq!(game.goban().stones_on_board(Color::Black), 0);
    assert_eq!(game.goban().stones_on_board(Color::White), 4);
}

#[test]
fn suicide_is_refused_and_nothing_changes() {
    let mut game = PyGame::new(9).unwrap();
    play_all(&mut game, &[None, Some((0, 1)), None, Some((1, 0))]);
    let before = game.raw_goban();
    let depth = game.history_len();
    assert_eq!(game.turn(), Player::Black);
    assert_eq!(game.play(Some((0, 0))), Err(GoError::SuicideMove));
    assert_eq!(game.raw_goban(), before);
    assert_eq!(game.history_len(), depth);
    assert_eq!(game.turn(), Player::Black);
    assert_eq!(game.prisoners(), (0, 0));
    assert!(!game.is_legal((0, 0)));
}

#[test]
fn a_capturing_move_is_no_suicide() {
    // The white stones at (0,1) and (1,0) have (0,0) as their last
    // liberty. A black stone there has no liberty of its own, but it takes
    // both and is left with two.
    let mut game = PyGame::new(5).unwrap();
    play_all(
        &mut game,
        &[Some((0, 2)), Some((0, 1)), Some((1, 1)), Some((1, 0)), Some((2, 0)), Some((4, 4))],
    );
    assert!(game.is_legal((0, 0)));
    assert_eq!(game.play(Some((0, 0))), Ok(()));
    assert_eq!(game.goban().stone_at((0, 1)), Ok(Color::Empty));
    assert_eq!(game.goban().stone_at((1, 0)), Ok(Color::Empty));
    assert_eq!(game.goban().stone_at((0, 0)), Ok(Color::Black));
    assert_eq!(game.prisoners(), (2, 0));
}

fn ko_position() -> PyGame {
    let mut game = PyGame::new(9).unwrap();
    play_all(
        &mut game,
        &[
            Some((0, 1)),
            Some((0, 2)),
            Some((1, 0)),
            Some((1, 3)),
            Some((2, 1)),
            Some((2, 2)),
            Some((8, 8)),
            Some((1, 1)),
        ],
    );
    game
}

#[test]
fn recapturing_a_ko_at_once_is_refused() {
    let mut game = ko_position();
    let before_capture = game.raw_goban();
    assert_eq!(game.play(Some((1, 2))), Ok(()));
    assert_eq!(game.prisoners(), (1, 0));
    assert_eq!(game.goban().stone_at((1, 1)), Ok(Color::Empty));
    let after_capture = game.raw_goban();
    assert_eq!(game.play(Some((1, 1))), Err(GoError::KoViolation));
    assert_eq!(game.raw_goban(), after_capture);
    assert_eq!(game.turn(), Player::White);
    assert!(!game.is_legal((1, 1)));
    // Elsewhere first, and the ko may be taken back.
    assert_eq!(game.play(Some((7, 7))), Ok(()));
    assert_eq!(game.play(Some((7, 6))), Ok(()));
    assert_eq!(game.play(Some((1, 1))), Ok(()));
    assert_eq!(game.prisoners(), (1, 1));
    assert_ne!(game.raw_goban(), before_capture);
}

#[test]
fn a_position_from_long_ago_may_not_come_back() {
    let mut game = ko_position();
    assert_eq!(game.play(Some((1, 2))), Ok(()));
    let after_first = game.raw_goban();
    // White and Black each pass once, not in a row.
    assert_eq!(game.play(Some((7, 7))), Ok(()));
    assert_eq!(game.play(Some((7, 6))), Ok(()));
    assert_eq!(game.play(Some((1, 1))), Ok(()));
    // Black takes the ko back: the board would be `after_first` plus the
    // two stones played since, which it never was.
    assert_eq!(game.play(Some((6, 0))), Ok(()));
    assert_eq!(game.play(Some((6, 1))), Ok(()));
    assert_eq!(game.play(Some((1, 2))), Ok(()));
    assert_ne!(game.raw_goban(), after_first);
}

#[test]
fn occupied_and_outside_points_are_refused() {
    let mut game = PyGame::new(9).unwrap();
    assert_eq!(game.play(Some((2, 2))), Ok(()));
    let before = game.raw_goban();
    assert_eq!(game.play(Some((2, 2))), Err(GoError::PointOccupied));
    assert_eq!(game.play(Some((9, 0))), Err(GoError::OutOfBounds));
    assert_eq!(game.play(Some((0, 9))), Err(GoError::OutOfBounds));
    assert_eq!(game.play(Some((255, 255))), Err(GoError::OutOfBounds));
    assert_eq!(game.raw_goban(), before);
    assert_eq!(game.turn(), Player::White);
    assert_eq!(game.history_len(), 1);
}

#[test]
fn pop_restores_the_state_before_a_move() {
    let mut game = ko_position();
    let board = game.raw_goban();
    let turn = game.turn();
    let prisoners = game.prisoners();
    let depth = game.history_len();
    let state = game.state();
    assert_eq!(game.play(Some((1, 2))), Ok(()));
    assert_ne!(game.raw_goban(), board);
    assert_eq!(game.pop(), Ok(()));
    assert_eq!(game.raw_goban(), board);
    assert_eq!(game.turn(), turn);
    assert_eq!(game.prisoners(), prisoners);
    assert_eq!(game.history_len(), depth);
    assert_eq!(game.state(), state);
}

#[test]
fn pop_undoes_passes_and_resignation() {
    let mut game = PyGame::new(9).unwrap();
    assert_eq!(game.play(None), Ok(()));
    assert_eq!(game.state(), GameState::AwaitingSecondPass);
    assert_eq!(game.resign(Player::White), Ok(()));
    assert!(game.over());
    assert_eq!(game.pop(), Ok(()));
    assert_eq!(game.state(), GameState::AwaitingSecondPass);
    assert_eq!(game.turn(), Player::White);
    assert_eq!(game.play(None), Ok(()));
    assert!(game.over());
    assert_eq!(game.pop(), Ok(()));
    assert_eq!(game.state(), GameState::AwaitingSecondPass);
    assert_eq!(game.pop(), Ok(()));
    assert_eq!(game.state(), GameState::InProgress);
    assert_eq!(game.turn(), Player::Black);
    assert_eq!(game.pop(), Err(GoError::EmptyHistory));
}

#[test]
fn pop_on_a_new_game_is_refused() {
    let mut game = PyGame::new(13).unwrap();
    assert_eq!(game.pop(), Err(GoError::EmptyHistory));
    assert_eq!(game.history_len(), 0);
    assert_eq!(game.turn(), Player::Black);
}

#[test]
fn two_passes_end_the_game_with_the_score() {
    let mut game = PyGame::new(9).unwrap();
    assert_eq!(game.play(Some((4, 4))), Ok(()));
    assert_eq!(game.play(None), Ok(()));
    assert_eq!(game.state(), GameState::AwaitingSecondPass);
    assert_eq!(game.turn(), Player::Black);
    assert_eq!(game.play(None), Ok(()));
    assert!(game.over());
    let score = game.calculate_score();
    assert_eq!(score, (162, 15));
    assert_eq!(game.outcome(), Some(Outcome::Score(score.0, score.1)));
    assert_eq!(game.state(), GameState::Over(Outcome::Score(162, 15)));
    assert_eq!(game.get_winner(), Ok(Some(Player::Black)));
    // The turn stays with the side that passed last.
    assert_eq!(game.turn(), Player::Black);
}

#[test]
fn a_play_between_passes_resets_the_count() {
    let mut game = PyGame::new(9).unwrap();
    play_all(&mut game, &[None, Some((3, 3)), None]);
    assert_eq!(game.state(), GameState::AwaitingSecondPass);
    assert!(!game.over());
    play_all(&mut game, &[Some((5, 5))]);
    assert_eq!(game.state(), GameState::InProgress);
}

#[test]
fn no_move_is_accepted_after_the_end() {
    let mut game = PyGame::new(9).unwrap();
    play_all(&mut game, &[None, None]);
    let board = game.raw_goban();
    assert_eq!(game.play(Some((0, 0))), Err(GoError::GameOver));
    assert_eq!(game.play(None), Err(GoError::GameOver));
    assert_eq!(game.resign(Player::Black), Err(GoError::GameOver));
    assert_eq!(game.apply(Move::Pass), Err(GoError::GameOver));
    assert_eq!(game.raw_goban(), board);
    assert_eq!(game.history_len(), 2);
}

#[test]
fn resignation_gives_the_game_to_the_other_side() {
    let mut game = PyGame::new(9).unwrap();
    assert_eq!(game.resign(Player::Black), Ok(()));
    assert!(game.over());
    assert_eq!(game.outcome(), Some(Outcome::WinnerByResign(Player::White)));
    assert_eq!(game.get_winner(), Ok(Some(Player::White)));
    assert_eq!(game.resume(), Err(GoError::IllegalResume));
    assert!(game.over());

    let mut other = PyGame::new(9).unwrap();
    assert_eq!(other.apply(Move::Resign(Player::White)), Ok(()));
    assert_eq!(other.get_winner(), Ok(Some(Player::Black)));
}

#[test]
fn the_winner_of_an_unfinished_game_is_refused() {
    let game = PyGame::new(9).unwrap();
    assert_eq!(game.get_winner(), Err(GoError::GameNotFinished));
}

#[test]
fn equal_scores_have_no_winner() {
    let mut game = PyGame::new(9).unwrap();
    game.set_komi(0);
    play_all(&mut game, &[None, None]);
    assert_eq!(game.outcome(), Some(Outcome::Score(0, 0)));
    assert_eq!(game.get_winner(), Ok(None));
}

#[test]
fn white_wins_an_empty_board_by_komi() {
    let mut game = PyGame::new(9).unwrap();
    play_all(&mut game, &[None, None]);
    assert_eq!(game.outcome(), Some(Outcome::Score(0, 15)));
    assert_eq!(game.get_winner(), Ok(Some(Player::White)));
}

#[test]
fn resume_takes_up_a_game_ended_by_passes() {
    let mut game = PyGame::new(9).unwrap();
    play_all(&mut game, &[Some((2, 2)), None, None]);
    assert!(game.over());
    let turn = game.turn();
    assert_eq!(game.resume(), Ok(()));
    assert!(!game.over());
    assert_eq!(game.outcome(), None);
    assert_eq!(game.state(), GameState::InProgress);
    assert_eq!(game.turn(), turn);
    assert_eq!(game.history_len(), 3);
    assert_eq!(game.play(Some((6, 6))), Ok(()));
}

#[test]
fn resume_of_a_running_game_is_refused() {
    let mut game = PyGame::new(9).unwrap();
    assert_eq!(game.resume(), Err(GoError::IllegalResume));
    play_all(&mut game, &[None]);
    assert_eq!(game.resume(), Err(GoError::IllegalResume));
    assert_eq!(game.state(), GameState::AwaitingSecondPass);
}

#[test]
fn handicap_stones_are_black_and_white_moves() {
    let mut game = PyGame::new(9).unwrap();
    assert_eq!(game.put_handicap(vec![(2, 2), (6, 6), (2, 6)]), Ok(()));
    assert_eq!(game.turn(), Player::White);
    assert_eq!(game.goban().stone_at((2, 2)), Ok(Color::Black));
    assert_eq!(game.goban().stone_at((6, 6)), Ok(Color::Black));
    assert_eq!(game.goban().stone_at((2, 6)), Ok(Color::Black));
    assert_eq!(game.goban().stones_on_board(Color::Black), 3);
    assert_eq!(game.history_len(), 0);
    assert_eq!(game.play(Some((4, 4))), Ok(()));
    assert_eq!(game.goban().stone_at((4, 4)), Ok(Color::White));
}

#[test]
fn handicap_is_refused_after_a_move_or_off_the_board() {
    let mut game = PyGame::new(9).unwrap();
    assert_eq!(game.put_handicap(vec![(2, 2), (9, 9)]), Err(GoError::OutOfBounds));
    assert_eq!(game.raw_goban(), vec![0u8; 81]);
    assert_eq!(game.turn(), Player::Black);
    play_all(&mut game, &[Some((0, 0))]);
    let before = game.raw_goban();
    assert_eq!(game.put_handicap(vec![(2, 2)]), Err(GoError::HandicapAfterStart));
    assert_eq!(game.raw_goban(), before);
    assert_eq!(game.turn(), Player::White);
}

#[test]
fn play_and_clone_leaves_the_game_alone() {
    let game = PyGame::new(9).unwrap();
    let next = game.play_and_clone(Some((3, 3))).unwrap();
    assert_eq!(game.raw_goban(), vec![0u8; 81]);
    assert_eq!(game.turn(), Player::Black);
    assert_eq!(next.goban().stone_at((3, 3)), Ok(Color::Black));
    assert_eq!(next.turn(), Player::White);
    assert_eq!(next.history_len(), 1);
    assert_eq!(next.play_and_clone(Some((3, 3))).err(), Some(GoError::PointOccupied));
}

#[test]
fn a_clone_shares_nothing() {
    let mut game = PyGame::new(9).unwrap();
    play_all(&mut game, &[Some((1, 1)), Some((2, 2))]);
    let mut copy = game.clone();
    assert_eq!(copy.play(Some((3, 3))), Ok(()));
    assert_eq!(copy.pop(), Ok(()));
    assert_eq!(copy.pop(), Ok(()));
    assert_eq!(game.history_len(), 2);
    assert_eq!(game.goban().stone_at((2, 2)), Ok(Color::White));
    assert_eq!(copy.goban().stone_at((2, 2)), Ok(Color::Empty));
}

#[test]
fn legals_and_pseudo_legals_on_a_new_board() {
    let game = PyGame::new(3).unwrap();
    let all: Vec<(u8, u8)> =
        vec![(0, 0), (0, 1), (0, 2), (1, 0), (1, 1), (1, 2), (2, 0), (2, 1), (2, 2)];
    assert_eq!(game.legals(), all);
    assert_eq!(game.pseudo_legals(), all);
}

#[test]
fn legals_leave_out_suicide_and_ko() {
    let mut game = PyGame::new(9).unwrap();
    play_all(&mut game, &[None, Some((0, 1)), None, Some((1, 0))]);
    let legals = game.legals();
    let pseudo = game.pseudo_legals();
    assert_eq!(pseudo.len(), 79);
    assert_eq!(legals.len(), 78);
    assert!(pseudo.contains(&(0, 0)));
    assert!(!legals.contains(&(0, 0)));
    for p in &pseudo {
        assert_eq!(game.is_legal(*p), legals.contains(p));
    }

    let mut ko = ko_position();
    assert_eq!(ko.play(Some((1, 2))), Ok(()));
    assert!(ko.pseudo_legals().contains(&(1, 1)));
    assert!(!ko.legals().contains(&(1, 1)));
}

#[test]
fn is_legal_is_false_off_the_board_and_on_stones() {
    let mut game = PyGame::new(9).unwrap();
    play_all(&mut game, &[Some((4, 4))]);
    assert!(!game.is_legal((4, 4)));
    assert!(!game.is_legal((9, 4)));
    assert!(game.is_legal((4, 5)));
}

#[test]
fn stones_and_empty_points_make_up_the_board() {
    let mut game = ko_position();
    play_all(&mut game, &[Some((1, 2)), Some((5, 5)), None, Some((5, 6))]);
    let board = game.goban();
    let black = board.stones_on_board(Color::Black);
    let white = board.stones_on_board(Color::White);
    let empty = board.stones_on_board(Color::Empty);
    assert_eq!(black, 5);
    assert_eq!(white, 5);
    assert_eq!(black + white + empty, 81);
}

#[test]
fn the_score_is_the_same_when_asked_twice() {
    let mut game = ko_position();
    game.set_komi(13);
    let first = game.calculate_score();
    let second = game.calculate_score();
    assert_eq!(first, second);
    assert_eq!(game.calculate_territories(), game.calculate_territories());
}

#[test]
fn set_komi_changes_the_score_of_white_only() {
    let mut game = PyGame::new(9).unwrap();
    play_all(&mut game, &[Some((0, 0)), Some((8, 8))]);
    assert_eq!(game.calculate_score(), (2, 17));
    game.set_komi(-3);
    assert_eq!(game.komi(), -3);
    assert_eq!(game.calculate_score(), (2, -1));
    game.set_komi(13);
    assert_eq!(game.calculate_score(), (2, 15));
}

#[test]
fn the_outcome_keeps_the_score_of_the_end() {
    let mut game = PyGame::new(9).unwrap();
    play_all(&mut game, &[Some((4, 4)), None, None]);
    game.set_komi(1);
    assert_eq!(game.outcome(), Some(Outcome::Score(162, 15)));
    assert_eq!(game.calculate_score(), (162, 1));
}

#[test]
fn territories_of_an_empty_board_are_nobodys() {
    let game = PyGame::new(9).unwrap();
    assert_eq!(game.calculate_territories(), (0, 0));
    assert_eq!(game.calculate_score(), (0, 15));
}

#[test]
fn move_of_names_play_and_pass() {
    let mut game = PyGame::new(9).unwrap();
    assert_eq!(game.apply(Move::Play((1, 2))), Ok(()));
    assert_eq!(game.goban().stone_at((1, 2)), Ok(Color::Black));
    assert_eq!(game.apply(Move::Pass), Ok(()));
    assert_eq!(game.state(), GameState::AwaitingSecondPass);
}

#[test]
fn eyes_through_the_game() {
    let mut game = PyGame::new(5).unwrap();
    play_all(&mut game, &[Some((0, 1)), None, Some((1, 0)), None, Some((1, 1))]);
    assert!(game.is_point_an_eye((0, 0), Player::Black));
    assert!(!game.is_point_an_eye((0, 0), Player::White));
    assert!(!game.is_point_an_eye((0, 1), Player::Black));
    assert!(!game.is_point_an_eye((9, 9), Player::Black));
}

#[test]
fn raw_goban_split_of_a_game() {
    let mut game = PyGame::new(2).unwrap();
    play_all(&mut game, &[Some((0, 0)), Some((1, 1))]);
    assert_eq!(game.raw_goban(), vec![1, 0, 0, 2]);
    assert_eq!(
        game.raw_goban_split(),
        (vec![true, false, false, false], vec![false, false, false, true])
    );
    let board: PyGoban = game.goban();
    assert_eq!(board.raw(), game.raw_goban());
}

#[test]
fn one_stone_takes_two_chains() {
    let mut game = PyGame::new(5).unwrap();
    play_all(
        &mut game,
        &[
            Some((1, 0)),
            Some((0, 0)),
            Some((1, 2)),
            Some((0, 2)),
            Some((0, 3)),
            Some((4, 4)),
        ],
    );
    // White stones at (0,0) and (0,2); Black at (1,0), (1,2), (0,3).
    // (0,1) is the last liberty of both white stones.
    assert_eq!(game.play(Some((0, 1))), Ok(()));
    assert_eq!(game.goban().stone_at((0, 0)), Ok(Color::Empty));
    assert_eq!(game.goban().stone_at((0, 2)), Ok(Color::Empty));
    assert_eq!(game.goban().stone_at((0, 1)), Ok(Color::Black));
    assert_eq!(game.prisoners(), (2, 0));
    assert_eq!(game.goban().stones_on_board(Color::White), 1);
}

#[test]
fn a_chain_of_several_stones_is_taken_whole() {
    let mut game = PyGame::new(5).unwrap();
    play_all(
        &mut game,
        &[
            Some((1, 0)),
            Some((0, 0)),
            Some((1, 1)),
            Some((0, 1)),
            Some((1, 2)),
            Some((0, 2)),
        ],
    );
    assert_eq!(game.goban().chain_and_liberties((0, 1)), Ok((vec![(0, 0), (0, 1), (0, 2)], 1)));
    assert_eq!(game.play(Some((0, 3))), Ok(()));
    assert_eq!(game.prisoners(), (3, 0));
    assert_eq!(game.goban().stones_on_board(Color::White), 0);
    assert_eq!(game.goban().stones_on_board(Color::Black), 4);
    assert_eq!(game.calculate_territories(), (21, 0));
}

#[test]
fn suicide_of_a_chain_is_refused() {
    // White holds (0,2), (1,0), (1,1); Black has a stone at (0,0) and
    // would join it at (0,1) without a liberty for the two.
    let mut game = PyGame::new(5).unwrap();
    play_all(
        &mut game,
        &[Some((0, 0)), Some((1, 0)), Some((4, 4)), Some((1, 1)), Some((4, 3)), Some((0, 2))],
    );
    let before = game.clone();
    assert_eq!(game.play(Some((0, 1))), Err(GoError::SuicideMove));
    assert_eq!(game, before);
    // White may play there and takes the black stone.
    assert_eq!(game.play(Some((3, 3))), Ok(()));
    assert_eq!(game.play(Some((0, 1))), Ok(()));
    assert_eq!(game.goban().stone_at((0, 0)), Ok(Color::Empty));
    assert_eq!(game.prisoners(), (0, 1));
}

#[test]
fn handicap_points_may_repeat_and_cover_stones() {
    let mut game = PyGame::new(3).unwrap();
    assert_eq!(game.put_handicap(vec![(1, 1), (1, 1)]), Ok(()));
    assert_eq!(game.raw_goban(), vec![0, 0, 0, 0, 1, 0, 0, 0, 0]);
    assert_eq!(game.put_handicap(Vec::new()), Ok(()));
    assert_eq!(game.turn(), Player::White);
    assert_eq!(game.put_handicap(vec![(0, 0)]), Ok(()));
    assert_eq!(game.raw_goban(), vec![1, 0, 0, 0, 1, 0, 0, 0, 0]);
}

#[test]
fn the_game_shows_its_board() {
    let mut game = PyGame::new(3).unwrap();
    play_all(&mut game, &[Some((1, 1)), Some((0, 0))]);
    assert_eq!(game.display_goban(), "○┯┓\n┠●┨\n┗┷┛\n");
    assert_eq!(game.display_goban(), game.goban().pretty_string());
}
