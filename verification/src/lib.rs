//! A rules engine for the game of Go: board state, chains and liberties,
//! move legality (occupancy, suicide, positional superko), captures, undo,
//! territory and area scoring.
//!
//! The rules are stated once, over mathematical models: [`Position`] for a
//! board and [`Game`] for a game. [`PyGoban`] and [`PyGame`] are the boards
//! and games that programs hold; each has its model as its view, and every
//! operation on them is proved to do what the model says. What holds of
//! every game is proved over the models in [`laws`] and [`alive`].
//!
//! Suicide is forbidden, no position may come back, and the score is the
//! area: stones and territory, with the komi for White. Komi and scores are
//! counted in half points, so that they are whole numbers.

pub mod alive;
pub mod board;
pub mod capture;
pub mod count;
pub mod errors;
pub mod eye;
pub mod flood;
pub mod game;
pub mod laws;
pub mod play;
pub mod position;
pub mod render;
pub mod rules;
pub mod stones;
pub mod territory;

pub use board::PyGoban;
pub use errors::GoError;
pub use game::{Game, GameState, Moment, Move, Outcome, DEFAULT_KOMI};
pub use play::PyGame;
pub use position::{Point, Position, MAX_SIZE};
pub use stones::{to_bit_tuple, to_color, vec_color_to_raw_split, vec_color_to_u8, Color, Player};
