//! A chess rules engine: move generation, legality checking, check and
//! checkmate detection for standard piece movement (no castling, no en
//! passant).
//!
//! All board coordinates are given as two-character strings: a file letter
//! `a`-`h` followed by a rank digit `1`-`8`, e.g. `"e2"`.

pub mod game;
pub mod laws;
pub mod pieces;
pub mod rules;
pub mod square;

pub use game::Game;
pub use game::GameState;
pub use game::MoveError;
pub use game::PromotionError;
pub use pieces::Color;
pub use pieces::Piece;
pub use square::ParseError;
pub use square::Position;
