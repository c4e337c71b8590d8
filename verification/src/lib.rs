//! Rules of chess: the board, the move generators of each piece type, the
//! threat scan that keeps a king out of attacked squares, and the turn state
//! machine that applies a move.
//!
//! A [`Game`] is made at the start of a game or from a position string, and
//! changed by `move_piece` alone. Squares are named by coordinates such as
//! `E2`: a file letter `A`..`H` and a rank digit `1`..`8`. Inside, a square
//! is an index from 0 to 63 that counts row by row from `A8` to `H1`.
//!
//! Every function is verified against a contract over the mathematical
//! content of a game, its [`Position`]. The module [`rules`] says what the
//! destinations of each kind of man are; the generators in [`movegen`] and
//! [`threat`] compute exactly those; [`play`] applies a move; [`fen`] reads
//! and writes position strings, and proves that what is written is read
//! back.
//!
//! Castling, capturing en passant, and the end of a game are not part of
//! these rules.

pub mod coord;
pub mod display;
pub mod error;
pub mod fen;
pub mod game;
pub mod movegen;
pub mod piece;
pub mod play;
pub mod rules;
pub mod text;
pub mod threat;

pub use error::ChessError;
pub use game::{CastlingRights, Game, GameState, Position};
pub use piece::{Color, Piece, PieceType};
