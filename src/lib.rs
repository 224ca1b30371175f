//! Chess position model, legality engine, and the decision logic of the
//! line-based protocol used to consult an external move-search process.

pub mod board;
pub mod engine;
pub mod error;
pub mod fen;
pub mod moves;
pub mod notation;
pub mod pieces;
pub mod position;
pub mod rules;
pub mod text;

pub use board::{Board, GameState};
pub use error::ChessError;
pub use moves::Move;
pub use pieces::{Piece, PieceType, Player};
pub use position::Position;
pub use rules::CastlingRights;
