//! A chess kernel: positions on bitboards, the making of moves, and the
//! generation of exactly the legal moves, with a count of lines of play to
//! test the generator against counts known from elsewhere.
//!
//! The model of a position and the rules are in [`position`] and
//! [`rules`]; [`chess_board`] and [`move_gen`] hold the executable code
//! and state, function by function, how it relates to the model.

pub mod attacks;
pub mod base_structures;
pub mod bits;
pub mod chess_board;
pub mod geometry;
pub mod move_gen;
pub mod perft;
pub mod position;
pub mod rules;

pub use attacks::Attacks;
pub use base_structures::Bitboard;
pub use base_structures::CastleRight;
pub use base_structures::Man;
pub use base_structures::Move;
pub use base_structures::MoveFlag;
pub use base_structures::Piece;
pub use base_structures::Side;
pub use base_structures::Square;
pub use base_structures::ZobristKey;
pub use chess_board::ChessBoard;
pub use move_gen::MoveGen;
pub use perft::Perft;
pub use position::Position;
