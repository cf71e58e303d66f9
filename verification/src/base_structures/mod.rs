//! The small value types that boards and moves are made of.

pub mod bitboard;
pub mod castle_rights;
pub mod chess_move;
pub mod move_flags;
pub mod piece;
pub mod side;
pub mod square;
pub mod zobrist;

pub use bitboard::Bitboard;
pub use castle_rights::CastleRight;
pub use chess_move::Move;
pub use move_flags::MoveFlag;
pub use piece::Man;
pub use piece::Piece;
pub use side::Side;
pub use square::Square;
pub use zobrist::ZobristKey;
