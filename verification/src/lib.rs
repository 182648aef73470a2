pub mod constants;
pub mod types;
pub mod square;
pub mod hash;
pub mod bitboard;
pub mod piece;
pub mod board;
pub mod geometry;
pub mod tables;
pub mod text;
pub mod rules;
pub mod position;
pub mod make_move;
pub mod movegen;
pub mod eval;
pub mod fen;
pub mod legal;
pub mod time;
pub mod zobrist;
pub mod engine;
pub mod uci;
pub mod api;
pub mod search;
