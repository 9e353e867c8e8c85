pub mod api;
pub mod attacks;
pub mod bitboard;
pub mod board;
pub mod chess_move;
pub mod diagram;
pub mod eval;
pub mod fen_roundtrip;
pub mod hash_law;
pub mod io;
pub mod legality;
pub mod movegen;
pub mod move_order;
pub mod movelist;
pub mod opening_book;
pub mod perft;
pub mod piece;
pub mod polyglot;
pub mod search;
pub mod search_params;
pub mod square;
pub mod tt;
pub mod text;
pub mod time;
pub mod tune;
pub mod types;
pub mod uci;
pub mod zobrist;

pub use crate::api::EngineImpl;
