//! The Itgo engine: bitboard move making, game stack, limits and search support.

pub mod alphabeta;
pub mod bitboard;
pub mod lanes;
pub mod protocol;
pub mod tt;
pub mod state;
pub mod game;
pub mod limits;
pub mod negamax;
pub mod rules;
pub mod search;
pub mod thread;
pub mod shared;
