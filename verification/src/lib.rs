pub mod arena;
pub mod bits;
pub mod bridge;
pub mod lines;
pub mod mv;
pub mod engine;
pub mod error;
pub mod game;
pub mod itgo;
pub mod outcome;
pub mod piece;
pub mod protocol;
pub mod sq;
pub mod state;
pub mod text;
