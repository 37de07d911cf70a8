//! The first engine: protocol types and a move maker on bitboards.

pub mod protocol;
pub mod state;
