//! The arena: matches between a development engine and a base engine.

pub mod book;
pub mod log;
pub mod protocol;
pub mod referee;
pub mod stats;
