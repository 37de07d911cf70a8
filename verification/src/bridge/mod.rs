//! The bridge between the Migoyugo site and a local engine.

pub mod config;
pub mod controller;
pub mod models;
pub mod session;
