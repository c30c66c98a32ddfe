//! Settings and containers that the other modules share.

pub mod collections;
pub mod config;
