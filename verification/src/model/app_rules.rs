//! Rules that say what happens to the windows of applications.

pub mod effects;
pub mod engine;
pub mod laws;
pub mod patterns;
