//! Core of a tiling window manager: layout trees, scrolling strips, window
//! bookkeeping and window rules, with their behaviour stated in contracts.
//!
//! Frames, ratios and sizes are floating-point quantities that belong to the
//! rendering layer. The library carries them as raw bits where it only has to
//! remember them, and hands out decisions and events where they are computed.

pub mod actor;
pub mod common;
pub mod geometry;
pub mod layout_engine;
pub mod model;
pub mod sys;
