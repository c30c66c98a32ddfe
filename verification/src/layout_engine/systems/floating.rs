//! Layouts whose windows keep frames of their own.

pub mod drifts;
pub mod laws;
pub mod system;
pub mod view;
