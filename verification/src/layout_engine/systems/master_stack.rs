//! Layouts with a master area and a stack beside it.

pub mod entries;
pub mod focus;
pub mod laws;
pub mod sides;
pub mod system;
pub mod view;
