//! Which layout each workspace uses on a display of a given size.

pub mod displays;
pub mod laws;
pub mod layouts;
pub mod view;
