//! Layouts as strips of columns that scroll sideways.

pub mod laws;
pub mod motion;
pub mod places;
pub mod requests;
pub mod sights;
pub mod state;
pub mod system;
pub mod table;
pub mod view;
