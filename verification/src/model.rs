//! State that the window manager keeps.

pub mod app_rules;
pub mod reactor;
pub mod server;
pub mod tree;
pub mod window_store;
