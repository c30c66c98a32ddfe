//! The one place that knows which windows exist and where they belong.

pub mod laws;
pub mod store;
pub mod traces;
pub mod view;
