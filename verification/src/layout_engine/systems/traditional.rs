//! Layouts as trees of containers.
//!
//! `view` says what each command makes of the trees, `edits` and `system` are
//! the executable commands. The laws are grouped by what they are about:
//! commands within a layout (`laws`, with its lemmas in `joins`), the index of
//! windows (`filed`), new windows and selection (`arrivals`, `follow`), the windows
//! of an app (`membership`), layouts that come and go (`lifecycle`), windows that
//! change places or identity (`exchanges`) or move to another layout
//! (`transfers`), what is switched on and off (`toggles`), where nodes go (`steps`), what
//! the focus reaches (`glances`), what becomes of containers (`boxes`, `leaving`) and of
//! what they show (`faces`).

pub mod arrivals;
pub mod boxes;
pub mod edits;
pub mod exchanges;
pub mod faces;
pub mod filed;
pub mod follow;
pub mod glances;
pub mod joins;
pub mod laws;
pub mod leaving;
pub mod lifecycle;
pub mod membership;
pub mod steps;
pub mod system;
pub mod toggles;
pub mod transfers;
pub mod view;
