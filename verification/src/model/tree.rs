//! Forest of layout nodes.
//!
//! `view` says what a forest is and what each edit makes of it, `proofs` shows
//! that edits keep it well formed, `forest` is the executable structure. The
//! rest is about what edits leave as it was: `kept` about nodes and roots,
//! `homes` about the tree that a node belongs to and the windows of a tree, `led`
//! about the path to what is selected, `culled` and `pruned` about taking out
//! windows and subtrees, `rows` about trees that are a single row of windows.

pub mod culled;
pub mod forest;
pub mod homes;
pub mod kept;
pub mod led;
pub mod proofs;
pub mod pruned;
pub mod rows;
pub mod view;
