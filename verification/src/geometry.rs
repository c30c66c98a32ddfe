//! Rectangles as values that can be kept and handed on.

use vstd::prelude::*;

verus! {

/// A rectangle. Each number is the bits of a double-precision number.
#[derive(Clone, Copy, Debug, PartialEq, Eq, Structural, Hash)]
pub struct Frame {
    pub x: u64,
    pub y: u64,
    pub width: u64,
    pub height: u64,
}

} // verus!
