//! What the window server and the accessibility layer report.

use vstd::prelude::*;

use crate::common::collections::Distinct;
use crate::geometry::Frame;

verus! {

/// A native space of the window server.
#[derive(Clone, Copy, Debug, PartialEq, Eq, Structural, PartialOrd, Ord, Hash)]
pub struct SpaceId {
    pub raw: u64,
}

impl SpaceId {
    pub fn new(raw: u64) -> (r: SpaceId)
        ensures
            r == (SpaceId { raw }),
    {
        SpaceId { raw }
    }

    pub fn get(self) -> (r: u64)
        ensures
            r == self.raw,
    {
        self.raw
    }
}

impl Distinct for SpaceId {
    fn same(self, other: Self) -> (r: bool) {
        self == other
    }
}

/// A window as the window server numbers it.
#[derive(Clone, Copy, Debug, PartialEq, Eq, Structural, PartialOrd, Ord, Hash)]
pub struct WindowServerId {
    pub raw: u32,
}

impl WindowServerId {
    pub fn new(raw: u32) -> (r: WindowServerId)
        ensures
            r == (WindowServerId { raw }),
    {
        WindowServerId { raw }
    }

    pub fn as_u32(self) -> (r: u32)
        ensures
            r == self.raw,
    {
        self.raw
    }
}

impl Distinct for WindowServerId {
    fn same(self, other: Self) -> (r: bool) {
        self == other
    }
}

/// A screen as the window server numbers it.
#[derive(Clone, Copy, Debug, PartialEq, Eq, Structural, PartialOrd, Ord, Hash)]
pub struct ScreenId {
    pub raw: u32,
}

impl ScreenId {
    pub fn new(raw: u32) -> (r: ScreenId)
        ensures
            r == (ScreenId { raw }),
    {
        ScreenId { raw }
    }

    pub fn as_u32(self) -> (r: u32)
        ensures
            r == self.raw,
    {
        self.raw
    }
}

/// A width and a height. Each is the bits of a double-precision number.
#[derive(Clone, Copy, Debug, PartialEq, Eq, Structural, Hash)]
pub struct Extent {
    pub width: u64,
    pub height: u64,
}

/// What the accessibility layer says of a window.
#[derive(Debug)]
pub struct WindowInfo {
    pub is_standard: bool,
    pub is_root: bool,
    pub is_minimized: bool,
    pub is_resizable: bool,
    pub min_size: Option<Extent>,
    pub max_size: Option<Extent>,
    pub title: String,
    pub frame: Frame,
    pub sys_id: Option<WindowServerId>,
    pub bundle_id: Option<String>,
    pub path: Option<String>,
    pub ax_role: Option<String>,
    pub ax_subrole: Option<String>,
}

/// What the window server says of a window.
#[derive(Clone, Copy, Debug, PartialEq, Eq, Structural)]
pub struct WindowServerInfo {
    pub id: WindowServerId,
    pub pid: i32,
    pub layer: i32,
    pub frame: Frame,
}

/// What the window server says of a screen.
#[derive(Debug)]
pub struct ScreenInfo {
    pub id: ScreenId,
    pub frame: Frame,
    pub display_uuid: String,
    pub name: Option<String>,
    pub space: Option<SpaceId>,
}

} // verus!
