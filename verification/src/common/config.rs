//! Options that users set for the layout systems.

use vstd::prelude::*;

use crate::layout_engine::Orientation;

verus! {

/// Where a new window enters a layout.
#[derive(Clone, Copy, Debug, PartialEq, Eq, Structural)]
pub enum WindowInsertionPoint {
    NextToSelection,
    EndOfTree,
}

impl Default for WindowInsertionPoint {
    fn default() -> (r: WindowInsertionPoint)
        ensures
            r == WindowInsertionPoint::NextToSelection,
    {
        WindowInsertionPoint::NextToSelection
    }
}

/// How a container turns into a stack.
#[derive(Clone, Copy, Debug, PartialEq, Eq, Structural)]
pub enum StackDefaultOrientation {
    Perpendicular,
    Same,
    Horizontal,
    Vertical,
}

/// The orientation that stacks take when nothing else is configured.
pub fn default_stack_orientation() -> (r: StackDefaultOrientation)
    ensures
        r == StackDefaultOrientation::Perpendicular,
{
    StackDefaultOrientation::Perpendicular
}

/// Settings that all layout systems share.
#[derive(Clone, Copy, Debug, PartialEq, Eq, Structural)]
pub struct BaseLayoutSettings {
    pub window_insertion_point: Option<WindowInsertionPoint>,
}

/// Where the focused column of a strip comes to rest.
#[derive(Clone, Copy, Debug, PartialEq, Eq, Structural)]
pub enum ScrollingAlignment {
    Left,
    Center,
    Right,
}

/// How a strip scrolls when focus moves.
#[derive(Clone, Copy, Debug, PartialEq, Eq, Structural)]
pub enum ScrollingFocusNavigationStyle {
    /// The focused column goes to the anchor.
    Anchored,
    /// The strip scrolls just enough to show the focused column.
    Niri,
}

/// Settings of strips. Ratios are the bits of double-precision numbers.
#[derive(Clone, Copy, Debug, PartialEq, Eq, Structural)]
pub struct ScrollingLayoutSettings {
    pub base: BaseLayoutSettings,
    pub column_width_ratio: u64,
    pub min_column_width_ratio: u64,
    pub max_column_width_ratio: u64,
    pub alignment: ScrollingAlignment,
    pub focus_navigation_style: ScrollingFocusNavigationStyle,
    pub workspace_switch_threshold: u64,
}

/// Columns take 0.7 of the screen, between 0.3 and 0.9, and strips scroll just
/// enough.
pub open spec fn stock_scrolling_settings() -> ScrollingLayoutSettings {
    ScrollingLayoutSettings {
        base: BaseLayoutSettings { window_insertion_point: None },
        column_width_ratio: 0x3FE6666666666666,
        min_column_width_ratio: 0x3FD3333333333333,
        max_column_width_ratio: 0x3FECCCCCCCCCCCCD,
        alignment: ScrollingAlignment::Center,
        focus_navigation_style: ScrollingFocusNavigationStyle::Niri,
        workspace_switch_threshold: 0x3FE0000000000000,
    }
}

impl Default for ScrollingLayoutSettings {
    fn default() -> (r: ScrollingLayoutSettings)
        ensures
            r == stock_scrolling_settings(),
    {
        ScrollingLayoutSettings {
            base: BaseLayoutSettings { window_insertion_point: None },
            column_width_ratio: 0x3FE6666666666666,
            min_column_width_ratio: 0x3FD3333333333333,
            max_column_width_ratio: 0x3FECCCCCCCCCCCCD,
            alignment: ScrollingAlignment::Center,
            focus_navigation_style: ScrollingFocusNavigationStyle::Niri,
            workspace_switch_threshold: 0x3FE0000000000000,
        }
    }
}

/// The side of the screen that the master area takes.
#[derive(Clone, Copy, Debug, PartialEq, Eq, Structural)]
pub enum MasterStackSide {
    Left,
    Right,
    Top,
    Bottom,
}

/// The area that a new window goes to.
#[derive(Clone, Copy, Debug, PartialEq, Eq, Structural)]
pub enum MasterStackNewWindowPlacement {
    Master,
    Stack,
    /// The area that has the focus.
    Focused,
}

/// Settings of master-stack layouts. The ratio is the bits of a double-precision
/// number.
#[derive(Clone, Copy, Debug, PartialEq, Eq, Structural)]
pub struct MasterStackSettings {
    pub base: BaseLayoutSettings,
    pub master_ratio: u64,
    pub master_count: usize,
    pub master_side: MasterStackSide,
    pub new_window_placement: MasterStackNewWindowPlacement,
    pub master_arrangement: Option<Orientation>,
    pub stack_arrangement: Option<Orientation>,
}

/// The bits of a double-precision number without its sign.
pub open spec fn magnitude(bits: u64) -> int {
    if bits < 0x8000000000000000 {
        bits as int
    } else {
        bits - 0x8000000000000000
    }
}

/// Whether double-precision numbers with these bits compare equal: the two zeros
/// do, and what is not a number equals nothing.
pub open spec fn same_number(a: u64, b: u64) -> bool {
    ||| magnitude(a) == 0 && magnitude(b) == 0
    ||| a == b && magnitude(a) <= 0x7FF0000000000000
}

/// Whether double-precision numbers with these bits compare equal.
pub fn numbers_equal(a: u64, b: u64) -> (r: bool)
    ensures
        r == same_number(a, b),
{
    let sign: u64 = 0x8000000000000000;
    let size_a: u64 = if a < sign {
        a
    } else {
        a - sign
    };
    let size_b: u64 = if b < sign {
        b
    } else {
        b - sign
    };
    (size_a == 0 && size_b == 0) || (a == b && size_a <= 0x7FF0000000000000)
}

impl MasterStackSettings {
    /// Whether settings compare equal, the ratio as a number.
    pub open spec fn agrees(self, other: MasterStackSettings) -> bool {
        &&& same_number(self.master_ratio, other.master_ratio)
        &&& self == (MasterStackSettings { master_ratio: self.master_ratio, ..other })
    }

    /// Whether settings compare equal, the ratio as a number.
    pub fn agrees_with(&self, other: &MasterStackSettings) -> (r: bool)
        ensures
            r == self.agrees(*other),
    {
        let mut with_ratio = *other;
        with_ratio.master_ratio = self.master_ratio;
        numbers_equal(self.master_ratio, other.master_ratio) && *self == with_ratio
    }
}

/// One master window on the left, which takes 0.6 of the screen.
pub open spec fn stock_master_stack_settings() -> MasterStackSettings {
    MasterStackSettings {
        base: BaseLayoutSettings { window_insertion_point: None },
        master_ratio: 0x3FE3333333333333,
        master_count: 1,
        master_side: MasterStackSide::Left,
        new_window_placement: MasterStackNewWindowPlacement::Master,
        master_arrangement: None,
        stack_arrangement: None,
    }
}

impl Default for MasterStackSettings {
    fn default() -> (r: MasterStackSettings)
        ensures
            r == stock_master_stack_settings(),
    {
        MasterStackSettings {
            base: BaseLayoutSettings { window_insertion_point: None },
            master_ratio: 0x3FE3333333333333,
            master_count: 1,
            master_side: MasterStackSide::Left,
            new_window_placement: MasterStackNewWindowPlacement::Master,
            master_arrangement: None,
            stack_arrangement: None,
        }
    }
}

} // verus!
