//! Layouts and the systems that arrange windows in them.

use vstd::prelude::*;

pub mod systems;
pub mod workspaces;

verus! {

/// An axis of the screen.
#[derive(Clone, Copy, Debug, PartialEq, Eq, Structural)]
pub enum Orientation {
    Horizontal,
    Vertical,
}

/// A direction on the screen.
#[derive(Clone, Copy, Debug, PartialEq, Eq, Structural)]
pub enum Direction {
    Left,
    Right,
    Up,
    Down,
}

/// Which size a resize command changes.
#[derive(Clone, Copy, Debug, PartialEq, Eq, Structural)]
pub enum ResizeOrientation {
    Horizontal,
    Vertical,
    Smart,
}

/// How a container arranges its children.
#[derive(Clone, Copy, Debug, PartialEq, Eq, Structural)]
pub enum LayoutKind {
    Horizontal,
    Vertical,
    HorizontalStack,
    VerticalStack,
}

impl Default for LayoutKind {
    fn default() -> (r: LayoutKind)
        ensures
            r == LayoutKind::Horizontal,
    {
        LayoutKind::Horizontal
    }
}

impl Direction {
    pub open spec fn axis(self) -> Orientation {
        match self {
            Direction::Left | Direction::Right => Orientation::Horizontal,
            Direction::Up | Direction::Down => Orientation::Vertical,
        }
    }

    /// Whether the direction follows the order in which children are laid out.
    pub open spec fn is_forward(self) -> bool {
        self is Right || self is Down
    }

    pub open spec fn reversed(self) -> Direction {
        match self {
            Direction::Left => Direction::Right,
            Direction::Right => Direction::Left,
            Direction::Up => Direction::Down,
            Direction::Down => Direction::Up,
        }
    }

    pub fn orientation(self) -> (r: Orientation)
        ensures
            r == self.axis(),
    {
        match self {
            Direction::Left | Direction::Right => Orientation::Horizontal,
            Direction::Up | Direction::Down => Orientation::Vertical,
        }
    }

    pub fn forward(self) -> (r: bool)
        ensures
            r == self.is_forward(),
    {
        match self {
            Direction::Right | Direction::Down => true,
            Direction::Left | Direction::Up => false,
        }
    }

    pub fn opposite(self) -> (r: Direction)
        ensures
            r == self.reversed(),
    {
        match self {
            Direction::Left => Direction::Right,
            Direction::Right => Direction::Left,
            Direction::Up => Direction::Down,
            Direction::Down => Direction::Up,
        }
    }
}

impl LayoutKind {
    pub open spec fn axis(self) -> Orientation {
        match self {
            LayoutKind::Horizontal | LayoutKind::HorizontalStack => Orientation::Horizontal,
            LayoutKind::Vertical | LayoutKind::VerticalStack => Orientation::Vertical,
        }
    }

    /// Stacks show one child at a time.
    pub open spec fn stacks(self) -> bool {
        self is HorizontalStack || self is VerticalStack
    }

    /// The plain kind that lays children out along `axis`.
    pub open spec fn along(axis: Orientation) -> LayoutKind {
        match axis {
            Orientation::Horizontal => LayoutKind::Horizontal,
            Orientation::Vertical => LayoutKind::Vertical,
        }
    }

    pub fn orientation(self) -> (r: Orientation)
        ensures
            r == self.axis(),
    {
        match self {
            LayoutKind::Horizontal | LayoutKind::HorizontalStack => Orientation::Horizontal,
            LayoutKind::Vertical | LayoutKind::VerticalStack => Orientation::Vertical,
        }
    }

    pub fn is_stacked(self) -> (r: bool)
        ensures
            r == self.stacks(),
    {
        match self {
            LayoutKind::HorizontalStack | LayoutKind::VerticalStack => true,
            LayoutKind::Horizontal | LayoutKind::Vertical => false,
        }
    }

    pub fn is_group(self) -> (r: bool)
        ensures
            r == self.stacks(),
    {
        self.is_stacked()
    }

    pub fn for_orientation(axis: Orientation) -> (r: LayoutKind)
        ensures
            r == LayoutKind::along(axis),
    {
        match axis {
            Orientation::Horizontal => LayoutKind::Horizontal,
            Orientation::Vertical => LayoutKind::Vertical,
        }
    }
}

} // verus!
