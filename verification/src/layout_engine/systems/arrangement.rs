//! How a container lays out its children, apart from lengths.

use vstd::prelude::*;

use crate::actor::WindowId;
use crate::layout_engine::{LayoutKind, Orientation};
use crate::model::tree::forest::Forest;
use crate::model::tree::proofs;
use crate::model::tree::view::{ForestView, NodeId};

verus! {

/// What the children of a container need of a length, taken together.
#[derive(Clone, Copy, Debug, PartialEq, Eq, Structural)]
pub enum Combining {
    /// What the only child needs. A stack across the axis adds its line.
    Only { with_line: bool },
    /// What the most demanding child needs, and one offset for each further child.
    Piled,
    /// What the most demanding child needs, and the line of the stack.
    Lined,
    /// What all children need together, and the gaps between them.
    Summed,
    /// What the most demanding child needs.
    Largest,
}

/// How the needs of children combine along an axis.
pub open spec fn combined(kind: LayoutKind, axis: Orientation, children: nat) -> Combining {
    let along = kind.axis() == axis;
    if children == 1 {
        Combining::Only { with_line: kind.stacks() && !along }
    } else if kind.stacks() {
        if along {
            Combining::Piled
        } else {
            Combining::Lined
        }
    } else if along {
        Combining::Summed
    } else {
        Combining::Largest
    }
}

/// How the needs of children combine along an axis.
pub fn combining(kind: LayoutKind, axis: Orientation, children: usize) -> (r: Combining)
    ensures
        r == combined(kind, axis, children as nat),
{
    let along = kind.orientation() == axis;
    if children == 1 {
        Combining::Only { with_line: kind.is_group() && !along }
    } else if kind.is_group() {
        if along {
            Combining::Piled
        } else {
            Combining::Lined
        }
    } else if along {
        Combining::Summed
    } else {
        Combining::Largest
    }
}

/// What is to be drawn at a node.
#[derive(Clone, Copy, Debug, PartialEq, Eq, Structural)]
pub enum Arrangement {
    Nothing,
    Window { window: WindowId },
    /// Children on top of each other, the one in focus at a place.
    Pile { axis: Orientation, focused: usize },
    /// Children side by side.
    Row { axis: Orientation },
}

impl ForestView {
    /// The place of the child that a container leads to; the first without one.
    pub open spec fn focused_place(self, n: NodeId) -> int {
        match self.local_selection(n) {
            Some(c) => self.children(n).index_of(c),
            None => 0,
        }
    }

    /// What is to be drawn at a node.
    pub open spec fn arrangement(self, n: NodeId) -> Arrangement {
        match self.window(n) {
            Some(window) => Arrangement::Window { window },
            None => if self.children(n).len() == 0 {
                Arrangement::Nothing
            } else if self.kind(n).stacks() {
                Arrangement::Pile {
                    axis: self.kind(n).axis(),
                    focused: self.focused_place(n) as usize,
                }
            } else {
                Arrangement::Row { axis: self.kind(n).axis() }
            },
        }
    }
}

impl Forest {
    /// What is to be drawn at a node.
    pub fn arrangement(&self, n: NodeId) -> (r: Arrangement)
        requires
            self.wf(),
        ensures
            r == self@.arrangement(n),
            r is Pile ==> self@.focused_place(n) == r->focused < self@.children(n).len(),
    {
        match self.window_at(n) {
            Some(window) => Arrangement::Window { window },
            None => {
                let kind = self.kind(n);
                if self.child_count(n) == 0 {
                    Arrangement::Nothing
                } else if kind.is_group() {
                    let focused: usize = match self.local_selection(n) {
                        Some(c) => {
                            proof {
                                proofs::lemma_pick(self@, n);
                                proofs::lemma_node(self@, c);
                            }
                            self.rank(c)
                        },
                        None => 0,
                    };
                    Arrangement::Pile { axis: kind.orientation(), focused }
                } else {
                    Arrangement::Row { axis: kind.orientation() }
                }
            },
        }
    }
}

/// A stack shows the windows below the child that is in focus, and no others.
pub proof fn law_pile_shows_focused(f: ForestView, n: NodeId)
    requires
        f.wf(),
        f.arrangement(n) is Pile,
        f.local_selection(n) is Some,
    ensures
        0 <= f.focused_place(n) < f.children(n).len(),
        f.visible(n) == f.visible(f.children(n)[f.focused_place(n)]),
{
    proofs::lemma_pick(f, n);
    let c = f.local_selection(n)->0;
    proofs::lemma_node(f, c);
    assert(f.visible(n) =~= f.visible(c));
}

/// A row lays its children side by side, a column above each other, and their stacks
/// pile them up likewise. Along its axis a plain container needs what its children need
/// together, across it what the most demanding one needs; a stack needs one offset per
/// child along its axis and its line across it.
pub proof fn law_arranged(f: ForestView, n: NodeId, children: nat)
    requires
        f.window(n) is None,
        f.children(n).len() > 0,
        children != 1,
    ensures
        ({
            let kind = f.kind(n);
            let a = f.arrangement(n);
            let wide = combined(kind, Orientation::Horizontal, children);
            let high = combined(kind, Orientation::Vertical, children);
            &&& kind is Horizontal ==> a == Arrangement::Row { axis: Orientation::Horizontal }
                && wide is Summed && high is Largest
            &&& kind is Vertical ==> a == Arrangement::Row { axis: Orientation::Vertical }
                && wide is Largest && high is Summed
            &&& kind is HorizontalStack ==> a is Pile && a->Pile_axis is Horizontal && wide is Piled
                && high is Lined
            &&& kind is VerticalStack ==> a is Pile && a->Pile_axis is Vertical && wide is Lined
                && high is Piled
        }),
{
}

} // verus!
