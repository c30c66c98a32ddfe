//! Finding one's way in a layout tree.

use vstd::prelude::*;

use crate::actor::WindowId;
use crate::layout_engine::Direction;
use crate::model::tree::forest::Forest;
use crate::model::tree::proofs;
use crate::model::tree::view;
use crate::model::tree::view::{ForestView, NodeId};

verus! {

/// How much of the screen a node covers.
#[derive(Clone, Copy, Debug, PartialEq, Eq, Structural)]
pub enum Coverage {
    /// Its share of the layout.
    Share,
    /// The whole screen.
    Screen,
    /// The screen within its outer gaps.
    WithinGaps,
}

/// The first node of a path, from position `from` on, with a property.
pub open spec fn find_on(
    path: Seq<NodeId>,
    from: int,
    good: spec_fn(NodeId) -> bool,
) -> Option<NodeId>
    decreases path.len() - from,
{
    if 0 <= from < path.len() {
        if good(path[from]) {
            Some(path[from])
        } else {
            find_on(path, from + 1, good)
        }
    } else {
        None
    }
}

impl ForestView {
    /// The sibling in a direction, if the parent lays its children out that way.
    pub open spec fn move_over(self, n: NodeId, direction: Direction) -> Option<NodeId> {
        if self.parent(n) is Some && self.kind(self.parent(n)->0).axis() == direction.axis() {
            self.sibling(n, direction.is_forward())
        } else {
            None
        }
    }

    /// Where entering a container in a direction leads: to the child it leads
    /// to, else to the last child when moving forward in a plain container and
    /// to the first one otherwise, and so on down to a node without children.
    pub open spec fn descend(self, n: NodeId, direction: Direction) -> NodeId
        decreases view::height(self.nodes, n),
    {
        if self.children(n).len() == 0 {
            n
        } else {
            let next = match self.local_selection(n) {
                Some(c) => c,
                None => if direction.is_forward() && !self.kind(n).stacks() {
                    self.children(n).last()
                } else {
                    self.children(n)[0]
                },
            };
            if view::height(self.nodes, next) < view::height(self.nodes, n) {
                self.descend(next, direction)
            } else {
                next
            }
        }
    }

    /// The nearest ancestor, from the parent on, with a neighbour in a direction.
    pub open spec fn turning_point(self, n: NodeId, direction: Direction) -> Option<NodeId> {
        find_on(self.ancestors(n), 1, |a: NodeId| self.move_over(a, direction) is Some)
    }

    /// The node next to `n` in a direction.
    pub open spec fn traverse(self, n: NodeId, direction: Direction) -> Option<NodeId> {
        match self.move_over(n, direction) {
            Some(c) => Some(c),
            None => match self.turning_point(n, direction) {
                Some(a) => Some(self.descend(self.move_over(a, direction)->0, direction)),
                None => None,
            },
        }
    }

    /// The window that focusing a node focuses, with its node: below the child
    /// that the node leads to or remembers, else below the first child with one.
    pub open spec fn best_focus(self, n: NodeId) -> Option<(NodeId, WindowId)>
        decreases view::height(self.nodes, n), self.children(n).len() + 1,
    {
        match self.window(n) {
            Some(w) => Some((n, w)),
            None => {
                let preferred = match self.last_selection(n) {
                    Some(c) => if view::height(self.nodes, c) < view::height(self.nodes, n) {
                        self.best_focus(c)
                    } else {
                        None
                    },
                    None => None,
                };
                if preferred is Some {
                    preferred
                } else {
                    self.best_focus_among(n, self.children(n).len())
                }
            },
        }
    }

    /// The first focus target among the last `left` children.
    pub open spec fn best_focus_among(self, n: NodeId, left: nat) -> Option<(NodeId, WindowId)>
        decreases view::height(self.nodes, n), left,
    {
        if left == 0 || left > self.children(n).len() {
            None
        } else {
            let c = self.children(n)[self.children(n).len() - left];
            let target = if view::height(self.nodes, c) < view::height(self.nodes, n) {
                self.best_focus(c)
            } else {
                None
            };
            if target is Some {
                target
            } else {
                self.best_focus_among(n, (left - 1) as nat)
            }
        }
    }

    /// The child of a container that a join from outside goes to.
    pub open spec fn join_child(self, n: NodeId, direction: Direction) -> Option<NodeId> {
        if self.children(n).len() == 0 {
            None
        } else if self.kind(n).axis() == direction.axis() {
            if direction.is_forward() {
                Some(self.children(n).last())
            } else {
                Some(self.children(n)[0])
            }
        } else {
            match self.local_selection(n) {
                Some(c) => Some(c),
                None => Some(self.children(n)[0]),
            }
        }
    }

    /// The nearest ancestor, from the parent on, with a sibling in a direction.
    pub open spec fn sibling_ancestor(self, n: NodeId, direction: Direction) -> Option<NodeId> {
        find_on(
            self.ancestors(n),
            1,
            |a: NodeId| self.sibling(a, direction.is_forward()) is Some,
        )
    }

    pub open spec fn hierarchical_join(self, n: NodeId, direction: Direction) -> Option<NodeId> {
        match self.sibling_ancestor(n, direction) {
            Some(a) => self.join_child(
                self.sibling(a, direction.is_forward())->0,
                direction.reversed(),
            ),
            None => None,
        }
    }

    /// The neighbour of the parent, where joining reaches past the parent: the
    /// parent lies along the direction, is no stack, and `n` is at its end or
    /// one of two children.
    pub open spec fn join_beyond(self, n: NodeId, direction: Direction) -> Option<NodeId> {
        if self.parent(n) is Some {
            let p = self.parent(n)->0;
            if self.kind(p).axis() == direction.axis() && !self.kind(p).stacks() && (
            self.children(p).len() == 2 || self.sibling(n, direction.is_forward()) is None) {
                self.sibling(p, direction.is_forward())
            } else {
                None
            }
        } else {
            None
        }
    }

    /// What a node joins with in a direction.
    pub open spec fn join_target(self, n: NodeId, direction: Direction) -> Option<NodeId> {
        if self.join_beyond(n, direction) is Some {
            self.join_beyond(n, direction)
        } else if self.sibling(n, direction.is_forward()) is Some {
            self.sibling(n, direction.is_forward())
        } else {
            match self.traverse(n, direction) {
                Some(t) => if self.window(t) is Some {
                    Some(t)
                } else if self.join_child(t, direction) is Some {
                    self.join_child(t, direction)
                } else {
                    Some(t)
                },
                None => self.hierarchical_join(n, direction),
            }
        }
    }

    /// Whether the size of a node can change at its edge in a direction.
    pub open spec fn resizable(self, n: NodeId, direction: Direction) -> bool {
        &&& self.parent(n) is Some
        &&& !self.kind(self.parent(n)->0).stacks()
        &&& self.move_over(n, direction) is Some
    }

    /// The node whose size changes when `n` grows in a direction.
    pub open spec fn resizing(self, n: NodeId, direction: Direction) -> Option<NodeId> {
        find_on(self.ancestors(n), 0, |a: NodeId| self.resizable(a, direction))
    }

    /// All stacks around a node lead towards it.
    pub open spec fn on_display(self, n: NodeId) -> bool {
        let path = self.ancestors(n);
        forall|i: int|
            0 <= i < path.len() - 1 && self.kind(#[trigger] path[i + 1]).stacks()
                ==> self.local_selection(path[i + 1]) == Some(path[i])
    }

    pub open spec fn covers(self, n: NodeId) -> bool {
        self.info(n).is_fullscreen || self.info(n).is_fullscreen_within_gaps
    }

    /// How much of the screen a node covers, by itself or with an ancestor.
    pub open spec fn coverage(self, n: NodeId) -> Coverage {
        match find_on(self.ancestors(n), 0, |a: NodeId| self.covers(a)) {
            Some(a) => if self.info(a).is_fullscreen {
                Coverage::Screen
            } else {
                Coverage::WithinGaps
            },
            None => Coverage::Share,
        }
    }
}

impl Forest {
    /// The sibling in a direction, if the parent lays its children out that way.
    pub fn move_over(&self, n: NodeId, direction: Direction) -> (r: Option<NodeId>)
        requires
            self.wf(),
        ensures
            r == self@.move_over(n, direction),
    {
        match self.parent(n) {
            Some(p) => if self.kind(p).orientation() == direction.orientation() {
                self.sibling(n, direction.forward())
            } else {
                None
            },
            None => None,
        }
    }

    /// Where entering a container in a direction leads.
    pub fn descend_into_target(&self, target: NodeId, direction: Direction) -> (r: NodeId)
        requires
            self.wf(),
        ensures
            r == self@.descend(target, direction),
    {
        let mut current = target;
        while self.child_count(current) > 0
            invariant
                self.wf(),
                self@.descend(current, direction) == self@.descend(target, direction),
            decreases view::height(self@.nodes, current),
        {
            let next = match self.local_selection(current) {
                Some(c) => c,
                None => if direction.forward() && !self.kind(current).is_stacked() {
                    self.last_child(current).unwrap()
                } else {
                    self.first_child(current).unwrap()
                },
            };
            proof {
                proofs::lemma_node(self@, current);
                let kids = self@.nodes[current].children;
                if self@.local_selection(current) is Some {
                    proofs::lemma_pick(self@, current);
                } else {
                    assert(kids[kids.len() - 1] == kids.last());
                    assert(next == kids[0] || next == kids[kids.len() - 1]);
                }
            }
            current = next;
        }
        current
    }

    fn turning_point(&self, n: NodeId, direction: Direction) -> (r: Option<NodeId>)
        requires
            self.wf(),
        ensures
            r == self@.turning_point(n, direction),
    {
        let path = self.ancestors(n);
        let ghost good = |a: NodeId| self@.move_over(a, direction) is Some;
        let mut i: usize = 1;
        while i < path.len()
            invariant
                self.wf(),
                1 <= i,
                path@ == self@.ancestors(n),
                good == (|a: NodeId| self@.move_over(a, direction) is Some),
                find_on(path@, 1, good) == find_on(path@, i as int, good),
            decreases path.len() - i,
        {
            if self.move_over(path[i], direction).is_some() {
                return Some(path[i]);
            }
            i += 1;
        }
        None
    }

    /// The node next to `from` in a direction.
    pub fn traverse(&self, from: NodeId, direction: Direction) -> (r: Option<NodeId>)
        requires
            self.wf(),
        ensures
            r == self@.traverse(from, direction),
    {
        match self.move_over(from, direction) {
            Some(c) => Some(c),
            None => match self.turning_point(from, direction) {
                Some(a) => {
                    proof {
                        lemma_find_on(
                            self@.ancestors(from),
                            1,
                            |a: NodeId| self@.move_over(a, direction) is Some,
                        );
                    }
                    let target = self.move_over(a, direction).unwrap();
                    Some(self.descend_into_target(target, direction))
                },
                None => None,
            },
        }
    }

    /// The window that focusing a node focuses, with its node.
    pub fn find_best_focus_target(&self, n: NodeId) -> (r: Option<(NodeId, WindowId)>)
        requires
            self.wf(),
        ensures
            r == self@.best_focus(n),
        decreases view::height(self@.nodes, n),
    {
        match self.window_at(n) {
            Some(w) => {
                return Some((n, w));
            },
            None => {},
        }
        match self.last_selection(n) {
            Some(c) => {
                proof {
                    proofs::lemma_pick(self@, n);
                }
                let preferred = self.find_best_focus_target(c);
                if preferred.is_some() {
                    return preferred;
                }
            },
            None => {},
        }
        let kids = self.children(n);
        let mut i: usize = 0;
        while i < kids.len()
            invariant
                self.wf(),
                kids@ == self@.children(n),
                i <= kids.len(),
                self@.best_focus(n) == self@.best_focus_among(n, (kids.len() - i) as nat),
            decreases kids.len() - i,
        {
            let c = kids[i];
            proof {
                proofs::lemma_node(self@, n);
                assert(self@.nodes[n].children[i as int] == c);
            }
            let target = self.find_best_focus_target(c);
            if target.is_some() {
                return target;
            }
            i += 1;
        }
        None
    }

    fn join_child(&self, n: NodeId, direction: Direction) -> (r: Option<NodeId>)
        requires
            self.wf(),
        ensures
            r == self@.join_child(n, direction),
    {
        if self.child_count(n) == 0 {
            return None;
        }
        if self.kind(n).orientation() == direction.orientation() {
            if direction.forward() {
                self.last_child(n)
            } else {
                self.first_child(n)
            }
        } else {
            match self.local_selection(n) {
                Some(c) => Some(c),
                None => self.first_child(n),
            }
        }
    }

    fn hierarchical_join(&self, n: NodeId, direction: Direction) -> (r: Option<NodeId>)
        requires
            self.wf(),
        ensures
            r == self@.hierarchical_join(n, direction),
    {
        let path = self.ancestors(n);
        let ghost good = |a: NodeId| self@.sibling(a, direction.is_forward()) is Some;
        let mut i: usize = 1;
        while i < path.len()
            invariant
                self.wf(),
                1 <= i,
                path@ == self@.ancestors(n),
                good == (|a: NodeId| self@.sibling(a, direction.is_forward()) is Some),
                find_on(path@, 1, good) == find_on(path@, i as int, good),
            decreases path.len() - i,
        {
            match self.sibling(path[i], direction.forward()) {
                Some(target) => {
                    return self.join_child(target, direction.opposite());
                },
                None => {},
            }
            i += 1;
        }
        None
    }

    fn join_beyond(&self, n: NodeId, direction: Direction) -> (r: Option<NodeId>)
        requires
            self.wf(),
        ensures
            r == self@.join_beyond(n, direction),
    {
        match self.parent(n) {
            Some(p) => if self.kind(p).orientation() == direction.orientation() && !self.kind(
                p,
            ).is_group() && (self.child_count(p) == 2 || self.sibling(
                n,
                direction.forward(),
            ).is_none()) {
                self.sibling(p, direction.forward())
            } else {
                None
            },
            None => None,
        }
    }

    /// What a node joins with in a direction.
    pub fn find_natural_join_target(&self, from: NodeId, direction: Direction) -> (r: Option<
        NodeId,
    >)
        requires
            self.wf(),
        ensures
            r == self@.join_target(from, direction),
    {
        let beyond = self.join_beyond(from, direction);
        if beyond.is_some() {
            return beyond;
        }
        let sibling = self.sibling(from, direction.forward());
        if sibling.is_some() {
            return sibling;
        }
        match self.traverse(from, direction) {
            Some(t) => {
                if self.window_at(t).is_some() {
                    return Some(t);
                }
                match self.join_child(t, direction) {
                    Some(c) => Some(c),
                    None => Some(t),
                }
            },
            None => self.hierarchical_join(from, direction),
        }
    }

    /// Whether the size of a node can change at its edge in a direction.
    fn is_resizable(&self, n: NodeId, direction: Direction) -> (r: bool)
        requires
            self.wf(),
        ensures
            r == self@.resizable(n, direction),
    {
        match self.parent(n) {
            Some(p) => !self.kind(p).is_group() && self.move_over(n, direction).is_some(),
            None => false,
        }
    }

    /// The node whose size changes when `n` grows in a direction.
    pub fn resizing(&self, n: NodeId, direction: Direction) -> (r: Option<NodeId>)
        requires
            self.wf(),
        ensures
            r == self@.resizing(n, direction),
    {
        let path = self.ancestors(n);
        let ghost good = |a: NodeId| self@.resizable(a, direction);
        let mut i: usize = 0;
        while i < path.len()
            invariant
                self.wf(),
                path@ == self@.ancestors(n),
                good == (|a: NodeId| self@.resizable(a, direction)),
                find_on(path@, 0, good) == find_on(path@, i as int, good),
            decreases path.len() - i,
        {
            if self.is_resizable(path[i], direction) {
                return Some(path[i]);
            }
            i += 1;
        }
        None
    }

    /// Whether a node can grow in a direction.
    pub fn can_resize_towards(&self, n: NodeId, direction: Direction) -> (r: bool)
        requires
            self.wf(),
        ensures
            r == (self@.resizing(n, direction) is Some),
    {
        self.resizing(n, direction).is_some()
    }

    /// Whether all stacks around a node lead towards it.
    pub fn is_on_display(&self, n: NodeId) -> (r: bool)
        requires
            self.wf(),
        ensures
            r == self@.on_display(n),
    {
        let path = self.ancestors(n);
        let mut i: usize = 0;
        while i < path.len() - 1
            invariant
                path@ == self@.ancestors(n),
                i < path@.len(),
                forall|j: int|
                    0 <= j < i && self@.kind(#[trigger] path@[j + 1]).stacks()
                        ==> self@.local_selection(path@[j + 1]) == Some(path@[j]),
            decreases path.len() - i,
        {
            let up = path[i + 1];
            if self.kind(up).is_stacked() {
                let leads = match self.local_selection(up) {
                    Some(c) => c == path[i],
                    None => false,
                };
                if !leads {
                    assert(self@.kind(path@[i + 1]).stacks());
                    return false;
                }
            }
            i += 1;
        }
        true
    }

    /// How much of the screen a node covers, by itself or with an ancestor.
    pub fn coverage(&self, n: NodeId) -> (r: Coverage)
        requires
            self.wf(),
        ensures
            r == self@.coverage(n),
    {
        let path = self.ancestors(n);
        let ghost good = |a: NodeId| self@.covers(a);
        let mut i: usize = 0;
        while i < path.len()
            invariant
                path@ == self@.ancestors(n),
                good == (|a: NodeId| self@.covers(a)),
                find_on(path@, 0, good) == find_on(path@, i as int, good),
            decreases path.len() - i,
        {
            let info = self.info(path[i]);
            if info.is_fullscreen {
                return Coverage::Screen;
            }
            if info.is_fullscreen_within_gaps {
                return Coverage::WithinGaps;
            }
            i += 1;
        }
        Coverage::Share
    }
}

/// A node that a search finds has the property.
pub proof fn lemma_find_on(path: Seq<NodeId>, from: int, good: spec_fn(NodeId) -> bool)
    ensures
        find_on(path, from, good) matches Some(a) ==> good(a) && path.contains(a),
    decreases path.len() - from,
{
    if 0 <= from < path.len() {
        if good(path[from]) {
            assert(path[from] == path[from]);
        } else {
            lemma_find_on(path, from + 1, good);
        }
    }
}

} // verus!
