//! Joining and taking apart containers of a forest.

use vstd::prelude::*;

use crate::common::config::StackDefaultOrientation;
use crate::layout_engine::systems::navigation;
use crate::layout_engine::systems::traditional::view;
use crate::layout_engine::{Direction, LayoutKind, Orientation};
use crate::model::tree::forest::Forest;
use crate::model::tree::kept;
use crate::model::tree::proofs;
use crate::model::tree::view::{NodeId, Place, SizeChange};

verus! {

/// The kind that a container takes when it becomes a stack.
pub fn stacked_kind(kind: LayoutKind, default: StackDefaultOrientation) -> (r: LayoutKind)
    ensures
        r == view::stacked_kind(kind, default),
{
    match kind {
        LayoutKind::HorizontalStack => LayoutKind::VerticalStack,
        LayoutKind::VerticalStack => LayoutKind::HorizontalStack,
        LayoutKind::Horizontal => match default {
            StackDefaultOrientation::Perpendicular => LayoutKind::VerticalStack,
            StackDefaultOrientation::Same => LayoutKind::HorizontalStack,
            StackDefaultOrientation::Horizontal => LayoutKind::HorizontalStack,
            StackDefaultOrientation::Vertical => LayoutKind::VerticalStack,
        },
        LayoutKind::Vertical => match default {
            StackDefaultOrientation::Perpendicular => LayoutKind::HorizontalStack,
            StackDefaultOrientation::Same => LayoutKind::VerticalStack,
            StackDefaultOrientation::Horizontal => LayoutKind::HorizontalStack,
            StackDefaultOrientation::Vertical => LayoutKind::VerticalStack,
        },
    }
}

/// The kind that a stack takes when it is taken apart.
pub fn unstacked_kind(kind: LayoutKind, default: StackDefaultOrientation) -> (r: LayoutKind)
    ensures
        r == view::unstacked_kind(kind, default),
{
    match default {
        StackDefaultOrientation::Horizontal => LayoutKind::Horizontal,
        StackDefaultOrientation::Vertical => LayoutKind::Vertical,
        StackDefaultOrientation::Same => LayoutKind::for_orientation(kind.orientation()),
        StackDefaultOrientation::Perpendicular => match kind.orientation() {
            Orientation::Horizontal => LayoutKind::Vertical,
            Orientation::Vertical => LayoutKind::Horizontal,
        },
    }
}

impl Forest {
    /// Notes that the sizes of a list of nodes are remembered.
    pub fn remember_sizes(&mut self, list: &Vec<NodeId>)
        requires
            old(self).wf(),
        ensures
            final(self).wf(),
            final(self)@ == old(self)@.noting_each(
                list@,
                |c: NodeId| SizeChange::Remembered { node: c },
            ),
            kept::rearranged(old(self)@, final(self)@),
    {
        let ghost before = self@;
        let ghost step = |c: NodeId| SizeChange::Remembered { node: c };
        let mut i: usize = 0;
        assert(self@.changes =~= before.changes + list@.take(0).map_values(step));
        while i < list.len()
            invariant
                i <= list.len(),
                self.wf(),
                step == (|c: NodeId| SizeChange::Remembered { node: c }),
                self@ == before.noting_each(list@.take(i as int), step),
            decreases list.len() - i,
        {
            self.note_size(SizeChange::Remembered { node: list[i] });
            i += 1;
            assert(self@.changes =~= before.changes + list@.take(i as int).map_values(step));
        }
        assert(list@.take(i as int) =~= list@);
    }

    /// Notes that a list of nodes get their remembered sizes back.
    pub fn recall_sizes(&mut self, list: &Vec<NodeId>)
        requires
            old(self).wf(),
        ensures
            final(self).wf(),
            final(self)@ == old(self)@.noting_each(
                list@,
                |c: NodeId| SizeChange::Recalled { node: c },
            ),
            kept::rearranged(old(self)@, final(self)@),
    {
        let ghost before = self@;
        let ghost step = |c: NodeId| SizeChange::Recalled { node: c };
        let mut i: usize = 0;
        assert(self@.changes =~= before.changes + list@.take(0).map_values(step));
        while i < list.len()
            invariant
                i <= list.len(),
                self.wf(),
                step == (|c: NodeId| SizeChange::Recalled { node: c }),
                self@ == before.noting_each(list@.take(i as int), step),
            decreases list.len() - i,
        {
            self.note_size(SizeChange::Recalled { node: list[i] });
            i += 1;
            assert(self@.changes =~= before.changes + list@.take(i as int).map_values(step));
        }
        assert(list@.take(i as int) =~= list@);
    }

    /// Where moving a node towards its neighbour ends.
    pub fn landing(&self, n: NodeId, direction: Direction) -> (r: NodeId)
        requires
            self.wf(),
        ensures
            r == self@.landing(n, direction),
    {
        let mut at = n;
        loop
            invariant
                self.wf(),
                self@.landing(at, direction) == self@.landing(n, direction),
            decreases crate::model::tree::view::height(self@.nodes, at),
        {
            let next = match self.local_selection(at) {
                Some(c) => Some(c),
                None => self.first_child(at),
            };
            match next {
                None => {
                    return at;
                },
                Some(c) => {
                    if self.kind(at).orientation() == direction.orientation() {
                        return c;
                    }
                    proof {
                        if self@.local_selection(at) is Some {
                            proofs::lemma_pick(self@, at);
                        } else {
                            proofs::lemma_node(self@, at);
                            assert(self@.nodes[at].children[0] == c);
                        }
                    }
                    at = c;
                },
            }
        }
    }

    /// The nearest ancestor, from the parent on, whose parent lies along a direction.
    pub fn aligned_ancestor(&self, n: NodeId, direction: Direction) -> (r: Option<NodeId>)
        requires
            self.wf(),
        ensures
            r == self@.aligned_ancestor(n, direction),
    {
        let path = self.ancestors(n);
        let ghost good = |a: NodeId|
            self@.parent(a) is Some && self@.kind(self@.parent(a)->0).axis() == direction.axis();
        let mut i: usize = 1;
        while i < path.len()
            invariant
                1 <= i,
                path@ == self@.ancestors(n),
                good == (|a: NodeId|
                    self@.parent(a) is Some && self@.kind(self@.parent(a)->0).axis()
                        == direction.axis()),
                navigation::find_on(path@, 1, good) == navigation::find_on(path@, i as int, good),
            decreases path.len() - i,
        {
            let aligned = match self.parent(path[i]) {
                Some(p) => self.kind(p).orientation() == direction.orientation(),
                None => false,
            };
            if aligned {
                return Some(path[i]);
            }
            i += 1;
        }
        None
    }

    /// The nearest stack around a node, from the parent on.
    pub fn stack_above(&self, n: NodeId) -> (r: Option<NodeId>)
        requires
            self.wf(),
        ensures
            r == self@.stack_above(n),
    {
        let path = self.ancestors(n);
        let ghost good = |a: NodeId| self@.kind(a).stacks();
        let mut i: usize = 1;
        while i < path.len()
            invariant
                1 <= i,
                path@ == self@.ancestors(n),
                good == (|a: NodeId| self@.kind(a).stacks()),
                navigation::find_on(path@, 1, good) == navigation::find_on(path@, i as int, good),
            decreases path.len() - i,
        {
            if self.kind(path[i]).is_stacked() {
                return Some(path[i]);
            }
            i += 1;
        }
        None
    }

    /// The first child that is a stack.
    pub fn stack_below(&self, n: NodeId) -> (r: Option<NodeId>)
        ensures
            r == self@.stack_below(n),
    {
        let kids = self.children(n);
        let ghost good = |c: NodeId| self@.kind(c).stacks();
        let mut i: usize = 0;
        while i < kids.len()
            invariant
                kids@ == self@.children(n),
                good == (|c: NodeId| self@.kind(c).stacks()),
                navigation::find_on(kids@, 0, good) == navigation::find_on(kids@, i as int, good),
            decreases kids.len() - i,
        {
            if self.kind(kids[i]).is_stacked() {
                return Some(kids[i]);
            }
            i += 1;
        }
        None
    }

    /// The nearest node above both of two nodes.
    fn meeting(&self, a: NodeId, b: NodeId) -> (r: Option<NodeId>)
        requires
            self.wf(),
        ensures
            r == self@.meeting(a, b),
    {
        let path = self.ancestors(a);
        let ghost good = |x: NodeId| self@.above(x, b);
        let mut i: usize = 0;
        while i < path.len()
            invariant
                self.wf(),
                path@ == self@.ancestors(a),
                good == (|x: NodeId| self@.above(x, b)),
                navigation::find_on(path@, 0, good) == navigation::find_on(path@, i as int, good),
            decreases path.len() - i,
        {
            if self.is_above(path[i], b) {
                return Some(path[i]);
            }
            i += 1;
        }
        None
    }

    /// Joins two siblings in a container at the place of the first one.
    fn pair(&mut self, a: NodeId, b: NodeId, p: NodeId) -> (r: NodeId)
        requires
            old(self).wf(),
        ensures
            final(self).wf(),
            r == old(self)@.next_id(),
            final(self)@ == old(self)@.paired(a, b, p),
            kept::roots_kept(old(self)@, final(self)@),
    {
        self.note_size(SizeChange::Remembered { node: a });
        self.note_size(SizeChange::Remembered { node: b });
        let box_id = self.insert_new(Place::Before(a));
        self.move_to(a, Place::Last(box_id));
        self.note_size(SizeChange::Recalled { node: a });
        self.move_to(b, Place::Last(box_id));
        self.note_size(SizeChange::Recalled { node: b });
        self.note_size(SizeChange::Totalled { parent: box_id });
        if self.is_live(p) {
            self.note_size(SizeChange::Summed { node: box_id, first: a, second: b });
            self.note_size(SizeChange::Totalled { parent: p });
        }
        box_id
    }

    /// Joins two nodes in a container at the end of `top`.
    fn gather(&mut self, a: NodeId, b: NodeId, top: NodeId) -> (r: NodeId)
        requires
            old(self).wf(),
        ensures
            final(self).wf(),
            r == old(self)@.next_id(),
            final(self)@ == old(self)@.gathered(a, b, top),
            kept::roots_kept(old(self)@, final(self)@),
    {
        let box_id = self.insert_new(Place::Last(top));
        self.set_kind(box_id, LayoutKind::Horizontal);
        self.move_to(a, Place::Last(box_id));
        self.move_to(b, Place::Last(box_id));
        box_id
    }

    /// Puts two nodes in one container, which may be one of them.
    fn find_or_create_common_parent(&mut self, a: NodeId, b: NodeId) -> (r: NodeId)
        requires
            old(self).wf(),
        ensures
            final(self).wf(),
            (final(self)@, r) == old(self)@.with_common_parent(a, b),
            kept::roots_kept(old(self)@, final(self)@),
    {
        if a == b {
            return a;
        }
        if self.is_above(b, a) {
            return b;
        }
        if self.is_above(a, b) {
            return a;
        }
        match (self.parent(a), self.parent(b)) {
            (Some(p), Some(q)) => {
                if p == q {
                    return self.pair(a, b, p);
                }
            },
            _ => {},
        }
        match self.meeting(a, b) {
            Some(top) => self.gather(a, b, top),
            None => a,
        }
    }

    /// As `find_or_create_common_parent`, but two lone siblings along the
    /// direction already share a container.
    fn find_or_create_smart_common_parent(
        &mut self,
        a: NodeId,
        b: NodeId,
        direction: Direction,
    ) -> (r: NodeId)
        requires
            old(self).wf(),
        ensures
            final(self).wf(),
            (final(self)@, r) == old(self)@.with_smart_parent(a, b, direction),
            kept::roots_kept(old(self)@, final(self)@),
    {
        match (self.parent(a), self.parent(b)) {
            (Some(p), Some(q)) => {
                if p == q && self.kind(p).orientation() == direction.orientation() && !self.kind(
                    p,
                ).is_group() && self.child_count(p) == 2 {
                    return p;
                }
            },
            _ => {},
        }
        self.find_or_create_common_parent(a, b)
    }

    /// Puts two nodes in one container along a direction and selects it.
    fn box_up(&mut self, a: NodeId, b: NodeId, direction: Direction)
        requires
            old(self).wf(),
        ensures
            final(self).wf(),
            final(self)@ == old(self)@.boxed(a, b, direction),
            kept::roots_kept(old(self)@, final(self)@),
    {
        let common = self.find_or_create_smart_common_parent(a, b, direction);
        let kind = if self.kind(common).is_stacked() {
            self.kind(common)
        } else {
            LayoutKind::for_orientation(direction.orientation())
        };
        self.set_kind(common, kind);
        self.select(common);
    }

    /// Merges two plain containers along a direction and selects the result.
    fn merge_compatible_containers(&mut self, a: NodeId, b: NodeId, direction: Direction)
        requires
            old(self).wf(),
        ensures
            final(self).wf(),
            final(self)@ == old(self)@.merged(a, b, direction),
            kept::roots_kept(old(self)@, final(self)@),
    {
        let common = self.find_or_create_smart_common_parent(a, b, direction);
        self.set_kind(common, LayoutKind::for_orientation(direction.orientation()));
        self.select(common);
    }

    fn stack_parent(&self, n: NodeId) -> (r: Option<NodeId>)
        ensures
            r == self@.stack_parent(n),
    {
        match self.parent(n) {
            Some(p) => if self.kind(p).is_stacked() {
                Some(p)
            } else {
                None
            },
            None => None,
        }
    }

    /// Puts a node into a container, at its end or in front of the first child.
    pub fn take_in(&mut self, n: NodeId, p: NodeId, at_end: bool)
        requires
            old(self).wf(),
        ensures
            final(self).wf(),
            final(self)@ == old(self)@.taken_in(n, p, at_end),
            kept::rearranged(old(self)@, final(self)@),
    {
        match self.first_child(p) {
            Some(c) => {
                let place = if at_end {
                    Place::Last(p)
                } else {
                    Place::Before(c)
                };
                self.move_to(n, place);
            },
            None => {
                self.move_to(n, Place::Last(p));
            },
        }
    }

    fn are_containers_mergeable(&self, a: NodeId, b: NodeId, direction: Direction) -> (r: bool)
        ensures
            r == self@.mergeable(a, b, direction),
    {
        let first = self.kind(a);
        let second = self.kind(b);
        first.orientation() == direction.orientation() && second.orientation()
            == direction.orientation() && !first.is_group() && !second.is_group()
    }

    /// Joins a node with a target.
    pub fn perform_natural_join(&mut self, n: NodeId, target: NodeId, direction: Direction)
        requires
            old(self).wf(),
        ensures
            final(self).wf(),
            final(self)@ == old(self)@.joined(n, target, direction),
            kept::roots_kept(old(self)@, final(self)@),
    {
        match (self.stack_parent(n), self.stack_parent(target)) {
            (Some(stack), None) => {
                self.take_in(target, stack, direction.forward());
                self.select(stack);
                return;
            },
            (None, Some(stack)) => {
                self.take_in(n, stack, !direction.forward());
                self.select(stack);
                return;
            },
            _ => {},
        }
        match (self.parent(n), self.parent(target)) {
            (Some(p), Some(q)) => {
                if p == q {
                    if self.kind(p).is_stacked() {
                        self.set_kind(p, LayoutKind::for_orientation(direction.orientation()));
                        self.select(p);
                    } else {
                        self.box_up(n, target, direction);
                    }
                } else if self.are_containers_mergeable(p, q, direction) {
                    self.merge_compatible_containers(p, q, direction);
                } else {
                    self.box_up(n, target, direction);
                }
            },
            _ => {
                self.box_up(n, target, direction);
            },
        }
    }

    /// The node that a join moves.
    pub fn join_source(&self, n: NodeId, target: NodeId, direction: Direction) -> (r: NodeId)
        requires
            self.wf(),
        ensures
            r == self@.join_source(n, target, direction),
    {
        match self.parent(n) {
            Some(p) => {
                let outside = match self.parent(target) {
                    Some(q) => q != p,
                    None => true,
                };
                if self.kind(p).orientation() == direction.orientation() && !self.kind(
                    p,
                ).is_group() && (self.sibling(n, direction.forward()).is_none()
                    || self.child_count(p) == 2) && outside && !self.is_above(p, target) {
                    p
                } else {
                    n
                }
            },
            None => n,
        }
    }

    /// Whether a container takes the target of a join in.
    pub fn absorbs(&self, n: NodeId, target: NodeId, direction: Direction) -> (r: bool)
        requires
            self.wf(),
        ensures
            r == self@.absorbs(n, target, direction),
    {
        let kind = self.kind(n);
        self.window_at(n).is_none() && kind.orientation() == direction.orientation()
            && !kind.is_group() && !self.is_above(n, target) && !self.is_above(target, n)
    }

    /// Replaces an inner container by its children.
    pub fn dissolve(&mut self, p: NodeId)
        requires
            old(self).wf(),
            old(self)@.parent(p) is Some,
        ensures
            final(self).wf(),
            final(self)@ == old(self)@.dissolved(p),
            kept::roots_kept(old(self)@, final(self)@),
    {
        let above = self.parent(p).unwrap();
        let kids = self.children(p);
        let led_to = self.local_selection(p);
        let place = match self.next_sibling(p) {
            Some(next) => Place::Before(next),
            None => Place::Last(above),
        };
        self.note_size(SizeChange::Promoted { parent: p });
        let ghost promoted = self@;
        let mut i: usize = 0;
        assert(kids@.take(0) =~= Seq::empty());
        while i < kids.len()
            invariant
                i <= kids.len(),
                self.wf(),
                self@ == promoted.hoisted_all(kids@.take(i as int), place),
                kept::roots_kept(promoted, self@),
            decreases kids.len() - i,
        {
            assert(kids@.take(i + 1).drop_last() =~= kids@.take(i as int));
            self.reseat(kids[i], place);
            self.note_size(SizeChange::Recalled { node: kids[i] });
            i += 1;
        }
        assert(kids@.take(i as int) =~= kids@);
        self.remove(p);
        self.note_size(SizeChange::Totalled { parent: above });
        match led_to {
            Some(c) => {
                self.select(c);
            },
            None => match self.first_child(above) {
                Some(c) => {
                    self.select(c);
                },
                None => {},
            },
        }
    }

    /// Leads each node on the path from `n` to the root to the one before, and
    /// finds the highest node that a stack newly shows.
    pub fn reveal_path(&mut self, n: NodeId) -> (r: NodeId)
        requires
            old(self).wf(),
            old(self)@.live(n),
        ensures
            final(self).wf(),
            final(self)@ == old(self)@.path_picked(
                old(self)@.ancestors(n),
                old(self)@.ancestors(n).len() - 1,
            ),
            r == old(self)@.revealed(old(self)@.ancestors(n), old(self)@.ancestors(n).len() - 1),
            kept::roots_kept(old(self)@, final(self)@),
    {
        let path = self.ancestors(n);
        proof {
            proofs::lemma_ancestors(self@, n);
        }
        let mut highest = n;
        let mut i: usize = 0;
        while i < path.len() - 1
            invariant
                path@ == self@.ancestors(n),
                i < path@.len(),
                highest == self@.revealed(path@, i as int),
            decreases path.len() - i,
        {
            let up = path[i + 1];
            let led = match self.last_selection(up) {
                Some(c) => c == path[i],
                None => false,
            };
            if !led && self.kind(up).is_group() {
                highest = path[i];
            }
            i += 1;
        }
        self.lead_to(n);
        highest
    }

    /// Leads each node on the path from `n` to the root to the one before.
    fn lead_to(&mut self, n: NodeId)
        requires
            old(self).wf(),
            old(self)@.live(n),
        ensures
            final(self).wf(),
            final(self)@ == old(self)@.path_picked(
                old(self)@.ancestors(n),
                old(self)@.ancestors(n).len() - 1,
            ),
            kept::roots_kept(old(self)@, final(self)@),
    {
        let path = self.ancestors(n);
        proof {
            proofs::lemma_ancestors(self@, n);
            lemma_stop_nowhere(path@, path@.last(), 0);
        }
        let root = path[path.len() - 1];
        self.select_path(n, root);
    }
}

/// Stopping at the last node of a path means going all the way.
proof fn lemma_stop_nowhere(path: Seq<NodeId>, stop: NodeId, from: int)
    requires
        path.len() > 0,
        path.no_duplicates(),
        stop == path.last(),
        0 <= from < path.len(),
    ensures
        crate::model::tree::view::stop_at(path, stop, from) == path.len() - 1,
    decreases path.len() - from,
{
    if from < path.len() - 1 {
        assert(path[from] != path[path.len() - 1]);
        lemma_stop_nowhere(path, stop, from + 1);
    }
}

} // verus!
