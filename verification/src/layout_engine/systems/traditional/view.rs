//! What each command makes of a set of layout trees.

use vstd::prelude::*;

use crate::actor::{LayoutId, Pid, WindowId};
use crate::common::config::{StackDefaultOrientation, WindowInsertionPoint};
use crate::layout_engine::systems;
use crate::layout_engine::systems::navigation;
use crate::layout_engine::systems::navigation::Coverage;
use crate::layout_engine::{Direction, LayoutKind, Orientation, ResizeOrientation};
use crate::model::tree::view;
use crate::model::tree::view::{ForestView, NodeId, NodeInfo, Place, SizeChange};

verus! {

/// Layout trees, the layouts they belong to, and the settings for new windows.
pub struct TraditionalView {
    pub forest: ForestView,
    pub roots: Map<LayoutId, NodeId>,
    pub point: WindowInsertionPoint,
    pub equalize: bool,
}

/// The kind that a container takes when it becomes a stack.
pub open spec fn stacked_kind(kind: LayoutKind, default: StackDefaultOrientation) -> LayoutKind {
    match kind {
        LayoutKind::HorizontalStack => LayoutKind::VerticalStack,
        LayoutKind::VerticalStack => LayoutKind::HorizontalStack,
        LayoutKind::Horizontal => match default {
            StackDefaultOrientation::Perpendicular | StackDefaultOrientation::Vertical =>
                LayoutKind::VerticalStack,
            StackDefaultOrientation::Same | StackDefaultOrientation::Horizontal =>
                LayoutKind::HorizontalStack,
        },
        LayoutKind::Vertical => match default {
            StackDefaultOrientation::Perpendicular | StackDefaultOrientation::Horizontal =>
                LayoutKind::HorizontalStack,
            StackDefaultOrientation::Same | StackDefaultOrientation::Vertical =>
                LayoutKind::VerticalStack,
        },
    }
}

/// The kind that a stack takes when it is taken apart.
pub open spec fn unstacked_kind(kind: LayoutKind, default: StackDefaultOrientation) -> LayoutKind {
    match default {
        StackDefaultOrientation::Horizontal => LayoutKind::Horizontal,
        StackDefaultOrientation::Vertical => LayoutKind::Vertical,
        StackDefaultOrientation::Same => LayoutKind::along(kind.axis()),
        StackDefaultOrientation::Perpendicular => match kind.axis() {
            Orientation::Horizontal => LayoutKind::Vertical,
            Orientation::Vertical => LayoutKind::Horizontal,
        },
    }
}

/// The two directions along an axis, the forward one first.
pub open spec fn directions_along(axis: Orientation) -> (Direction, Direction) {
    match axis {
        Orientation::Horizontal => (Direction::Right, Direction::Left),
        Orientation::Vertical => (Direction::Down, Direction::Up),
    }
}

impl ForestView {
    pub open spec fn noting_each(
        self,
        list: Seq<NodeId>,
        step: spec_fn(NodeId) -> SizeChange,
    ) -> ForestView {
        ForestView { changes: self.changes + list.map_values(step), ..self }
    }

    /// Where moving a node towards its neighbour ends: at the neighbour itself
    /// if it has no children, else at a node inside it.
    pub open spec fn landing(self, n: NodeId, direction: Direction) -> NodeId
        decreases view::height(self.nodes, n),
    {
        let next = match self.local_selection(n) {
            Some(c) => Some(c),
            None => self.first_child(n),
        };
        match next {
            None => n,
            Some(c) => if self.kind(n).axis() == direction.axis() || view::height(self.nodes, c)
                >= view::height(self.nodes, n) {
                c
            } else {
                self.landing(c, direction)
            },
        }
    }

    /// The nearest ancestor, from the parent on, whose parent lies along a direction.
    pub open spec fn aligned_ancestor(self, n: NodeId, direction: Direction) -> Option<NodeId> {
        navigation::find_on(
            self.ancestors(n),
            1,
            |a: NodeId|
                self.parent(a) is Some && self.kind(self.parent(a)->0).axis() == direction.axis(),
        )
    }

    /// The nearest stack around a node, from the parent on.
    pub open spec fn stack_above(self, n: NodeId) -> Option<NodeId> {
        navigation::find_on(self.ancestors(n), 1, |a: NodeId| self.kind(a).stacks())
    }

    /// The first child that is a stack.
    pub open spec fn stack_below(self, n: NodeId) -> Option<NodeId> {
        navigation::find_on(self.children(n), 0, |c: NodeId| self.kind(c).stacks())
    }

    /// The first node of a path that lies on another path.
    pub open spec fn meeting(self, a: NodeId, b: NodeId) -> Option<NodeId> {
        navigation::find_on(self.ancestors(a), 0, |x: NodeId| self.above(x, b))
    }

    /// Siblings that are joined in a container at the place of the first one.
    pub open spec fn paired(self, a: NodeId, b: NodeId, p: NodeId) -> ForestView {
        let noted = self.noting(SizeChange::Remembered { node: a }).noting(
            SizeChange::Remembered { node: b },
        );
        let box_id = noted.next_id();
        let t = noted.with_new(Place::Before(a)).moved(a, Place::Last(box_id)).noting(
            SizeChange::Recalled { node: a },
        ).moved(b, Place::Last(box_id)).noting(SizeChange::Recalled { node: b }).noting(
            SizeChange::Totalled { parent: box_id },
        );
        if t.live(p) {
            t.noting(SizeChange::Summed { node: box_id, first: a, second: b }).noting(
                SizeChange::Totalled { parent: p },
            )
        } else {
            t
        }
    }

    /// Nodes of one tree that are joined in a container at the end of `top`.
    pub open spec fn gathered(self, a: NodeId, b: NodeId, top: NodeId) -> ForestView {
        let box_id = self.next_id();
        self.with_new(Place::Last(top)).with_kind(box_id, LayoutKind::Horizontal).moved(
            a,
            Place::Last(box_id),
        ).moved(b, Place::Last(box_id))
    }

    /// The container that holds two nodes after a join, and the forest then.
    pub open spec fn with_common_parent(self, a: NodeId, b: NodeId) -> (ForestView, NodeId) {
        if a == b {
            (self, a)
        } else if self.above(b, a) {
            (self, b)
        } else if self.above(a, b) {
            (self, a)
        } else if self.parent(a) is Some && self.parent(a) == self.parent(b) {
            (self.paired(a, b, self.parent(a)->0), self.next_id())
        } else {
            match self.meeting(a, b) {
                Some(top) => (self.gathered(a, b, top), self.next_id()),
                None => (self, a),
            }
        }
    }

    /// As `with_common_parent`, but two lone siblings along the direction
    /// already share a container.
    pub open spec fn with_smart_parent(
        self,
        a: NodeId,
        b: NodeId,
        direction: Direction,
    ) -> (ForestView, NodeId) {
        if self.parent(a) is Some && self.parent(a) == self.parent(b) && self.kind(
            self.parent(a)->0,
        ).axis() == direction.axis() && !self.kind(self.parent(a)->0).stacks() && self.children(
            self.parent(a)->0,
        ).len() == 2 {
            (self, self.parent(a)->0)
        } else {
            self.with_common_parent(a, b)
        }
    }

    /// Two nodes share a container along a direction, which is selected. A
    /// stack stays a stack.
    pub open spec fn boxed(self, a: NodeId, b: NodeId, direction: Direction) -> ForestView {
        let (t, common) = self.with_smart_parent(a, b, direction);
        let kind = if t.kind(common).stacks() {
            t.kind(common)
        } else {
            LayoutKind::along(direction.axis())
        };
        t.with_kind(common, kind).selected(common)
    }

    /// As `boxed`, but the container always lies along the direction.
    pub open spec fn merged(self, a: NodeId, b: NodeId, direction: Direction) -> ForestView {
        let (t, common) = self.with_smart_parent(a, b, direction);
        t.with_kind(common, LayoutKind::along(direction.axis())).selected(common)
    }

    pub open spec fn stack_parent(self, n: NodeId) -> Option<NodeId> {
        match self.parent(n) {
            Some(p) => if self.kind(p).stacks() {
                Some(p)
            } else {
                None
            },
            None => None,
        }
    }

    /// A node enters a container at its end or in front of the first child.
    pub open spec fn taken_in(self, n: NodeId, p: NodeId, at_end: bool) -> ForestView {
        match self.first_child(p) {
            Some(c) => self.moved(
                n,
                if at_end {
                    Place::Last(p)
                } else {
                    Place::Before(c)
                },
            ),
            None => self.moved(n, Place::Last(p)),
        }
    }

    /// Plain containers along a direction can be merged.
    pub open spec fn mergeable(self, a: NodeId, b: NodeId, direction: Direction) -> bool {
        &&& self.kind(a).axis() == direction.axis()
        &&& self.kind(b).axis() == direction.axis()
        &&& !self.kind(a).stacks()
        &&& !self.kind(b).stacks()
    }

    /// A node joins with a target. A stack takes the other node in; siblings in
    /// a stack turn it into a plain container; everything else shares a
    /// container along the direction.
    pub open spec fn joined(self, n: NodeId, target: NodeId, direction: Direction) -> ForestView {
        let sp = self.parent(n);
        let tp = self.parent(target);
        if self.stack_parent(n) is Some && self.stack_parent(target) is None {
            self.taken_in(target, sp->0, direction.is_forward()).selected(sp->0)
        } else if self.stack_parent(n) is None && self.stack_parent(target) is Some {
            self.taken_in(n, tp->0, !direction.is_forward()).selected(tp->0)
        } else if sp is Some && sp == tp {
            if self.kind(sp->0).stacks() {
                self.with_kind(sp->0, LayoutKind::along(direction.axis())).selected(sp->0)
            } else {
                self.boxed(n, target, direction)
            }
        } else if sp is Some && tp is Some && self.mergeable(sp->0, tp->0, direction) {
            self.merged(sp->0, tp->0, direction)
        } else {
            self.boxed(n, target, direction)
        }
    }

    /// The node that a join moves: the whole parent, if the node is at its end
    /// or one of two children and the target lies outside.
    pub open spec fn join_source(self, n: NodeId, target: NodeId, direction: Direction) -> NodeId {
        match self.parent(n) {
            Some(p) => if self.kind(p).axis() == direction.axis() && !self.kind(p).stacks() && (
            self.sibling(n, direction.is_forward()) is None || self.children(p).len() == 2)
                && self.parent(target) != Some(p) && !self.above(p, target) {
                p
            } else {
                n
            },
            None => n,
        }
    }

    /// A plain container along the direction takes the target in instead of
    /// being boxed with it.
    pub open spec fn absorbs(self, n: NodeId, target: NodeId, direction: Direction) -> bool {
        &&& self.window(n) is None
        &&& self.kind(n).axis() == direction.axis()
        &&& !self.kind(n).stacks()
        &&& !self.above(n, target)
        &&& !self.above(target, n)
    }

    /// The children of a container replace it, in order and with its share of
    /// the size, and the child it led to is selected.
    pub open spec fn dissolved(self, p: NodeId) -> ForestView {
        let above = self.parent(p)->0;
        let kids = self.children(p);
        let promoted = self.noting(SizeChange::Promoted { parent: p });
        let place = match self.next_sibling(p) {
            Some(next) => Place::Before(next),
            None => Place::Last(above),
        };
        let t = promoted.hoisted_all(kids, place).removed(p).noting(
            SizeChange::Totalled { parent: above },
        );
        match self.local_selection(p) {
            Some(c) => t.selected(c),
            None => match t.first_child(above) {
                Some(c) => t.selected(c),
                None => t,
            },
        }
    }

    /// Nodes move to a place, one after the other, and get their remembered sizes.
    pub open spec fn hoisted_all(self, kids: Seq<NodeId>, place: Place) -> ForestView
        decreases kids.len(),
    {
        if kids.len() == 0 {
            self
        } else {
            self.hoisted_all(kids.drop_last(), place).reseated(kids.last(), place).noting(
                SizeChange::Recalled { node: kids.last() },
            )
        }
    }

    /// The nodes on the path from `n` to the root after focus went to it: each
    /// leads to the one before. The highest node that a stack newly shows.
    pub open spec fn revealed(self, path: Seq<NodeId>, upto: int) -> NodeId
        decreases upto,
    {
        if upto <= 0 {
            path[0]
        } else if self.last_selection(path[upto]) != Some(path[upto - 1]) && self.kind(
            path[upto],
        ).stacks() {
            path[upto - 1]
        } else {
            self.revealed(path, upto - 1)
        }
    }
}

impl TraditionalView {
    /// No layouts yet.
    pub open spec fn fresh(point: WindowInsertionPoint, equalize: bool) -> TraditionalView {
        TraditionalView { forest: ForestView::empty(), roots: Map::empty(), point, equalize }
    }

    /// Each layout has a root of its own, which shows no window.
    pub open spec fn wf(self) -> bool {
        &&& self.forest.wf()
        &&& self.roots.dom().finite()
        &&& forall|l: LayoutId| #[trigger]
            self.roots.contains_key(l) ==> {
                &&& l.issued()
                &&& self.forest.live(self.roots[l])
                &&& self.forest.parent(self.roots[l]) is None
                &&& self.forest.window(self.roots[l]) is None
            }
        &&& forall|l: LayoutId, m: LayoutId|
            self.roots.contains_key(l) && self.roots.contains_key(m) && l != m
                ==> #[trigger] self.roots[l] != #[trigger] self.roots[m]
    }

    /// A new layout without windows.
    pub open spec fn with_layout(self, layout: LayoutId) -> TraditionalView {
        TraditionalView {
            forest: self.forest.created(),
            roots: self.roots.insert(layout, self.forest.next_id()),
            ..self
        }
    }

    /// A copy of a layout.
    pub open spec fn with_clone(self, layout: LayoutId, copy: LayoutId) -> TraditionalView {
        TraditionalView {
            forest: self.forest.copied(self.root(layout), copy),
            roots: self.roots.insert(copy, self.forest.next_id()),
            ..self
        }
    }

    pub open spec fn without_layout(self, layout: LayoutId) -> TraditionalView {
        TraditionalView {
            forest: self.forest.felled(self.root(layout)),
            roots: self.roots.remove(layout),
            ..self
        }
    }

    /// The layouts that a window was added to.
    pub open spec fn layouts_for(self, window: WindowId) -> Seq<LayoutId> {
        let entries = self.forest.entries_for(window);
        Seq::new(entries.len(), |i: int| entries[i].layout)
    }

    /// The window that comes first when a layout is entered in a direction.
    pub open spec fn first_met(self, layout: LayoutId, direction: Direction) -> Option<WindowId> {
        let all = self.all_windows(layout);
        if all.len() == 0 {
            None
        } else if direction.is_forward() {
            Some(all[0])
        } else {
            Some(all.last())
        }
    }

    /// Some node of a layout covers the screen.
    pub open spec fn has_fullscreen(self, layout: LayoutId) -> bool {
        let nodes = self.forest.preorder(self.root(layout));
        exists|i: int| 0 <= i < nodes.len() && self.forest.covers(#[trigger] nodes[i])
    }

    pub open spec fn has(self, layout: LayoutId) -> bool {
        self.roots.contains_key(layout)
    }

    pub open spec fn root(self, layout: LayoutId) -> NodeId {
        self.roots[layout]
    }

    pub open spec fn with_forest(self, forest: ForestView) -> TraditionalView {
        TraditionalView { forest, ..self }
    }

    pub open spec fn selection(self, layout: LayoutId) -> NodeId {
        self.forest.selected_below(self.root(layout))
    }

    pub open spec fn selected_window(self, layout: LayoutId) -> Option<WindowId> {
        self.forest.window(self.selection(layout))
    }

    pub open spec fn all_windows(self, layout: LayoutId) -> Seq<WindowId> {
        self.forest.windows_under(self.root(layout))
    }

    pub open spec fn app_windows(self, layout: LayoutId, pid: Pid) -> Seq<WindowId> {
        self.all_windows(layout).filter(|w: WindowId| w.pid == pid)
    }

    /// A container around `n`, which it shares with no other node, and the
    /// layouts then. A lone child keeps its parent; a root gets a new root.
    pub open spec fn nested(
        self,
        layout: LayoutId,
        n: NodeId,
        kind: LayoutKind,
    ) -> (TraditionalView, NodeId) {
        let f = self.forest;
        if f.parent(n) is Some {
            let p = f.parent(n)->0;
            if f.children(p).len() == 1 {
                (self.with_forest(f.with_kind(p, kind)), p)
            } else {
                let box_id = f.next_id();
                let t = f.with_new(Place::Before(n)).noting(
                    SizeChange::Inherited { node: box_id, from: n },
                ).moved(n, Place::Last(box_id));
                let u = if f.local_selection(p) == Some(n) {
                    t.selected_locally(box_id)
                } else {
                    t
                };
                (self.with_forest(u.selected_locally(n).with_kind(box_id, kind)), box_id)
            }
        } else if self.has(layout) && self.root(layout) == n {
            let box_id = f.next_id();
            let t = f.wrapped(n).selected_locally(n).with_kind(box_id, kind);
            (
                TraditionalView {
                    forest: t,
                    roots: self.roots.insert(layout, box_id),
                    ..self
                },
                box_id,
            )
        } else {
            (self, n)
        }
    }

    /// The size step when a new sibling of `n` appears.
    pub open spec fn split_share(self, n: NodeId, added: NodeId) -> TraditionalView {
        let f = self.forest;
        if f.parent(n) is Some && f.parent(added) == f.parent(n) {
            if self.equalize {
                self.with_forest(f.noting(SizeChange::Totalled { parent: f.parent(n)->0 }))
            } else {
                self.with_forest(f.noting(SizeChange::Halved { node: n, added }))
            }
        } else {
            self
        }
    }

    /// A new window at a place, without a size step.
    pub open spec fn window_put(self, layout: LayoutId, place: Place, window: WindowId) ->
        TraditionalView {
        self.with_forest(
            self.forest.with_new(place).with_window(layout, self.forest.next_id(), window),
        )
    }

    /// A new window beside a node. A plain container with four children or more
    /// is not filled further: the node and the window share a container in it.
    pub open spec fn window_beside(self, layout: LayoutId, n: NodeId, window: WindowId) -> (
        TraditionalView,
        NodeId,
    ) {
        let f = self.forest;
        let crowded = f.parent(n) is Some && f.children(f.parent(n)->0).len() >= 4 && !f.kind(
            f.parent(n)->0,
        ).stacks();
        let (base, place) = if crowded {
            let (t, sub) = self.nested(layout, n, f.kind(f.parent(n)->0));
            (t, Place::Last(sub))
        } else {
            (self, Place::After(n))
        };
        let added = base.forest.next_id();
        let t = base.with_forest(base.forest.with_new(place)).split_share(n, added);
        (t.with_forest(t.forest.with_window(layout, added, window)), added)
    }

    /// The node that a new window is put beside, if there is one.
    pub open spec fn anchor(self, layout: LayoutId) -> Option<NodeId> {
        let n = self.selection(layout);
        if self.forest.parent(n) is Some {
            Some(n)
        } else if self.forest.last_selection(n) is Some {
            self.forest.last_selection(n)
        } else {
            self.forest.last_child(n)
        }
    }

    /// A new window in a layout, selected.
    pub open spec fn window_added(self, layout: LayoutId, window: WindowId) -> TraditionalView {
        let (t, added) = if self.point is EndOfTree {
            (
                self.window_put(layout, Place::Last(self.root(layout)), window),
                self.forest.next_id(),
            )
        } else {
            match self.anchor(layout) {
                Some(n) => self.window_beside(layout, n, window),
                None => (
                    self.window_put(layout, Place::Last(self.selection(layout)), window),
                    self.forest.next_id(),
                ),
            }
        };
        t.with_forest(t.forest.selected(added))
    }

    pub open spec fn windows_added(self, layout: LayoutId, windows: Seq<WindowId>) ->
        TraditionalView
        decreases windows.len(),
    {
        if windows.len() == 0 {
            self
        } else {
            self.windows_added(layout, windows.drop_last()).window_added(layout, windows.last())
        }
    }

    /// A window leaves a layout, unless it covers the screen.
    pub open spec fn window_dismissed(self, layout: LayoutId, window: WindowId) ->
        TraditionalView {
        match self.forest.node_for(layout, window) {
            Some(n) => if self.forest.info(n).is_fullscreen {
                self
            } else {
                self.with_forest(self.forest.removed(n))
            },
            None => self,
        }
    }

    pub open spec fn windows_dismissed(self, layout: LayoutId, windows: Seq<WindowId>) ->
        TraditionalView
        decreases windows.len(),
    {
        if windows.len() == 0 {
            self
        } else {
            self.windows_dismissed(layout, windows.drop_last()).window_dismissed(
                layout,
                windows.last(),
            )
        }
    }

    /// A layout holds the windows that a process has.
    pub open spec fn app_set(self, layout: LayoutId, pid: Pid, desired: Seq<WindowId>) ->
        TraditionalView {
        let current = self.app_windows(layout, pid);
        self.windows_dismissed(
            layout,
            systems::missing_from(current, desired),
        ).windows_added(layout, systems::newcomers(pid, current, desired))
    }

    /// Where a node moves to in a direction, with the layouts from which it moves.
    pub open spec fn destination(
        self,
        layout: LayoutId,
        n: NodeId,
        direction: Direction,
    ) -> Option<(TraditionalView, Place)> {
        let f = self.forest;
        let forward = direction.is_forward();
        let ahead = |t: NodeId|
            if forward {
                Place::After(t)
            } else {
                Place::Before(t)
            };
        let behind = |t: NodeId|
            if forward {
                Place::Before(t)
            } else {
                Place::After(t)
            };
        match f.move_over(n, direction) {
            Some(sibling) => {
                let target = f.landing(sibling, direction);
                if target == sibling {
                    Some((self, ahead(sibling)))
                } else {
                    Some((self, behind(target)))
                }
            },
            None => match f.aligned_ancestor(n, direction) {
                Some(a) => Some((self, ahead(a))),
                None => {
                    let top = f.ancestors(n).last();
                    if f.kind(top).axis() == direction.axis() && f.sibling(n, forward) is Some {
                        None
                    } else {
                        Some(
                            (
                                self.nested(layout, top, LayoutKind::along(direction.axis())).0,
                                ahead(top),
                            ),
                        )
                    }
                },
            },
        }
    }

    /// Whether a node can move in a direction.
    pub open spec fn can_shift(self, layout: LayoutId, n: NodeId, direction: Direction) -> bool {
        self.forest.parent(n) is Some && self.destination(layout, n, direction) is Some
    }

    /// A node moves in a direction. Reordering siblings keeps their sizes.
    pub open spec fn node_shifted(self, layout: LayoutId, n: NodeId, direction: Direction) ->
        TraditionalView {
        if self.can_shift(layout, n, direction) {
            let p = self.forest.parent(n)->0;
            let kids = self.forest.children(p);
            let (t, place) = self.destination(layout, n, direction)->0;
            let moved = t.forest.noting_each(
                kids,
                |c: NodeId| SizeChange::Remembered { node: c },
            ).moved(n, place);
            let sized = if moved.parent(n) == Some(p) {
                moved.noting_each(kids, |c: NodeId| SizeChange::Recalled { node: c }).noting(
                    SizeChange::Totalled { parent: p },
                )
            } else {
                moved
            };
            t.with_forest(
                if self.forest.local_selection(p) == Some(n) {
                    sized.path_selected(n, p)
                } else {
                    sized
                },
            )
        } else {
            self
        }
    }

    /// The selection of a layout moves behind that of another one.
    pub open spec fn sent(self, from: LayoutId, to: LayoutId) -> TraditionalView {
        let f = self.forest;
        let n = self.selection(from);
        let target = self.selection(to);
        match f.parent(n) {
            Some(p) => {
                let moved = f.grafted(
                    n,
                    if f.parent(target) is None {
                        Place::Last(target)
                    } else {
                        Place::After(target)
                    },
                );
                self.with_forest(
                    if f.local_selection(p) == Some(n) {
                        moved.path_selected(n, p)
                    } else {
                        moved
                    },
                )
            },
            None => self,
        }
    }

    /// The selection joins with its neighbour in a direction.
    pub open spec fn selection_joined(self, layout: LayoutId, direction: Direction) ->
        TraditionalView {
        let f = self.forest;
        match f.join_target(self.selection(layout), direction) {
            Some(target) => {
                let n = f.join_source(self.selection(layout), target, direction);
                if f.absorbs(n, target, direction) {
                    self.with_forest(f.taken_in(target, n, direction.is_forward()).selected(n))
                } else {
                    let t = f.joined(n, target, direction);
                    if t.window(n) is Some {
                        self.with_forest(t.selected(n))
                    } else {
                        self.with_forest(t).descended(layout)
                    }
                }
            },
            None => self,
        }
    }

    pub open spec fn window_selected(self, layout: LayoutId, window: WindowId) -> TraditionalView {
        match self.forest.node_for(layout, window) {
            Some(n) => self.with_forest(self.forest.selected(n)),
            None => self,
        }
    }

    pub open spec fn descended(self, layout: LayoutId) -> TraditionalView {
        match self.forest.last_selection(self.selection(layout)) {
            Some(c) => self.with_forest(self.forest.selected(c)),
            None => self,
        }
    }

    pub open spec fn ascended(self, layout: LayoutId) -> TraditionalView {
        match self.forest.parent(self.selection(layout)) {
            Some(p) => self.with_forest(self.forest.selected(p)),
            None => self,
        }
    }

    /// The container around the selection is taken apart.
    pub open spec fn selection_unjoined(self, layout: LayoutId) -> TraditionalView {
        match self.forest.parent(self.selection(layout)) {
            Some(p) => if self.forest.parent(p) is Some {
                self.with_forest(self.forest.dissolved(p))
            } else {
                self
            },
            None => self,
        }
    }

    pub open spec fn selection_is_joined(self, layout: LayoutId) -> bool {
        match self.forest.parent(self.selection(layout)) {
            Some(p) => self.forest.parent(p) is Some,
            None => false,
        }
    }

    pub open spec fn consumed_or_expelled(self, layout: LayoutId, direction: Direction) ->
        TraditionalView {
        if self.selection_is_joined(layout) {
            self.selection_unjoined(layout)
        } else {
            self.selection_joined(layout, direction)
        }
    }

    /// The container that a stacking command turns into a stack.
    pub open spec fn stacking_target(self, layout: LayoutId) -> Option<NodeId> {
        let n = self.selection(layout);
        if self.forest.window(n) is Some {
            self.forest.parent(n)
        } else {
            Some(n)
        }
    }

    pub open spec fn stacking_applied(
        self,
        layout: LayoutId,
        default: StackDefaultOrientation,
    ) -> TraditionalView {
        match self.stacking_target(layout) {
            Some(c) => {
                let t = self.forest.with_kind(c, stacked_kind(self.forest.kind(c), default));
                self.with_forest(
                    match t.first_child(c) {
                        Some(first) => t.selected(first),
                        None => t,
                    },
                )
            },
            None => self,
        }
    }

    /// The stack that an unstacking command takes apart.
    pub open spec fn unstacking_target(self, layout: LayoutId) -> Option<NodeId> {
        let n = self.selection(layout);
        if self.forest.window(n) is Some {
            self.forest.stack_above(n)
        } else if self.forest.kind(n).stacks() {
            Some(n)
        } else {
            self.forest.stack_below(n)
        }
    }

    pub open spec fn unstacked(self, layout: LayoutId, default: StackDefaultOrientation) ->
        TraditionalView {
        match self.unstacking_target(layout) {
            Some(c) => self.with_forest(
                self.forest.with_kind(c, unstacked_kind(self.forest.kind(c), default)),
            ),
            None => self,
        }
    }

    /// The container whose orientation a toggle command turns.
    pub open spec fn tile_target(self, layout: LayoutId) -> NodeId {
        match self.forest.parent(self.selection(layout)) {
            Some(p) => p,
            None => self.root(layout),
        }
    }

    pub open spec fn tile_toggled(self, layout: LayoutId) -> TraditionalView {
        let n = self.tile_target(layout);
        match self.forest.kind(n) {
            LayoutKind::Horizontal => self.with_forest(
                self.forest.with_kind(n, LayoutKind::Vertical),
            ),
            LayoutKind::Vertical => self.with_forest(
                self.forest.with_kind(n, LayoutKind::Horizontal),
            ),
            _ => self,
        }
    }

    /// Focus moves in a direction: the window it reaches, the windows to raise,
    /// and the layouts then.
    pub open spec fn focus_moved(self, layout: LayoutId, direction: Direction) -> (
        TraditionalView,
        Option<WindowId>,
        Seq<WindowId>,
    ) {
        let f = self.forest;
        match f.traverse(self.selection(layout), direction) {
            Some(next) => match f.best_focus(next) {
                Some((n, window)) => {
                    let path = f.ancestors(n);
                    let t = f.path_picked(path, path.len() - 1);
                    (
                        self.with_forest(t),
                        Some(window),
                        t.visible(f.revealed(path, path.len() - 1)),
                    )
                },
                None => (self, None, Seq::empty()),
            },
            None => (self, None, Seq::empty()),
        }
    }

    /// The node and the sibling that a resize command trades size between.
    pub open spec fn resize_pair(self, n: NodeId, direction: Direction) -> Option<
        (NodeId, NodeId),
    > {
        match self.forest.resizing(n, direction) {
            Some(a) => Some((a, self.forest.move_over(a, direction)->0)),
            None => None,
        }
    }

    pub open spec fn selection_info(self, layout: LayoutId) -> NodeInfo {
        self.forest.info(self.selection(layout))
    }

    /// The selection covers the screen, or no longer does.
    pub open spec fn fullscreen_toggled(self, layout: LayoutId) -> TraditionalView {
        let info = self.selection_info(layout);
        self.with_forest(
            self.forest.with_fullscreen(
                self.selection(layout),
                !info.is_fullscreen,
                info.is_fullscreen && info.is_fullscreen_within_gaps,
            ),
        )
    }

    /// The selection covers the screen within its gaps, or no longer does.
    pub open spec fn fullscreen_within_gaps_toggled(self, layout: LayoutId) -> TraditionalView {
        let info = self.selection_info(layout);
        self.with_forest(
            self.forest.with_fullscreen(
                self.selection(layout),
                info.is_fullscreen_within_gaps && info.is_fullscreen,
                !info.is_fullscreen_within_gaps,
            ),
        )
    }

    /// The parent of a node lies along a direction and is no stack.
    pub open spec fn exchanges(self, n: NodeId, direction: Direction) -> bool {
        match self.forest.parent(n) {
            Some(p) => self.forest.kind(p).axis() == direction.axis() && !self.forest.kind(
                p,
            ).stacks(),
            None => false,
        }
    }

    pub open spec fn exchange_nodes(self, n: NodeId, direction: Direction) -> Seq<NodeId> {
        self.forest.ancestors(n).skip(1).filter(|a: NodeId| self.exchanges(a, direction))
    }

    /// A child of a container that is no stack.
    pub open spec fn free_standing(self, n: NodeId) -> bool {
        match self.forest.parent(n) {
            Some(p) => !self.forest.kind(p).stacks(),
            None => false,
        }
    }

    pub open spec fn trade(self, n: NodeId, direction: Direction) -> Option<
        (NodeId, NodeId, Direction),
    > {
        match self.resize_pair(n, direction) {
            Some((a, b)) => Some((a, b, direction)),
            None => None,
        }
    }

    /// A trade along the axis of the parent, forwards if possible.
    pub open spec fn own_axis_trade(self, n: NodeId) -> Option<(NodeId, NodeId, Direction)> {
        let (first, second) = directions_along(self.forest.kind(self.forest.parent(n)->0).axis());
        if self.resize_pair(n, first) is Some {
            self.trade(n, first)
        } else {
            self.trade(n, second)
        }
    }

    pub open spec fn smart_resize(self, n: NodeId) -> Option<(NodeId, NodeId, Direction)> {
        match navigation::find_on(
            self.forest.ancestors(n),
            0,
            |a: NodeId| self.free_standing(a) && self.own_axis_trade(a) is Some,
        ) {
            Some(a) => self.own_axis_trade(a),
            None => None,
        }
    }

    pub open spec fn resize_towards(self, n: NodeId, direction: Direction) -> Option<
        (NodeId, NodeId, Direction),
    > {
        match navigation::find_on(
            self.forest.ancestors(n),
            0,
            |a: NodeId| self.free_standing(a) && self.resize_pair(a, direction) is Some,
        ) {
            Some(a) => self.trade(a, direction),
            None => None,
        }
    }

    pub open spec fn resize_along(self, n: NodeId, axis: Orientation) -> Option<
        (NodeId, NodeId, Direction),
    > {
        let (first, second) = directions_along(axis);
        if self.resize_towards(n, first) is Some {
            self.resize_towards(n, first)
        } else {
            self.resize_towards(n, second)
        }
    }

    /// What a resize command trades size between, and at which edge.
    pub open spec fn resize_choice(self, layout: LayoutId, orientation: ResizeOrientation) ->
        Option<(NodeId, NodeId, Direction)> {
        let n = self.selection(layout);
        if self.forest.window(n) is None {
            None
        } else {
            match orientation {
                ResizeOrientation::Smart => self.smart_resize(n),
                ResizeOrientation::Horizontal => self.resize_along(n, Orientation::Horizontal),
                ResizeOrientation::Vertical => self.resize_along(n, Orientation::Vertical),
            }
        }
    }

    /// A window was resized from outside; what is left to do for a plain change.
    pub open spec fn window_resized(
        self,
        layout: LayoutId,
        window: WindowId,
        from: Coverage,
        to: Coverage,
    ) -> (TraditionalView, Option<NodeId>) {
        match self.forest.node_for(layout, window) {
            Some(n) => {
                let info = self.forest.info(n);
                if to is Screen {
                    (self.with_forest(self.forest.with_fullscreen(n, true, false)), None)
                } else if from is Screen {
                    (
                        self.with_forest(
                            self.forest.with_fullscreen(n, false, info.is_fullscreen_within_gaps),
                        ),
                        None,
                    )
                } else if to is WithinGaps {
                    (self.with_forest(self.forest.with_fullscreen(n, false, true)), None)
                } else if from is WithinGaps {
                    (
                        self.with_forest(
                            self.forest.with_fullscreen(n, info.is_fullscreen, false),
                        ),
                        None,
                    )
                } else {
                    (self, Some(n))
                }
            },
            None => (self, None),
        }
    }
}

} // verus!
