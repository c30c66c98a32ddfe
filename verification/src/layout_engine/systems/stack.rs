//! Layouts that are one stack of windows.

use vstd::prelude::*;

use crate::actor::{LayoutId, Pid, WindowId};
use crate::common::config::{
    default_stack_orientation, StackDefaultOrientation, WindowInsertionPoint,
};
use crate::layout_engine::systems::LayoutSystem;
use crate::layout_engine::systems::groups::GroupInfo;
use crate::layout_engine::systems::groups;
use crate::layout_engine::systems::navigation;
use crate::layout_engine::systems::snapshot::TreeSnapshot;
use crate::layout_engine::systems::traditional::system::TraditionalLayoutSystem;
use crate::layout_engine::systems::traditional::view::TraditionalView;
use crate::layout_engine::systems;
use crate::layout_engine::{Direction, LayoutKind, ResizeOrientation};
use crate::model::tree::view::{ForestView, NodeId, Place, SizeChange};

pub mod laws;
pub mod order;

verus! {

/// The tree layouts that hold the stacks, and the settings.
pub struct StackView {
    pub inner: TraditionalView,
    pub orientation: StackDefaultOrientation,
    pub point: WindowInsertionPoint,
}

/// The stack along the axis of a kind.
pub open spec fn stack_along(kind: LayoutKind) -> LayoutKind {
    match kind {
        LayoutKind::Horizontal | LayoutKind::HorizontalStack => LayoutKind::HorizontalStack,
        LayoutKind::Vertical | LayoutKind::VerticalStack => LayoutKind::VerticalStack,
    }
}

/// The stack across the axis of a kind.
pub open spec fn stack_across(kind: LayoutKind) -> LayoutKind {
    match kind {
        LayoutKind::Horizontal | LayoutKind::HorizontalStack => LayoutKind::VerticalStack,
        LayoutKind::Vertical | LayoutKind::VerticalStack => LayoutKind::HorizontalStack,
    }
}

/// The stack that a new layout starts as.
pub open spec fn first_stack(orientation: StackDefaultOrientation) -> LayoutKind {
    if orientation is Perpendicular || orientation is Vertical {
        LayoutKind::VerticalStack
    } else {
        LayoutKind::HorizontalStack
    }
}

/// Windows enter a container, one after the other.
pub open spec fn lined_up(
    inner: TraditionalView,
    layout: LayoutId,
    parent: NodeId,
    windows: Seq<WindowId>,
) -> TraditionalView
    decreases windows.len(),
{
    if windows.len() == 0 {
        inner
    } else {
        lined_up(inner, layout, parent, windows.drop_last()).window_put(
            layout,
            Place::Last(parent),
            windows.last(),
        )
    }
}

/// The node that the last window to be selected gets when windows are lined up.
pub open spec fn chosen(
    inner: TraditionalView,
    layout: LayoutId,
    parent: NodeId,
    windows: Seq<WindowId>,
    selected: Option<WindowId>,
) -> Option<NodeId>
    decreases windows.len(),
{
    if windows.len() == 0 {
        None
    } else if Some(windows.last()) == selected {
        Some(lined_up(inner, layout, parent, windows.drop_last()).forest.next_id())
    } else {
        chosen(inner, layout, parent, windows.drop_last(), selected)
    }
}

impl StackView {
    /// The root becomes a stack along its axis that holds all windows directly.
    /// The selected window stays selected; without one the first is.
    #[verifier::opaque]
    pub open spec fn normalized(self, layout: LayoutId) -> StackView {
        let t = self.inner;
        let root = t.root(layout);
        let windows = t.all_windows(layout);
        let selected = t.selected_window(layout);
        let bare = t.with_forest(
            t.forest.all_removed(t.forest.children(root)).with_kind(
                root,
                stack_along(t.forest.kind(root)),
            ),
        );
        let full = lined_up(bare, layout, root, windows);
        let inner = match chosen(bare, layout, root, windows, selected) {
            Some(n) => full.with_forest(full.forest.selected(n)),
            None => if windows.len() > 0 {
                full.with_forest(full.forest.selected(bare.forest.next_id()))
            } else {
                full
            },
        };
        StackView { inner, ..self }
    }

    pub open spec fn all_normalized(self, layouts: Seq<LayoutId>) -> StackView
        decreases layouts.len(),
    {
        if layouts.len() == 0 {
            self
        } else {
            self.all_normalized(layouts.drop_last()).normalized(layouts.last())
        }
    }

    /// The stack turns by a right angle.
    pub open spec fn turned(self, layout: LayoutId) -> StackView {
        let v = self.normalized(layout);
        let root = v.inner.root(layout);
        StackView {
            inner: v.inner.with_forest(
                v.inner.forest.with_kind(root, stack_across(v.inner.forest.kind(root))),
            ),
            ..v
        }
    }

    /// A new window enters a layout.
    pub open spec fn window_added(self, layout: LayoutId, window: WindowId) -> StackView {
        let v = self.normalized(layout);
        let inner = if self.point is NextToSelection {
            v.inner.window_added(layout, window)
        } else {
            let t = v.inner.window_put(layout, Place::Last(v.inner.root(layout)), window);
            t.with_forest(t.forest.selected(v.inner.forest.next_id()))
        };
        StackView { inner, ..v }
    }

    /// Whether a list names every layout once.
    pub open spec fn lists_layouts(self, layouts: Seq<LayoutId>) -> bool {
        &&& layouts.no_duplicates()
        &&& forall|l: LayoutId| layouts.contains(l) <==> self.inner.has(l)
    }

    /// The layouts that hold a window.
    pub open spec fn holders(self, window: WindowId) -> Seq<LayoutId> {
        self.inner.layouts_for(window).filter(|l: LayoutId| self.inner.has(l))
    }

    /// A layout holds the windows that a process has. A layout whose windows stay
    /// the same is left as it is.
    pub open spec fn app_set(self, layout: LayoutId, pid: Pid, desired: Seq<WindowId>) -> StackView {
        let v = StackView { inner: self.inner.app_set(layout, pid, desired), ..self };
        if v.inner.all_windows(layout) == self.inner.all_windows(layout) {
            v
        } else {
            v.normalized(layout)
        }
    }
}

/// Layouts that are one stack of windows.
pub struct StackLayoutSystem {
    inner: TraditionalLayoutSystem,
    default_orientation: StackDefaultOrientation,
    window_insertion_point: WindowInsertionPoint,
}

impl View for StackLayoutSystem {
    type V = StackView;

    closed spec fn view(&self) -> StackView {
        StackView {
            inner: self.inner@,
            orientation: self.default_orientation,
            point: self.window_insertion_point,
        }
    }
}

impl Default for StackLayoutSystem {
    fn default() -> (r: StackLayoutSystem)
        ensures
            r.wf(),
            r@ == (StackView {
                inner: TraditionalView::fresh(WindowInsertionPoint::NextToSelection, false),
                orientation: StackDefaultOrientation::Perpendicular,
                point: WindowInsertionPoint::NextToSelection,
            }),
    {
        StackLayoutSystem::new(default_stack_orientation())
    }
}

/// Whether two lists hold the same windows in the same order.
fn same_windows(a: &Vec<WindowId>, b: &Vec<WindowId>) -> (r: bool)
    ensures
        r == (a@ == b@),
{
    if a.len() != b.len() {
        return false;
    }
    let mut i: usize = 0;
    while i < a.len()
        invariant
            i <= a.len() == b.len(),
            forall|j: int| 0 <= j < i ==> a@[j] == b@[j],
        decreases a.len() - i,
    {
        if a[i] != b[i] {
            return false;
        }
        i += 1;
    }
    assert(a@ =~= b@);
    true
}

impl StackLayoutSystem {
    pub open spec fn wf(&self) -> bool {
        self@.inner.wf()
    }

    pub fn new(default_orientation: StackDefaultOrientation) -> (r: StackLayoutSystem)
        ensures
            r.wf(),
            r@ == (StackView {
                inner: TraditionalView::fresh(WindowInsertionPoint::NextToSelection, false),
                orientation: default_orientation,
                point: WindowInsertionPoint::NextToSelection,
            }),
    {
        StackLayoutSystem::new_with_insertion_point(
            default_orientation,
            WindowInsertionPoint::NextToSelection,
        )
    }

    pub fn new_with_insertion_point(
        default_orientation: StackDefaultOrientation,
        window_insertion_point: WindowInsertionPoint,
    ) -> (r: StackLayoutSystem)
        ensures
            r.wf(),
            r@ == (StackView {
                inner: TraditionalView::fresh(window_insertion_point, false),
                orientation: default_orientation,
                point: window_insertion_point,
            }),
    {
        StackLayoutSystem {
            inner: TraditionalLayoutSystem::new(window_insertion_point, false),
            default_orientation,
            window_insertion_point,
        }
    }

    pub fn update_settings(
        &mut self,
        default_orientation: StackDefaultOrientation,
        window_insertion_point: WindowInsertionPoint,
    )
        requires
            old(self).wf(),
        ensures
            final(self).wf(),
            final(self)@ == (StackView {
                inner: TraditionalView { point: window_insertion_point, ..old(self)@.inner },
                orientation: default_orientation,
                point: window_insertion_point,
            }),
    {
        self.default_orientation = default_orientation;
        self.window_insertion_point = window_insertion_point;
        self.inner.set_window_insertion_point(window_insertion_point);
    }

    /// The tree layouts that hold the stacks.
    pub fn inner(&self) -> (r: &TraditionalLayoutSystem)
        ensures
            r@ == self@.inner,
    {
        &self.inner
    }

    fn initial_stack_kind(&self) -> (r: LayoutKind)
        ensures
            r == first_stack(self@.orientation),
    {
        match self.default_orientation {
            StackDefaultOrientation::Perpendicular | StackDefaultOrientation::Vertical => {
                LayoutKind::VerticalStack
            },
            StackDefaultOrientation::Same | StackDefaultOrientation::Horizontal => {
                LayoutKind::HorizontalStack
            },
        }
    }

    fn stack_kind_for(kind: LayoutKind) -> (r: LayoutKind)
        ensures
            r == stack_along(kind),
    {
        match kind {
            LayoutKind::Horizontal | LayoutKind::HorizontalStack => LayoutKind::HorizontalStack,
            LayoutKind::Vertical | LayoutKind::VerticalStack => LayoutKind::VerticalStack,
        }
    }

    /// The windows of a layout, in order.
    pub fn all_windows_in_layout(&self, layout: LayoutId) -> (r: Vec<WindowId>)
        requires
            self.wf(),
            self@.inner.has(layout),
        ensures
            r@ == self@.inner.all_windows(layout),
    {
        self.inner.all_windows_in_layout(layout)
    }

    /// Makes the root a stack that holds all windows directly.
    fn normalize_layout(&mut self, layout: LayoutId)
        requires
            old(self).wf(),
            old(self)@.inner.has(layout),
        ensures
            final(self).wf(),
            final(self)@ == old(self)@.normalized(layout),
            final(self)@.inner.roots == old(self)@.inner.roots,
            final(self)@.orientation == old(self)@.orientation,
            final(self)@.point == old(self)@.point,
    {
        proof {
            reveal(StackView::normalized);
        }
        let root = self.inner.root(layout);
        let stack_kind = Self::stack_kind_for(self.inner.layout(root));
        let selected = self.inner.selected_window(layout);
        let windows = self.inner.all_windows_in_layout(layout);
        let children = self.inner.tree().children(root);
        self.inner.remove_nodes(&children);
        self.inner.set_layout(root, stack_kind);
        let ghost bare = self.inner@;
        let mut selected_node: Option<NodeId> = None;
        let mut first_node: Option<NodeId> = None;
        let mut i: usize = 0;
        assert(windows@.take(0) =~= Seq::empty());
        while i < windows.len()
            invariant
                i <= windows.len(),
                self.inner.wf(),
                self.default_orientation == old(self).default_orientation,
                self.window_insertion_point == old(self).window_insertion_point,
                self.inner@.roots == bare.roots,
                self.inner@ == lined_up(bare, layout, root, windows@.take(i as int)),
                selected_node == chosen(bare, layout, root, windows@.take(i as int), selected),
                first_node == (if i == 0 {
                    None
                } else {
                    Some(bare.forest.next_id())
                }),
            decreases windows.len() - i,
        {
            assert(windows@.take(i + 1).drop_last() =~= windows@.take(i as int));
            let wid = windows[i];
            let node = self.inner.add_window_under(layout, root, wid);
            if first_node.is_none() {
                first_node = Some(node);
            }
            if Some(wid) == selected {
                selected_node = Some(node);
            }
            i += 1;
        }
        assert(windows@.take(i as int) =~= windows@);
        match selected_node {
            Some(node) => {
                self.inner.select(node);
            },
            None => {
                if let Some(node) = first_node {
                    self.inner.select(node);
                }
            },
        }
    }

    /// Normalizes layouts, one after the other.
    fn normalize_each(&mut self, layouts: &Vec<LayoutId>)
        requires
            old(self).wf(),
            forall|j: int| 0 <= j < layouts@.len() ==> old(self)@.inner.has(#[trigger] layouts@[j]),
        ensures
            final(self).wf(),
            final(self)@.inner.roots == old(self)@.inner.roots,
            final(self)@ == old(self)@.all_normalized(layouts@),
    {
        let mut i: usize = 0;
        assert(layouts@.take(0) =~= Seq::empty());
        while i < layouts.len()
            invariant
                i <= layouts.len(),
                self.wf(),
                self@.inner.roots == old(self)@.inner.roots,
                forall|j: int|
                    0 <= j < layouts@.len() ==> old(self)@.inner.has(#[trigger] layouts@[j]),
                self@ == old(self)@.all_normalized(layouts@.take(i as int)),
            decreases layouts.len() - i,
        {
            assert(layouts@.take(i + 1).drop_last() =~= layouts@.take(i as int));
            assert(old(self)@.inner.has(layouts@[i as int]));
            self.normalize_layout(layouts[i]);
            i += 1;
        }
        assert(layouts@.take(i as int) =~= layouts@);
    }

    fn toggle_root_stack_orientation(&mut self, layout: LayoutId)
        requires
            old(self).wf(),
            old(self)@.inner.has(layout),
        ensures
            final(self).wf(),
            final(self)@ == old(self)@.turned(layout),
            final(self)@.inner.roots == old(self)@.inner.roots,
    {
        self.normalize_layout(layout);
        let root = self.inner.root(layout);
        let next = match self.inner.layout(root) {
            LayoutKind::Horizontal | LayoutKind::HorizontalStack => LayoutKind::VerticalStack,
            LayoutKind::Vertical | LayoutKind::VerticalStack => LayoutKind::HorizontalStack,
        };
        self.inner.set_layout(root, next);
    }

    pub fn create_layout(&mut self) -> (r: LayoutId)
        requires
            old(self).wf(),
            old(self)@.inner.roots.dom().len() < 4294967294,
        ensures
            final(self).wf(),
            !old(self)@.inner.has(r),
            final(self)@.inner.roots.dom() == old(self)@.inner.roots.dom().insert(r),
            final(self)@ == ({
                let t = old(self)@.inner.with_layout(r);
                StackView {
                    inner: t.with_forest(
                        t.forest.with_kind(t.root(r), first_stack(old(self)@.orientation)),
                    ),
                    ..old(self)@
                }.normalized(r)
            }),
    {
        let layout = self.inner.create_layout();
        let root = self.inner.root(layout);
        let kind = self.initial_stack_kind();
        self.inner.set_layout(root, kind);
        self.normalize_layout(layout);
        layout
    }

    pub fn clone_layout(&mut self, layout: LayoutId) -> (r: LayoutId)
        requires
            old(self).wf(),
            old(self)@.inner.has(layout),
            old(self)@.inner.roots.dom().len() < 4294967294,
        ensures
            final(self).wf(),
            !old(self)@.inner.has(r),
            final(self)@.inner.roots.dom() == old(self)@.inner.roots.dom().insert(r),
            final(self)@ == (StackView {
                inner: old(self)@.inner.with_clone(layout, r),
                ..old(self)@
            }).normalized(r),
    {
        let cloned = self.inner.clone_layout(layout);
        self.normalize_layout(cloned);
        cloned
    }

    /// Adds a window to a layout and selects it.
    pub fn add_window_after_selection(&mut self, layout: LayoutId, wid: WindowId)
        requires
            old(self).wf(),
            old(self)@.inner.has(layout),
        ensures
            final(self).wf(),
            final(self)@ == old(self)@.window_added(layout, wid),
    {
        self.normalize_layout(layout);
        let next_to_selection = match self.window_insertion_point {
            WindowInsertionPoint::NextToSelection => true,
            WindowInsertionPoint::EndOfTree => false,
        };
        if next_to_selection {
            self.inner.add_window_after_selection(layout, wid);
            return;
        }
        let root = self.inner.root(layout);
        let node = self.inner.add_window_under(layout, root, wid);
        self.inner.select(node);
    }

    /// Removes a window from all layouts and normalizes those that held it.
    pub fn remove_window(&mut self, wid: WindowId)
        requires
            old(self).wf(),
        ensures
            final(self).wf(),
            final(self)@ == (StackView {
                inner: old(self)@.inner.with_forest(old(self)@.inner.forest.window_removed(wid)),
                ..old(self)@
            }).all_normalized(old(self)@.holders(wid)),
    {
        let all = self.inner.layouts_for_window(wid);
        let ghost here = |l: LayoutId| old(self)@.inner.has(l);
        let mut layouts: Vec<LayoutId> = Vec::new();
        let mut i: usize = 0;
        reveal(Seq::filter);
        while i < all.len()
            invariant
                i <= all.len(),
                self.wf(),
                self@ == old(self)@,
                here == (|l: LayoutId| old(self)@.inner.has(l)),
                layouts@ == all@.take(i as int).filter(here),
                forall|j: int|
                    0 <= j < layouts@.len() ==> old(self)@.inner.has(#[trigger] layouts@[j]),
            decreases all.len() - i,
        {
            proof {
                assert(all@.take(i + 1).drop_last() =~= all@.take(i as int));
                reveal(Seq::filter);
            }
            if self.inner.contains_layout(all[i]) {
                layouts.push(all[i]);
            }
            i += 1;
        }
        assert(all@.take(i as int) =~= all@);
        self.inner.remove_window(wid);
        self.normalize_each(&layouts);
    }

    /// Removes the windows of a process from all layouts. Those that held any are
    /// normalized, in an order that the table of layouts chooses.
    pub fn remove_windows_for_app(&mut self, pid: Pid)
        requires
            old(self).wf(),
        ensures
            final(self).wf(),
            exists|order: Seq<LayoutId>| #[trigger]
                old(self)@.lists_layouts(order) && final(self)@ == (StackView {
                    inner: old(self)@.inner.with_forest(old(self)@.inner.forest.app_removed(pid)),
                    ..old(self)@
                }).all_normalized(
                    order.filter(|l: LayoutId| old(self)@.inner.app_windows(l, pid).len() > 0),
                ),
    {
        let all = self.inner.layouts();
        let ghost hit = |l: LayoutId| old(self)@.inner.app_windows(l, pid).len() > 0;
        let mut layouts: Vec<LayoutId> = Vec::new();
        let mut i: usize = 0;
        reveal(Seq::filter);
        while i < all.len()
            invariant
                i <= all.len(),
                self.wf(),
                self@ == old(self)@,
                forall|l: LayoutId| all@.contains(l) <==> old(self)@.inner.has(l),
                hit == (|l: LayoutId| old(self)@.inner.app_windows(l, pid).len() > 0),
                layouts@ == all@.take(i as int).filter(hit),
                forall|j: int|
                    0 <= j < layouts@.len() ==> old(self)@.inner.has(#[trigger] layouts@[j]),
            decreases all.len() - i,
        {
            proof {
                assert(all@.take(i + 1).drop_last() =~= all@.take(i as int));
                reveal(Seq::filter);
            }
            let layout = all[i];
            assert(all@.contains(layout));
            if self.inner.has_windows_for_app(layout, pid) {
                layouts.push(layout);
            }
            i += 1;
        }
        assert(all@.take(i as int) =~= all@);
        self.inner.remove_windows_for_app(pid);
        self.normalize_each(&layouts);
        assert(old(self)@.lists_layouts(all@));
    }

    /// Makes a layout hold the windows that a process has.
    pub fn set_windows_for_app(&mut self, layout: LayoutId, pid: Pid, desired: Vec<WindowId>)
        requires
            old(self).wf(),
            old(self)@.inner.has(layout),
        ensures
            final(self).wf(),
            final(self)@ == old(self)@.app_set(layout, pid, desired@),
    {
        let before = self.inner.all_windows_in_layout(layout);
        self.inner.set_windows_for_app(layout, pid, desired);
        assert(self@.inner.has(layout));
        let after = self.inner.all_windows_in_layout(layout);
        if !same_windows(&before, &after) {
            self.normalize_layout(layout);
        }
    }

    /// Moves the selection. Says whether it could move.
    pub fn move_selection(&mut self, layout: LayoutId, direction: Direction) -> (r: bool)
        requires
            old(self).wf(),
            old(self)@.inner.has(layout),
        ensures
            final(self).wf(),
            r == old(self)@.inner.can_shift(layout, old(self)@.inner.selection(layout), direction),
            final(self)@ == ({
                let v = StackView {
                    inner: old(self)@.inner.node_shifted(
                        layout,
                        old(self)@.inner.selection(layout),
                        direction,
                    ),
                    ..old(self)@
                };
                if r {
                    v.normalized(layout)
                } else {
                    v
                }
            }),
    {
        let moved = self.inner.move_selection(layout, direction);
        if moved {
            self.normalize_layout(layout);
        }
        moved
    }

    /// The selection of one layout goes to another.
    pub fn move_selection_to_layout_after_selection(&mut self, from: LayoutId, to: LayoutId)
        requires
            old(self).wf(),
            old(self)@.inner.has(from),
            old(self)@.inner.has(to),
        ensures
            final(self).wf(),
            final(self)@ == (StackView {
                inner: old(self)@.inner.sent(from, to),
                ..old(self)@
            }).normalized(from).normalized(to),
    {
        self.inner.move_selection_to_layout_after_selection(from, to);
        self.normalize_layout(from);
        self.normalize_layout(to);
    }

    /// Turns the stack by a right angle. Returns the windows that it shows.
    pub fn apply_stacking_to_parent_of_selection(
        &mut self,
        layout: LayoutId,
        default_orientation: StackDefaultOrientation,
    ) -> (r: Vec<WindowId>)
        requires
            old(self).wf(),
            old(self)@.inner.has(layout),
        ensures
            final(self).wf(),
            final(self)@ == old(self)@.turned(layout),
            r@ == final(self)@.inner.forest.visible(final(self)@.inner.root(layout)),
    {
        self.toggle_root_stack_orientation(layout);
        self.inner.visible_windows_in_layout(layout)
    }

    /// The layout stays a stack.
    pub fn unstack_parent_of_selection(
        &mut self,
        layout: LayoutId,
        default_orientation: StackDefaultOrientation,
    ) -> (r: Vec<WindowId>)
        requires
            old(self).wf(),
        ensures
            final(self).wf(),
            final(self)@ == old(self)@,
            r@.len() == 0,
    {
        Vec::new()
    }

    pub fn parent_of_selection_is_stacked(&self, layout: LayoutId) -> (r: bool)
        requires
            self.wf(),
            self@.inner.has(layout),
        ensures
            r == self@.inner.forest.kind(self@.inner.root(layout)).stacks(),
    {
        let root = self.inner.root(layout);
        self.inner.layout(root).is_stacked()
    }

    /// Turns the stack by a right angle.
    pub fn toggle_tile_orientation(&mut self, layout: LayoutId)
        requires
            old(self).wf(),
            old(self)@.inner.has(layout),
        ensures
            final(self).wf(),
            final(self)@ == old(self)@.turned(layout),
    {
        self.toggle_root_stack_orientation(layout);
    }

    // ----- commands that mean nothing to a stack -----

    pub fn split_selection(&mut self, layout: LayoutId, kind: LayoutKind)
        requires
            old(self).wf(),
        ensures
            final(self).wf(),
            final(self)@ == old(self)@,
    {
    }

    pub fn join_selection_with_direction(&mut self, layout: LayoutId, direction: Direction)
        requires
            old(self).wf(),
        ensures
            final(self).wf(),
            final(self)@ == old(self)@,
    {
    }

    pub fn unjoin_selection(&mut self, layout: LayoutId)
        requires
            old(self).wf(),
        ensures
            final(self).wf(),
            final(self)@ == old(self)@,
    {
    }

    pub fn resize_selection_by(&mut self, layout: LayoutId, orientation: ResizeOrientation)
        requires
            old(self).wf(),
        ensures
            final(self).wf(),
            final(self)@ == old(self)@,
    {
    }

    pub fn rebalance(&mut self, layout: LayoutId)
        requires
            old(self).wf(),
        ensures
            final(self).wf(),
            final(self)@ == old(self)@,
    {
    }

    // ----- what all tree layouts do alike -----

    /// Hands out the size steps noted so far, oldest first.
    pub fn take_size_changes(&mut self) -> (r: Vec<SizeChange>)
        requires
            old(self).wf(),
        ensures
            final(self).wf(),
            final(self)@ == (StackView { inner: final(self)@.inner, ..old(self)@ }),
            r@ == old(self)@.inner.forest.changes,
            final(self)@.inner == old(self)@.inner.with_forest(
                (ForestView { changes: Seq::empty(), ..old(self)@.inner.forest }),
            ),
    {
        self.inner.take_size_changes()
    }

    pub fn contains_layout(&self, layout: LayoutId) -> (r: bool)
        requires
            self.wf(),
        ensures
            r == self@.inner.has(layout),
    {
        self.inner.contains_layout(layout)
    }

    /// Removes a layout with its tree.
    pub fn remove_layout(&mut self, layout: LayoutId)
        requires
            old(self).wf(),
            old(self)@.inner.has(layout),
        ensures
            final(self).wf(),
            final(self)@ == (StackView { inner: final(self)@.inner, ..old(self)@ }),
            final(self)@.inner == old(self)@.inner.without_layout(layout),
    {
        self.inner.remove_layout(layout)
    }

    pub fn selected_window(&self, layout: LayoutId) -> (r: Option<WindowId>)
        requires
            self.wf(),
            self@.inner.has(layout),
        ensures
            r == self@.inner.selected_window(layout),
    {
        self.inner.selected_window(layout)
    }

    pub fn visible_windows_in_layout(&self, layout: LayoutId) -> (r: Vec<WindowId>)
        requires
            self.wf(),
            self@.inner.has(layout),
        ensures
            r@ == self@.inner.forest.visible(self@.inner.root(layout)),
    {
        self.inner.visible_windows_in_layout(layout)
    }

    pub fn visible_windows_under_selection(&self, layout: LayoutId) -> (r: Vec<WindowId>)
        requires
            self.wf(),
            self@.inner.has(layout),
        ensures
            r@ == self@.inner.forest.visible(self@.inner.selection(layout)),
    {
        self.inner.visible_windows_under_selection(layout)
    }

    /// Moves the selection to its parent. Says whether there is one.
    pub fn ascend_selection(&mut self, layout: LayoutId) -> (r: bool)
        requires
            old(self).wf(),
            old(self)@.inner.has(layout),
        ensures
            final(self).wf(),
            final(self)@ == (StackView { inner: final(self)@.inner, ..old(self)@ }),
            r == (old(self)@.inner.forest.parent(old(self)@.inner.selection(layout)) is Some),
            final(self)@.inner == old(self)@.inner.ascended(layout),
    {
        self.inner.ascend_selection(layout)
    }

    /// Moves the selection to the child that it remembers. Says whether there is one.
    pub fn descend_selection(&mut self, layout: LayoutId) -> (r: bool)
        requires
            old(self).wf(),
            old(self)@.inner.has(layout),
        ensures
            final(self).wf(),
            final(self)@ == (StackView { inner: final(self)@.inner, ..old(self)@ }),
            r == (old(self)@.inner.forest.last_selection(old(self)@.inner.selection(layout)) is Some),
            final(self)@.inner == old(self)@.inner.descended(layout),
    {
        self.inner.descend_selection(layout)
    }

    /// Moves focus in a direction. Returns the window it reaches and the
    /// windows to raise.
    pub fn move_focus(&mut self, layout: LayoutId, direction: Direction) -> (r: (
        Option<WindowId>,
        Vec<WindowId>,
    ))
        requires
            old(self).wf(),
            old(self)@.inner.has(layout),
        ensures
            final(self).wf(),
            final(self)@ == (StackView { inner: final(self)@.inner, ..old(self)@ }),
            (final(self)@.inner, r.0, r.1@) == old(self)@.inner.focus_moved(layout, direction),
    {
        self.inner.move_focus(layout, direction)
    }

    /// The first window of a layout when entered forwards, the last one when
    /// entered backwards.
    pub fn window_in_direction(&self, layout: LayoutId, direction: Direction) -> (r: Option<
        WindowId,
    >)
        requires
            self.wf(),
            self@.inner.has(layout),
        ensures
            r == self@.inner.first_met(layout, direction),
    {
        self.inner.window_in_direction(layout, direction)
    }

    pub fn contains_window(&self, layout: LayoutId, wid: WindowId) -> (r: bool)
        ensures
            r == (self@.inner.forest.node_for(layout, wid) is Some),
    {
        self.inner.contains_window(layout, wid)
    }

    /// Selects a window of a layout. Says whether it is there.
    pub fn select_window(&mut self, layout: LayoutId, wid: WindowId) -> (r: bool)
        requires
            old(self).wf(),
        ensures
            final(self).wf(),
            final(self)@ == (StackView { inner: final(self)@.inner, ..old(self)@ }),
            r == (old(self)@.inner.forest.node_for(layout, wid) is Some),
            final(self)@.inner == old(self)@.inner.window_selected(layout, wid),
    {
        self.inner.select_window(layout, wid)
    }

    /// Two windows of a layout change places. Says whether both are there.
    pub fn swap_windows(&mut self, layout: LayoutId, a: WindowId, b: WindowId) -> (r: bool)
        requires
            old(self).wf(),
        ensures
            final(self).wf(),
            final(self)@ == (StackView { inner: final(self)@.inner, ..old(self)@ }),
            r == old(self)@.inner.forest.can_swap(layout, a, b),
            final(self)@.inner == old(self)@.inner.with_forest(
                old(self)@.inner.forest.with_swapped(layout, a, b),
            ),
    {
        self.inner.swap_windows(layout, a, b)
    }

    /// Every node that shows `from` shows `to` instead.
    pub fn replace_window(&mut self, from: WindowId, to: WindowId)
        requires
            old(self).wf(),
        ensures
            final(self).wf(),
            final(self)@ == (StackView { inner: final(self)@.inner, ..old(self)@ }),
            final(self)@.inner == old(self)@.inner.with_forest(old(self)@.inner.forest.with_replaced(from, to)),
    {
        self.inner.replace_window(from, to)
    }

    /// The selection covers the screen, or no longer does. Returns the windows
    /// that it shows if it does now.
    pub fn toggle_fullscreen_of_selection(&mut self, layout: LayoutId) -> (r: Vec<WindowId>)
        requires
            old(self).wf(),
            old(self)@.inner.has(layout),
        ensures
            final(self).wf(),
            final(self)@ == (StackView { inner: final(self)@.inner, ..old(self)@ }),
            final(self)@.inner == old(self)@.inner.fullscreen_toggled(layout),
            r@ == (if old(self)@.inner.selection_info(layout).is_fullscreen {
                Seq::empty()
            } else {
                final(self)@.inner.forest.visible(old(self)@.inner.selection(layout))
            }),
    {
        self.inner.toggle_fullscreen_of_selection(layout)
    }

    /// The selection covers the screen within its gaps, or no longer does.
    /// Returns the windows that it shows if it does now.
    pub fn toggle_fullscreen_within_gaps_of_selection(&mut self, layout: LayoutId) -> (r: Vec<
        WindowId,
    >)
        requires
            old(self).wf(),
            old(self)@.inner.has(layout),
        ensures
            final(self).wf(),
            final(self)@ == (StackView { inner: final(self)@.inner, ..old(self)@ }),
            final(self)@.inner == old(self)@.inner.fullscreen_within_gaps_toggled(layout),
            r@ == (if old(self)@.inner.selection_info(layout).is_fullscreen_within_gaps {
                Seq::empty()
            } else {
                final(self)@.inner.forest.visible(old(self)@.inner.selection(layout))
            }),
    {
        self.inner.toggle_fullscreen_within_gaps_of_selection(layout)
    }

    pub fn has_any_fullscreen_node(&self, layout: LayoutId) -> (r: bool)
        requires
            self.wf(),
            self@.inner.has(layout),
        ensures
            r == self@.inner.has_fullscreen(layout),
    {
        self.inner.has_any_fullscreen_node(layout)
    }

    pub fn has_windows_for_app(&self, layout: LayoutId, pid: Pid) -> (r: bool)
        requires
            self.wf(),
            self@.inner.has(layout),
        ensures
            r == (self@.inner.app_windows(layout, pid).len() > 0),
    {
        self.inner.has_windows_for_app(layout, pid)
    }

    pub fn windows_for_app(&self, layout: LayoutId, pid: Pid) -> (r: Vec<WindowId>)
        requires
            self.wf(),
            self@.inner.has(layout),
        ensures
            r@ == self@.inner.app_windows(layout, pid),
    {
        self.inner.windows_for_app(layout, pid)
    }

    /// The stacks on the way to the selection, from the top down. None where
    /// something on the way covers the screen.
    pub fn collect_group_containers_in_selection_path(&self, layout: LayoutId) -> (r: Vec<
        GroupInfo,
    >)
        requires
            self.wf(),
            self@.inner.has(layout),
        ensures
            groups::describe_all(
                r@,
                self@.inner.forest,
                self@.inner.forest.groups_on_path(self@.inner.root(layout)),
            ),
    {
        self.inner.collect_group_containers_in_selection_path(layout)
    }

    /// All stacks in view, parents before children.
    pub fn collect_group_containers(&self, layout: LayoutId) -> (r: Vec<GroupInfo>)
        requires
            self.wf(),
            self@.inner.has(layout),
        ensures
            groups::describe_all(r@, self@.inner.forest, self@.inner.forest.groups_below(self@.inner.root(layout))),
    {
        self.inner.collect_group_containers(layout)
    }

    /// How many layouts there are.
    pub fn layout_count(&self) -> (r: usize)
        ensures
            r == self@.inner.roots.dom().len(),
    {
        self.inner.layout_count()
    }

    /// A window was resized from outside. `to` and `from` say what the new and
    /// the old frame cover. Returns the node whose sizes have to follow a plain
    /// change of frame.
    pub fn on_window_resized(
        &mut self,
        layout: LayoutId,
        wid: WindowId,
        from: navigation::Coverage,
        to: navigation::Coverage,
    ) -> (r: Option<NodeId>)
        requires
            old(self).wf(),
        ensures
            final(self).wf(),
            final(self)@ == (StackView { inner: final(self)@.inner, ..old(self)@ }),
            (final(self)@.inner, r) == old(self)@.inner.window_resized(layout, wid, from, to),
    {
        self.inner.on_window_resized(layout, wid, from, to)
    }

    /// A picture of the layout.
    pub fn container_tree(&self, layout: LayoutId) -> (r: TreeSnapshot)
        requires
            self.wf(),
            self@.inner.has(layout),
        ensures
            r.shows(self@.inner.forest, self@.inner.root(layout), self@.inner.selection(layout), Seq::empty()),
    {
        self.inner.container_tree(layout)
    }
}

impl LayoutSystem for StackLayoutSystem {
    open spec fn ready(&self) -> bool {
        self.wf()
    }

    open spec fn known_layouts(system: StackView) -> Set<LayoutId> {
        system.inner.roots.dom()
    }

    open spec fn copyable(system: StackView, layout: LayoutId) -> bool {
        system.inner.has(layout)
    }

    open spec fn with_fresh(system: StackView, layout: LayoutId) -> StackView {
        {
            let t = system.inner.with_layout(layout);
            StackView {
                inner: t.with_forest(
                    t.forest.with_kind(t.root(layout), first_stack(system.orientation)),
                ),
                ..system
            }.normalized(layout)
        }
    }

    open spec fn with_copy(system: StackView, source: LayoutId, layout: LayoutId) -> StackView {
        (StackView { inner: system.inner.with_clone(source, layout), ..system }).normalized(layout)
    }

    fn create_layout(&mut self) -> (r: LayoutId) {
        let r = StackLayoutSystem::create_layout(self);
        assert(Self::known_layouts(self@) =~= Self::known_layouts(old(self)@).insert(r));
        r
    }

    fn clone_layout(&mut self, layout: LayoutId) -> (r: LayoutId) {
        let r = StackLayoutSystem::clone_layout(self, layout);
        assert(Self::known_layouts(self@) =~= Self::known_layouts(old(self)@).insert(r));
        r
    }

    proof fn layouts_known(&self) {
    }
}

} // verus!
