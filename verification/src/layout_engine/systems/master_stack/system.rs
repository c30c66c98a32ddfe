//! The master-stack layout system.

use vstd::prelude::*;

use crate::actor::{LayoutId, Pid, WindowId};
use crate::common::config::{
    MasterStackNewWindowPlacement, MasterStackSettings, MasterStackSide,
    StackDefaultOrientation, WindowInsertionPoint,
};
use crate::common::config;
use crate::layout_engine::systems::LayoutSystem;
use crate::layout_engine::systems::groups::GroupInfo;
use crate::layout_engine::systems::groups;
use crate::layout_engine::systems::master_stack::view::MasterView;
use crate::layout_engine::systems::master_stack::view;
use crate::layout_engine::systems::navigation;
use crate::layout_engine::systems::snapshot::{NodeRole, RoleEntry, TreeSnapshot};
use crate::layout_engine::systems::traditional::system::TraditionalLayoutSystem;
use crate::layout_engine::systems::traditional::view::TraditionalView;
use crate::layout_engine::systems;
use crate::layout_engine::{Direction, LayoutKind, Orientation, ResizeOrientation};
use crate::model::tree::view::{ForestView, NodeId, Place, SizeChange};

verus! {

/// What the settings say when nothing is set.
pub fn default_master_stack_settings() -> (r: MasterStackSettings)
    ensures
        r == config::stock_master_stack_settings(),
{
    MasterStackSettings::default()
}

/// Layouts with a master area and a stack beside it.
pub struct MasterStackLayoutSystem {
    inner: TraditionalLayoutSystem,
    settings: MasterStackSettings,
}

impl View for MasterStackLayoutSystem {
    type V = MasterView;

    closed spec fn view(&self) -> MasterView {
        MasterView { inner: self.inner@, settings: self.settings }
    }
}

impl Default for MasterStackLayoutSystem {
    fn default() -> (r: MasterStackLayoutSystem)
        ensures
            r.wf(),
            r@ == (MasterView {
                inner: TraditionalView::fresh(WindowInsertionPoint::NextToSelection, true),
                settings: config::stock_master_stack_settings(),
            }),
    {
        MasterStackLayoutSystem::new(MasterStackSettings::default())
    }
}

/// The place of a window in a list; the length without one.
fn position(list: &Vec<WindowId>, window: WindowId) -> (r: usize)
    ensures
        r == view::place_of(list@, window, 0),
        r <= list@.len(),
{
    let mut i: usize = 0;
    while i < list.len()
        invariant
            i <= list.len(),
            view::place_of(list@, window, 0) == view::place_of(list@, window, i as int),
        decreases list.len() - i,
    {
        if list[i] == window {
            return i;
        }
        i += 1;
    }
    i
}

/// Two members of a list change places.
fn exchange(list: &mut Vec<WindowId>, i: usize, j: usize)
    requires
        i < old(list)@.len(),
        j < old(list)@.len(),
    ensures
        final(list)@ == view::exchanged(old(list)@, i as int, j as int),
{
    let a = list[i];
    let b = list[j];
    list.set(i, b);
    list.set(j, a);
}

/// The windows that a stack gives up.
fn supply(stack: &Vec<WindowId>, needed: usize, master_first: bool) -> (r: Vec<WindowId>)
    ensures
        r@ == view::supply(stack@, needed as int, master_first),
{
    let count = if needed < stack.len() {
        needed
    } else {
        stack.len()
    };
    let mut out: Vec<WindowId> = Vec::new();
    let mut i: usize = 0;
    if master_first {
        while i < count
            invariant
                i <= count <= stack.len(),
                out@ =~= stack@.take(i as int),
            decreases count - i,
        {
            out.push(stack[i]);
            i += 1;
        }
    } else {
        let ghost tail = stack@.skip(stack@.len() - count);
        while i < count
            invariant
                i <= count <= stack.len(),
                tail == stack@.skip(stack@.len() - count),
                out@ =~= tail.reverse().take(i as int),
            decreases count - i,
        {
            out.push(stack[stack.len() - 1 - i]);
            i += 1;
        }
        assert(out@ =~= tail.reverse());
    }
    out
}

impl MasterStackLayoutSystem {
    pub open spec fn wf(&self) -> bool {
        self@.inner.wf()
    }

    pub fn new(settings: MasterStackSettings) -> (r: MasterStackLayoutSystem)
        ensures
            r.wf(),
            r@ == (MasterView {
                inner: TraditionalView::fresh(WindowInsertionPoint::NextToSelection, true),
                settings,
            }),
    {
        MasterStackLayoutSystem { inner: TraditionalLayoutSystem::default(), settings }
    }

    pub fn settings(&self) -> (r: MasterStackSettings)
        ensures
            r == self@.settings,
    {
        self.settings
    }

    /// The tree layouts that hold the areas.
    pub fn inner(&self) -> (r: &TraditionalLayoutSystem)
        ensures
            r@ == self@.inner,
    {
        &self.inner
    }

    // ----- what the settings say -----

    fn root_orientation(&self) -> (r: Orientation)
        ensures
            r == self@.root_axis(),
    {
        match self.settings.master_side {
            MasterStackSide::Left | MasterStackSide::Right => Orientation::Horizontal,
            MasterStackSide::Top | MasterStackSide::Bottom => Orientation::Vertical,
        }
    }

    fn container_orientation(&self) -> (r: Orientation)
        ensures
            r == self@.container_axis(),
    {
        match self.root_orientation() {
            Orientation::Horizontal => Orientation::Vertical,
            Orientation::Vertical => Orientation::Horizontal,
        }
    }

    fn master_orientation(&self) -> (r: Orientation)
        ensures
            r == self@.master_axis(),
    {
        match self.settings.master_arrangement {
            Some(axis) => axis,
            None => self.container_orientation(),
        }
    }

    fn stack_orientation(&self) -> (r: Orientation)
        ensures
            r == self@.stack_axis(),
    {
        match self.settings.stack_arrangement {
            Some(axis) => axis,
            None => self.container_orientation(),
        }
    }

    fn master_first(&self) -> (r: bool)
        ensures
            r == self@.master_first(),
    {
        match self.settings.master_side {
            MasterStackSide::Left | MasterStackSide::Top => true,
            MasterStackSide::Right | MasterStackSide::Bottom => false,
        }
    }

    /// The direction from the stack to the master area.
    fn to_master(&self) -> (r: Direction)
        ensures
            r == self@.to_master(),
    {
        match self.settings.master_side {
            MasterStackSide::Left => Direction::Left,
            MasterStackSide::Right => Direction::Right,
            MasterStackSide::Top => Direction::Up,
            MasterStackSide::Bottom => Direction::Down,
        }
    }

    // ----- reading the areas -----

    /// The master area and the stack, where the root has two children.
    fn areas(&self, layout: LayoutId, master_first: bool) -> (r: Option<(NodeId, NodeId)>)
        requires
            self.wf(),
            self@.inner.has(layout),
        ensures
            r == self@.areas(layout, master_first),
    {
        let kids = self.inner.tree().children(self.inner.root(layout));
        if kids.len() != 2 {
            None
        } else if master_first {
            Some((kids[0], kids[1]))
        } else {
            Some((kids[1], kids[0]))
        }
    }

    /// The windows of an area, in order.
    pub fn windows_in_container(&self, container: NodeId) -> (r: Vec<WindowId>)
        requires
            self.wf(),
        ensures
            r@ == self@.windows_in(container),
    {
        self.inner.tree().windows_under(container)
    }

    fn windows_in_layout_by_container_with_order(&self, layout: LayoutId, master_first: bool) ->
        (r: Option<Vec<WindowId>>)
        requires
            self.wf(),
            self@.inner.has(layout),
        ensures
            r is Some <==> self@.ordered(layout, master_first) is Some,
            r is Some ==> (r->0)@ == self@.ordered(layout, master_first)->0,
    {
        let (master, stack) = match self.areas(layout, master_first) {
            Some(pair) => pair,
            None => {
                return None;
            },
        };
        if self.inner.window_at(master).is_some() || self.inner.window_at(stack).is_some() {
            return None;
        }
        let mut ordered = self.windows_in_container(master);
        let mut rest = self.windows_in_container(stack);
        ordered.append(&mut rest);
        Some(ordered)
    }

    /// The windows of a layout, master area first.
    pub fn windows_in_layout_by_container(&self, layout: LayoutId) -> (r: Vec<WindowId>)
        requires
            self.wf(),
            self@.inner.has(layout),
        ensures
            r@ == self@.listing(layout),
    {
        match self.windows_in_layout_by_container_with_order(layout, self.master_first()) {
            Some(windows) => windows,
            None => self.inner.all_windows_in_layout(layout),
        }
    }

    fn container_is_flat(&self, container: NodeId) -> (r: bool)
        ensures
            r == self@.flat(container),
    {
        let kids = self.inner.tree().children(container);
        let mut i: usize = 0;
        while i < kids.len()
            invariant
                i <= kids.len(),
                kids@ == self@.forest().children(container),
                forall|j: int| 0 <= j < i ==> self@.forest().window(#[trigger] kids@[j]) is Some,
            decreases kids.len() - i,
        {
            if self.inner.window_at(kids[i]).is_none() {
                assert(self@.forest().window(kids@[i as int]) is None);
                return false;
            }
            i += 1;
        }
        true
    }

    /// Whether the root has two containers, which hold windows only.
    pub fn has_valid_structure(&self, layout: LayoutId) -> (r: bool)
        requires
            self.wf(),
            self@.inner.has(layout),
        ensures
            r == self@.valid(layout),
    {
        match self.areas(layout, true) {
            Some((a, b)) => self.inner.window_at(a).is_none() && self.inner.window_at(b).is_none()
                && self.container_is_flat(a) && self.container_is_flat(b),
            None => false,
        }
    }

    fn focused_container(&self, layout: LayoutId, master: NodeId, stack: NodeId) -> (r: Option<
        NodeId,
    >)
        requires
            self.wf(),
            self@.inner.has(layout),
        ensures
            r == self@.focused_area(layout, master, stack),
    {
        let wid = match self.inner.selected_window(layout) {
            Some(w) => w,
            None => {
                return None;
            },
        };
        let node = match self.inner.window_node(layout, wid) {
            Some(n) => n,
            None => {
                return None;
            },
        };
        let path = self.inner.tree().ancestors(node);
        if node_in(&path, master) {
            Some(master)
        } else if node_in(&path, stack) {
            Some(stack)
        } else {
            None
        }
    }

    fn target_container_for_new_window(
        &self,
        layout: LayoutId,
        master: NodeId,
        stack: NodeId,
    ) -> (r: NodeId)
        requires
            self.wf(),
            self@.inner.has(layout),
        ensures
            r == self@.target(layout, master, stack),
    {
        if self.windows_in_container(master).len() < self.settings.master_count {
            return master;
        }
        match self.settings.new_window_placement {
            MasterStackNewWindowPlacement::Master => master,
            MasterStackNewWindowPlacement::Stack => stack,
            MasterStackNewWindowPlacement::Focused => match self.focused_container(
                layout,
                master,
                stack,
            ) {
                Some(area) => area,
                None => master,
            },
        }
    }

    fn focused_window_in_container(&self, container: NodeId) -> (r: Option<WindowId>)
        requires
            self.wf(),
        ensures
            r == self@.area_focus(container),
    {
        let lead = match self.inner.tree().remembered_lead(container) {
            Some(c) => c,
            None => {
                return None;
            },
        };
        let windows = self.inner.tree().windows_under(lead);
        if windows.len() > 0 {
            Some(windows[0])
        } else {
            None
        }
    }

    // ----- keeping the areas in order -----

    fn set_kinds(&mut self, master: NodeId, stack: NodeId)
        requires
            old(self).wf(),
        ensures
            final(self).wf(),
            final(self)@ == old(self)@.with_kinds(master, stack),
    {
        let master_kind = LayoutKind::for_orientation(self.master_orientation());
        let stack_kind = LayoutKind::for_orientation(self.stack_orientation());
        self.inner.set_layout(master, master_kind);
        self.inner.set_layout(stack, stack_kind);
    }

    fn create_containers(&mut self, root: NodeId) -> (r: (NodeId, NodeId))
        requires
            old(self).wf(),
        ensures
            final(self).wf(),
            (final(self)@, r.0, r.1) == old(self)@.with_areas(root),
            final(self)@.inner.roots == old(self)@.inner.roots,
            final(self)@.settings == old(self)@.settings,
    {
        proof {
            reveal(MasterView::with_areas);
        }
        let kind = LayoutKind::for_orientation(self.root_orientation());
        self.inner.set_layout(root, kind);
        let first = self.inner.insert_container(Place::Last(root));
        let second = self.inner.insert_container(Place::Last(root));
        let (master, stack) = if self.master_first() {
            (first, second)
        } else {
            (second, first)
        };
        self.set_kinds(master, stack);
        (master, stack)
    }

    fn apply_master_ratio(&mut self, root: NodeId, master: NodeId, stack: NodeId)
        requires
            old(self).wf(),
        ensures
            final(self).wf(),
            final(self)@ == old(self)@.rationed(root, master, stack),
    {
        let ratio = self.settings.master_ratio;
        self.inner.note_size(SizeChange::Rationed { parent: root, master, stack, ratio });
    }

    /// Makes sure that a layout has a master area and a stack. Returns its root,
    /// the master area and the stack.
    pub fn ensure_structure(&mut self, layout: LayoutId) -> (r: (NodeId, NodeId, NodeId))
        requires
            old(self).wf(),
            old(self)@.inner.has(layout),
        ensures
            final(self).wf(),
            (final(self)@, r.0, r.1, r.2) == old(self)@.ensured(layout),
            final(self)@.inner.roots == old(self)@.inner.roots,
            final(self)@.settings == old(self)@.settings,
    {
        proof {
            reveal(MasterView::ensured);
        }
        let root = self.inner.root(layout);
        if !self.has_valid_structure(layout) {
            self.rebuild_layout(layout);
        }
        match self.areas(layout, self.master_first()) {
            Some((master, stack)) => {
                let kind = LayoutKind::for_orientation(self.root_orientation());
                self.inner.set_layout(root, kind);
                self.set_kinds(master, stack);
                self.apply_master_ratio(root, master, stack);
                (root, master, stack)
            },
            None => {
                let (master, stack) = self.create_containers(root);
                self.apply_master_ratio(root, master, stack);
                (root, master, stack)
            },
        }
    }

    fn rebuild_layout(&mut self, layout: LayoutId)
        requires
            old(self).wf(),
            old(self)@.inner.has(layout),
        ensures
            final(self).wf(),
            final(self)@ == old(self)@.rebuilt(layout),
            final(self)@.inner.roots == old(self)@.inner.roots,
            final(self)@.settings == old(self)@.settings,
    {
        let windows = self.windows_in_layout_by_container(layout);
        self.rebuild_layout_with_windows(layout, &windows);
    }

    fn rebuild_layout_with_windows(&mut self, layout: LayoutId, windows: &Vec<WindowId>)
        requires
            old(self).wf(),
            old(self)@.inner.has(layout),
        ensures
            final(self).wf(),
            final(self)@ == old(self)@.rebuilt_with(layout, windows@),
            final(self)@.inner.roots == old(self)@.inner.roots,
            final(self)@.settings == old(self)@.settings,
    {
        proof {
            reveal(MasterView::rebuilt_with);
        }
        let selected = self.inner.selected_window(layout);
        let root = self.inner.root(layout);
        let children = self.inner.tree().children(root);
        self.inner.remove_nodes(&children);
        let (master, stack) = self.create_containers(root);
        let ghost bare = self@;
        let mut i: usize = 0;
        assert(windows@.take(0) =~= Seq::empty());
        while i < windows.len()
            invariant
                i <= windows.len(),
                self.wf(),
                self@.settings == bare.settings,
                self@.inner.roots == bare.inner.roots,
                self@ == bare.filled(layout, windows@.take(i as int), master, stack, selected),
            decreases windows.len() - i,
        {
            assert(windows@.take(i + 1).drop_last() =~= windows@.take(i as int));
            let wid = windows[i];
            let area = if i < self.settings.master_count {
                master
            } else {
                stack
            };
            let node = self.inner.add_window_under(layout, area, wid);
            if Some(wid) == selected {
                self.inner.select(node);
            }
            i += 1;
        }
        assert(windows@.take(i as int) =~= windows@);
        self.apply_master_ratio(root, master, stack);
        if let Some(wid) = selected {
            self.inner.select_window(layout, wid);
        }
        self.enforce_master_count_preserving(layout, master, stack, None);
    }

    /// Moves a window to the front or the end of an area, and keeps it selected
    /// if it was.
    fn relocate(
        &mut self,
        layout: LayoutId,
        wid: WindowId,
        container: NodeId,
        front: bool,
        selected: Option<WindowId>,
    )
        requires
            old(self).wf(),
        ensures
            final(self).wf(),
            final(self)@ == old(self)@.relocated(layout, wid, container, front, selected),
            final(self)@.inner.roots == old(self)@.inner.roots,
            final(self)@.settings == old(self)@.settings,
    {
        proof {
            reveal(MasterView::relocated);
        }
        let node = match self.inner.window_node(layout, wid) {
            Some(n) => n,
            None => {
                return;
            },
        };
        if !self.inner.tree().is_live(container) || !self.inner.tree().is_live(node) {
            return;
        }
        let place = if front {
            match self.inner.tree().first_child(container) {
                Some(c) => if c == node {
                    None
                } else {
                    Some(Place::Before(c))
                },
                None => Some(Place::Last(container)),
            }
        } else if self.inner.tree().parent(node) == Some(container) {
            None
        } else {
            Some(Place::Last(container))
        };
        if let Some(p) = place {
            self.inner.relocate(node, p);
        }
        if Some(wid) == selected {
            self.inner.select(node);
        }
    }

    /// Takes windows out of a master area that holds too many. Returns those that
    /// stay.
    fn shed(
        &mut self,
        layout: LayoutId,
        stack: NodeId,
        windows: Vec<WindowId>,
        keep: Option<WindowId>,
        selected: Option<WindowId>,
    ) -> (r: Vec<WindowId>)
        requires
            old(self).wf(),
        ensures
            final(self).wf(),
            (final(self)@, r@) == old(self)@.shed(layout, stack, windows@, keep, selected),
            final(self)@.inner.roots == old(self)@.inner.roots,
            final(self)@.settings == old(self)@.settings,
    {
        let mut held = windows;
        let front = self.master_first();
        while held.len() > self.settings.master_count
            invariant
                self.wf(),
                front == self@.master_first(),
                self@.inner.roots == old(self)@.inner.roots,
                self@.settings == old(self)@.settings,
                self@.shed(layout, stack, held@, keep, selected) == old(self)@.shed(
                    layout,
                    stack,
                    windows@,
                    keep,
                    selected,
                ),
            decreases held.len(),
        {
            let mut i: usize = held.len();
            while i > 0 && Some(held[i - 1]) == keep
                invariant
                    i <= held.len(),
                    view::last_other(held@, keep, held@.len() as int) == view::last_other(
                        held@,
                        keep,
                        i as int,
                    ),
                decreases i,
            {
                i -= 1;
            }
            if i == 0 {
                return held;
            }
            let wid = held.remove(i - 1);
            self.relocate(layout, wid, stack, front, selected);
        }
        held
    }

    /// Moves windows into the master area, one after the other.
    fn draw(
        &mut self,
        layout: LayoutId,
        master: NodeId,
        windows: &Vec<WindowId>,
        selected: Option<WindowId>,
    )
        requires
            old(self).wf(),
        ensures
            final(self).wf(),
            final(self)@ == old(self)@.drawn(layout, master, windows@, selected),
            final(self)@.inner.roots == old(self)@.inner.roots,
            final(self)@.settings == old(self)@.settings,
    {
        let front = !self.master_first();
        let mut i: usize = 0;
        assert(windows@.take(0) =~= Seq::empty());
        while i < windows.len()
            invariant
                i <= windows.len(),
                self.wf(),
                front == !old(self)@.master_first(),
                self@.inner.roots == old(self)@.inner.roots,
                self@.settings == old(self)@.settings,
                self@ == old(self)@.drawn(layout, master, windows@.take(i as int), selected),
            decreases windows.len() - i,
        {
            assert(windows@.take(i + 1).drop_last() =~= windows@.take(i as int));
            self.relocate(layout, windows[i], master, front, selected);
            i += 1;
        }
        assert(windows@.take(i as int) =~= windows@);
    }

    /// Fills or empties the master area until it holds as many windows as the
    /// settings ask for. `keep` is the last to leave it.
    pub fn enforce_master_count_preserving(
        &mut self,
        layout: LayoutId,
        master: NodeId,
        stack: NodeId,
        keep: Option<WindowId>,
    )
        requires
            old(self).wf(),
            old(self)@.inner.has(layout),
        ensures
            final(self).wf(),
            final(self)@ == old(self)@.enforced(layout, master, stack, keep),
            final(self)@.inner.roots == old(self)@.inner.roots,
            final(self)@.settings == old(self)@.settings,
    {
        proof {
            reveal(MasterView::enforced);
        }
        let mut inside = self.windows_in_container(master);
        let mut outside = self.windows_in_container(stack);
        let selected = self.inner.selected_window(layout);
        let desired = self.settings.master_count;
        let first = self.master_first();
        let ghost outside0 = outside@;
        if inside.len() == 0 && outside.len() > 0 {
            let wid = if first {
                outside.remove(0)
            } else {
                outside.pop().unwrap()
            };
            self.relocate(layout, wid, master, !first, selected);
            inside.push(wid);
            assert(inside@ =~= seq![wid]);
            assert(first ==> outside@ =~= outside0.drop_first());
            assert(!first ==> outside@ =~= outside0.drop_last());
        }
        let kept = if desired > 0 {
            keep
        } else {
            None
        };
        let left = self.shed(layout, stack, inside, kept, selected);
        if left.len() < desired {
            let windows = supply(&outside, desired - left.len(), first);
            self.draw(layout, master, &windows, selected);
        }
    }

    fn normalize_layout(&mut self, layout: LayoutId)
        requires
            old(self).wf(),
            old(self)@.inner.has(layout),
        ensures
            final(self).wf(),
            final(self)@ == old(self)@.normalized(layout),
            final(self)@.inner.roots == old(self)@.inner.roots,
            final(self)@.settings == old(self)@.settings,
    {
        proof {
            reveal(MasterView::normalized);
        }
        let (_, master, stack) = self.ensure_structure(layout);
        self.enforce_master_count_preserving(layout, master, stack, None);
    }

    fn normalize_layout_preserving_order(&mut self, layout: LayoutId, windows: &Vec<WindowId>)
        requires
            old(self).wf(),
            old(self)@.inner.has(layout),
        ensures
            final(self).wf(),
            final(self)@ == old(self)@.normalized_keeping(layout, windows@),
            final(self)@.inner.roots == old(self)@.inner.roots,
            final(self)@.settings == old(self)@.settings,
    {
        if self.has_valid_structure(layout) {
            self.normalize_layout(layout);
        } else {
            self.rebuild_layout_with_windows(layout, windows);
        }
    }

    // ----- settings -----

    /// Takes over new settings unless they equal those in use. The layouts follow,
    /// in an order that the table of layouts chooses, unless only the shared
    /// settings differ.
    pub fn update_settings(&mut self, settings: MasterStackSettings)
        requires
            old(self).wf(),
        ensures
            final(self).wf(),
            final(self)@.inner.roots == old(self)@.inner.roots,
            ({
                let before = old(self)@.settings;
                let with_new_base = MasterStackSettings { base: settings.base, ..before };
                &&& before.agrees(settings) ==> final(self)@ == old(self)@
                &&& !before.agrees(settings) && with_new_base.agrees(settings) ==> final(self)@ == (
                MasterView { settings, ..old(self)@ })
                &&& !with_new_base.agrees(settings) ==> exists|order: Seq<LayoutId>| #[trigger]
                    old(self)@.lists_layouts(order) && final(self)@ == (MasterView {
                        settings,
                        ..old(self)@
                    }).all_renewed(order, old(self)@.master_first())
            }),
    {
        if self.settings.agrees_with(&settings) {
            return;
        }
        let mut with_new_base = self.settings;
        with_new_base.base = settings.base;
        if with_new_base.agrees_with(&settings) {
            self.settings = settings;
            return;
        }
        let old_master_first = self.master_first();
        self.settings = settings;
        let ghost start = self@;
        let layouts = self.inner.layouts();
        let mut i: usize = 0;
        assert(layouts@.take(0) =~= Seq::empty());
        while i < layouts.len()
            invariant
                i <= layouts.len(),
                self.wf(),
                self@.inner.roots == start.inner.roots,
                self@.settings == start.settings,
                forall|l: LayoutId| layouts@.contains(l) <==> start.inner.has(l),
                self@ == start.all_renewed(layouts@.take(i as int), old_master_first),
            decreases layouts.len() - i,
        {
            assert(layouts@.take(i + 1).drop_last() =~= layouts@.take(i as int));
            let layout = layouts[i];
            assert(layouts@.contains(layout));
            match self.windows_in_layout_by_container_with_order(layout, old_master_first) {
                Some(windows) => {
                    self.rebuild_layout_with_windows(layout, &windows);
                },
                None => {
                    self.rebuild_layout(layout);
                },
            }
            i += 1;
        }
        assert(layouts@.take(i as int) =~= layouts@);
        assert(old(self)@.lists_layouts(layouts@));
    }

    /// Puts layouts in order, one after the other.
    fn normalize_each(&mut self, layouts: &Vec<LayoutId>)
        requires
            old(self).wf(),
            forall|j: int| 0 <= j < layouts@.len() ==> old(self)@.inner.has(#[trigger] layouts@[j]),
        ensures
            final(self).wf(),
            final(self)@.inner.roots == old(self)@.inner.roots,
            final(self)@ == old(self)@.all_normalized(layouts@),
    {
        let mut i: usize = 0;
        assert(layouts@.take(0) =~= Seq::empty());
        while i < layouts.len()
            invariant
                i <= layouts.len(),
                self.wf(),
                self@.inner.roots == old(self)@.inner.roots,
                forall|j: int|
                    0 <= j < layouts@.len() ==> old(self)@.inner.has(#[trigger] layouts@[j]),
                self@ == old(self)@.all_normalized(layouts@.take(i as int)),
            decreases layouts.len() - i,
        {
            assert(layouts@.take(i + 1).drop_last() =~= layouts@.take(i as int));
            assert(old(self)@.inner.has(layouts@[i as int]));
            self.normalize_layout(layouts[i]);
            i += 1;
        }
        assert(layouts@.take(i as int) =~= layouts@);
    }

    fn normalize_all(&mut self)
        requires
            old(self).wf(),
        ensures
            final(self).wf(),
            final(self)@.inner.roots == old(self)@.inner.roots,
            exists|order: Seq<LayoutId>| #[trigger]
                old(self)@.lists_layouts(order) && final(self)@ == old(self)@.all_normalized(order),
    {
        let layouts = self.inner.layouts();
        assert forall|j: int| 0 <= j < layouts@.len() implies self@.inner.has(
            #[trigger] layouts@[j],
        ) by {
            assert(layouts@.contains(layouts@[j]));
        }
        self.normalize_each(&layouts);
        assert(old(self)@.lists_layouts(layouts@));
    }

    /// Sets the share of the master area. The layouts follow, in an order that
    /// the table of layouts chooses.
    pub fn set_master_ratio(&mut self, ratio: u64)
        requires
            old(self).wf(),
        ensures
            final(self).wf(),
            final(self)@.inner.roots == old(self)@.inner.roots,
            exists|order: Seq<LayoutId>| #[trigger]
                old(self)@.lists_layouts(order) && final(self)@ == (MasterView {
                    settings: MasterStackSettings {
                        master_ratio: ratio,
                        ..old(self)@.settings
                    },
                    ..old(self)@
                }).all_normalized(order),
    {
        self.settings.master_ratio = ratio;
        let ghost start = self@;
        self.normalize_all();
        proof {
            let order = choose|order: Seq<LayoutId>| #[trigger]
                start.lists_layouts(order) && self@ == start.all_normalized(order);
            assert(old(self)@.lists_layouts(order));
        }
    }

    /// Changes how many master windows there are, down to one. All layouts
    /// follow, in an order that the table of layouts chooses.
    pub fn adjust_master_count(&mut self, _layout: LayoutId, delta: i32)
        requires
            old(self).wf(),
            i32::MIN <= old(self)@.settings.master_count as i32 + delta <= i32::MAX,
        ensures
            final(self).wf(),
            final(self)@.inner.roots == old(self)@.inner.roots,
            ({
                let sum = old(self)@.settings.master_count as i32 + delta;
                let count = if sum < 1 {
                    1
                } else {
                    sum
                };
                &&& count == old(self)@.settings.master_count ==> final(self)@ == old(self)@
                &&& count != old(self)@.settings.master_count ==> exists|order: Seq<LayoutId>|
                 #[trigger]
                    old(self)@.lists_layouts(order) && final(self)@ == (MasterView {
                        settings: MasterStackSettings {
                            master_count: count as usize,
                            ..old(self)@.settings
                        },
                        ..old(self)@
                    }).all_normalized(order)
            }),
    {
        let current = #[verifier::truncate] (self.settings.master_count as i32);
        let sum: i32 = current + delta;
        let next: usize = if sum < 1 {
            1
        } else {
            sum as usize
        };
        if next == self.settings.master_count {
            return;
        }
        self.settings.master_count = next;
        let ghost start = self@;
        self.normalize_all();
        proof {
            let order = choose|order: Seq<LayoutId>| #[trigger]
                start.lists_layouts(order) && self@ == start.all_normalized(order);
            assert(old(self)@.lists_layouts(order));
        }
    }

    // ----- layouts -----

    pub fn create_layout(&mut self) -> (r: LayoutId)
        requires
            old(self).wf(),
            old(self)@.inner.roots.dom().len() < 4294967294,
        ensures
            final(self).wf(),
            !old(self)@.inner.has(r),
            final(self)@.inner.roots.dom() == old(self)@.inner.roots.dom().insert(r),
            final(self)@ == ({
                let v = MasterView { inner: old(self)@.inner.with_layout(r), ..old(self)@ };
                let root = v.inner.root(r);
                let (w, master, stack) = v.with_areas(root);
                w.rationed(root, master, stack)
            }),
    {
        let layout = self.inner.create_layout();
        let root = self.inner.root(layout);
        let (master, stack) = self.create_containers(root);
        self.apply_master_ratio(root, master, stack);
        layout
    }

    pub fn clone_layout(&mut self, layout: LayoutId) -> (r: LayoutId)
        requires
            old(self).wf(),
            old(self)@.inner.has(layout),
            old(self)@.inner.roots.dom().len() < 4294967294,
        ensures
            final(self).wf(),
            !old(self)@.inner.has(r),
            final(self)@.inner.roots.dom() == old(self)@.inner.roots.dom().insert(r),
            final(self)@ == (MasterView {
                inner: old(self)@.inner.with_clone(layout, r),
                ..old(self)@
            }).normalized(r),
    {
        let cloned = self.inner.clone_layout(layout);
        self.normalize_layout(cloned);
        cloned
    }

    /// The containers with their roles.
    pub fn roles(&self, layout: LayoutId) -> (r: Vec<RoleEntry>)
        requires
            self.wf(),
            self@.inner.has(layout),
        ensures
            r@ == self@.roles(layout),
    {
        let mut roles: Vec<RoleEntry> = Vec::new();
        if let Some((master, stack)) = self.areas(layout, self.master_first()) {
            roles.push(RoleEntry { node: master, role: NodeRole::Master });
            roles.push(RoleEntry { node: stack, role: NodeRole::Stack });
        }
        assert(roles@ =~= self@.roles(layout));
        roles
    }

    /// A picture of the layout.
    pub fn container_tree(&self, layout: LayoutId) -> (r: TreeSnapshot)
        requires
            self.wf(),
            self@.inner.has(layout),
        ensures
            r.shows(
                self@.forest(),
                self@.inner.root(layout),
                self@.inner.selection(layout),
                self@.roles(layout),
            ),
    {
        let roles = self.roles(layout);
        self.inner.container_tree_with_roles(layout, &roles)
    }

    /// The node that fills the screen: the master area alone if the stack shows
    /// nothing, else the root.
    pub fn drawn_node(&self, layout: LayoutId) -> (r: NodeId)
        requires
            self.wf(),
            self@.inner.has(layout),
        ensures
            r == self@.drawn_node(layout),
    {
        if let Some((master, stack)) = self.areas(layout, self.master_first()) {
            if self.inner.window_at(master).is_none() && self.inner.window_at(stack).is_none()
                && self.inner.tree().visible_windows(stack).len() == 0 {
                return master;
            }
        }
        self.inner.root(layout)
    }

    // ----- windows -----

    fn insert_window_in_container(
        &mut self,
        layout: LayoutId,
        container: NodeId,
        wid: WindowId,
    ) -> (r: NodeId)
        requires
            old(self).wf(),
            old(self)@.inner.has(layout),
        ensures
            final(self).wf(),
            r == old(self)@.forest().next_id(),
            final(self)@ == (MasterView {
                inner: old(self)@.inner.window_put(
                    layout,
                    old(self)@.entry(layout, container),
                    wid,
                ),
                ..old(self)@
            }),
    {
        let place = match self.settings.base.window_insertion_point {
            Some(WindowInsertionPoint::NextToSelection) => {
                let selection = self.inner.selection(layout);
                if self.inner.tree().parent(selection) == Some(container) {
                    Place::After(selection)
                } else {
                    Place::Last(container)
                }
            },
            Some(WindowInsertionPoint::EndOfTree) => Place::Last(container),
            None => match self.inner.tree().first_child(container) {
                Some(first) => Place::Before(first),
                None => Place::Last(container),
            },
        };
        self.inner.put_window(layout, place, wid)
    }

    fn move_window_to_end_of_current_container(&mut self, layout: LayoutId, wid: WindowId)
        requires
            old(self).wf(),
        ensures
            final(self).wf(),
            final(self)@ == old(self)@.sent_to_end(layout, wid),
            final(self)@.inner.roots == old(self)@.inner.roots,
            final(self)@.settings == old(self)@.settings,
    {
        if let Some(node) = self.inner.window_node(layout, wid) {
            if let Some(parent) = self.inner.tree().parent(node) {
                self.inner.relocate(node, Place::Last(parent));
                self.inner.select(node);
            }
        }
    }

    fn rebalance_after_new_window(
        &mut self,
        layout: LayoutId,
        master: NodeId,
        stack: NodeId,
        target: NodeId,
        wid: WindowId,
    )
        requires
            old(self).wf(),
            old(self)@.inner.has(layout),
        ensures
            final(self).wf(),
            final(self)@ == old(self)@.settled(layout, master, stack, target, wid),
            final(self)@.inner.roots == old(self)@.inner.roots,
            final(self)@.settings == old(self)@.settings,
    {
        proof {
            reveal(MasterView::settled);
        }
        match self.settings.base.window_insertion_point {
            Some(WindowInsertionPoint::NextToSelection) => {
                let keep = if target == master {
                    Some(wid)
                } else {
                    None
                };
                self.enforce_master_count_preserving(layout, master, stack, keep);
            },
            Some(WindowInsertionPoint::EndOfTree) => {
                self.enforce_master_count_preserving(layout, master, stack, None);
                self.move_window_to_end_of_current_container(layout, wid);
            },
            None => {
                self.enforce_master_count_preserving(layout, master, stack, None);
            },
        }
    }

    fn add_window(&mut self, layout: LayoutId, wid: WindowId)
        requires
            old(self).wf(),
            old(self)@.inner.has(layout),
        ensures
            final(self).wf(),
            final(self)@ == old(self)@.window_added(layout, wid),
            final(self)@.inner.roots == old(self)@.inner.roots,
            final(self)@.settings == old(self)@.settings,
    {
        proof {
            reveal(MasterView::window_added);
        }
        let (_, master, stack) = self.ensure_structure(layout);
        let target = self.target_container_for_new_window(layout, master, stack);
        let node = self.insert_window_in_container(layout, target, wid);
        self.inner.select(node);
        self.rebalance_after_new_window(layout, master, stack, target, wid);
    }

    /// Adds a window to a layout and selects it.
    pub fn add_window_after_selection(&mut self, layout: LayoutId, wid: WindowId)
        requires
            old(self).wf(),
            old(self)@.inner.has(layout),
            old(self)@.has_room(layout, wid),
        ensures
            final(self).wf(),
            final(self)@ == old(self)@.window_added(layout, wid),
            final(self)@.inner.roots == old(self)@.inner.roots,
            final(self)@.settings == old(self)@.settings,
    {
        self.add_window(layout, wid);
    }

    /// Removes a window from all layouts and puts those that held it in order.
    pub fn remove_window(&mut self, wid: WindowId)
        requires
            old(self).wf(),
        ensures
            final(self).wf(),
            final(self)@ == old(self)@.window_removed(wid),
            final(self)@.inner.roots == old(self)@.inner.roots,
            final(self)@.settings == old(self)@.settings,
    {
        let layouts = self.holders(wid);
        let ghost before = self@;
        let mut lists: Vec<Vec<WindowId>> = Vec::new();
        let mut i: usize = 0;
        while i < layouts.len()
            invariant
                i <= layouts.len(),
                self.wf(),
                self@ == before,
                forall|j: int| 0 <= j < layouts.len() ==> before.inner.has(#[trigger] layouts@[j]),
                lists@.len() == i,
                forall|j: int|
                    0 <= j < i ==> (#[trigger] lists@[j])@ == view::without(
                        before.listing(layouts@[j]),
                        wid,
                    ),
            decreases layouts.len() - i,
        {
            assert(before.inner.has(layouts@[i as int]));
            let windows = self.windows_in_layout_by_container(layouts[i]);
            lists.push(without(&windows, wid));
            i += 1;
        }
        self.inner.remove_window(wid);
        let ghost start = self@;
        let mut k: usize = 0;
        assert(layouts@.take(0) =~= Seq::empty());
        while k < layouts.len()
            invariant
                k <= layouts.len(),
                self.wf(),
                self@.inner.roots == before.inner.roots,
                self@.settings == before.settings,
                lists@.len() == layouts@.len(),
                forall|j: int| 0 <= j < layouts.len() ==> before.inner.has(#[trigger] layouts@[j]),
                forall|j: int|
                    0 <= j < lists@.len() ==> (#[trigger] lists@[j])@ == view::without(
                        before.listing(layouts@[j]),
                        wid,
                    ),
                self@ == start.all_closed_up(before, layouts@.take(k as int), wid),
            decreases layouts.len() - k,
        {
            assert(layouts@.take(k + 1).drop_last() =~= layouts@.take(k as int));
            assert(before.inner.has(layouts@[k as int]));
            assert(lists@[k as int]@ == view::without(before.listing(layouts@[k as int]), wid));
            self.normalize_layout_preserving_order(layouts[k], &lists[k]);
            k += 1;
        }
        assert(layouts@.take(k as int) =~= layouts@);
    }

    /// The layouts that hold a window.
    fn holders(&self, wid: WindowId) -> (r: Vec<LayoutId>)
        requires
            self.wf(),
        ensures
            r@ == self@.holders(wid),
            forall|j: int| 0 <= j < r@.len() ==> self@.inner.has(#[trigger] r@[j]),
    {
        let all = self.inner.layouts_for_window(wid);
        let ghost here = |l: LayoutId| self@.inner.has(l);
        let mut out: Vec<LayoutId> = Vec::new();
        let mut i: usize = 0;
        reveal(Seq::filter);
        while i < all.len()
            invariant
                i <= all.len(),
                self.wf(),
                here == (|l: LayoutId| self@.inner.has(l)),
                out@ == all@.take(i as int).filter(here),
                forall|j: int| 0 <= j < out@.len() ==> self@.inner.has(#[trigger] out@[j]),
            decreases all.len() - i,
        {
            proof {
                assert(all@.take(i + 1).drop_last() =~= all@.take(i as int));
                reveal(Seq::filter);
            }
            if self.inner.contains_layout(all[i]) {
                out.push(all[i]);
            }
            i += 1;
        }
        assert(all@.take(i as int) =~= all@);
        out
    }

    /// Removes the windows of a process from all layouts. Those that held any are
    /// put in order, in an order that the table of layouts chooses.
    pub fn remove_windows_for_app(&mut self, pid: Pid)
        requires
            old(self).wf(),
        ensures
            final(self).wf(),
            final(self)@.inner.roots == old(self)@.inner.roots,
            exists|order: Seq<LayoutId>| #[trigger]
                old(self)@.lists_layouts(order) && final(self)@ == old(self)@.with(
                    old(self)@.forest().app_removed(pid),
                ).all_normalized(
                    order.filter(|l: LayoutId| old(self)@.inner.app_windows(l, pid).len() > 0),
                ),
    {
        let all = self.inner.layouts();
        let ghost hit = |l: LayoutId| old(self)@.inner.app_windows(l, pid).len() > 0;
        let mut layouts: Vec<LayoutId> = Vec::new();
        let mut i: usize = 0;
        reveal(Seq::filter);
        while i < all.len()
            invariant
                i <= all.len(),
                self.wf(),
                self@ == old(self)@,
                forall|l: LayoutId| all@.contains(l) <==> old(self)@.inner.has(l),
                hit == (|l: LayoutId| old(self)@.inner.app_windows(l, pid).len() > 0),
                layouts@ == all@.take(i as int).filter(hit),
                forall|j: int|
                    0 <= j < layouts@.len() ==> old(self)@.inner.has(#[trigger] layouts@[j]),
            decreases all.len() - i,
        {
            proof {
                assert(all@.take(i + 1).drop_last() =~= all@.take(i as int));
                reveal(Seq::filter);
            }
            let layout = all[i];
            assert(all@.contains(layout));
            if self.inner.has_windows_for_app(layout, pid) {
                layouts.push(layout);
            }
            i += 1;
        }
        assert(all@.take(i as int) =~= all@);
        self.inner.remove_windows_for_app(pid);
        self.normalize_each(&layouts);
        assert(old(self)@.lists_layouts(all@));
    }

    /// Makes a layout hold the windows that a process has.
    pub fn set_windows_for_app(&mut self, layout: LayoutId, pid: Pid, desired: Vec<WindowId>)
        requires
            old(self).wf(),
            old(self)@.inner.has(layout),
        ensures
            final(self).wf(),
            final(self)@ == old(self)@.app_set(layout, pid, desired@),
            final(self)@.inner.roots == old(self)@.inner.roots,
            final(self)@.settings == old(self)@.settings,
    {
        let (_, master, stack) = self.ensure_structure(layout);
        let current = self.inner.windows_for_app(layout, pid);
        let delta = systems::reconcile_app_membership(pid, current, desired);
        let gone = delta.removals;
        let ghost before = self@;
        let mut i: usize = 0;
        assert(gone@.take(0) =~= Seq::empty());
        while i < gone.len()
            invariant
                i <= gone.len(),
                self.wf(),
                self@.inner.roots == before.inner.roots,
                self@ == (MasterView {
                    inner: before.inner.windows_dismissed(layout, gone@.take(i as int)),
                    ..before
                }),
            decreases gone.len() - i,
        {
            assert(gone@.take(i + 1).drop_last() =~= gone@.take(i as int));
            self.inner.dismiss_window(layout, gone[i]);
            i += 1;
        }
        assert(gone@.take(i as int) =~= gone@);
        let ghost between = self@;
        let added = delta.additions;
        let mut k: usize = 0;
        assert(added@.take(0) =~= Seq::empty());
        while k < added.len()
            invariant
                k <= added.len(),
                self.wf(),
                before.inner.has(layout),
                self@.inner.roots == before.inner.roots,
                self@.settings == before.settings,
                self@ == between.windows_added(layout, added@.take(k as int)),
            decreases added.len() - k,
        {
            assert(added@.take(k + 1).drop_last() =~= added@.take(k as int));
            assert(self@.inner.has(layout));
            self.add_window(layout, added[k]);
            k += 1;
        }
        assert(added@.take(k as int) =~= added@);
        self.enforce_master_count_preserving(layout, master, stack, None);
    }

    // ----- commands -----

    /// The focused window becomes the first master window.
    pub fn promote_to_master(&mut self, layout: LayoutId)
        requires
            old(self).wf(),
            old(self)@.inner.has(layout),
        ensures
            final(self).wf(),
            final(self)@ == old(self)@.promoted(layout),
    {
        self.ensure_structure(layout);
        let focused = match self.inner.selected_window(layout) {
            Some(w) => w,
            None => {
                return;
            },
        };
        let mut windows = self.windows_in_layout_by_container(layout);
        let i = position(&windows, focused);
        if i == 0 || i >= windows.len() {
            return;
        }
        windows.remove(i);
        windows.insert(0, focused);
        self.rebuild_layout_with_windows(layout, &windows);
    }

    /// The focused windows of the two areas change places.
    pub fn swap_master_stack(&mut self, layout: LayoutId)
        requires
            old(self).wf(),
            old(self)@.inner.has(layout),
        ensures
            final(self).wf(),
            final(self)@ == old(self)@.areas_swapped(layout),
    {
        let (_, master, stack) = self.ensure_structure(layout);
        let a = match self.focused_window_in_container(master) {
            Some(w) => w,
            None => {
                return;
            },
        };
        let b = match self.focused_window_in_container(stack) {
            Some(w) => w,
            None => {
                return;
            },
        };
        let mut windows = self.windows_in_layout_by_container(layout);
        let i = position(&windows, a);
        let j = position(&windows, b);
        if i >= windows.len() || j >= windows.len() {
            return;
        }
        exchange(&mut windows, i, j);
        self.rebuild_layout_with_windows(layout, &windows);
    }

    /// The order of the windows after the one at place `i` has moved.
    fn order_after(
        &self,
        layout: LayoutId,
        windows: Vec<WindowId>,
        i: usize,
        direction: Direction,
    ) -> (r: Option<Vec<WindowId>>)
        requires
            windows@ == self@.listing(layout),
            i < windows@.len(),
            self@.order_exists(layout, i as int, direction),
        ensures
            r is Some <==> self@.order_after(layout, i as int, direction) is Some,
            r is Some ==> (r->0)@ == self@.order_after(layout, i as int, direction)->0,
    {
        let mut windows = windows;
        let count = self.settings.master_count;
        let in_master = i < count;
        let axis = if in_master {
            self.master_orientation()
        } else {
            self.stack_orientation()
        };
        let first = self.master_first();
        let parallel = direction.orientation() == axis;
        if direction == self.to_master() && !in_master {
            let edge = if first {
                count
            } else {
                windows.len() - 1
            };
            if !parallel || i == edge {
                let target = if first {
                    count - 1
                } else {
                    0
                };
                exchange(&mut windows, i, target);
                return Some(windows);
            }
        }
        if direction == self.to_master().opposite() && in_master {
            let edge = if first {
                count - 1
            } else {
                0
            };
            if !parallel || i == edge {
                if windows.len() > count {
                    let target = if first {
                        count
                    } else {
                        windows.len() - 1
                    };
                    exchange(&mut windows, i, target);
                } else {
                    let focused = windows.remove(i);
                    windows.push(focused);
                }
                return Some(windows);
            }
        }
        if !parallel {
            return None;
        }
        if direction.forward() {
            let end = if in_master {
                count
            } else {
                windows.len()
            };
            if i + 1 < end {
                exchange(&mut windows, i, i + 1);
                Some(windows)
            } else {
                None
            }
        } else {
            let start = if in_master {
                0
            } else {
                count
            };
            if i > start {
                exchange(&mut windows, i, i - 1);
                Some(windows)
            } else {
                None
            }
        }
    }

    /// Moves the selected window. Says whether it could move.
    pub fn move_selection(&mut self, layout: LayoutId, direction: Direction) -> (r: bool)
        requires
            old(self).wf(),
            old(self)@.inner.has(layout),
            old(self)@.shift_exists(layout, direction),
        ensures
            final(self).wf(),
            r == old(self)@.can_shift(layout, direction),
            final(self)@ == old(self)@.selection_moved(layout, direction),
    {
        self.ensure_structure(layout);
        let focused = match self.inner.selected_window(layout) {
            Some(w) => w,
            None => {
                return false;
            },
        };
        let windows = self.windows_in_layout_by_container(layout);
        let i = position(&windows, focused);
        if i >= windows.len() {
            return false;
        }
        match self.order_after(layout, windows, i, direction) {
            Some(order) => {
                self.rebuild_layout_with_windows(layout, &order);
                true
            },
            None => false,
        }
    }

    /// The selection of one layout goes to another.
    pub fn move_selection_to_layout_after_selection(&mut self, from: LayoutId, to: LayoutId)
        requires
            old(self).wf(),
            old(self)@.inner.has(from),
            old(self)@.inner.has(to),
        ensures
            final(self).wf(),
            final(self)@ == (MasterView {
                inner: old(self)@.inner.sent(from, to),
                ..old(self)@
            }).ensured(from).0.ensured(to).0,
    {
        self.inner.move_selection_to_layout_after_selection(from, to);
        self.ensure_structure(from);
        self.ensure_structure(to);
    }

    /// There is nothing to split: the areas are put in order.
    pub fn split_selection(&mut self, layout: LayoutId, kind: LayoutKind)
        requires
            old(self).wf(),
            old(self)@.inner.has(layout),
        ensures
            final(self).wf(),
            final(self)@ == old(self)@.normalized(layout),
    {
        self.normalize_layout(layout);
    }

    /// There is nothing to join: the areas are put in order.
    pub fn join_selection_with_direction(&mut self, layout: LayoutId, direction: Direction)
        requires
            old(self).wf(),
            old(self)@.inner.has(layout),
        ensures
            final(self).wf(),
            final(self)@ == old(self)@.normalized(layout),
    {
        self.normalize_layout(layout);
    }

    /// The areas do not stack: they are put in order.
    pub fn apply_stacking_to_parent_of_selection(&mut self, layout: LayoutId, default_orientation: StackDefaultOrientation) -> (r: Vec<WindowId>)
        requires
            old(self).wf(),
            old(self)@.inner.has(layout),
        ensures
            final(self).wf(),
            r@.len() == 0,
            final(self)@ == old(self)@.normalized(layout),
    {
        self.normalize_layout(layout);
        Vec::new()
    }

    /// The areas do not stack: they are put in order.
    pub fn unstack_parent_of_selection(&mut self, layout: LayoutId, default_orientation: StackDefaultOrientation) -> (r: Vec<WindowId>)
        requires
            old(self).wf(),
            old(self)@.inner.has(layout),
        ensures
            final(self).wf(),
            r@.len() == 0,
            final(self)@ == old(self)@.normalized(layout),
    {
        self.normalize_layout(layout);
        Vec::new()
    }

    /// There is nothing to take apart: the areas are put in order.
    pub fn unjoin_selection(&mut self, layout: LayoutId)
        requires
            old(self).wf(),
            old(self)@.inner.has(layout),
        ensures
            final(self).wf(),
            final(self)@ == old(self)@.normalized(layout),
    {
        self.normalize_layout(layout);
    }

    /// The areas are put in order.
    pub fn rebalance(&mut self, layout: LayoutId)
        requires
            old(self).wf(),
            old(self)@.inner.has(layout),
        ensures
            final(self).wf(),
            final(self)@ == old(self)@.normalized(layout),
    {
        self.normalize_layout(layout);
    }

    /// The areas keep their orientation: they are put in order.
    pub fn toggle_tile_orientation(&mut self, layout: LayoutId)
        requires
            old(self).wf(),
            old(self)@.inner.has(layout),
        ensures
            final(self).wf(),
            final(self)@ == old(self)@.normalized(layout),
    {
        self.normalize_layout(layout);
    }

    /// What a resize command trades size between, once the areas are in place.
    pub fn resize_choice(&mut self, layout: LayoutId, orientation: ResizeOrientation) -> (r: Option<
        (NodeId, NodeId, Direction),
    >)
        requires
            old(self).wf(),
            old(self)@.inner.has(layout),
        ensures
            final(self).wf(),
            final(self)@ == old(self)@.ensured(layout).0,
            r == final(self)@.inner.resize_choice(layout, orientation),
    {
        self.ensure_structure(layout);
        self.inner.resize_choice(layout, orientation)
    }

    // ----- what all tree layouts do alike -----

    /// Hands out the size steps noted so far, oldest first.
    pub fn take_size_changes(&mut self) -> (r: Vec<SizeChange>)
        requires
            old(self).wf(),
        ensures
            final(self).wf(),
            final(self)@ == (MasterView { inner: final(self)@.inner, ..old(self)@ }),
            r@ == old(self)@.inner.forest.changes,
            final(self)@.inner == old(self)@.inner.with_forest(
                (ForestView { changes: Seq::empty(), ..old(self)@.inner.forest }),
            ),
    {
        self.inner.take_size_changes()
    }

    pub fn contains_layout(&self, layout: LayoutId) -> (r: bool)
        requires
            self.wf(),
        ensures
            r == self@.inner.has(layout),
    {
        self.inner.contains_layout(layout)
    }

    /// Removes a layout with its tree.
    pub fn remove_layout(&mut self, layout: LayoutId)
        requires
            old(self).wf(),
            old(self)@.inner.has(layout),
        ensures
            final(self).wf(),
            final(self)@ == (MasterView { inner: final(self)@.inner, ..old(self)@ }),
            final(self)@.inner == old(self)@.inner.without_layout(layout),
    {
        self.inner.remove_layout(layout)
    }

    pub fn selected_window(&self, layout: LayoutId) -> (r: Option<WindowId>)
        requires
            self.wf(),
            self@.inner.has(layout),
        ensures
            r == self@.inner.selected_window(layout),
    {
        self.inner.selected_window(layout)
    }

    pub fn visible_windows_in_layout(&self, layout: LayoutId) -> (r: Vec<WindowId>)
        requires
            self.wf(),
            self@.inner.has(layout),
        ensures
            r@ == self@.inner.forest.visible(self@.inner.root(layout)),
    {
        self.inner.visible_windows_in_layout(layout)
    }

    pub fn visible_windows_under_selection(&self, layout: LayoutId) -> (r: Vec<WindowId>)
        requires
            self.wf(),
            self@.inner.has(layout),
        ensures
            r@ == self@.inner.forest.visible(self@.inner.selection(layout)),
    {
        self.inner.visible_windows_under_selection(layout)
    }

    /// Moves the selection to its parent. Says whether there is one.
    pub fn ascend_selection(&mut self, layout: LayoutId) -> (r: bool)
        requires
            old(self).wf(),
            old(self)@.inner.has(layout),
        ensures
            final(self).wf(),
            final(self)@ == (MasterView { inner: final(self)@.inner, ..old(self)@ }),
            r == (old(self)@.inner.forest.parent(old(self)@.inner.selection(layout)) is Some),
            final(self)@.inner == old(self)@.inner.ascended(layout),
    {
        self.inner.ascend_selection(layout)
    }

    /// Moves the selection to the child that it remembers. Says whether there is one.
    pub fn descend_selection(&mut self, layout: LayoutId) -> (r: bool)
        requires
            old(self).wf(),
            old(self)@.inner.has(layout),
        ensures
            final(self).wf(),
            final(self)@ == (MasterView { inner: final(self)@.inner, ..old(self)@ }),
            r == (old(self)@.inner.forest.last_selection(old(self)@.inner.selection(layout)) is Some),
            final(self)@.inner == old(self)@.inner.descended(layout),
    {
        self.inner.descend_selection(layout)
    }

    /// Moves focus in a direction. Returns the window it reaches and the
    /// windows to raise.
    pub fn move_focus(&mut self, layout: LayoutId, direction: Direction) -> (r: (
        Option<WindowId>,
        Vec<WindowId>,
    ))
        requires
            old(self).wf(),
            old(self)@.inner.has(layout),
        ensures
            final(self).wf(),
            final(self)@ == (MasterView { inner: final(self)@.inner, ..old(self)@ }),
            (final(self)@.inner, r.0, r.1@) == old(self)@.inner.focus_moved(layout, direction),
    {
        self.inner.move_focus(layout, direction)
    }

    /// The first window of a layout when entered forwards, the last one when
    /// entered backwards.
    pub fn window_in_direction(&self, layout: LayoutId, direction: Direction) -> (r: Option<
        WindowId,
    >)
        requires
            self.wf(),
            self@.inner.has(layout),
        ensures
            r == self@.inner.first_met(layout, direction),
    {
        self.inner.window_in_direction(layout, direction)
    }

    pub fn contains_window(&self, layout: LayoutId, wid: WindowId) -> (r: bool)
        ensures
            r == (self@.inner.forest.node_for(layout, wid) is Some),
    {
        self.inner.contains_window(layout, wid)
    }

    /// Selects a window of a layout. Says whether it is there.
    pub fn select_window(&mut self, layout: LayoutId, wid: WindowId) -> (r: bool)
        requires
            old(self).wf(),
        ensures
            final(self).wf(),
            final(self)@ == (MasterView { inner: final(self)@.inner, ..old(self)@ }),
            r == (old(self)@.inner.forest.node_for(layout, wid) is Some),
            final(self)@.inner == old(self)@.inner.window_selected(layout, wid),
    {
        self.inner.select_window(layout, wid)
    }

    /// Two windows of a layout change places. Says whether both are there.
    pub fn swap_windows(&mut self, layout: LayoutId, a: WindowId, b: WindowId) -> (r: bool)
        requires
            old(self).wf(),
        ensures
            final(self).wf(),
            final(self)@ == (MasterView { inner: final(self)@.inner, ..old(self)@ }),
            r == old(self)@.inner.forest.can_swap(layout, a, b),
            final(self)@.inner == old(self)@.inner.with_forest(
                old(self)@.inner.forest.with_swapped(layout, a, b),
            ),
    {
        self.inner.swap_windows(layout, a, b)
    }

    /// Every node that shows `from` shows `to` instead.
    pub fn replace_window(&mut self, from: WindowId, to: WindowId)
        requires
            old(self).wf(),
        ensures
            final(self).wf(),
            final(self)@ == (MasterView { inner: final(self)@.inner, ..old(self)@ }),
            final(self)@.inner == old(self)@.inner.with_forest(old(self)@.inner.forest.with_replaced(from, to)),
    {
        self.inner.replace_window(from, to)
    }

    /// The selection covers the screen, or no longer does. Returns the windows
    /// that it shows if it does now.
    pub fn toggle_fullscreen_of_selection(&mut self, layout: LayoutId) -> (r: Vec<WindowId>)
        requires
            old(self).wf(),
            old(self)@.inner.has(layout),
        ensures
            final(self).wf(),
            final(self)@ == (MasterView { inner: final(self)@.inner, ..old(self)@ }),
            final(self)@.inner == old(self)@.inner.fullscreen_toggled(layout),
            r@ == (if old(self)@.inner.selection_info(layout).is_fullscreen {
                Seq::empty()
            } else {
                final(self)@.inner.forest.visible(old(self)@.inner.selection(layout))
            }),
    {
        self.inner.toggle_fullscreen_of_selection(layout)
    }

    /// The selection covers the screen within its gaps, or no longer does.
    /// Returns the windows that it shows if it does now.
    pub fn toggle_fullscreen_within_gaps_of_selection(&mut self, layout: LayoutId) -> (r: Vec<
        WindowId,
    >)
        requires
            old(self).wf(),
            old(self)@.inner.has(layout),
        ensures
            final(self).wf(),
            final(self)@ == (MasterView { inner: final(self)@.inner, ..old(self)@ }),
            final(self)@.inner == old(self)@.inner.fullscreen_within_gaps_toggled(layout),
            r@ == (if old(self)@.inner.selection_info(layout).is_fullscreen_within_gaps {
                Seq::empty()
            } else {
                final(self)@.inner.forest.visible(old(self)@.inner.selection(layout))
            }),
    {
        self.inner.toggle_fullscreen_within_gaps_of_selection(layout)
    }

    pub fn has_any_fullscreen_node(&self, layout: LayoutId) -> (r: bool)
        requires
            self.wf(),
            self@.inner.has(layout),
        ensures
            r == self@.inner.has_fullscreen(layout),
    {
        self.inner.has_any_fullscreen_node(layout)
    }

    pub fn has_windows_for_app(&self, layout: LayoutId, pid: Pid) -> (r: bool)
        requires
            self.wf(),
            self@.inner.has(layout),
        ensures
            r == (self@.inner.app_windows(layout, pid).len() > 0),
    {
        self.inner.has_windows_for_app(layout, pid)
    }

    pub fn windows_for_app(&self, layout: LayoutId, pid: Pid) -> (r: Vec<WindowId>)
        requires
            self.wf(),
            self@.inner.has(layout),
        ensures
            r@ == self@.inner.app_windows(layout, pid),
    {
        self.inner.windows_for_app(layout, pid)
    }

    /// The stacks on the way to the selection, from the top down. None where
    /// something on the way covers the screen.
    pub fn collect_group_containers_in_selection_path(&self, layout: LayoutId) -> (r: Vec<
        GroupInfo,
    >)
        requires
            self.wf(),
            self@.inner.has(layout),
        ensures
            groups::describe_all(
                r@,
                self@.inner.forest,
                self@.inner.forest.groups_on_path(self@.inner.root(layout)),
            ),
    {
        self.inner.collect_group_containers_in_selection_path(layout)
    }

    /// All stacks in view, parents before children.
    pub fn collect_group_containers(&self, layout: LayoutId) -> (r: Vec<GroupInfo>)
        requires
            self.wf(),
            self@.inner.has(layout),
        ensures
            groups::describe_all(r@, self@.inner.forest, self@.inner.forest.groups_below(self@.inner.root(layout))),
    {
        self.inner.collect_group_containers(layout)
    }

    /// How many layouts there are.
    pub fn layout_count(&self) -> (r: usize)
        ensures
            r == self@.inner.roots.dom().len(),
    {
        self.inner.layout_count()
    }

    pub fn all_windows_in_layout(&self, layout: LayoutId) -> (r: Vec<WindowId>)
        requires
            self.wf(),
            self@.inner.has(layout),
        ensures
            r@ == self@.inner.all_windows(layout),
    {
        self.inner.all_windows_in_layout(layout)
    }

    pub fn parent_of_selection_is_stacked(&self, layout: LayoutId) -> (r: bool)
        requires
            self.wf(),
            self@.inner.has(layout),
        ensures
            r == (self@.inner.unstacking_target(layout) is Some),
    {
        self.inner.parent_of_selection_is_stacked(layout)
    }

    /// A window was resized from outside. `to` and `from` say what the new and
    /// the old frame cover. Returns the node whose sizes have to follow a plain
    /// change of frame.
    pub fn on_window_resized(
        &mut self,
        layout: LayoutId,
        wid: WindowId,
        from: navigation::Coverage,
        to: navigation::Coverage,
    ) -> (r: Option<NodeId>)
        requires
            old(self).wf(),
        ensures
            final(self).wf(),
            final(self)@ == (MasterView { inner: final(self)@.inner, ..old(self)@ }),
            (final(self)@.inner, r) == old(self)@.inner.window_resized(layout, wid, from, to),
    {
        self.inner.on_window_resized(layout, wid, from, to)
    }
}

/// Whether a list holds a node.
fn node_in(list: &Vec<NodeId>, n: NodeId) -> (r: bool)
    ensures
        r == list@.contains(n),
{
    let mut i: usize = 0;
    while i < list.len()
        invariant
            i <= list.len(),
            forall|j: int| 0 <= j < i ==> list@[j] != n,
        decreases list.len() - i,
    {
        if list[i] == n {
            return true;
        }
        i += 1;
    }
    false
}

/// The windows of a list other than one.
fn without(list: &Vec<WindowId>, window: WindowId) -> (r: Vec<WindowId>)
    ensures
        r@ == view::without(list@, window),
{
    let mut out: Vec<WindowId> = Vec::new();
    let mut i: usize = 0;
    reveal(Seq::filter);
    while i < list.len()
        invariant
            i <= list.len(),
            out@ == view::without(list@.take(i as int), window),
        decreases list.len() - i,
    {
        proof {
            assert(list@.take(i + 1).drop_last() =~= list@.take(i as int));
            reveal(Seq::filter);
        }
        if list[i] != window {
            out.push(list[i]);
        }
        i += 1;
    }
    assert(list@.take(i as int) =~= list@);
    out
}

impl LayoutSystem for MasterStackLayoutSystem {
    open spec fn ready(&self) -> bool {
        self.wf()
    }

    open spec fn known_layouts(system: MasterView) -> Set<LayoutId> {
        system.inner.roots.dom()
    }

    open spec fn copyable(system: MasterView, layout: LayoutId) -> bool {
        system.inner.has(layout)
    }

    open spec fn with_fresh(system: MasterView, layout: LayoutId) -> MasterView {
        {
            let v = MasterView { inner: system.inner.with_layout(layout), ..system };
            let root = v.inner.root(layout);
            let (w, master, stack) = v.with_areas(root);
            w.rationed(root, master, stack)
        }
    }

    open spec fn with_copy(system: MasterView, source: LayoutId, layout: LayoutId) -> MasterView {
        (MasterView { inner: system.inner.with_clone(source, layout), ..system }).normalized(layout)
    }

    fn create_layout(&mut self) -> (r: LayoutId) {
        let r = MasterStackLayoutSystem::create_layout(self);
        assert(Self::known_layouts(self@) =~= Self::known_layouts(old(self)@).insert(r));
        r
    }

    fn clone_layout(&mut self, layout: LayoutId) -> (r: LayoutId) {
        let r = MasterStackLayoutSystem::clone_layout(self, layout);
        assert(Self::known_layouts(self@) =~= Self::known_layouts(old(self)@).insert(r));
        r
    }

    proof fn layouts_known(&self) {
    }
}

} // verus!
