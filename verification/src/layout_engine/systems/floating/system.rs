//! The floating layout system.

use vstd::prelude::*;

use crate::actor::{LayoutId, Pid, WindowId};
use crate::common::collections::VecMap;
use crate::common::config::{StackDefaultOrientation, WindowInsertionPoint};
use crate::geometry::Frame;
use crate::layout_engine::systems::LayoutSystem;
use crate::layout_engine::systems::floating::view as float_view;
use crate::layout_engine::systems::groups;
use crate::layout_engine::systems::floating::view::{FloatView, FloatingGroup};
use crate::layout_engine::systems::navigation::Coverage;
use crate::layout_engine::systems::navigation;
use crate::layout_engine::systems::snapshot::TreeSnapshot;
use crate::layout_engine::systems::traditional::system::TraditionalLayoutSystem;
use crate::layout_engine::systems::traditional::view::TraditionalView;
use crate::layout_engine::systems;
use crate::layout_engine::{Direction, LayoutKind};
use crate::model::tree::view::{ForestView, NodeId, Place, SizeChange};

verus! {

/// Layouts whose windows keep frames of their own. Membership in a tree gives
/// focus and stacks.
pub struct FloatingLayoutSystem {
    inner: TraditionalLayoutSystem,
    frames: VecMap<WindowId, Frame>,
    independent_frames: VecMap<WindowId, Frame>,
    spread_on_initialization: bool,
}

impl View for FloatingLayoutSystem {
    type V = FloatView;

    closed spec fn view(&self) -> FloatView {
        FloatView {
            inner: self.inner@,
            frames: self.frames@,
            independent: self.independent_frames@,
            spread: self.spread_on_initialization,
        }
    }
}

impl Default for FloatingLayoutSystem {
    fn default() -> (r: FloatingLayoutSystem)
        ensures
            r.wf(),
            r@ == (FloatView {
                inner: TraditionalView::fresh(WindowInsertionPoint::NextToSelection, false),
                frames: Map::empty(),
                independent: Map::empty(),
                spread: false,
            }),
    {
        FloatingLayoutSystem::new(WindowInsertionPoint::NextToSelection)
    }
}

/// The place of a window in a list; the length without one.
fn position(list: &Vec<WindowId>, window: WindowId) -> (r: usize)
    ensures
        r == float_view::place_of(list@, window, 0),
        r <= list@.len(),
{
    let mut i: usize = 0;
    while i < list.len()
        invariant
            i <= list.len(),
            float_view::place_of(list@, window, 0) == float_view::place_of(
                list@,
                window,
                i as int,
            ),
        decreases list.len() - i,
    {
        if list[i] == window {
            return i;
        }
        i += 1;
    }
    i
}

/// The member of a list beside a window.
fn beside(list: &Vec<WindowId>, window: WindowId, forward: bool) -> (r: Option<WindowId>)
    ensures
        r == FloatView::beside(list@, window, forward),
{
    let i = position(list, window);
    if forward {
        if i < list.len() && i + 1 < list.len() {
            Some(list[i + 1])
        } else {
            None
        }
    } else if 0 < i && i < list.len() {
        Some(list[i - 1])
    } else {
        None
    }
}

/// Whether a list holds a node.
fn node_in(list: &Vec<NodeId>, n: NodeId) -> (r: bool)
    ensures
        r == list@.contains(n),
{
    let mut i: usize = 0;
    while i < list.len()
        invariant
            i <= list.len(),
            forall|j: int| 0 <= j < i ==> list@[j] != n,
        decreases list.len() - i,
    {
        if list[i] == n {
            return true;
        }
        i += 1;
    }
    false
}

/// Removes the frames of a process.
fn drop_app(frames: &mut VecMap<WindowId, Frame>, pid: Pid)
    requires
        old(frames).wf(),
    ensures
        final(frames).wf(),
        final(frames)@ == float_view::without_app(old(frames)@, pid),
{
    let keys = frames.keys();
    let mut i: usize = 0;
    assert forall|j: int| 0 <= j < keys.len() implies frames@.contains_key(
        #[trigger] keys@[j],
    ) by {
        assert(keys@.contains(keys@[j]));
    }
    while i < keys.len()
        invariant
            i <= keys.len(),
            frames.wf(),
            forall|w: WindowId| keys@.contains(w) <==> old(frames)@.contains_key(w),
            forall|w: WindowId| #[trigger]
                frames@.contains_key(w) ==> old(frames)@.contains_key(w) && frames@[w] == old(
                    frames,
                )@[w],
            forall|j: int|
                0 <= j < keys.len() ==> (frames@.contains_key(#[trigger] keys@[j]) <==> (j >= i
                    || keys@[j].pid != pid)),
            keys@.no_duplicates(),
        decreases keys.len() - i,
    {
        let w = keys[i];
        if w.pid == pid {
            frames.remove(w);
        }
        i += 1;
    }
    proof {
        assert forall|w: WindowId| frames@.contains_key(w) == (old(frames)@.contains_key(w)
            && w.pid != pid) by {
            if old(frames)@.contains_key(w) {
                assert(keys@.contains(w));
                let j = choose|j: int| 0 <= j < keys.len() && keys@[j] == w;
                assert(keys@[j] == w);
            }
        }
        assert(frames@ =~= float_view::without_app(old(frames)@, pid));
    }
}

/// Moves a frame to another key, in place of what is there.
fn rekey(frames: &mut VecMap<WindowId, Frame>, from: WindowId, to: WindowId)
    requires
        old(frames).wf(),
    ensures
        final(frames).wf(),
        final(frames)@ == float_view::rekeyed(old(frames)@, from, to),
{
    let frame = frames.remove(from);
    frames.remove(to);
    if let Some(f) = frame {
        frames.insert(to, f);
    }
}

impl FloatingLayoutSystem {
    pub closed spec fn wf(&self) -> bool {
        self.inner.wf() && self.frames.wf() && self.independent_frames.wf()
    }

    pub fn new(point: WindowInsertionPoint) -> (r: FloatingLayoutSystem)
        ensures
            r.wf(),
            r@ == (FloatView {
                inner: TraditionalView::fresh(point, false),
                frames: Map::empty(),
                independent: Map::empty(),
                spread: false,
            }),
    {
        FloatingLayoutSystem {
            inner: TraditionalLayoutSystem::new(point, false),
            frames: VecMap::new(),
            independent_frames: VecMap::new(),
            spread_on_initialization: false,
        }
    }

    pub fn set_window_insertion_point(&mut self, point: WindowInsertionPoint)
        requires
            old(self).wf(),
        ensures
            final(self).wf(),
            final(self)@ == (FloatView {
                inner: TraditionalView { point, ..old(self)@.inner },
                ..old(self)@
            }),
    {
        self.inner.set_window_insertion_point(point);
    }

    /// The tree layouts that hold the windows.
    pub fn inner(&self) -> (r: &TraditionalLayoutSystem)
        ensures
            r@ == self@.inner,
    {
        &self.inner
    }

    // ----- queries -----

    /// The frame of a window.
    pub fn frame(&self, wid: WindowId) -> (r: Option<Frame>)
        requires
            self.wf(),
        ensures
            r == self@.frame_of(wid),
    {
        match self.frames.get(wid) {
            Some(f) => Some(*f),
            None => None,
        }
    }

    /// The frame that a member of a stack had before.
    pub fn independent_frame(&self, wid: WindowId) -> (r: Option<Frame>)
        requires
            self.wf(),
        ensures
            r == (if self@.independent.contains_key(wid) {
                Some(self@.independent[wid])
            } else {
                None
            }),
    {
        match self.independent_frames.get(wid) {
            Some(f) => Some(*f),
            None => None,
        }
    }

    /// The windows that have a frame.
    pub fn framed_windows(&self) -> (r: Vec<WindowId>)
        requires
            self.wf(),
        ensures
            r@.no_duplicates(),
            forall|w: WindowId| r@.contains(w) <==> self@.frames.contains_key(w),
    {
        self.frames.keys()
    }

    pub fn contains_floating_window(&self, wid: WindowId) -> (r: bool)
        ensures
            r == (self@.inner.forest.entries_for(wid).len() > 0),
    {
        self.inner.contains_any_window(wid)
    }

    pub fn spreads_initial_windows(&self) -> (r: bool)
        ensures
            r == self@.spread,
    {
        self.spread_on_initialization
    }

    /// The window that the selection leads to.
    pub fn active_window(&self, layout: LayoutId) -> (r: Option<WindowId>)
        requires
            self.wf(),
            self@.inner.has(layout),
        ensures
            r == self@.active(layout),
    {
        self.inner.tree().led_window(self.inner.selection(layout))
    }

    fn members(&self, container: NodeId) -> (r: Vec<WindowId>)
        requires
            self.wf(),
        ensures
            r@ == self@.members(container),
    {
        self.inner.tree().windows_under(container)
    }

    fn selected_container(&self, layout: LayoutId) -> (r: Option<NodeId>)
        requires
            self.wf(),
            self@.inner.has(layout),
        ensures
            r == self@.selected_container(layout),
    {
        let selection = self.inner.selection(layout);
        let container = if self.inner.window_at(selection).is_some() {
            match self.inner.tree().parent(selection) {
                Some(p) => p,
                None => {
                    return None;
                },
            }
        } else {
            selection
        };
        if container != self.inner.root(layout) {
            Some(container)
        } else {
            None
        }
    }

    fn active_parent(&self, layout: LayoutId) -> (r: Option<NodeId>)
        requires
            self.wf(),
            self@.inner.has(layout),
        ensures
            r == self@.active_parent(layout),
    {
        match self.active_window(layout) {
            Some(w) => match self.inner.window_node(layout, w) {
                Some(n) => self.inner.tree().parent(n),
                None => None,
            },
            None => None,
        }
    }

    /// The container that a join leaves out.
    pub fn own_container(&self, layout: LayoutId) -> (r: Option<NodeId>)
        requires
            self.wf(),
            self@.inner.has(layout),
        ensures
            r == self@.own_container(layout),
    {
        match self.active_parent(layout) {
            Some(p) => if p != self.inner.root(layout) {
                Some(p)
            } else {
                None
            },
            None => None,
        }
    }

    /// The windows that a command cycles through.
    pub fn cycle_windows(&self, layout: LayoutId) -> (r: Vec<WindowId>)
        requires
            self.wf(),
            self@.inner.has(layout),
        ensures
            r@ == self@.cycle(layout),
    {
        if let Some(p) = self.active_parent(layout) {
            if self.inner.layout(p).is_stacked() {
                return self.members(p);
            }
        }
        self.inner.visible_windows_in_layout(layout)
    }

    fn is_candidate(&self, layout: LayoutId, window: WindowId, exclude: Option<NodeId>) -> (r: bool)
        requires
            self.wf(),
            self@.inner.has(layout),
        ensures
            r == self@.is_candidate(layout, window, exclude),
    {
        if Some(window) == self.active_window(layout) || !self.frames.contains_key(window) {
            return false;
        }
        match (exclude, self.inner.window_node(layout, window)) {
            (Some(p), Some(n)) => {
                let path = self.inner.tree().ancestors(n);
                !node_in(&path, p)
            },
            _ => true,
        }
    }

    /// The windows that focus can move to by where they lie.
    pub fn directional_candidates(&self, layout: LayoutId, exclude: Option<NodeId>) -> (r: Vec<
        WindowId,
    >)
        requires
            self.wf(),
            self@.inner.has(layout),
        ensures
            r@ == self@.candidates(layout, exclude),
    {
        let mut out: Vec<WindowId> = Vec::new();
        match self.active_window(layout) {
            Some(w) => {
                if !self.frames.contains_key(w) {
                    return out;
                }
            },
            None => {
                return out;
            },
        }
        let all = self.inner.visible_windows_in_layout(layout);
        let ghost good = |x: WindowId| self@.is_candidate(layout, x, exclude);
        let mut i: usize = 0;
        reveal(Seq::filter);
        while i < all.len()
            invariant
                i <= all.len(),
                self.wf(),
                self@.inner.has(layout),
                good == (|x: WindowId| self@.is_candidate(layout, x, exclude)),
                out@ == all@.take(i as int).filter(good),
            decreases all.len() - i,
        {
            proof {
                assert(all@.take(i + 1).drop_last() =~= all@.take(i as int));
                reveal(Seq::filter);
            }
            if self.is_candidate(layout, all[i], exclude) {
                out.push(all[i]);
            }
            i += 1;
        }
        assert(all@.take(i as int) =~= all@);
        out
    }

    /// Where focus goes in a direction, given the nearest window there.
    pub fn focus_target(
        &self,
        layout: LayoutId,
        direction: Direction,
        nearest: Option<WindowId>,
    ) -> (r: Option<WindowId>)
        requires
            self.wf(),
            self@.inner.has(layout),
        ensures
            r == self@.focus_target(layout, direction, nearest),
    {
        let focused = match self.active_window(layout) {
            Some(w) => w,
            None => {
                return None;
            },
        };
        let parent = match self.active_parent(layout) {
            Some(p) => p,
            None => {
                return None;
            },
        };
        let kind = self.inner.layout(parent);
        let members = self.members(parent);
        let forward = direction.forward();
        let stacked = kind.is_stacked();
        let next = if stacked {
            beside(&members, focused, forward)
        } else {
            None
        };
        let along = kind.orientation() == direction.orientation();
        if stacked && along && next.is_some() {
            return next;
        }
        if nearest.is_some() {
            return nearest;
        }
        if next.is_some() {
            return next;
        }
        if stacked && members.len() > 0 {
            if forward {
                Some(members[0])
            } else {
                Some(members[members.len() - 1])
            }
        } else {
            None
        }
    }

    /// The window that focus would move to.
    pub fn window_in_direction(
        &self,
        layout: LayoutId,
        direction: Direction,
        nearest: Option<WindowId>,
    ) -> (r: Option<WindowId>)
        requires
            self.wf(),
            self@.inner.has(layout),
        ensures
            r == self@.focus_target(layout, direction, nearest),
    {
        self.focus_target(layout, direction, nearest)
    }

    fn shows_group(&self, layout: LayoutId, n: NodeId, path_only: bool) -> (r: Option<WindowId>)
        requires
            self.wf(),
            self@.inner.has(layout),
        ensures
            r is Some <==> self@.shows_group(layout, n, path_only),
            r is Some ==> r->0 == self@.inner.forest.visible(
                self@.inner.forest.remembered_lead(n)->0,
            )[0],
    {
        if !self.inner.layout(n).is_stacked() {
            return None;
        }
        if path_only {
            let path = self.inner.tree().ancestors(self.inner.selection(layout));
            if !node_in(&path, n) {
                return None;
            }
        }
        if self.inner.tree().child_count(n) == 0 {
            return None;
        }
        let lead = self.inner.tree().remembered_lead(n).unwrap();
        let visible = self.inner.tree().visible_windows(lead);
        if visible.len() == 0 {
            return None;
        }
        let front = visible[0];
        match self.inner.window_node(layout, front) {
            Some(m) => match self.inner.coverage(m) {
                Coverage::Share => Some(front),
                _ => None,
            },
            None => None,
        }
    }

    /// The stacks to be shown with a bar, each with the window in front.
    pub fn collect_group_containers(&self, layout: LayoutId, selection_path_only: bool) -> (r: Vec<
        FloatingGroup,
    >)
        requires
            self.wf(),
            self@.inner.has(layout),
        ensures
            r@.len() == self@.groups(layout, selection_path_only).len(),
            forall|i: int|
                0 <= i < r@.len() ==> {
                    let n = self@.groups(layout, selection_path_only)[i];
                    &&& (#[trigger] r@[i]).info.describes_showing(
                        self@.inner.forest,
                        n,
                        self@.inner.forest.remembered_lead(n)->0,
                    )
                    &&& r@[i].front == self@.inner.forest.visible(
                        self@.inner.forest.remembered_lead(n)->0,
                    )[0]
                },
    {
        let nodes = self.inner.tree().preorder(self.inner.root(layout));
        let ghost good = |n: NodeId| self@.shows_group(layout, n, selection_path_only);
        let mut out: Vec<FloatingGroup> = Vec::new();
        let mut i: usize = 0;
        reveal(Seq::filter);
        while i < nodes.len()
            invariant
                i <= nodes.len(),
                self.wf(),
                self@.inner.has(layout),
                good == (|n: NodeId| self@.shows_group(layout, n, selection_path_only)),
                out@.len() == nodes@.take(i as int).filter(good).len(),
                forall|j: int|
                    0 <= j < out@.len() ==> {
                        let n = nodes@.take(i as int).filter(good)[j];
                        &&& (#[trigger] out@[j]).info.describes_showing(
                        self@.inner.forest,
                        n,
                        self@.inner.forest.remembered_lead(n)->0,
                    )
                        &&& out@[j].front == self@.inner.forest.visible(
                            self@.inner.forest.remembered_lead(n)->0,
                        )[0]
                    },
            decreases nodes.len() - i,
        {
            proof {
                assert(nodes@.take(i + 1).drop_last() =~= nodes@.take(i as int));
                reveal(Seq::filter);
            }
            let n = nodes[i];
            if let Some(front) = self.shows_group(layout, n, selection_path_only) {
                proof {
                    groups::lemma_remembered_lead(self@.inner.forest, n);
                }
                let shown = self.inner.tree().remembered_lead(n).unwrap();
                let info = self.inner.tree().group_showing(n, shown);
                out.push(FloatingGroup { info, front });
            }
            i += 1;
        }
        assert(nodes@.take(i as int) =~= nodes@);
        out
    }

    // ----- frames -----

    /// The next frames that windows get are spread over the screen.
    pub fn spread_initial_windows(&mut self)
        requires
            old(self).wf(),
        ensures
            final(self).wf(),
            final(self)@ == (FloatView { spread: true, ..old(self)@ }),
    {
        self.spread_on_initialization = true;
    }

    /// The windows of a layout that wait for a first frame, each once, with its
    /// place among the windows of the layout.
    pub fn windows_without_frame(&self, layout: LayoutId) -> (r: Vec<(usize, WindowId)>)
        requires
            self.wf(),
            self@.inner.has(layout),
        ensures
            r@ == self@.frameless(layout),
    {
        let windows = self.all_windows_in_layout(layout);
        let mut r: Vec<(usize, WindowId)> = Vec::new();
        let mut i: usize = 0;
        while i < windows.len()
            invariant
                i <= windows@.len(),
                r@ == self@.unframed(windows@, i as int),
            decreases windows@.len() - i,
        {
            let w = windows[i];
            let mut seen = false;
            let mut j: usize = 0;
            while j < i
                invariant
                    j <= i < windows@.len(),
                    w == windows@[i as int],
                    seen ==> windows@.take(i as int).contains(w),
                    !seen ==> forall|k: int| 0 <= k < j ==> windows@[k] != w,
                decreases i - j,
            {
                if windows[j] == w {
                    assert(windows@.take(i as int)[j as int] == w);
                    seen = true;
                }
                j += 1;
            }
            if !seen && !self.frames.contains_key(w) {
                assert(!windows@.take(i as int).contains(w));
                r.push((i, w));
            }
            i += 1;
        }
        r
    }

    /// Gives the windows of a layout that wait for a first frame one each, in
    /// order.
    pub fn initialize_frames(&mut self, layout: LayoutId, frames: &Vec<Frame>)
        requires
            old(self).wf(),
            old(self)@.inner.has(layout),
            frames@.len() == old(self)@.frameless(layout).len(),
        ensures
            final(self).wf(),
            final(self)@ == old(self)@.first_framed(layout, frames@),
    {
        let waiting = self.windows_without_frame(layout);
        self.spread_on_initialization = false;
        let ghost placed = Seq::new(waiting@.len(), |i: int| (waiting@[i].1, frames@[i]));
        let mut i: usize = 0;
        assert(placed.take(0) =~= Seq::empty());
        while i < waiting.len()
            invariant
                i <= waiting@.len(),
                frames@.len() == waiting@.len(),
                placed == Seq::new(waiting@.len(), |i: int| (waiting@[i].1, frames@[i])),
                self.wf(),
                self@ == old(self)@.initialized(placed.take(i as int)),
            decreases waiting@.len() - i,
        {
            assert(placed.take(i + 1).drop_last() =~= placed.take(i as int));
            let w = waiting[i].1;
            if !self.frames.contains_key(w) {
                self.frames.insert(w, frames[i]);
            }
            i += 1;
        }
        assert(placed.take(i as int) =~= placed);
    }

    /// Keeps a frame for a window to take back, as when saved state is loaded.
    pub fn keep_independent_frame(&mut self, wid: WindowId, frame: Frame)
        requires
            old(self).wf(),
        ensures
            final(self).wf(),
            final(self)@ == (FloatView {
                independent: old(self)@.independent.insert(wid, frame),
                ..old(self)@
            }),
    {
        self.independent_frames.insert(wid, frame);
    }

    /// Gives windows the same frame.
    fn frame_all(&mut self, windows: &Vec<WindowId>, frame: Frame)
        requires
            old(self).wf(),
        ensures
            final(self).wf(),
            final(self)@ == (FloatView {
                frames: float_view::framed(old(self)@.frames, windows@, frame),
                ..old(self)@
            }),
    {
        let mut i: usize = 0;
        assert(windows@.take(0) =~= Seq::empty());
        while i < windows.len()
            invariant
                i <= windows.len(),
                self.wf(),
                self@ == (FloatView {
                    frames: float_view::framed(
                        old(self)@.frames,
                        windows@.take(i as int),
                        frame,
                    ),
                    ..old(self)@
                }),
            decreases windows.len() - i,
        {
            assert(windows@.take(i + 1).drop_last() =~= windows@.take(i as int));
            self.frames.insert(windows[i], frame);
            i += 1;
        }
        assert(windows@.take(i as int) =~= windows@);
    }

    fn shown_in(&self, layouts: &Vec<LayoutId>, wid: WindowId) -> (r: bool)
        requires
            self.wf(),
        ensures
            r == self@.shown_in(layouts@, wid),
    {
        let mut i: usize = 0;
        while i < layouts.len()
            invariant
                i <= layouts.len(),
                self.wf(),
                forall|j: int|
                    0 <= j < i ==> !(match self@.inner.forest.node_for(
                        #[trigger] layouts@[j],
                        wid,
                    ) {
                        Some(n) => self@.inner.forest.on_display(n),
                        None => false,
                    }),
            decreases layouts.len() - i,
        {
            if self.inner.window_is_visible(layouts[i], wid) {
                assert(match self@.inner.forest.node_for(layouts@[i as int], wid) {
                    Some(n) => self@.inner.forest.on_display(n),
                    None => false,
                });
                return true;
            }
            i += 1;
        }
        false
    }

    /// Stores the frame of a window that is shown, also for those that share a
    /// stack with it.
    pub fn store_frame(&mut self, wid: WindowId, frame: Frame)
        requires
            old(self).wf(),
        ensures
            final(self).wf(),
            final(self)@ == old(self)@.frame_stored(wid, frame),
    {
        let layouts = self.inner.layouts_for_window(wid);
        if !self.shown_in(&layouts, wid) {
            return;
        }
        self.frames.insert(wid, frame);
        let ghost start = self@;
        let mut i: usize = 0;
        assert(layouts@.take(0) =~= Seq::empty());
        while i < layouts.len()
            invariant
                i <= layouts.len(),
                self.wf(),
                self@.inner == start.inner,
                self@ == start.shared(layouts@.take(i as int), wid, frame),
            decreases layouts.len() - i,
        {
            assert(layouts@.take(i + 1).drop_last() =~= layouts@.take(i as int));
            if let Some(n) = self.inner.window_node(layouts[i], wid) {
                let path = self.inner.tree().ancestors(n);
                if let Some(stack) = self.inner.tree().outermost_stack(&path) {
                    let members = self.members(stack);
                    self.frame_all(&members, frame);
                }
            }
            i += 1;
        }
        assert(layouts@.take(i as int) =~= layouts@);
    }

    /// Gives windows a frame and keeps the one that they had, if asked to.
    fn align_members(&mut self, windows: &Vec<WindowId>, frame: Option<Frame>, save: bool)
        requires
            old(self).wf(),
        ensures
            final(self).wf(),
            final(self)@ == old(self)@.aligned(windows@, frame, save),
            final(self)@.inner == old(self)@.inner,
    {
        let mut i: usize = 0;
        assert(windows@.take(0) =~= Seq::empty());
        while i < windows.len()
            invariant
                i <= windows.len(),
                self.wf(),
                self@.inner == old(self)@.inner,
                self@ == old(self)@.aligned(windows@.take(i as int), frame, save),
            decreases windows.len() - i,
        {
            assert(windows@.take(i + 1).drop_last() =~= windows@.take(i as int));
            let w = windows[i];
            if save {
                if let Some(original) = self.frame(w) {
                    if !self.independent_frames.contains_key(w) {
                        self.independent_frames.insert(w, original);
                    }
                }
            }
            if let Some(f) = frame {
                self.frames.insert(w, f);
            }
            i += 1;
        }
        assert(windows@.take(i as int) =~= windows@);
    }

    fn take_back(&mut self, wid: WindowId)
        requires
            old(self).wf(),
        ensures
            final(self).wf(),
            final(self)@ == old(self)@.taken_back(wid),
            final(self)@.inner == old(self)@.inner,
    {
        if let Some(frame) = self.independent_frames.remove(wid) {
            self.frames.insert(wid, frame);
        } else {
            assert(self.independent_frames@ =~= old(self).independent_frames@);
        }
    }

    fn restore_independent_members(&mut self, layout: LayoutId, windows: &Vec<WindowId>)
        requires
            old(self).wf(),
            old(self)@.inner.has(layout),
        ensures
            final(self).wf(),
            final(self)@ == old(self)@.members_restored(layout, windows@),
            final(self)@.inner == old(self)@.inner,
    {
        let root = self.inner.root(layout);
        let mut i: usize = 0;
        assert(windows@.take(0) =~= Seq::empty());
        while i < windows.len()
            invariant
                i <= windows.len(),
                self.wf(),
                root == self@.inner.root(layout),
                self@.inner == old(self)@.inner,
                self@ == old(self)@.members_restored(layout, windows@.take(i as int)),
            decreases windows.len() - i,
        {
            assert(windows@.take(i + 1).drop_last() =~= windows@.take(i as int));
            let w = windows[i];
            let on_top = match self.inner.window_node(layout, w) {
                Some(n) => self.inner.tree().parent(n) == Some(root),
                None => false,
            };
            if on_top {
                self.take_back(w);
            }
            i += 1;
        }
        assert(windows@.take(i as int) =~= windows@);
    }

    // ----- layouts and windows -----

    pub fn create_layout(&mut self) -> (r: LayoutId)
        requires
            old(self).wf(),
            old(self)@.inner.roots.dom().len() < 4294967294,
        ensures
            final(self).wf(),
            !old(self)@.inner.has(r),
            final(self)@ == (FloatView {
                inner: old(self)@.inner.with_layout(r),
                ..old(self)@
            }),
    {
        self.inner.create_layout()
    }

    pub fn clone_layout(&mut self, layout: LayoutId) -> (r: LayoutId)
        requires
            old(self).wf(),
            old(self)@.inner.has(layout),
            old(self)@.inner.roots.dom().len() < 4294967294,
        ensures
            final(self).wf(),
            !old(self)@.inner.has(r),
            final(self)@ == (FloatView {
                inner: old(self)@.inner.with_clone(layout, r),
                ..old(self)@
            }),
    {
        self.inner.clone_layout(layout)
    }

    /// Removes a layout, and the frames of windows that are in no other one.
    pub fn remove_layout(&mut self, layout: LayoutId)
        requires
            old(self).wf(),
            old(self)@.inner.has(layout),
        ensures
            final(self).wf(),
            final(self)@ == (FloatView {
                inner: old(self)@.inner.without_layout(layout),
                ..old(self)@
            }).frames_dropped(old(self)@.inner.all_windows(layout)),
    {
        let windows = self.inner.all_windows_in_layout(layout);
        self.inner.remove_layout(layout);
        let ghost start = self@;
        let mut i: usize = 0;
        assert(windows@.take(0) =~= Seq::empty());
        while i < windows.len()
            invariant
                i <= windows.len(),
                self.wf(),
                self@ == start.frames_dropped(windows@.take(i as int)),
            decreases windows.len() - i,
        {
            assert(windows@.take(i + 1).drop_last() =~= windows@.take(i as int));
            let w = windows[i];
            if !self.inner.contains_any_window(w) {
                self.frames.remove(w);
                self.independent_frames.remove(w);
            }
            i += 1;
        }
        assert(windows@.take(i as int) =~= windows@);
    }

    fn top_anchor(&self, layout: LayoutId) -> (r: Option<NodeId>)
        requires
            self.wf(),
            self@.inner.has(layout),
        ensures
            r == self@.top_anchor(layout),
    {
        let root = self.inner.root(layout);
        let path = self.inner.tree().ancestors(self.inner.selection(layout));
        let ghost good = |n: NodeId|
            self@.inner.forest.parent(n) == Some(self@.inner.root(layout));
        let mut i: usize = 0;
        while i < path.len()
            invariant
                i <= path.len(),
                path@ == self@.inner.forest.ancestors(self@.inner.selection(layout)),
                root == self@.inner.root(layout),
                good == (|n: NodeId|
                    self@.inner.forest.parent(n) == Some(self@.inner.root(layout))),
                navigation::find_on(path@, 0, good) == navigation::find_on(path@, i as int, good),
            decreases path.len() - i,
        {
            if self.inner.tree().parent(path[i]) == Some(root) {
                return Some(path[i]);
            }
            i += 1;
        }
        None
    }

    fn stack_of_selection(&self, layout: LayoutId) -> (r: Option<NodeId>)
        requires
            self.wf(),
            self@.inner.has(layout),
        ensures
            r == self@.stack_of_selection(layout),
    {
        let path = self.inner.tree().ancestors(self.inner.selection(layout));
        let ghost good = |n: NodeId| self@.inner.forest.kind(n).stacks();
        let mut i: usize = 0;
        while i < path.len()
            invariant
                i <= path.len(),
                path@ == self@.inner.forest.ancestors(self@.inner.selection(layout)),
                good == (|n: NodeId| self@.inner.forest.kind(n).stacks()),
                navigation::find_on(path@, 0, good) == navigation::find_on(path@, i as int, good),
            decreases path.len() - i,
        {
            if self.inner.layout(path[i]).is_stacked() {
                return Some(path[i]);
            }
            i += 1;
        }
        None
    }

    /// Adds a window at the top of a layout and selects it.
    pub fn add_window_after_selection(&mut self, layout: LayoutId, wid: WindowId)
        requires
            old(self).wf(),
            old(self)@.inner.has(layout),
        ensures
            final(self).wf(),
            final(self)@ == old(self)@.window_added(layout, wid),
            final(self)@.inner.roots == old(self)@.inner.roots,
    {
        let anchor = match self.inner.window_insertion_point() {
            WindowInsertionPoint::NextToSelection => self.top_anchor(layout),
            WindowInsertionPoint::EndOfTree => None,
        };
        let place = match anchor {
            Some(n) => Place::After(n),
            None => Place::Last(self.inner.root(layout)),
        };
        let node = self.inner.put_window(layout, place, wid);
        self.inner.select(node);
    }

    pub fn replace_window(&mut self, from: WindowId, to: WindowId)
        requires
            old(self).wf(),
        ensures
            final(self).wf(),
            final(self)@ == old(self)@.with_replaced(from, to),
    {
        if from == to {
            return;
        }
        rekey(&mut self.frames, from, to);
        rekey(&mut self.independent_frames, from, to);
        self.inner.replace_window(from, to);
    }

    /// Removes a window and its frames.
    pub fn remove_window(&mut self, wid: WindowId)
        requires
            old(self).wf(),
        ensures
            final(self).wf(),
            final(self)@ == old(self)@.window_removed(wid),
            final(self)@.inner.roots == old(self)@.inner.roots,
    {
        self.frames.remove(wid);
        self.independent_frames.remove(wid);
        self.inner.remove_window(wid);
    }

    /// Removes the windows of a process and their frames.
    pub fn remove_windows_for_app(&mut self, pid: Pid)
        requires
            old(self).wf(),
        ensures
            final(self).wf(),
            final(self)@ == old(self)@.app_removed(pid),
    {
        drop_app(&mut self.frames, pid);
        drop_app(&mut self.independent_frames, pid);
        self.inner.remove_windows_for_app(pid);
    }

    /// Makes a layout hold the windows that a process has.
    pub fn set_windows_for_app(&mut self, layout: LayoutId, pid: Pid, desired: Vec<WindowId>)
        requires
            old(self).wf(),
            old(self)@.inner.has(layout),
        ensures
            final(self).wf(),
            final(self)@ == old(self)@.app_set(layout, pid, desired@),
    {
        let current = self.inner.windows_for_app(layout, pid);
        let delta = systems::reconcile_app_membership(pid, current, desired);
        let gone = delta.removals;
        let mut i: usize = 0;
        assert(gone@.take(0) =~= Seq::empty());
        while i < gone.len()
            invariant
                i <= gone.len(),
                self.wf(),
                self@.inner.roots == old(self)@.inner.roots,
                self@ == old(self)@.windows_removed(gone@.take(i as int)),
            decreases gone.len() - i,
        {
            assert(gone@.take(i + 1).drop_last() =~= gone@.take(i as int));
            self.remove_window(gone[i]);
            i += 1;
        }
        assert(gone@.take(i as int) =~= gone@);
        let ghost between = self@;
        let added = delta.additions;
        let mut k: usize = 0;
        assert(added@.take(0) =~= Seq::empty());
        while k < added.len()
            invariant
                k <= added.len(),
                self.wf(),
                old(self)@.inner.has(layout),
                self@.inner.roots == old(self)@.inner.roots,
                self@ == between.windows_added(layout, added@.take(k as int)),
            decreases added.len() - k,
        {
            assert(added@.take(k + 1).drop_last() =~= added@.take(k as int));
            assert(self@.inner.has(layout));
            self.add_window_after_selection(layout, added[k]);
            k += 1;
        }
        assert(added@.take(k as int) =~= added@);
    }

    // ----- commands -----

    /// Moves focus, given the nearest window in the direction. Returns the window
    /// that has it now, which is also the one to raise.
    pub fn move_focus(
        &mut self,
        layout: LayoutId,
        direction: Direction,
        nearest: Option<WindowId>,
    ) -> (r: (Option<WindowId>, Vec<WindowId>))
        requires
            old(self).wf(),
            old(self)@.inner.has(layout),
        ensures
            final(self).wf(),
            r.0 == old(self)@.focus_target(layout, direction, nearest),
            r.1@ == match r.0 {
                Some(w) => seq![w],
                None => Seq::empty(),
            },
            final(self)@ == match r.0 {
                Some(w) => (FloatView {
                    inner: old(self)@.inner.window_selected(layout, w),
                    ..old(self)@
                }),
                None => old(self)@,
            },
    {
        let target = self.focus_target(layout, direction, nearest);
        let mut raise: Vec<WindowId> = Vec::new();
        if let Some(w) = target {
            self.inner.select_window(layout, w);
            raise.push(w);
        }
        (target, raise)
    }

    /// Windows do not move by command.
    pub fn move_selection(&mut self, layout: LayoutId, direction: Direction) -> (r: bool)
        requires
            old(self).wf(),
        ensures
            final(self).wf(),
            final(self)@ == old(self)@,
            !r,
    {
        false
    }

    pub fn move_selection_to_layout_after_selection(&mut self, from: LayoutId, to: LayoutId)
        requires
            old(self).wf(),
            old(self)@.inner.has(from),
            old(self)@.inner.has(to),
        ensures
            final(self).wf(),
            final(self)@ == (FloatView { inner: old(self)@.inner.sent(from, to), ..old(self)@ }),
    {
        self.inner.move_selection_to_layout_after_selection(from, to);
    }

    /// Puts a window into the container of another.
    fn take_in(
        &mut self,
        layout: LayoutId,
        root: NodeId,
        focused: WindowId,
        other: WindowId,
        n: NodeId,
        m: NodeId,
        container: NodeId,
    )
        requires
            old(self).wf(),
            old(self)@.inner.has(layout),
        ensures
            final(self).wf(),
            final(self)@ == old(self)@.taken_in(layout, root, focused, other, n, m, container),
    {
        let left = match self.inner.tree().parent(m) {
            Some(p) => if p != root {
                self.members(p)
            } else {
                Vec::new()
            },
            None => Vec::new(),
        };
        if self.inner.layout(container).is_stacked() {
            let frame = self.frame(focused);
            let mut one: Vec<WindowId> = Vec::new();
            one.push(other);
            assert(one@ =~= seq![other]);
            self.align_members(&one, frame, true);
        } else {
            self.independent_frames.remove(other);
        }
        self.inner.relocate(m, Place::Last(container));
        self.restore_independent_members(layout, &left);
        self.inner.select(n);
    }

    /// Joins a window, as a rule the nearest one in the direction, with the one
    /// in focus.
    pub fn join_selection_with_direction(
        &mut self,
        layout: LayoutId,
        direction: Direction,
        target: Option<WindowId>,
    )
        requires
            old(self).wf(),
            old(self)@.inner.has(layout),
        ensures
            final(self).wf(),
            final(self)@ == old(self)@.joined(layout, direction, target),
    {
        let focused = match self.active_window(layout) {
            Some(w) => w,
            None => {
                return;
            },
        };
        let n = match self.inner.window_node(layout, focused) {
            Some(n) => n,
            None => {
                return;
            },
        };
        let other = match target {
            Some(w) => w,
            None => {
                return;
            },
        };
        let m = match self.inner.window_node(layout, other) {
            Some(m) => m,
            None => {
                return;
            },
        };
        let root = self.inner.root(layout);
        if self.own_container(layout).is_none() {
            let kind = LayoutKind::for_orientation(direction.orientation());
            self.inner.split_selection(layout, kind);
            assert(self@.inner.has(layout));
        }
        if let Some(container) = self.inner.tree().parent(n) {
            self.take_in(layout, root, focused, other, n, m, container);
        }
    }

    /// Takes the window in focus out of its container.
    pub fn unjoin_selection(&mut self, layout: LayoutId)
        requires
            old(self).wf(),
            old(self)@.inner.has(layout),
        ensures
            final(self).wf(),
            final(self)@ == old(self)@.unjoined(layout),
    {
        let wid = match self.active_window(layout) {
            Some(w) => w,
            None => {
                return;
            },
        };
        let parent = match self.own_container(layout) {
            Some(p) => p,
            None => {
                return;
            },
        };
        let n = self.inner.window_node(layout, wid).unwrap();
        let members = self.members(parent);
        self.inner.relocate(n, Place::After(parent));
        self.take_back(wid);
        self.restore_independent_members(layout, &members);
        self.inner.select(n);
    }

    /// Takes the window in focus out of its container, or joins one with it.
    pub fn consume_or_expel_selection(
        &mut self,
        layout: LayoutId,
        direction: Direction,
        target: Option<WindowId>,
    )
        requires
            old(self).wf(),
            old(self)@.inner.has(layout),
        ensures
            final(self).wf(),
            final(self)@ == old(self)@.consumed_or_expelled(layout, direction, target),
    {
        if self.selected_container(layout).is_some() {
            self.unjoin_selection(layout);
        } else {
            self.join_selection_with_direction(layout, direction, target);
        }
    }

    /// Makes the container of the selection a stack. Returns the windows that the
    /// selection shows then.
    pub fn apply_stacking_to_parent_of_selection(
        &mut self,
        layout: LayoutId,
        default_orientation: StackDefaultOrientation,
    ) -> (r: Vec<WindowId>)
        requires
            old(self).wf(),
            old(self)@.inner.has(layout),
        ensures
            final(self).wf(),
            final(self)@ == old(self)@.stacked(layout, default_orientation),
            r@ == (if old(self)@.active(layout) is Some && old(self)@.selected_container(
                layout,
            ) is Some {
                final(self)@.inner.forest.visible(final(self)@.inner.selection(layout))
            } else {
                Seq::empty()
            }),
    {
        let focused = match self.active_window(layout) {
            Some(w) => w,
            None => {
                return Vec::new();
            },
        };
        let container = match self.selected_container(layout) {
            Some(c) => c,
            None => {
                return Vec::new();
            },
        };
        let members = self.members(container);
        let save = !self.inner.layout(container).is_stacked();
        let frame = self.frame(focused);
        self.align_members(&members, frame, save);
        self.inner.apply_stacking_to_parent_of_selection(layout, default_orientation);
        self.inner.select_window(layout, focused);
        self.inner.visible_windows_under_selection(layout)
    }

    fn spread_out(&mut self, windows: &Vec<WindowId>, focused: Option<WindowId>)
        requires
            old(self).wf(),
        ensures
            final(self).wf(),
            final(self)@ == old(self)@.spread_out(windows@, focused),
            final(self)@.inner == old(self)@.inner,
    {
        let mut i: usize = 0;
        assert(windows@.take(0) =~= Seq::empty());
        while i < windows.len()
            invariant
                i <= windows.len(),
                self.wf(),
                self@.inner == old(self)@.inner,
                self@ == old(self)@.spread_out(windows@.take(i as int), focused),
            decreases windows.len() - i,
        {
            assert(windows@.take(i + 1).drop_last() =~= windows@.take(i as int));
            let w = windows[i];
            if Some(w) == focused {
                self.independent_frames.remove(w);
            } else {
                self.take_back(w);
            }
            i += 1;
        }
        assert(windows@.take(i as int) =~= windows@);
    }

    /// Ends the stack around the selection. Returns the windows that its node
    /// shows then.
    pub fn unstack_parent_of_selection(
        &mut self,
        layout: LayoutId,
        default_orientation: StackDefaultOrientation,
    ) -> (r: Vec<WindowId>)
        requires
            old(self).wf(),
            old(self)@.inner.has(layout),
        ensures
            final(self).wf(),
            final(self)@ == old(self)@.unstacked(layout, default_orientation),
            r@ == (if old(self)@.stack_of_selection(layout) is Some {
                match old(self)@.inner.unstacking_target(layout) {
                    Some(c) => old(self)@.inner.unstacked(
                        layout,
                        default_orientation,
                    ).forest.visible(c),
                    None => Seq::empty(),
                }
            } else {
                Seq::empty()
            }),
    {
        let focused = self.active_window(layout);
        let container = match self.stack_of_selection(layout) {
            Some(c) => c,
            None => {
                return Vec::new();
            },
        };
        let members = self.members(container);
        let visible = self.inner.unstack_parent_of_selection(layout, default_orientation);
        self.spread_out(&members, focused);
        if let Some(w) = focused {
            self.inner.select_window(layout, w);
        }
        visible
    }

    // ----- what all tree layouts do alike -----

    /// Hands out the size steps noted so far, oldest first.
    pub fn take_size_changes(&mut self) -> (r: Vec<SizeChange>)
        requires
            old(self).wf(),
        ensures
            final(self).wf(),
            final(self)@ == (FloatView { inner: final(self)@.inner, ..old(self)@ }),
            r@ == old(self)@.inner.forest.changes,
            final(self)@.inner == old(self)@.inner.with_forest(
                (ForestView { changes: Seq::empty(), ..old(self)@.inner.forest }),
            ),
    {
        self.inner.take_size_changes()
    }

    pub fn contains_layout(&self, layout: LayoutId) -> (r: bool)
        requires
            self.wf(),
        ensures
            r == self@.inner.has(layout),
    {
        self.inner.contains_layout(layout)
    }

    pub fn selected_window(&self, layout: LayoutId) -> (r: Option<WindowId>)
        requires
            self.wf(),
            self@.inner.has(layout),
        ensures
            r == self@.inner.selected_window(layout),
    {
        self.inner.selected_window(layout)
    }

    pub fn visible_windows_in_layout(&self, layout: LayoutId) -> (r: Vec<WindowId>)
        requires
            self.wf(),
            self@.inner.has(layout),
        ensures
            r@ == self@.inner.forest.visible(self@.inner.root(layout)),
    {
        self.inner.visible_windows_in_layout(layout)
    }

    pub fn visible_windows_under_selection(&self, layout: LayoutId) -> (r: Vec<WindowId>)
        requires
            self.wf(),
            self@.inner.has(layout),
        ensures
            r@ == self@.inner.forest.visible(self@.inner.selection(layout)),
    {
        self.inner.visible_windows_under_selection(layout)
    }

    /// Moves the selection to its parent. Says whether there is one.
    pub fn ascend_selection(&mut self, layout: LayoutId) -> (r: bool)
        requires
            old(self).wf(),
            old(self)@.inner.has(layout),
        ensures
            final(self).wf(),
            final(self)@ == (FloatView { inner: final(self)@.inner, ..old(self)@ }),
            r == (old(self)@.inner.forest.parent(old(self)@.inner.selection(layout)) is Some),
            final(self)@.inner == old(self)@.inner.ascended(layout),
    {
        self.inner.ascend_selection(layout)
    }

    /// Moves the selection to the child that it remembers. Says whether there is one.
    pub fn descend_selection(&mut self, layout: LayoutId) -> (r: bool)
        requires
            old(self).wf(),
            old(self)@.inner.has(layout),
        ensures
            final(self).wf(),
            final(self)@ == (FloatView { inner: final(self)@.inner, ..old(self)@ }),
            r == (old(self)@.inner.forest.last_selection(old(self)@.inner.selection(layout)) is Some),
            final(self)@.inner == old(self)@.inner.descended(layout),
    {
        self.inner.descend_selection(layout)
    }

    pub fn contains_window(&self, layout: LayoutId, wid: WindowId) -> (r: bool)
        ensures
            r == (self@.inner.forest.node_for(layout, wid) is Some),
    {
        self.inner.contains_window(layout, wid)
    }

    /// Selects a window of a layout. Says whether it is there.
    pub fn select_window(&mut self, layout: LayoutId, wid: WindowId) -> (r: bool)
        requires
            old(self).wf(),
        ensures
            final(self).wf(),
            final(self)@ == (FloatView { inner: final(self)@.inner, ..old(self)@ }),
            r == (old(self)@.inner.forest.node_for(layout, wid) is Some),
            final(self)@.inner == old(self)@.inner.window_selected(layout, wid),
    {
        self.inner.select_window(layout, wid)
    }

    /// Two windows of a layout change places. Says whether both are there.
    pub fn swap_windows(&mut self, layout: LayoutId, a: WindowId, b: WindowId) -> (r: bool)
        requires
            old(self).wf(),
        ensures
            final(self).wf(),
            final(self)@ == (FloatView { inner: final(self)@.inner, ..old(self)@ }),
            r == old(self)@.inner.forest.can_swap(layout, a, b),
            final(self)@.inner == old(self)@.inner.with_forest(
                old(self)@.inner.forest.with_swapped(layout, a, b),
            ),
    {
        self.inner.swap_windows(layout, a, b)
    }

    /// The selection covers the screen, or no longer does. Returns the windows
    /// that it shows if it does now.
    pub fn toggle_fullscreen_of_selection(&mut self, layout: LayoutId) -> (r: Vec<WindowId>)
        requires
            old(self).wf(),
            old(self)@.inner.has(layout),
        ensures
            final(self).wf(),
            final(self)@ == (FloatView { inner: final(self)@.inner, ..old(self)@ }),
            final(self)@.inner == old(self)@.inner.fullscreen_toggled(layout),
            r@ == (if old(self)@.inner.selection_info(layout).is_fullscreen {
                Seq::empty()
            } else {
                final(self)@.inner.forest.visible(old(self)@.inner.selection(layout))
            }),
    {
        self.inner.toggle_fullscreen_of_selection(layout)
    }

    /// The selection covers the screen within its gaps, or no longer does.
    /// Returns the windows that it shows if it does now.
    pub fn toggle_fullscreen_within_gaps_of_selection(&mut self, layout: LayoutId) -> (r: Vec<
        WindowId,
    >)
        requires
            old(self).wf(),
            old(self)@.inner.has(layout),
        ensures
            final(self).wf(),
            final(self)@ == (FloatView { inner: final(self)@.inner, ..old(self)@ }),
            final(self)@.inner == old(self)@.inner.fullscreen_within_gaps_toggled(layout),
            r@ == (if old(self)@.inner.selection_info(layout).is_fullscreen_within_gaps {
                Seq::empty()
            } else {
                final(self)@.inner.forest.visible(old(self)@.inner.selection(layout))
            }),
    {
        self.inner.toggle_fullscreen_within_gaps_of_selection(layout)
    }

    pub fn has_any_fullscreen_node(&self, layout: LayoutId) -> (r: bool)
        requires
            self.wf(),
            self@.inner.has(layout),
        ensures
            r == self@.inner.has_fullscreen(layout),
    {
        self.inner.has_any_fullscreen_node(layout)
    }

    pub fn has_windows_for_app(&self, layout: LayoutId, pid: Pid) -> (r: bool)
        requires
            self.wf(),
            self@.inner.has(layout),
        ensures
            r == (self@.inner.app_windows(layout, pid).len() > 0),
    {
        self.inner.has_windows_for_app(layout, pid)
    }

    pub fn windows_for_app(&self, layout: LayoutId, pid: Pid) -> (r: Vec<WindowId>)
        requires
            self.wf(),
            self@.inner.has(layout),
        ensures
            r@ == self@.inner.app_windows(layout, pid),
    {
        self.inner.windows_for_app(layout, pid)
    }

    /// How many layouts there are.
    pub fn layout_count(&self) -> (r: usize)
        ensures
            r == self@.inner.roots.dom().len(),
    {
        self.inner.layout_count()
    }

    pub fn all_windows_in_layout(&self, layout: LayoutId) -> (r: Vec<WindowId>)
        requires
            self.wf(),
            self@.inner.has(layout),
        ensures
            r@ == self@.inner.all_windows(layout),
    {
        self.inner.all_windows_in_layout(layout)
    }

    pub fn parent_of_selection_is_stacked(&self, layout: LayoutId) -> (r: bool)
        requires
            self.wf(),
            self@.inner.has(layout),
        ensures
            r == (self@.inner.unstacking_target(layout) is Some),
    {
        self.inner.parent_of_selection_is_stacked(layout)
    }

    /// A picture of the layout.
    pub fn container_tree(&self, layout: LayoutId) -> (r: TreeSnapshot)
        requires
            self.wf(),
            self@.inner.has(layout),
        ensures
            r.shows(self@.inner.forest, self@.inner.root(layout), self@.inner.selection(layout), Seq::empty()),
    {
        self.inner.container_tree(layout)
    }

    /// Turns the container around the selection, unless it is a stack.
    pub fn toggle_tile_orientation(&mut self, layout: LayoutId)
        requires
            old(self).wf(),
            old(self)@.inner.has(layout),
        ensures
            final(self).wf(),
            final(self)@ == (FloatView { inner: final(self)@.inner, ..old(self)@ }),
            final(self)@.inner == old(self)@.inner.tile_toggled(layout),
    {
        self.inner.toggle_tile_orientation(layout)
    }
}

impl LayoutSystem for FloatingLayoutSystem {
    open spec fn ready(&self) -> bool {
        self.wf()
    }

    open spec fn known_layouts(system: FloatView) -> Set<LayoutId> {
        system.inner.roots.dom()
    }

    open spec fn copyable(system: FloatView, layout: LayoutId) -> bool {
        system.inner.has(layout)
    }

    open spec fn with_fresh(system: FloatView, layout: LayoutId) -> FloatView {
        FloatView { inner: system.inner.with_layout(layout), ..system }
    }

    open spec fn with_copy(system: FloatView, source: LayoutId, layout: LayoutId) -> FloatView {
        FloatView { inner: system.inner.with_clone(source, layout), ..system }
    }

    fn create_layout(&mut self) -> (r: LayoutId) {
        let r = FloatingLayoutSystem::create_layout(self);
        assert(Self::known_layouts(self@) =~= Self::known_layouts(old(self)@).insert(r));
        r
    }

    fn clone_layout(&mut self, layout: LayoutId) -> (r: LayoutId) {
        let r = FloatingLayoutSystem::clone_layout(self, layout);
        assert(Self::known_layouts(self@) =~= Self::known_layouts(old(self)@).insert(r));
        r
    }

    proof fn layouts_known(&self) {
    }
}

} // verus!
