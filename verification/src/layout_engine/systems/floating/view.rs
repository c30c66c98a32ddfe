//! Floating layouts as mathematical objects, and what each command makes of them.

use vstd::prelude::*;

use crate::actor::{LayoutId, Pid, WindowId};
use crate::common::config::StackDefaultOrientation;
use crate::geometry::Frame;
use crate::layout_engine::systems;
use crate::layout_engine::systems::groups;
use crate::layout_engine::systems::groups::GroupInfo;
use crate::layout_engine::systems::navigation;
use crate::layout_engine::systems::traditional::view::TraditionalView;
use crate::layout_engine::{Direction, LayoutKind};
use crate::model::tree::forest::Forest;
use crate::model::tree::view;
use crate::model::tree::view::{ForestView, NodeId, Place};

verus! {

/// Tree layouts for focus and stacks, the frames of windows, and the frames that
/// members of stacks had before.
pub struct FloatView {
    pub inner: TraditionalView,
    pub frames: Map<WindowId, Frame>,
    pub independent: Map<WindowId, Frame>,
    pub spread: bool,
}

/// A stack with the window in front.
pub struct FloatingGroup {
    pub info: GroupInfo,
    pub front: WindowId,
}

impl ForestView {
    /// The window that a node leads to or remembers.
    pub open spec fn led_window(self, n: NodeId) -> Option<WindowId>
        decreases view::height(self.nodes, n),
    {
        match self.window(n) {
            Some(w) => Some(w),
            None => match self.remembered_lead(n) {
                Some(c) => if view::height(self.nodes, c) < view::height(self.nodes, n) {
                    self.led_window(c)
                } else {
                    None
                },
                None => None,
            },
        }
    }

    /// The uppermost stack around a node, itself included.
    pub open spec fn outermost_stack(self, path: Seq<NodeId>) -> Option<NodeId>
        decreases path.len(),
    {
        if path.len() == 0 {
            None
        } else if self.kind(path.last()).stacks() {
            Some(path.last())
        } else {
            self.outermost_stack(path.drop_last())
        }
    }
}

impl Forest {
    /// The window that a node leads to or remembers.
    pub fn led_window(&self, n: NodeId) -> (r: Option<WindowId>)
        requires
            self.wf(),
        ensures
            r == self@.led_window(n),
    {
        let mut at = n;
        let mut done = false;
        let mut found: Option<WindowId> = self.window_at(n);
        while found.is_none() && !done
            invariant
                self.wf(),
                found == (if done {
                    self@.led_window(n)
                } else {
                    self@.window(at)
                }),
                self@.led_window(at) == self@.led_window(n),
            decreases view::height(self@.nodes, at), (if done {
                0nat
            } else {
                1
            }),
        {
            match self.remembered_lead(at) {
                Some(c) => {
                    proof {
                        groups::lemma_remembered_lead(self@, at);
                    }
                    at = c;
                    found = self.window_at(c);
                },
                None => {
                    done = true;
                },
            }
        }
        found
    }

    /// The uppermost stack on a path to a root.
    pub fn outermost_stack(&self, path: &Vec<NodeId>) -> (r: Option<NodeId>)
        ensures
            r == self@.outermost_stack(path@),
    {
        let mut i: usize = path.len();
        assert(path@.take(i as int) =~= path@);
        while i > 0
            invariant
                i <= path.len(),
                self@.outermost_stack(path@) == self@.outermost_stack(path@.take(i as int)),
            decreases i,
        {
            assert(path@.take(i as int).drop_last() =~= path@.take(i - 1));
            i -= 1;
            if self.kind(path[i]).is_stacked() {
                return Some(path[i]);
            }
        }
        None
    }
}

/// The place of a window in a list, from `from` on; the length without one.
pub open spec fn place_of(list: Seq<WindowId>, window: WindowId, from: int) -> int
    decreases list.len() - from,
{
    if 0 <= from < list.len() {
        if list[from] == window {
            from
        } else {
            place_of(list, window, from + 1)
        }
    } else {
        list.len() as int
    }
}

/// The windows of a list get a frame.
pub open spec fn framed(
    frames: Map<WindowId, Frame>,
    windows: Seq<WindowId>,
    frame: Frame,
) -> Map<WindowId, Frame>
    decreases windows.len(),
{
    if windows.len() == 0 {
        frames
    } else {
        framed(frames, windows.drop_last(), frame).insert(windows.last(), frame)
    }
}

/// A value moves to another key, in place of what is there.
pub open spec fn rekeyed(
    frames: Map<WindowId, Frame>,
    from: WindowId,
    to: WindowId,
) -> Map<WindowId, Frame> {
    if frames.contains_key(from) {
        frames.remove(from).remove(to).insert(to, frames[from])
    } else {
        frames.remove(from).remove(to)
    }
}

/// The frames without those of a process.
pub open spec fn without_app(frames: Map<WindowId, Frame>, pid: Pid) -> Map<WindowId, Frame> {
    Map::new(|w: WindowId| frames.contains_key(w) && w.pid != pid, |w: WindowId| frames[w])
}

impl FloatView {
    pub open spec fn active(self, layout: LayoutId) -> Option<WindowId> {
        self.inner.forest.led_window(self.inner.selection(layout))
    }

    pub open spec fn members(self, container: NodeId) -> Seq<WindowId> {
        self.inner.forest.windows_under(container)
    }

    /// The container that the selection is or is in, unless it is the root.
    pub open spec fn selected_container(self, layout: LayoutId) -> Option<NodeId> {
        let n = self.inner.selection(layout);
        let container = if self.inner.forest.window(n) is Some {
            self.inner.forest.parent(n)
        } else {
            Some(n)
        };
        match container {
            Some(c) => if c != self.inner.root(layout) {
                Some(c)
            } else {
                None
            },
            None => None,
        }
    }

    /// The container around the window that has the focus.
    pub open spec fn active_parent(self, layout: LayoutId) -> Option<NodeId> {
        match self.active(layout) {
            Some(w) => match self.inner.forest.node_for(layout, w) {
                Some(n) => self.inner.forest.parent(n),
                None => None,
            },
            None => None,
        }
    }

    /// A window takes back the frame that it had before, if it has come to the top.
    pub open spec fn member_restored(self, layout: LayoutId, window: WindowId) -> FloatView {
        let on_top = match self.inner.forest.node_for(layout, window) {
            Some(n) => self.inner.forest.parent(n) == Some(self.inner.root(layout)),
            None => false,
        };
        if on_top {
            self.taken_back(window)
        } else {
            self
        }
    }

    /// A window takes back the frame that it had before.
    pub open spec fn taken_back(self, window: WindowId) -> FloatView {
        if self.independent.contains_key(window) {
            FloatView {
                frames: self.frames.insert(window, self.independent[window]),
                independent: self.independent.remove(window),
                ..self
            }
        } else {
            self
        }
    }

    pub open spec fn members_restored(self, layout: LayoutId, windows: Seq<WindowId>) -> FloatView
        decreases windows.len(),
    {
        if windows.len() == 0 {
            self
        } else {
            self.members_restored(layout, windows.drop_last()).member_restored(
                layout,
                windows.last(),
            )
        }
    }

    /// The windows that a command cycles through.
    pub open spec fn cycle(self, layout: LayoutId) -> Seq<WindowId> {
        match self.active_parent(layout) {
            Some(p) => if self.inner.forest.kind(p).stacks() {
                self.members(p)
            } else {
                self.inner.forest.visible(self.inner.root(layout))
            },
            None => self.inner.forest.visible(self.inner.root(layout)),
        }
    }

    /// Whether focus can move to a window by where it lies.
    pub open spec fn is_candidate(
        self,
        layout: LayoutId,
        window: WindowId,
        exclude: Option<NodeId>,
    ) -> bool {
        &&& Some(window) != self.active(layout)
        &&& self.frames.contains_key(window)
        &&& match (exclude, self.inner.forest.node_for(layout, window)) {
            (Some(p), Some(n)) => !self.inner.forest.ancestors(n).contains(p),
            _ => true,
        }
    }

    /// The windows that focus can move to by where they lie. There are none
    /// unless the window in focus has a frame.
    pub open spec fn candidates(self, layout: LayoutId, exclude: Option<NodeId>) -> Seq<WindowId> {
        match self.active(layout) {
            Some(w) => if self.frames.contains_key(w) {
                self.inner.forest.visible(self.inner.root(layout)).filter(
                    |x: WindowId| self.is_candidate(layout, x, exclude),
                )
            } else {
                Seq::empty()
            },
            None => Seq::empty(),
        }
    }

    /// The container that a join leaves out: that of the window in focus, unless
    /// it is the root.
    pub open spec fn own_container(self, layout: LayoutId) -> Option<NodeId> {
        match self.active_parent(layout) {
            Some(p) => if p != self.inner.root(layout) {
                Some(p)
            } else {
                None
            },
            None => None,
        }
    }

    /// The member of a list beside a window.
    pub open spec fn beside(list: Seq<WindowId>, window: WindowId, forward: bool) -> Option<
        WindowId,
    > {
        let i = place_of(list, window, 0);
        if forward && i + 1 < list.len() {
            Some(list[i + 1])
        } else if !forward && 0 < i < list.len() {
            Some(list[i - 1])
        } else {
            None
        }
    }

    /// Where focus goes in a direction, given the nearest window there: to the
    /// next member along the axis of a stack, else to the nearest window, else
    /// round the stack.
    pub open spec fn focus_target(
        self,
        layout: LayoutId,
        direction: Direction,
        nearest: Option<WindowId>,
    ) -> Option<WindowId> {
        match (self.active(layout), self.active_parent(layout)) {
            (Some(focused), Some(p)) => {
                let kind = self.inner.forest.kind(p);
                let list = self.members(p);
                let forward = direction.is_forward();
                let next = if kind.stacks() {
                    Self::beside(list, focused, forward)
                } else {
                    None
                };
                if kind.stacks() && kind.axis() == direction.axis() && next is Some {
                    next
                } else if nearest is Some {
                    nearest
                } else if next is Some {
                    next
                } else if kind.stacks() && list.len() > 0 {
                    Some(
                        if forward {
                            list[0]
                        } else {
                            list.last()
                        },
                    )
                } else {
                    None
                }
            },
            _ => None,
        }
    }

    /// The frame of a window is stored, also for those that share a stack with it
    /// in one of the layouts.
    pub open spec fn shared(
        self,
        layouts: Seq<LayoutId>,
        window: WindowId,
        frame: Frame,
    ) -> FloatView
        decreases layouts.len(),
    {
        if layouts.len() == 0 {
            self
        } else {
            let v = self.shared(layouts.drop_last(), window, frame);
            match v.inner.forest.node_for(layouts.last(), window) {
                Some(n) => match v.inner.forest.outermost_stack(v.inner.forest.ancestors(n)) {
                    Some(stack) => FloatView {
                        frames: framed(v.frames, v.members(stack), frame),
                        ..v
                    },
                    None => v,
                },
                None => v,
            }
        }
    }

    /// A window is shown in one of some layouts.
    pub open spec fn shown_in(self, layouts: Seq<LayoutId>, window: WindowId) -> bool {
        exists|i: int|
            0 <= i < layouts.len() && match self.inner.forest.node_for(
                #[trigger] layouts[i],
                window,
            ) {
                Some(n) => self.inner.forest.on_display(n),
                None => false,
            }
    }

    pub open spec fn frame_stored(self, window: WindowId, frame: Frame) -> FloatView {
        let layouts = self.inner.layouts_for(window);
        if self.shown_in(layouts, window) {
            FloatView { frames: self.frames.insert(window, frame), ..self }.shared(
                layouts,
                window,
                frame,
            )
        } else {
            self
        }
    }

    /// Windows take the frame of another one; the one that they had is kept, if
    /// none is kept yet.
    pub open spec fn aligned(
        self,
        windows: Seq<WindowId>,
        frame: Option<Frame>,
        save: bool,
    ) -> FloatView
        decreases windows.len(),
    {
        if windows.len() == 0 {
            self
        } else {
            let v = self.aligned(windows.drop_last(), frame, save);
            let w = windows.last();
            FloatView {
                independent: if save && v.frames.contains_key(w) && !v.independent.contains_key(w) {
                    v.independent.insert(w, v.frames[w])
                } else {
                    v.independent
                },
                frames: match frame {
                    Some(f) => v.frames.insert(w, f),
                    None => v.frames,
                },
                ..v
            }
        }
    }

    pub open spec fn frame_of(self, window: WindowId) -> Option<Frame> {
        if self.frames.contains_key(window) {
            Some(self.frames[window])
        } else {
            None
        }
    }

    /// The frames of windows that are in no layout any more are forgotten.
    pub open spec fn frames_dropped(self, windows: Seq<WindowId>) -> FloatView
        decreases windows.len(),
    {
        if windows.len() == 0 {
            self
        } else {
            let v = self.frames_dropped(windows.drop_last());
            let w = windows.last();
            if v.inner.forest.entries_for(w).len() > 0 {
                v
            } else {
                FloatView {
                    frames: v.frames.remove(w),
                    independent: v.independent.remove(w),
                    ..v
                }
            }
        }
    }

    /// The child of the root that the selection is or lies below.
    pub open spec fn top_anchor(self, layout: LayoutId) -> Option<NodeId> {
        navigation::find_on(
            self.inner.forest.ancestors(self.inner.selection(layout)),
            0,
            |n: NodeId| self.inner.forest.parent(n) == Some(self.inner.root(layout)),
        )
    }

    /// A new window enters a layout at the top.
    pub open spec fn window_added(self, layout: LayoutId, window: WindowId) -> FloatView {
        let anchor = if self.inner.point is NextToSelection {
            self.top_anchor(layout)
        } else {
            None
        };
        let place = match anchor {
            Some(n) => Place::After(n),
            None => Place::Last(self.inner.root(layout)),
        };
        let t = self.inner.window_put(layout, place, window);
        FloatView {
            inner: t.with_forest(t.forest.selected(self.inner.forest.next_id())),
            ..self
        }
    }

    pub open spec fn windows_added(self, layout: LayoutId, windows: Seq<WindowId>) -> FloatView
        decreases windows.len(),
    {
        if windows.len() == 0 {
            self
        } else {
            self.windows_added(layout, windows.drop_last()).window_added(layout, windows.last())
        }
    }

    pub open spec fn window_removed(self, window: WindowId) -> FloatView {
        FloatView {
            inner: self.inner.with_forest(self.inner.forest.window_removed(window)),
            frames: self.frames.remove(window),
            independent: self.independent.remove(window),
            ..self
        }
    }

    pub open spec fn windows_removed(self, windows: Seq<WindowId>) -> FloatView
        decreases windows.len(),
    {
        if windows.len() == 0 {
            self
        } else {
            self.windows_removed(windows.drop_last()).window_removed(windows.last())
        }
    }

    pub open spec fn with_replaced(self, from: WindowId, to: WindowId) -> FloatView {
        if from == to {
            self
        } else {
            FloatView {
                inner: self.inner.with_forest(self.inner.forest.with_replaced(from, to)),
                frames: rekeyed(self.frames, from, to),
                independent: rekeyed(self.independent, from, to),
                ..self
            }
        }
    }

    pub open spec fn app_removed(self, pid: Pid) -> FloatView {
        FloatView {
            inner: self.inner.with_forest(self.inner.forest.app_removed(pid)),
            frames: without_app(self.frames, pid),
            independent: without_app(self.independent, pid),
            ..self
        }
    }

    pub open spec fn app_set(self, layout: LayoutId, pid: Pid, desired: Seq<WindowId>) ->
        FloatView {
        let current = self.inner.app_windows(layout, pid);
        self.windows_removed(systems::missing_from(current, desired)).windows_added(
            layout,
            systems::newcomers(pid, current, desired),
        )
    }

    /// The window `target` joins the one in focus: in its container, or in a new
    /// one around it.
    pub open spec fn joined(
        self,
        layout: LayoutId,
        direction: Direction,
        target: Option<WindowId>,
    ) -> FloatView {
        let f = self.inner.forest;
        match (self.active(layout), target) {
            (Some(focused), Some(other)) => match (
                f.node_for(layout, focused),
                f.node_for(layout, other),
            ) {
                (Some(n), Some(m)) => {
                    let root = self.inner.root(layout);
                    let v = match self.own_container(layout) {
                        Some(_) => self,
                        None => FloatView {
                            inner: self.inner.nested(
                                layout,
                                self.inner.selection(layout),
                                LayoutKind::along(direction.axis()),
                            ).0,
                            ..self
                        },
                    };
                    match v.inner.forest.parent(n) {
                        Some(container) => v.taken_in(layout, root, focused, other, n, m, container),
                        None => v,
                    }
                },
                _ => self,
            },
            _ => self,
        }
    }

    /// The window `other` at node `m` enters a container. In a stack it takes the
    /// frame of the window in focus. Those that it leaves behind alone take back
    /// their frames.
    pub open spec fn taken_in(
        self,
        layout: LayoutId,
        root: NodeId,
        focused: WindowId,
        other: WindowId,
        n: NodeId,
        m: NodeId,
        container: NodeId,
    ) -> FloatView {
        let f = self.inner.forest;
        let left = match f.parent(m) {
            Some(p) => if p != root {
                self.members(p)
            } else {
                Seq::empty()
            },
            None => Seq::empty(),
        };
        let v = if f.kind(container).stacks() {
            self.aligned(seq![other], self.frame_of(focused), true)
        } else {
            FloatView { independent: self.independent.remove(other), ..self }
        };
        let w = FloatView {
            inner: v.inner.with_forest(f.moved(m, Place::Last(container))),
            ..v
        }.members_restored(layout, left);
        FloatView { inner: w.inner.with_forest(w.inner.forest.selected(n)), ..w }
    }

    /// The window in focus leaves its container and takes back its frame.
    pub open spec fn unjoined(self, layout: LayoutId) -> FloatView {
        let f = self.inner.forest;
        match (self.active(layout), self.own_container(layout)) {
            (Some(w), Some(p)) => {
                let n = f.node_for(layout, w)->0;
                let v = FloatView {
                    inner: self.inner.with_forest(f.moved(n, Place::After(p))),
                    ..self
                }.taken_back(w).members_restored(layout, self.members(p));
                FloatView { inner: v.inner.with_forest(v.inner.forest.selected(n)), ..v }
            },
            _ => self,
        }
    }

    pub open spec fn consumed_or_expelled(
        self,
        layout: LayoutId,
        direction: Direction,
        target: Option<WindowId>,
    ) -> FloatView {
        if self.selected_container(layout) is Some {
            self.unjoined(layout)
        } else {
            self.joined(layout, direction, target)
        }
    }

    /// The container of the selection becomes a stack at the frame of the window
    /// in focus.
    pub open spec fn stacked(self, layout: LayoutId, default: StackDefaultOrientation) ->
        FloatView {
        match (self.active(layout), self.selected_container(layout)) {
            (Some(focused), Some(c)) => {
                let v = self.aligned(
                    self.members(c),
                    self.frame_of(focused),
                    !self.inner.forest.kind(c).stacks(),
                );
                FloatView {
                    inner: v.inner.stacking_applied(layout, default).window_selected(
                        layout,
                        focused,
                    ),
                    ..v
                }
            },
            _ => self,
        }
    }

    /// The stack around the selection.
    pub open spec fn stack_of_selection(self, layout: LayoutId) -> Option<NodeId> {
        navigation::find_on(
            self.inner.forest.ancestors(self.inner.selection(layout)),
            0,
            |n: NodeId| self.inner.forest.kind(n).stacks(),
        )
    }

    /// Members of a former stack get back their frames, but for the one in focus.
    pub open spec fn spread_out(self, windows: Seq<WindowId>, focused: Option<WindowId>) ->
        FloatView
        decreases windows.len(),
    {
        if windows.len() == 0 {
            self
        } else {
            let v = self.spread_out(windows.drop_last(), focused);
            let w = windows.last();
            if Some(w) == focused {
                FloatView { independent: v.independent.remove(w), ..v }
            } else {
                v.taken_back(w)
            }
        }
    }

    pub open spec fn unstacked(self, layout: LayoutId, default: StackDefaultOrientation) ->
        FloatView {
        match self.stack_of_selection(layout) {
            Some(c) => {
                let focused = self.active(layout);
                let v = FloatView {
                    inner: self.inner.unstacked(layout, default),
                    ..self
                }.spread_out(self.members(c), focused);
                match focused {
                    Some(w) => FloatView { inner: v.inner.window_selected(layout, w), ..v },
                    None => v,
                }
            },
            None => self,
        }
    }

    /// Whether a stack is shown with a bar.
    pub open spec fn shows_group(self, layout: LayoutId, n: NodeId, path_only: bool) -> bool {
        let f = self.inner.forest;
        &&& f.is_filled_stack(n)
        &&& path_only ==> f.ancestors(self.inner.selection(layout)).contains(n)
        &&& f.visible(f.remembered_lead(n)->0).len() > 0
        &&& match f.node_for(layout, f.visible(f.remembered_lead(n)->0)[0]) {
            Some(m) => f.coverage(m) is Share,
            None => false,
        }
    }

    pub open spec fn groups(self, layout: LayoutId, path_only: bool) -> Seq<NodeId> {
        self.inner.forest.preorder(self.inner.root(layout)).filter(
            |n: NodeId| self.shows_group(layout, n, path_only),
        )
    }

    /// The windows among the first `upto` of a list that have no frame, each once,
    /// with its place in the list.
    pub open spec fn unframed(self, windows: Seq<WindowId>, upto: int) -> Seq<(usize, WindowId)>
        decreases upto,
    {
        if upto <= 0 {
            Seq::empty()
        } else {
            let rest = self.unframed(windows, upto - 1);
            let w = windows[upto - 1];
            if self.frames.contains_key(w) || windows.take(upto - 1).contains(w) {
                rest
            } else {
                rest.push(((upto - 1) as usize, w))
            }
        }
    }

    /// The windows of a layout that wait for a first frame.
    pub open spec fn frameless(self, layout: LayoutId) -> Seq<(usize, WindowId)> {
        let windows = self.inner.all_windows(layout);
        self.unframed(windows, windows.len() as int)
    }

    /// Frames are given to windows that have none.
    pub open spec fn initialized(self, placed: Seq<(WindowId, Frame)>) -> FloatView
        decreases placed.len(),
    {
        if placed.len() == 0 {
            FloatView { spread: false, ..self }
        } else {
            let v = self.initialized(placed.drop_last());
            let (w, f) = placed.last();
            if v.frames.contains_key(w) {
                v
            } else {
                FloatView { frames: v.frames.insert(w, f), ..v }
            }
        }
    }

    /// The windows of a layout that wait for a first frame get one each, in order.
    pub open spec fn first_framed(self, layout: LayoutId, frames: Seq<Frame>) -> FloatView {
        let waiting = self.frameless(layout);
        self.initialized(Seq::new(waiting.len(), |i: int| (waiting[i].1, frames[i])))
    }
}

} // verus!
