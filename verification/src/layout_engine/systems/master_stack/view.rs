//! Master-stack layouts as mathematical objects, and what each command makes of
//! them.

use vstd::prelude::*;

use crate::actor::{LayoutId, Pid, WindowId};
use crate::common::config::{MasterStackSettings, WindowInsertionPoint};
use crate::layout_engine::systems;
use crate::layout_engine::systems::snapshot::{NodeRole, RoleEntry};
use crate::layout_engine::systems::traditional::view::TraditionalView;
use crate::layout_engine::{Direction, LayoutKind, Orientation};
use crate::model::tree::view::{ForestView, NodeId, Place, SizeChange};

verus! {

/// The tree layouts that hold the areas, and the settings.
pub struct MasterView {
    pub inner: TraditionalView,
    pub settings: MasterStackSettings,
}

/// The last position, below `upto`, of a window other than `keep`; -1 without one.
pub open spec fn last_other(list: Seq<WindowId>, keep: Option<WindowId>, upto: int) -> int
    decreases upto,
{
    if upto <= 0 || upto > list.len() {
        -1
    } else if Some(list[upto - 1]) != keep {
        upto - 1
    } else {
        last_other(list, keep, upto - 1)
    }
}

/// The windows that a stack gives up when `needed` are asked for: those next to
/// the master area, the nearest first.
pub open spec fn supply(stack: Seq<WindowId>, needed: int, master_first: bool) -> Seq<WindowId> {
    let count = if needed < stack.len() {
        needed
    } else {
        stack.len() as int
    };
    if master_first {
        stack.take(count)
    } else {
        stack.skip(stack.len() - count).reverse()
    }
}

/// The windows of a list other than one.
pub open spec fn without(list: Seq<WindowId>, window: WindowId) -> Seq<WindowId> {
    list.filter(|w: WindowId| w != window)
}

/// Two members of a list change places.
pub open spec fn exchanged(list: Seq<WindowId>, i: int, j: int) -> Seq<WindowId> {
    list.update(i, list[j]).update(j, list[i])
}

/// The first position of a window from `from` on; the length without one.
pub open spec fn place_of(list: Seq<WindowId>, window: WindowId, from: int) -> int
    decreases list.len() - from,
{
    if 0 <= from < list.len() {
        if list[from] == window {
            from
        } else {
            place_of(list, window, from + 1)
        }
    } else {
        list.len() as int
    }
}

impl MasterView {
    pub open spec fn with(self, forest: ForestView) -> MasterView {
        MasterView { inner: self.inner.with_forest(forest), ..self }
    }

    pub open spec fn forest(self) -> ForestView {
        self.inner.forest
    }

    // ----- what the settings say -----

    /// The axis along which the areas lie beside each other.
    pub open spec fn root_axis(self) -> Orientation {
        if self.settings.master_side is Left || self.settings.master_side is Right {
            Orientation::Horizontal
        } else {
            Orientation::Vertical
        }
    }

    pub open spec fn container_axis(self) -> Orientation {
        if self.root_axis() is Horizontal {
            Orientation::Vertical
        } else {
            Orientation::Horizontal
        }
    }

    pub open spec fn master_axis(self) -> Orientation {
        match self.settings.master_arrangement {
            Some(axis) => axis,
            None => self.container_axis(),
        }
    }

    pub open spec fn stack_axis(self) -> Orientation {
        match self.settings.stack_arrangement {
            Some(axis) => axis,
            None => self.container_axis(),
        }
    }

    /// The master area comes before the stack.
    pub open spec fn master_first(self) -> bool {
        self.settings.master_side is Left || self.settings.master_side is Top
    }

    /// The direction from the stack to the master area.
    pub open spec fn to_master(self) -> Direction {
        match self.settings.master_side {
            crate::common::config::MasterStackSide::Left => Direction::Left,
            crate::common::config::MasterStackSide::Right => Direction::Right,
            crate::common::config::MasterStackSide::Top => Direction::Up,
            crate::common::config::MasterStackSide::Bottom => Direction::Down,
        }
    }

    // ----- reading the areas -----

    /// The master area and the stack, where the root has two children.
    pub open spec fn areas(self, layout: LayoutId, master_first: bool) -> Option<(NodeId, NodeId)> {
        let kids = self.forest().children(self.inner.root(layout));
        if kids.len() != 2 {
            None
        } else if master_first {
            Some((kids[0], kids[1]))
        } else {
            Some((kids[1], kids[0]))
        }
    }

    pub open spec fn windows_in(self, container: NodeId) -> Seq<WindowId> {
        self.forest().windows_under(container)
    }

    /// The windows of the master area, then those of the stack, if both areas are
    /// containers.
    pub open spec fn ordered(self, layout: LayoutId, master_first: bool) -> Option<Seq<WindowId>> {
        match self.areas(layout, master_first) {
            Some((m, s)) => if self.forest().window(m) is None && self.forest().window(s) is None {
                Some(self.windows_in(m) + self.windows_in(s))
            } else {
                None
            },
            None => None,
        }
    }

    /// The windows of a layout, master area first.
    pub open spec fn listing(self, layout: LayoutId) -> Seq<WindowId> {
        match self.ordered(layout, self.master_first()) {
            Some(windows) => windows,
            None => self.inner.all_windows(layout),
        }
    }

    /// All children of a container are windows.
    pub open spec fn flat(self, container: NodeId) -> bool {
        let kids = self.forest().children(container);
        forall|i: int| 0 <= i < kids.len() ==> self.forest().window(#[trigger] kids[i]) is Some
    }

    /// The root has two containers, which hold windows only.
    pub open spec fn valid(self, layout: LayoutId) -> bool {
        match self.areas(layout, true) {
            Some((a, b)) => {
                &&& self.forest().window(a) is None
                &&& self.forest().window(b) is None
                &&& self.flat(a)
                &&& self.flat(b)
            },
            None => false,
        }
    }

    /// The area that the selected window is in.
    pub open spec fn focused_area(self, layout: LayoutId, master: NodeId, stack: NodeId) -> Option<
        NodeId,
    > {
        match self.inner.selected_window(layout) {
            Some(w) => match self.forest().node_for(layout, w) {
                Some(n) => if self.forest().ancestors(n).contains(master) {
                    Some(master)
                } else if self.forest().ancestors(n).contains(stack) {
                    Some(stack)
                } else {
                    None
                },
                None => None,
            },
            None => None,
        }
    }

    /// The area that a new window enters: a master area that is not full, else
    /// the one that the settings name.
    pub open spec fn target(self, layout: LayoutId, master: NodeId, stack: NodeId) -> NodeId {
        if self.windows_in(master).len() < self.settings.master_count {
            master
        } else if self.settings.new_window_placement is Master {
            master
        } else if self.settings.new_window_placement is Stack {
            stack
        } else {
            match self.focused_area(layout, master, stack) {
                Some(area) => area,
                None => master,
            }
        }
    }

    /// The first window below the child that a container leads to or remembers.
    pub open spec fn area_focus(self, container: NodeId) -> Option<WindowId> {
        match self.forest().remembered_lead(container) {
            Some(c) => {
                let windows = self.forest().windows_under(c);
                if windows.len() > 0 {
                    Some(windows[0])
                } else {
                    None
                }
            },
            None => None,
        }
    }

    // ----- keeping the areas in order -----

    /// The root gets two containers behind its children: the layouts then, the
    /// master area and the stack.
    #[verifier::opaque]
    pub open spec fn with_areas(self, root: NodeId) -> (MasterView, NodeId, NodeId) {
        let f = self.forest().with_kind(root, LayoutKind::along(self.root_axis()));
        let first = f.next_id();
        let g = f.with_new(Place::Last(root));
        let second = g.next_id();
        let h = g.with_new(Place::Last(root));
        let (master, stack) = if self.master_first() {
            (first, second)
        } else {
            (second, first)
        };
        (self.with(h).with_kinds(master, stack), master, stack)
    }

    /// The areas get the kinds that the settings ask for.
    pub open spec fn with_kinds(self, master: NodeId, stack: NodeId) -> MasterView {
        self.with(
            self.forest().with_kind(master, LayoutKind::along(self.master_axis())).with_kind(
                stack,
                LayoutKind::along(self.stack_axis()),
            ),
        )
    }

    /// The areas get the sizes that the settings ask for.
    pub open spec fn rationed(self, root: NodeId, master: NodeId, stack: NodeId) -> MasterView {
        self.with(
            self.forest().noting(
                SizeChange::Rationed {
                    parent: root,
                    master,
                    stack,
                    ratio: self.settings.master_ratio,
                },
            ),
        )
    }

    pub open spec fn selecting(self, n: NodeId) -> MasterView {
        self.with(self.forest().selected(n))
    }

    /// Windows go to the areas in order, until the master area is full.
    pub open spec fn filled(
        self,
        layout: LayoutId,
        windows: Seq<WindowId>,
        master: NodeId,
        stack: NodeId,
        selected: Option<WindowId>,
    ) -> MasterView
        decreases windows.len(),
    {
        if windows.len() == 0 {
            self
        } else {
            let v = self.filled(layout, windows.drop_last(), master, stack, selected);
            let w = windows.last();
            let area = if windows.len() - 1 < self.settings.master_count {
                master
            } else {
                stack
            };
            let put = MasterView { inner: v.inner.window_put(layout, Place::Last(area), w), ..v };
            if Some(w) == selected {
                put.selecting(v.forest().next_id())
            } else {
                put
            }
        }
    }

    /// The layout is made anew from a list of windows.
    #[verifier::opaque]
    pub open spec fn rebuilt_with(self, layout: LayoutId, windows: Seq<WindowId>) -> MasterView {
        let selected = self.inner.selected_window(layout);
        let root = self.inner.root(layout);
        let bare = self.with(self.forest().all_removed(self.forest().children(root)));
        let (v, master, stack) = bare.with_areas(root);
        let full = v.filled(layout, windows, master, stack, selected).rationed(root, master, stack);
        let chosen = match selected {
            Some(w) => MasterView { inner: full.inner.window_selected(layout, w), ..full },
            None => full,
        };
        chosen.enforced(layout, master, stack, None)
    }

    pub open spec fn rebuilt(self, layout: LayoutId) -> MasterView {
        self.rebuilt_with(layout, self.listing(layout))
    }

    /// The layout has a master area and a stack: the layouts then, root, master
    /// area and stack.
    #[verifier::opaque]
    pub open spec fn ensured(self, layout: LayoutId) -> (MasterView, NodeId, NodeId, NodeId) {
        let root = self.inner.root(layout);
        let v = if self.valid(layout) {
            self
        } else {
            self.rebuilt(layout)
        };
        match v.areas(layout, v.master_first()) {
            Some((master, stack)) => (
                v.with(
                    v.forest().with_kind(root, LayoutKind::along(v.root_axis())),
                ).with_kinds(master, stack).rationed(root, master, stack),
                root,
                master,
                stack,
            ),
            None => {
                let (w, master, stack) = v.with_areas(root);
                (w.rationed(root, master, stack), root, master, stack)
            },
        }
    }

    /// Where a window would move to in an area: its node and the place, unless it
    /// is there already or cannot move.
    pub open spec fn slot(
        self,
        layout: LayoutId,
        window: WindowId,
        container: NodeId,
        front: bool,
    ) -> Option<(NodeId, Option<Place>)> {
        let f = self.forest();
        match f.node_for(layout, window) {
            Some(n) => if !f.live(container) || !f.live(n) {
                None
            } else if front {
                match f.first_child(container) {
                    Some(c) => if c == n {
                        Some((n, None))
                    } else {
                        Some((n, Some(Place::Before(c))))
                    },
                    None => Some((n, Some(Place::Last(container)))),
                }
            } else if f.parent(n) == Some(container) {
                Some((n, None))
            } else {
                Some((n, Some(Place::Last(container))))
            },
            None => None,
        }
    }

    /// A window goes to the front or the end of an area, and stays selected if it
    /// was.
    #[verifier::opaque]
    pub open spec fn relocated(
        self,
        layout: LayoutId,
        window: WindowId,
        container: NodeId,
        front: bool,
        selected: Option<WindowId>,
    ) -> MasterView {
        match self.slot(layout, window, container, front) {
            Some((n, place)) => {
                let v = match place {
                    Some(p) => self.with(self.forest().moved(n, p)),
                    None => self,
                };
                if Some(window) == selected {
                    v.selecting(n)
                } else {
                    v
                }
            },
            None => self,
        }
    }

    /// Windows leave a master area that holds too many, the last one first, but
    /// for the one to keep. Also the windows that stay.
    pub open spec fn shed(
        self,
        layout: LayoutId,
        stack: NodeId,
        windows: Seq<WindowId>,
        keep: Option<WindowId>,
        selected: Option<WindowId>,
    ) -> (MasterView, Seq<WindowId>)
        decreases windows.len(),
    {
        let i = last_other(windows, keep, windows.len() as int);
        if windows.len() > self.settings.master_count && 0 <= i < windows.len() {
            self.relocated(layout, windows[i], stack, self.master_first(), selected).shed(
                layout,
                stack,
                windows.remove(i),
                keep,
                selected,
            )
        } else {
            (self, windows)
        }
    }

    /// Windows enter the master area, one after the other.
    pub open spec fn drawn(
        self,
        layout: LayoutId,
        master: NodeId,
        windows: Seq<WindowId>,
        selected: Option<WindowId>,
    ) -> MasterView
        decreases windows.len(),
    {
        if windows.len() == 0 {
            self
        } else {
            self.drawn(layout, master, windows.drop_last(), selected).relocated(
                layout,
                windows.last(),
                master,
                !self.master_first(),
                selected,
            )
        }
    }

    /// The master area holds as many windows as the settings ask for, as far as
    /// there are any. `keep` is the last to leave it.
    #[verifier::opaque]
    pub open spec fn enforced(
        self,
        layout: LayoutId,
        master: NodeId,
        stack: NodeId,
        keep: Option<WindowId>,
    ) -> MasterView {
        let inside = self.windows_in(master);
        let outside = self.windows_in(stack);
        let selected = self.inner.selected_window(layout);
        let first = self.master_first();
        let empty = inside.len() == 0 && outside.len() > 0;
        let lead = if first {
            outside[0]
        } else {
            outside.last()
        };
        let v = if empty {
            self.relocated(layout, lead, master, !first, selected)
        } else {
            self
        };
        let held = if empty {
            seq![lead]
        } else {
            inside
        };
        let rest = if !empty {
            outside
        } else if first {
            outside.drop_first()
        } else {
            outside.drop_last()
        };
        let kept = if self.settings.master_count > 0 {
            keep
        } else {
            None
        };
        let (w, left) = v.shed(layout, stack, held, kept, selected);
        if left.len() < self.settings.master_count {
            w.drawn(
                layout,
                master,
                supply(rest, self.settings.master_count - left.len(), first),
                selected,
            )
        } else {
            w
        }
    }

    #[verifier::opaque]
    pub open spec fn normalized(self, layout: LayoutId) -> MasterView {
        let (v, _, master, stack) = self.ensured(layout);
        v.enforced(layout, master, stack, None)
    }

    pub open spec fn normalized_keeping(self, layout: LayoutId, windows: Seq<WindowId>) ->
        MasterView {
        if self.valid(layout) {
            self.normalized(layout)
        } else {
            self.rebuilt_with(layout, windows)
        }
    }

    pub open spec fn all_normalized(self, layouts: Seq<LayoutId>) -> MasterView
        decreases layouts.len(),
    {
        if layouts.len() == 0 {
            self
        } else {
            self.all_normalized(layouts.drop_last()).normalized(layouts.last())
        }
    }

    // ----- commands -----

    /// All layouts follow new settings. The old ones say where the master area was.
    pub open spec fn all_renewed(self, layouts: Seq<LayoutId>, old_master_first: bool) -> MasterView
        decreases layouts.len(),
    {
        if layouts.len() == 0 {
            self
        } else {
            let v = self.all_renewed(layouts.drop_last(), old_master_first);
            match v.ordered(layouts.last(), old_master_first) {
                Some(windows) => v.rebuilt_with(layouts.last(), windows),
                None => v.rebuilt(layouts.last()),
            }
        }
    }

    /// Whether a list names every layout once.
    pub open spec fn lists_layouts(self, layouts: Seq<LayoutId>) -> bool {
        &&& layouts.no_duplicates()
        &&& forall|l: LayoutId| layouts.contains(l) <==> self.inner.has(l)
    }

    /// Where a new window is put in an area.
    pub open spec fn entry(self, layout: LayoutId, container: NodeId) -> Place {
        let f = self.forest();
        match self.settings.base.window_insertion_point {
            Some(WindowInsertionPoint::NextToSelection) => {
                let n = self.inner.selection(layout);
                if f.parent(n) == Some(container) {
                    Place::After(n)
                } else {
                    Place::Last(container)
                }
            },
            Some(WindowInsertionPoint::EndOfTree) => Place::Last(container),
            None => match f.first_child(container) {
                Some(c) => Place::Before(c),
                None => Place::Last(container),
            },
        }
    }

    /// A window moves to the end of the container that it is in, selected.
    pub open spec fn sent_to_end(self, layout: LayoutId, window: WindowId) -> MasterView {
        match self.forest().node_for(layout, window) {
            Some(n) => match self.forest().parent(n) {
                Some(p) => self.with(self.forest().moved(n, Place::Last(p))).selecting(n),
                None => self,
            },
            None => self,
        }
    }

    /// The areas are put in order after a window has entered one.
    #[verifier::opaque]
    pub open spec fn settled(
        self,
        layout: LayoutId,
        master: NodeId,
        stack: NodeId,
        target: NodeId,
        window: WindowId,
    ) -> MasterView {
        match self.settings.base.window_insertion_point {
            Some(WindowInsertionPoint::NextToSelection) => self.enforced(
                layout,
                master,
                stack,
                if target == master {
                    Some(window)
                } else {
                    None
                },
            ),
            Some(WindowInsertionPoint::EndOfTree) => self.enforced(
                layout,
                master,
                stack,
                None,
            ).sent_to_end(layout, window),
            None => self.enforced(layout, master, stack, None),
        }
    }

    /// A new window enters a layout.
    #[verifier::opaque]
    pub open spec fn window_added(self, layout: LayoutId, window: WindowId) -> MasterView {
        let (v, _, master, stack) = self.ensured(layout);
        let target = v.target(layout, master, stack);
        let put = MasterView {
            inner: v.inner.window_put(layout, v.entry(layout, target), window),
            ..v
        };
        put.selecting(v.forest().next_id()).settled(layout, master, stack, target, window)
    }

    /// Whether a new window leaves something that can make room for it: not
    /// every window of a full master area is the new one itself.
    pub open spec fn has_room(self, layout: LayoutId, window: WindowId) -> bool {
        let (v, _, master, stack) = self.ensured(layout);
        ||| self.settings.base.window_insertion_point != Some(WindowInsertionPoint::NextToSelection)
        ||| v.target(layout, master, stack) != master
        ||| v.windows_in(master).filter(|w: WindowId| w == window).len()
            < self.settings.master_count
        ||| self.settings.master_count == 0
    }

    pub open spec fn windows_added(self, layout: LayoutId, windows: Seq<WindowId>) -> MasterView
        decreases windows.len(),
    {
        if windows.len() == 0 {
            self
        } else {
            self.windows_added(layout, windows.drop_last()).window_added(layout, windows.last())
        }
    }

    /// The layouts that hold a window, and their windows in order.
    pub open spec fn holders(self, window: WindowId) -> Seq<LayoutId> {
        self.inner.layouts_for(window).filter(|l: LayoutId| self.inner.has(l))
    }

    /// The layouts are put in order after a window has left them. `before` is
    /// what they were.
    pub open spec fn all_closed_up(
        self,
        before: MasterView,
        layouts: Seq<LayoutId>,
        window: WindowId,
    ) -> MasterView
        decreases layouts.len(),
    {
        if layouts.len() == 0 {
            self
        } else {
            self.all_closed_up(before, layouts.drop_last(), window).normalized_keeping(
                layouts.last(),
                without(before.listing(layouts.last()), window),
            )
        }
    }

    pub open spec fn window_removed(self, window: WindowId) -> MasterView {
        self.with(self.forest().window_removed(window)).all_closed_up(
            self,
            self.holders(window),
            window,
        )
    }

    /// A layout holds the windows that a process has.
    pub open spec fn app_set(self, layout: LayoutId, pid: Pid, desired: Seq<WindowId>) ->
        MasterView {
        let (v, _, master, stack) = self.ensured(layout);
        let current = v.inner.app_windows(layout, pid);
        MasterView {
            inner: v.inner.windows_dismissed(layout, systems::missing_from(current, desired)),
            ..v
        }.windows_added(layout, systems::newcomers(pid, current, desired)).enforced(
            layout,
            master,
            stack,
            None,
        )
    }

    /// The focused window becomes the first master window.
    pub open spec fn promoted(self, layout: LayoutId) -> MasterView {
        let v = self.ensured(layout).0;
        match v.inner.selected_window(layout) {
            Some(w) => {
                let windows = v.listing(layout);
                let i = place_of(windows, w, 0);
                if 0 < i < windows.len() {
                    v.rebuilt_with(layout, windows.remove(i).insert(0, w))
                } else {
                    v
                }
            },
            None => v,
        }
    }

    /// The focused windows of the two areas change places.
    pub open spec fn areas_swapped(self, layout: LayoutId) -> MasterView {
        let (v, _, master, stack) = self.ensured(layout);
        match (v.area_focus(master), v.area_focus(stack)) {
            (Some(a), Some(b)) => {
                let windows = v.listing(layout);
                let i = place_of(windows, a, 0);
                let j = place_of(windows, b, 0);
                if i < windows.len() && j < windows.len() {
                    v.rebuilt_with(layout, exchanged(windows, i, j))
                } else {
                    v
                }
            },
            _ => v,
        }
    }

    /// The place of the selected window among the windows of a layout.
    pub open spec fn focus_place(self, layout: LayoutId) -> Option<int> {
        match self.inner.selected_window(layout) {
            Some(w) => {
                let i = place_of(self.listing(layout), w, 0);
                if i < self.listing(layout).len() {
                    Some(i)
                } else {
                    None
                }
            },
            None => None,
        }
    }

    /// The window at place `i` lies at the edge of its area that faces the other.
    pub open spec fn at_border(self, layout: LayoutId, i: int, direction: Direction) -> bool {
        let count = self.settings.master_count as int;
        let in_master = i < count;
        let axis = if in_master {
            self.master_axis()
        } else {
            self.stack_axis()
        };
        let edge = if in_master {
            if self.master_first() {
                count - 1
            } else {
                0
            }
        } else if self.master_first() {
            count
        } else {
            self.listing(layout).len() - 1
        };
        direction.axis() != axis || i == edge
    }

    /// The order of the windows after the one at place `i` has moved in a
    /// direction, if it can.
    pub open spec fn order_after(self, layout: LayoutId, i: int, direction: Direction) -> Option<
        Seq<WindowId>,
    > {
        let windows = self.listing(layout);
        let count = self.settings.master_count as int;
        let in_master = i < count;
        let axis = if in_master {
            self.master_axis()
        } else {
            self.stack_axis()
        };
        if direction == self.to_master() && !in_master && self.at_border(layout, i, direction) {
            Some(
                exchanged(
                    windows,
                    i,
                    if self.master_first() {
                        count - 1
                    } else {
                        0
                    },
                ),
            )
        } else if direction == self.to_master().reversed() && in_master && self.at_border(
            layout,
            i,
            direction,
        ) {
            if windows.len() > count {
                Some(
                    exchanged(
                        windows,
                        i,
                        if self.master_first() {
                            count
                        } else {
                            windows.len() - 1
                        },
                    ),
                )
            } else {
                Some(windows.remove(i).push(windows[i]))
            }
        } else if direction.axis() != axis {
            None
        } else if direction.is_forward() {
            if i + 1 < (if in_master {
                count
            } else {
                windows.len() as int
            }) {
                Some(exchanged(windows, i, i + 1))
            } else {
                None
            }
        } else {
            if i > (if in_master {
                0
            } else {
                count
            }) {
                Some(exchanged(windows, i, i - 1))
            } else {
                None
            }
        }
    }

    /// Whether both windows that a move would exchange exist: there is a master
    /// area to go to, and a next window in it.
    pub open spec fn order_exists(self, layout: LayoutId, i: int, direction: Direction) -> bool {
        let windows = self.listing(layout);
        let count = self.settings.master_count as int;
        let in_master = i < count;
        if direction == self.to_master() && !in_master && self.at_border(layout, i, direction) {
            !self.master_first() || count > 0
        } else if direction == self.to_master().reversed() && in_master && self.at_border(
            layout,
            i,
            direction,
        ) {
            true
        } else {
            in_master && direction.is_forward() && direction.axis() == self.master_axis() && i + 1
                < count ==> i + 1 < windows.len()
        }
    }

    pub open spec fn shift_exists(self, layout: LayoutId, direction: Direction) -> bool {
        let v = self.ensured(layout).0;
        match v.focus_place(layout) {
            Some(i) => v.order_exists(layout, i, direction),
            None => true,
        }
    }

    pub open spec fn can_shift(self, layout: LayoutId, direction: Direction) -> bool {
        let v = self.ensured(layout).0;
        match v.focus_place(layout) {
            Some(i) => v.order_after(layout, i, direction) is Some,
            None => false,
        }
    }

    /// The selected window moves in a direction.
    pub open spec fn selection_moved(self, layout: LayoutId, direction: Direction) -> MasterView {
        let v = self.ensured(layout).0;
        match v.focus_place(layout) {
            Some(i) => match v.order_after(layout, i, direction) {
                Some(windows) => v.rebuilt_with(layout, windows),
                None => v,
            },
            None => v,
        }
    }

    /// The node that fills the screen: the master area alone if the stack shows
    /// nothing, else the root.
    pub open spec fn drawn_node(self, layout: LayoutId) -> NodeId {
        match self.areas(layout, self.master_first()) {
            Some((master, stack)) => if self.forest().window(master) is None
                && self.forest().window(stack) is None && self.forest().visible(stack).len() == 0 {
                master
            } else {
                self.inner.root(layout)
            },
            None => self.inner.root(layout),
        }
    }

    /// The containers with their roles, where the root has two children.
    pub open spec fn roles(self, layout: LayoutId) -> Seq<RoleEntry> {
        match self.areas(layout, self.master_first()) {
            Some((master, stack)) => seq![
                RoleEntry { node: master, role: NodeRole::Master },
                RoleEntry { node: stack, role: NodeRole::Stack },
            ],
            None => Seq::empty(),
        }
    }
}

} // verus!
