//! The table of strips and the commands on it.

use vstd::prelude::*;

use crate::actor::{LayoutId, Pid, WindowId};
use crate::common::config::{
    ScrollingAlignment, ScrollingFocusNavigationStyle, ScrollingLayoutSettings,
    StackDefaultOrientation, WindowInsertionPoint,
};
use crate::common::config;
use crate::layout_engine::systems::LayoutSystem;
use crate::layout_engine::systems::scrolling::state::{window_node_id, LayoutState};
use crate::layout_engine::systems::scrolling::table::StripTable;
use crate::layout_engine::systems::scrolling::table;
use crate::layout_engine::systems::scrolling::view::{Anchor, ResizePlan, StripView};
use crate::layout_engine::systems::scrolling::view;
use crate::layout_engine::systems::snapshot::{NodeRole, TreeSnapshot};
use crate::layout_engine::{Direction, LayoutKind, ResizeOrientation};

verus! {

/// All strips and the settings.
pub struct ScrollingView {
    pub strips: Map<LayoutId, StripView>,
    pub settings: ScrollingLayoutSettings,
}

impl ScrollingView {
    pub open spec fn has(self, layout: LayoutId) -> bool {
        self.strips.contains_key(layout)
    }

    /// Whether the strip scrolls no further than it has to.
    pub open spec fn niri(self) -> bool {
        self.settings.focus_navigation_style is Niri
    }

    /// Where new windows go.
    pub open spec fn point(self) -> WindowInsertionPoint {
        match self.settings.base.window_insertion_point {
            Some(point) => point,
            None => WindowInsertionPoint::NextToSelection,
        }
    }

    /// One strip changes; nothing happens where there is no such strip.
    pub open spec fn on(
        self,
        layout: LayoutId,
        change: spec_fn(StripView) -> StripView,
    ) -> ScrollingView {
        if self.has(layout) {
            ScrollingView {
                strips: self.strips.insert(layout, change(self.strips[layout])),
                ..self
            }
        } else {
            self
        }
    }

    /// All strips change.
    pub open spec fn everywhere(self, change: spec_fn(StripView) -> StripView) -> ScrollingView {
        ScrollingView { strips: self.strips.map_values(change), ..self }
    }
}

/// Whether a picture of a node is that of a window in a strip.
pub open spec fn shows_window(picture: TreeSnapshot, strip: StripView, window: WindowId) -> bool {
    &&& picture.node_id == view::window_node(window)
    &&& picture.window_id == Some(window)
    &&& picture.layout_kind is None
    &&& picture.is_selected == (strip.selected == Some(window))
    &&& picture.is_fullscreen == strip.fullscreen.contains(window)
    &&& picture.is_fullscreen_within_gaps == strip.fullscreen_within_gaps.contains(window)
    &&& picture.role is None
    &&& picture.children@.len() == 0
}

/// Whether a picture of a node is that of a column.
pub open spec fn shows_column(picture: TreeSnapshot, strip: StripView, c: int) -> bool {
    let column = strip.columns[c];
    &&& picture.node_id == column.stable_node()
    &&& picture.window_id is None
    &&& picture.layout_kind == Some(LayoutKind::Vertical)
    &&& !picture.is_selected && !picture.is_fullscreen && !picture.is_fullscreen_within_gaps
    &&& picture.role == Some(NodeRole::Column)
    &&& picture.children@.len() == column.windows.len()
    &&& forall|i: int|
        0 <= i < column.windows.len() ==> shows_window(
            #[trigger] picture.children@[i],
            strip,
            column.windows[i],
        )
}

/// Whether a picture of a node is that of a whole strip.
pub open spec fn shows_strip(picture: TreeSnapshot, strip: StripView) -> bool {
    &&& picture.node_id == 0
    &&& picture.window_id is None
    &&& picture.layout_kind == Some(LayoutKind::Horizontal)
    &&& !picture.is_selected && !picture.is_fullscreen && !picture.is_fullscreen_within_gaps
    &&& picture.role is None
    &&& picture.children@.len() == strip.columns.len()
    &&& forall|c: int|
        0 <= c < strip.columns.len() ==> shows_column(
            #[trigger] picture.children@[c],
            strip,
            c,
        )
}

/// What the settings say when nothing is set.
pub fn default_scrolling_settings() -> (r: ScrollingLayoutSettings)
    ensures
        r == config::stock_scrolling_settings(),
{
    ScrollingLayoutSettings::default()
}

/// Where the selected column comes to rest.
pub fn anchor_for(
    settings: &ScrollingLayoutSettings,
    count: usize,
    selected: usize,
    centered: bool,
) -> (r: Anchor)
    ensures
        r == view::anchor_for(*settings, count as nat, selected as int, centered),
{
    let niri = match settings.focus_navigation_style {
        ScrollingFocusNavigationStyle::Niri => true,
        ScrollingFocusNavigationStyle::Anchored => false,
    };
    if niri && !centered {
        return Anchor::Left;
    }
    let edges = !niri && !centered && count > 1;
    let first = edges && selected == 0;
    let last = edges && selected == count - 1;
    match settings.alignment {
        ScrollingAlignment::Left => if last {
            Anchor::Right
        } else {
            Anchor::Left
        },
        ScrollingAlignment::Center => if first {
            Anchor::Left
        } else if last {
            Anchor::Right
        } else {
            Anchor::Center
        },
        ScrollingAlignment::Right => if first {
            Anchor::Left
        } else {
            Anchor::Right
        },
    }
}

/// Layouts as strips.
pub struct ScrollingLayoutSystem {
    layouts: StripTable,
    settings: ScrollingLayoutSettings,
}

impl View for ScrollingLayoutSystem {
    type V = ScrollingView;

    closed spec fn view(&self) -> ScrollingView {
        ScrollingView {
            strips: table::strips_in(self.layouts).map_values(|s: LayoutState| s@),
            settings: self.settings,
        }
    }
}

impl Default for ScrollingLayoutSystem {
    fn default() -> (r: ScrollingLayoutSystem)
        ensures
            r.wf(),
            r@ == (ScrollingView {
                strips: Map::empty(),
                settings: config::stock_scrolling_settings(),
            }),
    {
        let settings = ScrollingLayoutSettings::default();
        ScrollingLayoutSystem::new(&settings)
    }
}

impl ScrollingLayoutSystem {
    pub closed spec fn wf(&self) -> bool {
        &&& table::strips_in(self.layouts).dom().finite()
        &&& forall|l: LayoutId| #[trigger]
            table::strips_in(self.layouts).contains_key(l) ==> l.issued() && table::strips_in(
                self.layouts,
            )[l].wf()
    }

    pub fn new(settings: &ScrollingLayoutSettings) -> (r: ScrollingLayoutSystem)
        ensures
            r.wf(),
            r@ == (ScrollingView { strips: Map::empty(), settings: *settings }),
    {
        let r = ScrollingLayoutSystem { layouts: StripTable::new(), settings: *settings };
        assert(r@.strips =~= Map::empty());
        r
    }

    pub fn update_settings(&mut self, settings: &ScrollingLayoutSettings)
        requires
            old(self).wf(),
        ensures
            final(self).wf(),
            final(self)@ == (ScrollingView { settings: *settings, ..old(self)@ }),
    {
        self.settings = *settings;
    }

    pub fn settings(&self) -> (r: ScrollingLayoutSettings)
        ensures
            r == self@.settings,
    {
        self.settings
    }

    fn niri(&self) -> (r: bool)
        ensures
            r == self@.niri(),
    {
        match self.settings.focus_navigation_style {
            ScrollingFocusNavigationStyle::Niri => true,
            ScrollingFocusNavigationStyle::Anchored => false,
        }
    }

    fn point(&self) -> (r: WindowInsertionPoint)
        ensures
            r == self@.point(),
    {
        match self.settings.base.window_insertion_point {
            Some(point) => point,
            None => WindowInsertionPoint::NextToSelection,
        }
    }

    /// The strip of a layout.
    pub fn layout_state(&self, layout: LayoutId) -> (r: Option<&LayoutState>)
        requires
            self.wf(),
        ensures
            r is Some <==> self@.has(layout),
            r is Some ==> (r->0)@ == self@.strips[layout] && (r->0).wf(),
    {
        if layout.is_issued() {
            self.layouts.get(layout)
        } else {
            None
        }
    }

    /// The strip of a layout, to be changed in place.
    fn layout_state_mut(&mut self, layout: LayoutId) -> (r: Option<&mut LayoutState>)
        requires
            old(self).wf(),
        ensures
            r is Some <==> old(self)@.has(layout),
            r is None ==> final(self)@ == old(self)@ && final(self).wf(),
            r is Some ==> (*(r->0))@ == old(self)@.strips[layout] && (*(r->0)).wf(),
            r is Some ==> final(self)@.settings == old(self)@.settings,
            r is Some ==> final(self)@.strips == old(self)@.strips.insert(
                layout,
                (*final(r->0))@,
            ),
            r is Some ==> ((*final(r->0)).wf() ==> final(self).wf()),
    {
        if layout.is_issued() {
            let ghost prior = table::strips_in(self.layouts);
            let r = self.layouts.get_mut(layout);
            proof {
                if r is Some {
                    assert(prior.insert(layout, *final(r->0)).map_values(
                        |s: LayoutState| s@,
                    ) =~= prior.map_values(|s: LayoutState| s@).insert(layout, (*final(r->0))@));
                }
            }
            r
        } else {
            None
        }
    }

    /// How many layouts there are.
    pub fn layout_count(&self) -> (r: usize)
        ensures
            r == self@.strips.dom().len(),
    {
        assert(self@.strips.dom() =~= table::strips_in(self.layouts).dom());
        self.layouts.len()
    }

    pub fn create_layout(&mut self) -> (r: LayoutId)
        requires
            old(self).wf(),
            old(self)@.strips.dom().len() < 4294967294,
        ensures
            final(self).wf(),
            !old(self)@.has(r),
            final(self)@ == (ScrollingView {
                strips: old(self)@.strips.insert(
                    r,
                    StripView::empty(old(self)@.settings.column_width_ratio),
                ),
                ..old(self)@
            }),
    {
        let strip = LayoutState::new(self.settings.column_width_ratio);
        self.insert(strip)
    }

    fn insert(&mut self, strip: LayoutState) -> (r: LayoutId)
        requires
            old(self).wf(),
            strip.wf(),
            old(self)@.strips.dom().len() < 4294967294,
        ensures
            final(self).wf(),
            !old(self)@.has(r),
            final(self)@ == (ScrollingView {
                strips: old(self)@.strips.insert(r, strip@),
                ..old(self)@
            }),
    {
        assert(self@.strips.dom() =~= table::strips_in(self.layouts).dom());
        let r = self.layouts.insert(strip);
        assert(self@.strips =~= old(self)@.strips.insert(r, strip@));
        r
    }

    pub fn contains_layout(&self, layout: LayoutId) -> (r: bool)
        requires
            self.wf(),
        ensures
            r == self@.has(layout),
    {
        self.layout_state(layout).is_some()
    }

    /// A copy of a layout; a new one where there is none to copy.
    pub fn clone_layout(&mut self, layout: LayoutId) -> (r: LayoutId)
        requires
            old(self).wf(),
            old(self)@.strips.dom().len() < 4294967294,
        ensures
            final(self).wf(),
            !old(self)@.has(r),
            final(self)@ == (ScrollingView {
                strips: old(self)@.strips.insert(
                    r,
                    if old(self)@.has(layout) {
                        old(self)@.strips[layout]
                    } else {
                        StripView::empty(old(self)@.settings.column_width_ratio)
                    },
                ),
                ..old(self)@
            }),
    {
        let strip = match self.layout_state(layout) {
            Some(state) => state.copy(),
            None => LayoutState::new(self.settings.column_width_ratio),
        };
        self.insert(strip)
    }

    pub fn remove_layout(&mut self, layout: LayoutId)
        requires
            old(self).wf(),
        ensures
            final(self).wf(),
            final(self)@ == (ScrollingView {
                strips: old(self)@.strips.remove(layout),
                ..old(self)@
            }),
    {
        if layout.is_issued() {
            self.layouts.remove(layout);
        }
        assert(self@.strips =~= old(self)@.strips.remove(layout));
    }

    /// The selection, or the first window without one.
    pub fn selected_window(&self, layout: LayoutId) -> (r: Option<WindowId>)
        requires
            self.wf(),
        ensures
            r == (if self@.has(layout) {
                self@.strips[layout].selected_or_first()
            } else {
                None
            }),
    {
        match self.layout_state(layout) {
            Some(state) => state.selected_or_first(),
            None => None,
        }
    }

    /// The windows, column by column.
    pub fn all_windows_in_layout(&self, layout: LayoutId) -> (r: Vec<WindowId>)
        requires
            self.wf(),
        ensures
            r@ == (if self@.has(layout) {
                self@.strips[layout].all_windows()
            } else {
                Seq::empty()
            }),
    {
        match self.layout_state(layout) {
            Some(state) => state.all_windows(),
            None => Vec::new(),
        }
    }

    /// All windows count as visible.
    pub fn visible_windows_in_layout(&self, layout: LayoutId) -> (r: Vec<WindowId>)
        requires
            self.wf(),
        ensures
            r@ == (if self@.has(layout) {
                self@.strips[layout].all_windows()
            } else {
                Seq::empty()
            }),
    {
        match self.layout_state(layout) {
            Some(state) => state.all_windows(),
            None => Vec::new(),
        }
    }

    /// The windows in the column of the selection.
    pub fn visible_windows_under_selection(&self, layout: LayoutId) -> (r: Vec<WindowId>)
        requires
            self.wf(),
        ensures
            r@ == (if self@.has(layout) {
                self@.strips[layout].selected_column()
            } else {
                Seq::empty()
            }),
    {
        match self.layout_state(layout) {
            Some(state) => state.selected_column(),
            None => Vec::new(),
        }
    }

    /// The window that focus would move to.
    pub fn window_in_direction(&self, layout: LayoutId, direction: Direction) -> (r: Option<WindowId>)
        requires
            self.wf(),
        ensures
            r == (if self@.has(layout) {
                self@.strips[layout].neighbour(direction)
            } else {
                None
            }),
    {
        match self.layout_state(layout) {
            Some(state) => state.neighbour(direction),
            None => None,
        }
    }

    pub fn contains_window(&self, layout: LayoutId, wid: WindowId) -> (r: bool)
        requires
            self.wf(),
        ensures
            r == (if self@.has(layout) {
                self@.strips[layout].locate(wid) is Some
            } else {
                false
            }),
    {
        match self.layout_state(layout) {
            Some(state) => state.locate(wid).is_some(),
            None => false,
        }
    }

    /// Whether the selection shares its column.
    pub fn parent_of_selection_is_stacked(&self, layout: LayoutId) -> (r: bool)
        requires
            self.wf(),
        ensures
            r == (if self@.has(layout) {
                self@.strips[layout].selection_is_joined()
            } else {
                false
            }),
    {
        match self.layout_state(layout) {
            Some(state) => state.selection_is_joined(),
            None => false,
        }
    }

    /// What a resize command changes.
    pub fn resize_plan(&self, layout: LayoutId, orientation: ResizeOrientation) -> (r: ResizePlan)
        requires
            self.wf(),
        ensures
            r == (if self@.has(layout) {
                self@.strips[layout].resize_plan(orientation)
            } else {
                ResizePlan::Nothing
            }),
    {
        match self.layout_state(layout) {
            Some(state) => state.resize_plan(orientation),
            None => ResizePlan::Nothing,
        }
    }

    /// A picture of a strip: columns from left to right, windows from top to bottom.
    pub fn container_tree(&self, layout: LayoutId) -> (r: TreeSnapshot)
        requires
            self.wf(),
            self@.has(layout),
        ensures
            shows_strip(r, self@.strips[layout]),
    {
        let state = self.layout_state(layout).unwrap();
        let mut children: Vec<TreeSnapshot> = Vec::new();
        let mut c: usize = 0;
        while c < state.column_count()
            invariant
                c <= state@.columns.len(),
                children@.len() == c,
                forall|j: int|
                    0 <= j < c ==> shows_column(#[trigger] children@[j], state@, j),
            decreases state@.columns.len() - c,
        {
            children.push(column_picture(state, c));
            c += 1;
        }
        TreeSnapshot {
            node_id: 0,
            layout_kind: Some(LayoutKind::Horizontal),
            window_id: None,
            is_selected: false,
            is_fullscreen: false,
            is_fullscreen_within_gaps: false,
            role: None,
            children,
        }
    }

    pub fn has_any_fullscreen_node(&self, layout: LayoutId) -> (r: bool)
        requires
            self.wf(),
        ensures
            r == (self@.has(layout) && (self@.strips[layout].fullscreen != Set::<WindowId>::empty()
                || self@.strips[layout].fullscreen_within_gaps != Set::<WindowId>::empty())),
    {
        match self.layout_state(layout) {
            Some(state) => state.has_any_fullscreen(),
            None => false,
        }
    }

    /// Centres the selected column, or goes back to aligning it.
    pub fn center_selected_column(&mut self, layout: LayoutId)
        requires
            old(self).wf(),
        ensures
            final(self).wf(),
            final(self)@ == old(self)@.on(
                layout,
                |s: StripView| s.centering(),
            ),
    {
        match self.layout_state_mut(layout) {
            Some(state) => {
                state.request_center_on_selected();
            },
            None => {},
        }
        assert(self@.strips =~= old(self)@.on(layout, |s: StripView| s.centering()).strips);
    }

    /// Selects the window above. Says whether there is one.
    pub fn ascend_selection(&mut self, layout: LayoutId) -> (r: bool)
        requires
            old(self).wf(),
        ensures
            final(self).wf(),
            r == (old(self)@.has(layout) && old(self)@.strips[layout].neighbour(Direction::Up) is Some),
            final(self)@ == old(self)@.on(
                layout,
                |s: StripView| s.selecting(s.neighbour(Direction::Up)),
            ),
    {
        let r = match self.layout_state_mut(layout) {
            Some(state) => state.step_vertically(Direction::Up).is_some(),
            None => false,
        };
        assert(self@.strips =~= old(self)@.on(layout, |s: StripView| s.selecting(s.neighbour(Direction::Up))).strips);
        r
    }

    /// Selects the window below. Says whether there is one.
    pub fn descend_selection(&mut self, layout: LayoutId) -> (r: bool)
        requires
            old(self).wf(),
        ensures
            final(self).wf(),
            r == (old(self)@.has(layout) && old(self)@.strips[layout].neighbour(Direction::Down) is Some),
            final(self)@ == old(self)@.on(
                layout,
                |s: StripView| s.selecting(s.neighbour(Direction::Down)),
            ),
    {
        let r = match self.layout_state_mut(layout) {
            Some(state) => state.step_vertically(Direction::Down).is_some(),
            None => false,
        };
        assert(self@.strips =~= old(self)@.on(layout, |s: StripView| s.selecting(s.neighbour(Direction::Down))).strips);
        r
    }

    /// Gives a window a column of its own.
    pub fn add_window_after_selection(&mut self, layout: LayoutId, wid: WindowId)
        requires
            old(self).wf(),
        ensures
            final(self).wf(),
            final(self)@ == old(self)@.on(
                layout,
                |s: StripView| s.entered(wid, old(self)@.point(), old(self)@.niri()),
            ),
    {
        let niri = self.niri();
        let point = self.point();
        match self.layout_state_mut(layout) {
            Some(state) => {
                state.add_window(wid, point, niri);
            },
            None => {},
        }
        assert(self@.strips =~= old(self)@.on(layout, |s: StripView| s.entered(wid, old(self)@.point(), old(self)@.niri())).strips);
    }

    /// Makes a strip hold the windows that a process has.
    pub fn set_windows_for_app(&mut self, layout: LayoutId, pid: Pid, desired: Vec<WindowId>)
        requires
            old(self).wf(),
        ensures
            final(self).wf(),
            final(self)@ == old(self)@.on(
                layout,
                |s: StripView| s.app_set(pid, desired@, old(self)@.point(), old(self)@.niri()),
            ),
    {
        let niri = self.niri();
        let point = self.point();
        match self.layout_state_mut(layout) {
            Some(state) => {
                state.set_windows_for_app(pid, desired, point, niri);
            },
            None => {},
        }
        assert(self@.strips =~= old(self)@.on(layout, |s: StripView| s.app_set(pid, desired@, old(self)@.point(), old(self)@.niri())).strips);
    }

    /// Selects a window. Says whether it is there.
    pub fn select_window(&mut self, layout: LayoutId, wid: WindowId) -> (r: bool)
        requires
            old(self).wf(),
        ensures
            final(self).wf(),
            r == (old(self)@.has(layout) && old(self)@.strips[layout].locate(wid) is Some),
            final(self)@ == old(self)@.on(
                layout,
                |s: StripView| s.window_selected(wid, old(self)@.niri()),
            ),
    {
        let niri = self.niri();
        let r = match self.layout_state_mut(layout) {
            Some(state) => state.select_window(wid, niri),
            None => false,
        };
        assert(self@.strips =~= old(self)@.on(layout, |s: StripView| s.window_selected(wid, old(self)@.niri())).strips);
        r
    }

    /// Two windows change places. Says whether both are there.
    pub fn swap_windows(&mut self, layout: LayoutId, a: WindowId, b: WindowId) -> (r: bool)
        requires
            old(self).wf(),
        ensures
            final(self).wf(),
            r == (old(self)@.has(layout) && old(self)@.strips[layout].can_swap(a, b)),
            final(self)@ == old(self)@.on(
                layout,
                |s: StripView| s.with_swapped(a, b),
            ),
    {
        let r = match self.layout_state_mut(layout) {
            Some(state) => state.swap_windows(a, b),
            None => false,
        };
        assert(self@.strips =~= old(self)@.on(layout, |s: StripView| s.with_swapped(a, b)).strips);
        r
    }

    /// Moves the selection. Says whether it could move.
    pub fn move_selection(&mut self, layout: LayoutId, direction: Direction) -> (r: bool)
        requires
            old(self).wf(),
        ensures
            final(self).wf(),
            r == (old(self)@.has(layout) && old(self)@.strips[layout].can_shift(direction)),
            final(self)@ == old(self)@.on(
                layout,
                |s: StripView| s.selection_moved(direction, old(self)@.niri()),
            ),
    {
        let niri = self.niri();
        let r = match self.layout_state_mut(layout) {
            Some(state) => state.move_selection(direction, niri),
            None => false,
        };
        assert(self@.strips =~= old(self)@.on(layout, |s: StripView| s.selection_moved(direction, old(self)@.niri())).strips);
        r
    }

    /// Moves the selection into the column next to it.
    pub fn join_selection_with_direction(&mut self, layout: LayoutId, direction: Direction)
        requires
            old(self).wf(),
        ensures
            final(self).wf(),
            final(self)@ == old(self)@.on(
                layout,
                |s: StripView| s.joined(direction),
            ),
    {
        match self.layout_state_mut(layout) {
            Some(state) => {
                state.join_selection(direction);
            },
            None => {},
        }
        assert(self@.strips =~= old(self)@.on(layout, |s: StripView| s.joined(direction)).strips);
    }

    /// Takes a selection that shares its column out of it, else joins it.
    pub fn consume_or_expel_selection(&mut self, layout: LayoutId, direction: Direction)
        requires
            old(self).wf(),
        ensures
            final(self).wf(),
            final(self)@ == old(self)@.on(
                layout,
                |s: StripView| s.consumed_or_expelled(direction, old(self)@.niri()),
            ),
    {
        let niri = self.niri();
        match self.layout_state_mut(layout) {
            Some(state) => {
                state.consume_or_expel(direction, niri);
            },
            None => {},
        }
        assert(self@.strips =~= old(self)@.on(layout, |s: StripView| s.consumed_or_expelled(direction, old(self)@.niri())).strips);
    }

    /// Takes a selection that shares its column out of it.
    pub fn unjoin_selection(&mut self, layout: LayoutId)
        requires
            old(self).wf(),
        ensures
            final(self).wf(),
            final(self)@ == old(self)@.on(
                layout,
                |s: StripView| s.unjoined(old(self)@.niri()),
            ),
    {
        let niri = self.niri();
        match self.layout_state_mut(layout) {
            Some(state) => {
                state.unjoin_selection(niri);
            },
            None => {},
        }
        assert(self@.strips =~= old(self)@.on(layout, |s: StripView| s.unjoined(old(self)@.niri())).strips);
    }

    /// Moves a neighbouring column into that of the selection.
    pub fn apply_stacking_to_parent_of_selection(
        &mut self,
        layout: LayoutId,
        _default_orientation: StackDefaultOrientation,
    ) -> (r: Vec<WindowId>)
        requires
            old(self).wf(),
        ensures
            final(self).wf(),
            r@ == (if old(self)@.has(layout) {
                old(self)@.strips[layout].stacking_moves()
            } else {
                Seq::empty()
            }),
            final(self)@ == old(self)@.on(
                layout,
                |s: StripView| s.stacked(),
            ),
    {
        let r = match self.layout_state_mut(layout) {
            Some(state) => state.stack_neighbour(),
            None => Vec::new(),
        };
        assert(self@.strips =~= old(self)@.on(layout, |s: StripView| s.stacked()).strips);
        r
    }

    /// Gives the other windows in the column of the selection columns of their own.
    pub fn unstack_parent_of_selection(
        &mut self,
        layout: LayoutId,
        _default_orientation: StackDefaultOrientation,
    ) -> (r: Vec<WindowId>)
        requires
            old(self).wf(),
        ensures
            final(self).wf(),
            r@ == (if old(self)@.has(layout) {
                old(self)@.strips[layout].unstacking_moves()
            } else {
                Seq::empty()
            }),
            final(self)@ == old(self)@.on(
                layout,
                |s: StripView| s.unstacked(),
            ),
    {
        let r = match self.layout_state_mut(layout) {
            Some(state) => state.unstack_column(),
            None => Vec::new(),
        };
        assert(self@.strips =~= old(self)@.on(layout, |s: StripView| s.unstacked()).strips);
        r
    }

    /// The selection covers the screen, or no longer does. Returns it.
    pub fn toggle_fullscreen_of_selection(&mut self, layout: LayoutId) -> (r: Vec<WindowId>)
        requires
            old(self).wf(),
        ensures
            final(self).wf(),
            r@ == (if old(self)@.has(layout) {
                view::just(old(self)@.strips[layout].selected_or_first())
            } else {
                Seq::empty()
            }),
            final(self)@ == old(self)@.on(
                layout,
                |s: StripView| s.fullscreen_toggled(),
            ),
    {
        let r = match self.layout_state_mut(layout) {
            Some(state) => listed(state.toggle_fullscreen()),
            None => Vec::new(),
        };
        assert(self@.strips =~= old(self)@.on(layout, |s: StripView| s.fullscreen_toggled()).strips);
        r
    }

    /// The selection covers the screen within its gaps, or no longer does. Returns it.
    pub fn toggle_fullscreen_within_gaps_of_selection(&mut self, layout: LayoutId) -> (r: Vec<WindowId>)
        requires
            old(self).wf(),
        ensures
            final(self).wf(),
            r@ == (if old(self)@.has(layout) {
                view::just(old(self)@.strips[layout].selected_or_first())
            } else {
                Seq::empty()
            }),
            final(self)@ == old(self)@.on(
                layout,
                |s: StripView| s.fullscreen_within_gaps_toggled(),
            ),
    {
        let r = match self.layout_state_mut(layout) {
            Some(state) => listed(state.toggle_fullscreen_within_gaps()),
            None => Vec::new(),
        };
        assert(self@.strips =~= old(self)@.on(layout, |s: StripView| s.fullscreen_within_gaps_toggled()).strips);
        r
    }

    /// Takes over a width that was dragged, and the heights where given.
    pub fn drag_window(&mut self, layout: LayoutId,
        wid: WindowId,
        offset: u64,
        weights: Option<Vec<u64>>,
    )
        requires
            old(self).wf(),
        ensures
            final(self).wf(),
            final(self)@ == old(self)@.on(
                layout,
                |s: StripView| s.dragged(wid, offset, view::listing(weights), old(self)@.niri()),
            ),
    {
        let niri = self.niri();
        match self.layout_state_mut(layout) {
            Some(state) => {
                state.drag(wid, offset, weights, niri);
            },
            None => {},
        }
        assert(self@.strips =~= old(self)@.on(layout, |s: StripView| s.dragged(wid, offset, view::listing(weights), old(self)@.niri())).strips);
    }

    /// Sets the width of all columns.
    pub fn set_strip_ratio(&mut self, layout: LayoutId, ratio: u64)
        requires
            old(self).wf(),
        ensures
            final(self).wf(),
            final(self)@ == old(self)@.on(
                layout,
                |s: StripView| StripView { column_width_ratio: ratio, ..s },
            ),
    {
        match self.layout_state_mut(layout) {
            Some(state) => {
                state.set_column_width_ratio(ratio);
            },
            None => {},
        }
        assert(self@.strips =~= old(self)@.on(layout, |s: StripView| StripView { column_width_ratio: ratio, ..s }).strips);
    }

    /// Sets the width of a column.
    pub fn resize_column(&mut self, layout: LayoutId, column: usize, offset: u64)
        requires
            old(self).wf(),
            old(self)@.has(layout) ==> column < old(self)@.strips[layout].columns.len(),
        ensures
            final(self).wf(),
            final(self)@ == old(self)@.on(
                layout,
                |s: StripView| s.with_width(column as int, offset).following(old(self)@.niri()),
            ),
    {
        let niri = self.niri();
        match self.layout_state_mut(layout) {
            Some(state) => {
                state.set_width(column, offset);
                state.follow_selection(niri);
            },
            None => {},
        }
        assert(self@.strips =~= old(self)@.on(layout, |s: StripView| s.with_width(column as int, offset).following(old(self)@.niri())).strips);
    }

    /// Sets the heights in a column.
    pub fn resize_rows(&mut self, layout: LayoutId, column: usize, weights: Vec<u64>)
        requires
            old(self).wf(),
            old(self)@.has(layout) ==> column < old(self)@.strips[layout].columns.len(),
        ensures
            final(self).wf(),
            final(self)@ == old(self)@.on(
                layout,
                |s: StripView| s.with_heights(column as int, weights@),
            ),
    {
        match self.layout_state_mut(layout) {
            Some(state) => {
                state.set_heights(column, weights);
            },
            None => {},
        }
        assert(self@.strips =~= old(self)@.on(layout, |s: StripView| s.with_heights(column as int, weights@)).strips);
    }

    /// Remembers the measures of the last layout.
    pub fn store_measures(&mut self, layout: LayoutId,
        screen_width: u64,
        gap_x: u64,
        step: u64,
        center_offset_delta: u64,
        scroll_offset: u64,
    )
        requires
            old(self).wf(),
        ensures
            final(self).wf(),
            final(self)@ == old(self)@.on(
                layout,
                |s: StripView| s.measured(
                    screen_width,
                    gap_x,
                    step,
                    center_offset_delta,
                    scroll_offset,
                ),
            ),
    {
        match self.layout_state_mut(layout) {
            Some(state) => {
                state.store_measures(screen_width, gap_x, step, center_offset_delta, scroll_offset);
            },
            None => {},
        }
        assert(self@.strips =~= old(self)@.on(layout, |s: StripView| s.measured(
                    screen_width,
                    gap_x,
                    step,
                    center_offset_delta,
                    scroll_offset,
                )).strips);
    }

    /// Remembers how far the strip was scrolled, and how far beyond its end.
    pub fn store_scroll(&mut self, layout: LayoutId, scroll_offset: u64, overscroll: u64)
        requires
            old(self).wf(),
        ensures
            final(self).wf(),
            final(self)@ == old(self)@.on(
                layout,
                |s: StripView| s.scrolled(scroll_offset, overscroll),
            ),
    {
        match self.layout_state_mut(layout) {
            Some(state) => {
                state.store_scroll(scroll_offset, overscroll);
            },
            None => {},
        }
        assert(self@.strips =~= old(self)@.on(layout, |s: StripView| s.scrolled(scroll_offset, overscroll)).strips);
    }

    /// Takes the pending requests: whether to centre, whether to align, and the reveal code.
    pub fn take_scroll_requests(&mut self, layout: LayoutId) -> (r: (bool, bool, i8))
        requires
            old(self).wf(),
        ensures
            final(self).wf(),
            r == (if old(self)@.has(layout) {
                (
                    old(self)@.strips[layout].pending_center_align,
                    old(self)@.strips[layout].pending_align,
                    old(self)@.strips[layout].pending_reveal_direction,
                )
            } else {
                (false, false, 0)
            }),
            final(self)@ == old(self)@.on(
                layout,
                |s: StripView| s.scroll_done(),
            ),
    {
        let r = match self.layout_state_mut(layout) {
            Some(state) => state.take_scroll_requests(),
            None => (false, false, 0),
        };
        assert(self@.strips =~= old(self)@.on(layout, |s: StripView| s.scroll_done()).strips);
        r
    }

    /// Moves focus. Returns the window that has it now, and those to raise: the
    /// column of the selection.
    pub fn move_focus(&mut self, layout: LayoutId, direction: Direction) -> (r: (
        Option<WindowId>,
        Vec<WindowId>,
    ))
        requires
            old(self).wf(),
        ensures
            final(self).wf(),
            final(self)@ == old(self)@.on(
                layout,
                |s: StripView| s.focus_moved(direction, old(self)@.niri()),
            ),
            r.0 == (if old(self)@.has(layout) {
                old(self)@.strips[layout].neighbour(direction)
            } else {
                None
            }),
            r.1@ == (if old(self)@.has(layout) {
                final(self)@.strips[layout].selected_column()
            } else {
                Seq::empty()
            }),
    {
        let niri = self.niri();
        let r = match self.layout_state_mut(layout) {
            Some(state) => {
                let next = state.move_focus(direction, niri);
                let raise = state.selected_column();
                (next, raise)
            },
            None => (None, Vec::new()),
        };
        assert(self@.strips =~= old(self)@.on(
            layout,
            |s: StripView| s.focus_moved(direction, old(self)@.niri()),
        ).strips);
        r
    }

    /// Snaps to a column and selects one of its windows, which is returned.
    pub fn snap_to_column(&mut self, layout: LayoutId, column: usize, offset: u64) -> (r: Option<
        WindowId,
    >)
        requires
            old(self).wf(),
            old(self)@.has(layout) ==> column < old(self)@.strips[layout].columns.len(),
        ensures
            final(self).wf(),
            final(self)@ == old(self)@.on(
                layout,
                |s: StripView| s.snapped(column as int, offset),
            ),
            r == (if old(self)@.has(layout)
                && old(self)@.strips[layout].columns[column as int].windows.len() > 0 {
                final(self)@.strips[layout].selected
            } else {
                None
            }),
    {
        let r = match self.layout_state_mut(layout) {
            Some(state) => state.snap(column, offset),
            None => None,
        };
        assert(self@.strips =~= old(self)@.on(
            layout,
            |s: StripView| s.snapped(column as int, offset),
        ).strips);
        r
    }

    /// The selection of one strip goes to another. The two may be the same.
    pub fn move_selection_to_layout_after_selection(
        &mut self,
        from_layout: LayoutId,
        to_layout: LayoutId,
    )
        requires
            old(self).wf(),
        ensures
            final(self).wf(),
            final(self)@ == (if old(self)@.has(from_layout) {
                match old(self)@.strips[from_layout].selected_or_first() {
                    Some(w) => old(self)@.on(
                        from_layout,
                        |s: StripView| s.sent_away(w, old(self)@.niri()),
                    ).on(to_layout, |s: StripView| s.received(w, old(self)@.niri())),
                    None => old(self)@,
                }
            } else {
                old(self)@
            }),
    {
        let niri = self.niri();
        let selected = match self.selected_window(from_layout) {
            Some(w) => w,
            None => {
                return;
            },
        };
        match self.layout_state_mut(from_layout) {
            Some(state) => {
                state.send_away(selected, niri);
            },
            None => {},
        }
        let ghost between = old(self)@.on(
            from_layout,
            |s: StripView| s.sent_away(selected, old(self)@.niri()),
        );
        assert(self@.strips =~= between.strips);
        match self.layout_state_mut(to_layout) {
            Some(state) => {
                state.receive(selected, niri);
            },
            None => {},
        }
        assert(self@.strips =~= between.on(
            to_layout,
            |s: StripView| s.received(selected, old(self)@.niri()),
        ).strips);
    }

    /// `to` takes the place of `from` in all strips.
    pub fn replace_window(&mut self, from: WindowId, to: WindowId)
        requires
            old(self).wf(),
        ensures
            final(self).wf(),
            from == to ==> final(self)@ == old(self)@,
            !(from == to) ==> final(self)@ == old(self)@.everywhere(|s: StripView| s.with_replaced(from, to)),
    {
        if from == to {
            return;
        }
        let keys = self.layouts.keys();
        let mut i: usize = 0;
        while i < keys.len()
            invariant
                i <= keys.len(),
                self.wf(),
                keys@.no_duplicates(),
                forall|l: LayoutId| keys@.contains(l) <==> old(self)@.has(l),
                self@.settings == old(self)@.settings,
                self@.strips.dom() =~= old(self)@.strips.dom(),
                forall|j: int|
                    0 <= j < keys.len() ==> #[trigger] self@.strips[keys@[j]] == (if j < i {
                        old(self)@.strips[keys@[j]].with_replaced(from, to)
                    } else {
                        old(self)@.strips[keys@[j]]
                    }),
            decreases keys.len() - i,
        {
            let layout = keys[i];
            assert(keys@.contains(layout));
            match self.layout_state_mut(layout) {
                Some(state) => {
                    state.replace_window(from, to);
                },
                None => {},
            }
            i += 1;
        }
        proof {
            assert forall|l: LayoutId| old(self)@.has(l) implies #[trigger] self@.strips[l]
                == (old(self)@.strips[l].with_replaced(from, to)) by {
                assert(keys@.contains(l));
                let j = choose|j: int| 0 <= j < keys.len() && keys@[j] == l;
                assert(self@.strips[keys@[j]] == self@.strips[l]);
            }
        }
        assert(self@.strips =~= old(self)@.everywhere(|s: StripView| s.with_replaced(from, to)).strips);
    }

    /// Removes a window from all strips.
    pub fn remove_window(&mut self, wid: WindowId)
        requires
            old(self).wf(),
        ensures
            final(self).wf(),
            final(self)@ == old(self)@.everywhere(|s: StripView| s.removed(wid)),
    {
        let keys = self.layouts.keys();
        let mut i: usize = 0;
        while i < keys.len()
            invariant
                i <= keys.len(),
                self.wf(),
                keys@.no_duplicates(),
                forall|l: LayoutId| keys@.contains(l) <==> old(self)@.has(l),
                self@.settings == old(self)@.settings,
                self@.strips.dom() =~= old(self)@.strips.dom(),
                forall|j: int|
                    0 <= j < keys.len() ==> #[trigger] self@.strips[keys@[j]] == (if j < i {
                        old(self)@.strips[keys@[j]].removed(wid)
                    } else {
                        old(self)@.strips[keys@[j]]
                    }),
            decreases keys.len() - i,
        {
            let layout = keys[i];
            assert(keys@.contains(layout));
            match self.layout_state_mut(layout) {
                Some(state) => {
                    state.remove_window(wid);
                },
                None => {},
            }
            i += 1;
        }
        proof {
            assert forall|l: LayoutId| old(self)@.has(l) implies #[trigger] self@.strips[l]
                == (old(self)@.strips[l].removed(wid)) by {
                assert(keys@.contains(l));
                let j = choose|j: int| 0 <= j < keys.len() && keys@[j] == l;
                assert(self@.strips[keys@[j]] == self@.strips[l]);
            }
        }
        assert(self@.strips =~= old(self)@.everywhere(|s: StripView| s.removed(wid)).strips);
    }

    /// Removes the windows of a process from all strips.
    pub fn remove_windows_for_app(&mut self, pid: Pid)
        requires
            old(self).wf(),
        ensures
            final(self).wf(),
            final(self)@ == old(self)@.everywhere(|s: StripView| s.app_removed(pid)),
    {
        let keys = self.layouts.keys();
        let mut i: usize = 0;
        while i < keys.len()
            invariant
                i <= keys.len(),
                self.wf(),
                keys@.no_duplicates(),
                forall|l: LayoutId| keys@.contains(l) <==> old(self)@.has(l),
                self@.settings == old(self)@.settings,
                self@.strips.dom() =~= old(self)@.strips.dom(),
                forall|j: int|
                    0 <= j < keys.len() ==> #[trigger] self@.strips[keys@[j]] == (if j < i {
                        old(self)@.strips[keys@[j]].app_removed(pid)
                    } else {
                        old(self)@.strips[keys@[j]]
                    }),
            decreases keys.len() - i,
        {
            let layout = keys[i];
            assert(keys@.contains(layout));
            match self.layout_state_mut(layout) {
                Some(state) => {
                    state.remove_windows_for_app(pid);
                },
                None => {},
            }
            i += 1;
        }
        proof {
            assert forall|l: LayoutId| old(self)@.has(l) implies #[trigger] self@.strips[l]
                == (old(self)@.strips[l].app_removed(pid)) by {
                assert(keys@.contains(l));
                let j = choose|j: int| 0 <= j < keys.len() && keys@[j] == l;
                assert(self@.strips[keys@[j]] == self@.strips[l]);
            }
        }
        assert(self@.strips =~= old(self)@.everywhere(|s: StripView| s.app_removed(pid)).strips);
    }
}

/// A picture of a column.
fn column_picture(state: &LayoutState, c: usize) -> (r: TreeSnapshot)
    requires
        c < state@.columns.len(),
    ensures
        shows_column(r, state@, c as int),
{
    let windows = state.column_windows(c);
    let mut children: Vec<TreeSnapshot> = Vec::new();
    let mut i: usize = 0;
    while i < windows.len()
        invariant
            i <= windows.len(),
            children@.len() == i,
            forall|j: int|
                0 <= j < i ==> shows_window(#[trigger] children@[j], state@, windows@[j]),
        decreases windows.len() - i,
    {
        let window = windows[i];
        children.push(
            TreeSnapshot {
                node_id: window_node_id(window),
                layout_kind: None,
                window_id: Some(window),
                is_selected: state.selected() == Some(window),
                is_fullscreen: state.is_fullscreen(window),
                is_fullscreen_within_gaps: state.is_fullscreen_within_gaps(window),
                role: None,
                children: Vec::new(),
            },
        );
        i += 1;
    }
    TreeSnapshot {
        node_id: state.column(c).stable_node_id(),
        layout_kind: Some(LayoutKind::Vertical),
        window_id: None,
        is_selected: false,
        is_fullscreen: false,
        is_fullscreen_within_gaps: false,
        role: Some(NodeRole::Column),
        children,
    }
}

/// A choice as a list.
fn listed(choice: Option<WindowId>) -> (r: Vec<WindowId>)
    ensures
        r@ == view::just(choice),
{
    let mut r: Vec<WindowId> = Vec::new();
    if let Some(w) = choice {
        r.push(w);
    }
    r
}

impl LayoutSystem for ScrollingLayoutSystem {
    open spec fn ready(&self) -> bool {
        self.wf()
    }

    open spec fn known_layouts(system: ScrollingView) -> Set<LayoutId> {
        system.strips.dom()
    }

    open spec fn copyable(system: ScrollingView, layout: LayoutId) -> bool {
        true
    }

    open spec fn with_fresh(system: ScrollingView, layout: LayoutId) -> ScrollingView {
        ScrollingView {
            strips: system.strips.insert(
                layout,
                StripView::empty(system.settings.column_width_ratio),
            ),
            ..system
        }
    }

    open spec fn with_copy(system: ScrollingView, source: LayoutId, layout: LayoutId) -> ScrollingView {
        ScrollingView {
            strips: system.strips.insert(
                layout,
                if system.has(source) {
                    system.strips[source]
                } else {
                    StripView::empty(system.settings.column_width_ratio)
                },
            ),
            ..system
        }
    }

    fn create_layout(&mut self) -> (r: LayoutId) {
        let r = ScrollingLayoutSystem::create_layout(self);
        assert(Self::known_layouts(self@) =~= Self::known_layouts(old(self)@).insert(r));
        r
    }

    fn clone_layout(&mut self, layout: LayoutId) -> (r: LayoutId) {
        let r = ScrollingLayoutSystem::clone_layout(self, layout);
        assert(Self::known_layouts(self@) =~= Self::known_layouts(old(self)@).insert(r));
        r
    }

    proof fn layouts_known(&self) {
        assert(self@.strips.dom() =~= table::strips_in(self.layouts).dom());
    }
}

} // verus!
