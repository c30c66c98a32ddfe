//! The executable strip.

use vstd::prelude::*;

use crate::actor::{Pid, WindowId};
use crate::common::config::WindowInsertionPoint;
use crate::layout_engine::systems;
use crate::layout_engine::systems::scrolling::view;
use crate::layout_engine::systems::scrolling::view::{
    ColumnView, ResizePlan, StripView, ONE_BITS, REVEAL_LEFT, REVEAL_NEUTRAL, REVEAL_RIGHT,
    ZERO_BITS,
};
use crate::common::collections::VecSet;
use crate::layout_engine::{Direction, ResizeOrientation};

verus! {

/// A number that tells windows apart.
pub fn packed_window_id(window: WindowId) -> (r: u64)
    ensures
        r == view::packed(window),
{
    ((window.pid as u32 as u64) << 32) | (window.idx as u64)
}

/// The node number of a window.
pub fn window_node_id(window: WindowId) -> (r: u64)
    ensures
        r == view::window_node(window),
{
    let id = packed_window_id(window);
    ((id << 1) | (id >> 63)) | 1
}

/// The node number of a column that a window started.
pub fn column_node_id(window: WindowId) -> (r: u64)
    ensures
        r == view::column_node(window),
{
    let id = packed_window_id(window);
    (id << 1) | (id >> 63)
}

/// No scrolling request is pending.
pub fn default_atomic_bool() -> (r: bool)
    ensures
        !r,
{
    false
}

/// No reveal is pending.
pub fn default_atomic_i8() -> (r: i8)
    ensures
        r == 0,
{
    0
}

/// Measures start at zero.
pub fn default_atomic() -> (r: u64)
    ensures
        r == ZERO_BITS,
{
    ZERO_BITS
}

/// A column of windows. Widths and heights are bits of double-precision numbers.
pub struct Column {
    pub node_id: u64,
    pub windows: Vec<WindowId>,
    pub width_offset: u64,
    pub width_overridden: bool,
    pub height_weights: Vec<u64>,
}

impl View for Column {
    type V = ColumnView;

    open spec fn view(&self) -> ColumnView {
        ColumnView {
            node_id: self.node_id,
            windows: self.windows@,
            width_offset: self.width_offset,
            width_overridden: self.width_overridden,
            height_weights: self.height_weights@,
        }
    }
}

pub open spec fn column_views(columns: Seq<Column>) -> Seq<ColumnView> {
    columns.map_values(|c: Column| c@)
}

impl Column {
    /// A column with a single window.
    pub fn lone(window: WindowId, weight: u64) -> (r: Column)
        ensures
            r@ == view::lone_column(window, weight),
    {
        let mut windows: Vec<WindowId> = Vec::new();
        windows.push(window);
        let mut height_weights: Vec<u64> = Vec::new();
        height_weights.push(weight);
        let r = Column {
            node_id: column_node_id(window),
            windows,
            width_offset: ZERO_BITS,
            width_overridden: false,
            height_weights,
        };
        assert(r@.windows =~= seq![window]);
        assert(r@.height_weights =~= seq![weight]);
        r
    }

    /// The node number that identifies the column.
    pub fn stable_node_id(&self) -> (r: u64)
        ensures
            r == self@.stable_node(),
    {
        if self.node_id != 0 {
            self.node_id
        } else if self.windows.len() > 0 {
            column_node_id(self.windows[0])
        } else {
            1
        }
    }

    /// Gives every window a weight.
    pub fn ensure_height_weights(&mut self)
        ensures
            final(self)@ == old(self)@.fitted(),
    {
        if self.height_weights.len() != self.windows.len() {
            self.height_weights.truncate(self.windows.len());
            let ghost cut = self.height_weights@;
            while self.height_weights.len() < self.windows.len()
                invariant
                    self.windows@ == old(self).windows@,
                    self.node_id == old(self).node_id,
                    self.width_offset == old(self).width_offset,
                    self.width_overridden == old(self).width_overridden,
                    cut.len() <= self.height_weights.len() <= self.windows.len(),
                    cut.len() == old(self).height_weights@.len() || cut.len()
                        == self.windows.len(),
                    cut.len() <= old(self).height_weights@.len(),
                    forall|i: int|
                        0 <= i < cut.len() ==> #[trigger] self.height_weights@[i] == old(
                            self,
                        ).height_weights@[i],
                    forall|i: int|
                        cut.len() <= i < self.height_weights.len() ==> #[trigger]
                            self.height_weights@[i] == ONE_BITS,
                decreases self.windows.len() - self.height_weights.len(),
            {
                self.height_weights.push(ONE_BITS);
            }
        }
        assert(self@.height_weights =~= old(self)@.fitted().height_weights);
    }

    /// Takes the window in a row out, with its weight.
    fn take_row(&mut self, row: usize) -> (r: (WindowId, u64))
        requires
            row < old(self).windows@.len(),
        ensures
            final(self)@ == old(self)@.without_row(row as int),
            r.0 == old(self).windows@[row as int],
            r.1 == old(self)@.fitted().height_weights[row as int],
    {
        self.ensure_height_weights();
        let window = self.windows.remove(row);
        let weight = self.height_weights.remove(row);
        (window, weight)
    }

    fn put_row(&mut self, window: WindowId, weight: u64)
        ensures
            final(self)@ == old(self)@.with_row(window, weight),
    {
        self.ensure_height_weights();
        self.windows.push(window);
        self.height_weights.push(weight);
    }

    fn swap_rows(&mut self, i: usize, j: usize)
        requires
            i < old(self).windows@.len(),
            j < old(self).windows@.len(),
        ensures
            final(self)@ == old(self)@.with_rows_swapped(i as int, j as int),
    {
        self.ensure_height_weights();
        let a = self.windows[i];
        let b = self.windows[j];
        self.windows.set(i, b);
        self.windows.set(j, a);
        let x = self.height_weights[i];
        let y = self.height_weights[j];
        self.height_weights.set(i, y);
        self.height_weights.set(j, x);
    }

    fn rename(&mut self, from: WindowId, to: WindowId)
        ensures
            final(self)@ == old(self)@.renamed(from, to),
    {
        let mut i: usize = 0;
        while i < self.windows.len()
            invariant
                i <= self.windows.len() == old(self).windows.len(),
                self.node_id == old(self).node_id,
                self.width_offset == old(self).width_offset,
                self.width_overridden == old(self).width_overridden,
                self.height_weights == old(self).height_weights,
                forall|j: int|
                    0 <= j < self.windows.len() ==> #[trigger] self.windows@[j] == (if j < i && old(
                        self,
                    ).windows@[j] == from {
                        to
                    } else {
                        old(self).windows@[j]
                    }),
            decreases self.windows.len() - i,
        {
            if self.windows[i] == from {
                self.windows.set(i, to);
            }
            i += 1;
        }
        assert(self@.windows =~= old(self)@.renamed(from, to).windows);
    }

    /// A copy of the column.
    fn copy(&self) -> (r: Column)
        ensures
            r@ == self@,
    {
        let r = Column {
            node_id: self.node_id,
            windows: self.windows.clone(),
            width_offset: self.width_offset,
            width_overridden: self.width_overridden,
            height_weights: self.height_weights.clone(),
        };
        assert(r@.windows =~= self@.windows);
        assert(r@.height_weights =~= self@.height_weights);
        r
    }
}

/// A strip of columns. Measures are bits of double-precision numbers.
pub struct LayoutState {
    columns: Vec<Column>,
    selected: Option<WindowId>,
    column_width_ratio: u64,
    scroll_offset_px: u64,
    pending_align: bool,
    pending_center_align: bool,
    pending_reveal_direction: i8,
    center_override_window: Option<WindowId>,
    last_screen_width: u64,
    last_gap_x: u64,
    last_step_px: u64,
    last_center_offset_delta_px: u64,
    overscroll_accumulation: u64,
    fullscreen: VecSet<WindowId>,
    fullscreen_within_gaps: VecSet<WindowId>,
}

impl View for LayoutState {
    type V = StripView;

    closed spec fn view(&self) -> StripView {
        StripView {
            columns: column_views(self.columns@),
            selected: self.selected,
            column_width_ratio: self.column_width_ratio,
            scroll_offset_px: self.scroll_offset_px,
            pending_align: self.pending_align,
            pending_center_align: self.pending_center_align,
            pending_reveal_direction: self.pending_reveal_direction,
            center_override_window: self.center_override_window,
            last_screen_width: self.last_screen_width,
            last_gap_x: self.last_gap_x,
            last_step_px: self.last_step_px,
            last_center_offset_delta_px: self.last_center_offset_delta_px,
            overscroll_accumulation: self.overscroll_accumulation,
            fullscreen: self.fullscreen@,
            fullscreen_within_gaps: self.fullscreen_within_gaps@,
        }
    }
}

impl LayoutState {
    pub closed spec fn wf(&self) -> bool {
        self.fullscreen.wf() && self.fullscreen_within_gaps.wf()
    }

    /// A strip without columns.
    pub fn new(column_width_ratio: u64) -> (r: LayoutState)
        ensures
            r.wf(),
            r@ == StripView::empty(column_width_ratio),
    {
        let r = LayoutState {
            columns: Vec::new(),
            selected: None,
            column_width_ratio,
            scroll_offset_px: default_atomic(),
            pending_align: default_atomic_bool(),
            pending_center_align: default_atomic_bool(),
            pending_reveal_direction: default_atomic_i8(),
            center_override_window: None,
            last_screen_width: default_atomic(),
            last_gap_x: default_atomic(),
            last_step_px: default_atomic(),
            last_center_offset_delta_px: default_atomic(),
            overscroll_accumulation: default_atomic(),
            fullscreen: VecSet::new(),
            fullscreen_within_gaps: VecSet::new(),
        };
        assert(r@.columns =~= Seq::empty());
        r
    }

    /// A copy of the strip.
    pub fn copy(&self) -> (r: LayoutState)
        requires
            self.wf(),
        ensures
            r.wf(),
            r@ == self@,
    {
        let mut columns: Vec<Column> = Vec::new();
        let mut i: usize = 0;
        while i < self.columns.len()
            invariant
                i <= self.columns.len(),
                columns@.len() == i,
                forall|j: int| 0 <= j < i ==> (#[trigger] columns@[j])@ == self.columns@[j]@,
            decreases self.columns.len() - i,
        {
            columns.push(self.columns[i].copy());
            i += 1;
        }
        let r = LayoutState {
            columns,
            selected: self.selected,
            column_width_ratio: self.column_width_ratio,
            scroll_offset_px: self.scroll_offset_px,
            pending_align: self.pending_align,
            pending_center_align: self.pending_center_align,
            pending_reveal_direction: self.pending_reveal_direction,
            center_override_window: self.center_override_window,
            last_screen_width: self.last_screen_width,
            last_gap_x: self.last_gap_x,
            last_step_px: self.last_step_px,
            last_center_offset_delta_px: self.last_center_offset_delta_px,
            overscroll_accumulation: self.overscroll_accumulation,
            fullscreen: self.fullscreen.copy(),
            fullscreen_within_gaps: self.fullscreen_within_gaps.copy(),
        };
        assert(r@.columns =~= self@.columns);
        r
    }

    // ----- queries -----

    /// The first row of a window in a column.
    fn row_in(windows: &Vec<WindowId>, window: WindowId) -> (r: Option<usize>)
        ensures
            r matches Some(i) ==> view::first_at(windows@, window, 0) == Some(i as int) && i
                < windows@.len() && windows@[i as int] == window,
            r is None ==> view::first_at(windows@, window, 0) is None,
    {
        let mut i: usize = 0;
        while i < windows.len()
            invariant
                i <= windows.len(),
                view::first_at(windows@, window, 0) == view::first_at(windows@, window, i as int),
            decreases windows.len() - i,
        {
            if windows[i] == window {
                return Some(i);
            }
            i += 1;
        }
        None
    }

    /// The column and row of a window.
    pub fn locate(&self, wid: WindowId) -> (r: Option<(usize, usize)>)
        ensures
            r matches Some((c, row)) ==> self@.locate(wid) == Some((c as int, row as int)) && c
                < self@.columns.len() && row < self@.columns[c as int].windows.len()
                && self@.columns[c as int].windows[row as int] == wid,
            r is None ==> self@.locate(wid) is None,
    {
        let mut c: usize = 0;
        while c < self.columns.len()
            invariant
                c <= self.columns.len(),
                view::find_in(self@.columns, wid, 0) == view::find_in(
                    self@.columns,
                    wid,
                    c as int,
                ),
            decreases self.columns.len() - c,
        {
            assert(self@.columns[c as int] == self.columns@[c as int]@);
            match Self::row_in(&self.columns[c].windows, wid) {
                Some(row) => {
                    return Some((c, row));
                },
                None => {},
            }
            c += 1;
        }
        None
    }

    pub fn selected_location(&self) -> (r: Option<(usize, usize)>)
        ensures
            r matches Some((c, row)) ==> self@.selected_location() == Some((c as int, row as int))
                && c < self@.columns.len() && row < self@.columns[c as int].windows.len()
                && self@.selected == Some(self@.columns[c as int].windows[row as int]),
            r is None ==> self@.selected_location() is None,
    {
        match self.selected {
            Some(w) => self.locate(w),
            None => None,
        }
    }

    pub fn selected(&self) -> (r: Option<WindowId>)
        ensures
            r == self@.selected,
    {
        self.selected
    }

    pub fn first_window(&self) -> (r: Option<WindowId>)
        ensures
            r == self@.first_window(),
    {
        if self.columns.len() > 0 {
            assert(self@.columns[0] == self.columns@[0]@);
            if self.columns[0].windows.len() > 0 {
                return Some(self.columns[0].windows[0]);
            }
        }
        None
    }

    pub fn selected_or_first(&self) -> (r: Option<WindowId>)
        ensures
            r == self@.selected_or_first(),
    {
        match self.selected {
            Some(w) => Some(w),
            None => self.first_window(),
        }
    }

    pub fn column_count(&self) -> (r: usize)
        ensures
            r == self@.columns.len(),
    {
        self.columns.len()
    }

    /// The windows of a column, from top to bottom.
    pub fn column_windows(&self, c: usize) -> (r: Vec<WindowId>)
        requires
            c < self@.columns.len(),
        ensures
            r@ == self@.columns[c as int].windows,
    {
        assert(self@.columns[c as int] == self.columns@[c as int]@);
        let r = self.columns[c].windows.clone();
        assert(r@ =~= self.columns@[c as int].windows@);
        r
    }

    pub fn all_windows(&self) -> (r: Vec<WindowId>)
        ensures
            r@ == self@.all_windows(),
    {
        let mut out: Vec<WindowId> = Vec::new();
        let mut c: usize = 0;
        assert(self@.columns.take(0) =~= Seq::empty());
        while c < self.columns.len()
            invariant
                c <= self.columns.len(),
                out@ == view::flattened(self@.columns.take(c as int)),
            decreases self.columns.len() - c,
        {
            let ghost before = out@;
            let mut row: usize = 0;
            let ghost windows = self@.columns[c as int].windows;
            assert(self@.columns[c as int] == self.columns@[c as int]@);
            assert(out@ =~= before + windows.take(0));
            while row < self.columns[c].windows.len()
                invariant
                    c < self.columns.len(),
                    windows == self.columns@[c as int].windows@,
                    row <= windows.len(),
                    out@ == before + windows.take(row as int),
                decreases self.columns[c as int].windows.len() - row,
            {
                out.push(self.columns[c].windows[row]);
                row += 1;
                assert(out@ =~= before + windows.take(row as int));
            }
            assert(windows.take(row as int) =~= windows);
            assert(self@.columns.take(c + 1).drop_last() =~= self@.columns.take(c as int));
            assert(self@.columns.take(c + 1).last().windows == windows);
            c += 1;
        }
        assert(self@.columns.take(c as int) =~= self@.columns);
        out
    }

    pub fn app_windows(&self, pid: Pid) -> (r: Vec<WindowId>)
        ensures
            r@ == self@.app_windows(pid),
    {
        let all = self.all_windows();
        let ghost own = |w: WindowId| w.pid == pid;
        let mut out: Vec<WindowId> = Vec::new();
        let mut i: usize = 0;
        while i < all.len()
            invariant
                i <= all.len(),
                own == (|w: WindowId| w.pid == pid),
                out@ == all@.take(i as int).filter(own),
            decreases all.len() - i,
        {
            proof {
                assert(all@.take(i + 1).drop_last() =~= all@.take(i as int));
                reveal(Seq::filter);
            }
            if all[i].pid == pid {
                out.push(all[i]);
            }
            i += 1;
        }
        assert(all@.take(i as int) =~= all@);
        out
    }

    pub fn selected_column(&self) -> (r: Vec<WindowId>)
        ensures
            r@ == self@.selected_column(),
    {
        match self.selected_location() {
            Some((c, _)) => self.column_windows(c),
            None => Vec::new(),
        }
    }

    pub fn is_fullscreen(&self, wid: WindowId) -> (r: bool)
        ensures
            r == self@.fullscreen.contains(wid),
    {
        self.fullscreen.contains(wid)
    }

    pub fn is_fullscreen_within_gaps(&self, wid: WindowId) -> (r: bool)
        ensures
            r == self@.fullscreen_within_gaps.contains(wid),
    {
        self.fullscreen_within_gaps.contains(wid)
    }

    pub fn has_any_fullscreen(&self) -> (r: bool)
        ensures
            r == (self@.fullscreen != Set::<WindowId>::empty() || self@.fullscreen_within_gaps
                != Set::<WindowId>::empty()),
    {
        !self.fullscreen.is_empty() || !self.fullscreen_within_gaps.is_empty()
    }

    // ----- scrolling requests -----

    /// Asks for alignment with the selection.
    pub fn align_scroll_to_selected(&mut self)
        requires
            old(self).wf(),
        ensures
            final(self).wf(),
            final(self)@ == old(self)@.aligning(),
    {
        if self.center_override_window.is_some() && self.center_override_window == self.selected {
            self.pending_center_align = true;
            self.pending_reveal_direction = 0;
            self.pending_align = false;
            return;
        }
        self.center_override_window = None;
        self.pending_center_align = false;
        self.pending_reveal_direction = 0;
        if self.selected_location().is_none() {
            self.scroll_offset_px = ZERO_BITS;
            return;
        }
        self.pending_align = true;
    }

    /// Asks for the selection in the middle, or gives that up.
    pub fn request_center_on_selected(&mut self)
        requires
            old(self).wf(),
        ensures
            final(self).wf(),
            final(self)@ == old(self)@.centering(),
    {
        if self.selected_location().is_none() {
            return;
        }
        if self.center_override_window.is_some() && self.center_override_window == self.selected {
            self.center_override_window = None;
            self.pending_center_align = false;
            self.pending_align = true;
            self.pending_reveal_direction = 0;
        } else {
            self.center_override_window = self.selected;
            self.pending_center_align = true;
            self.pending_align = false;
            self.pending_reveal_direction = 0;
        }
    }

    fn request_reveal(&mut self, code: i8)
        requires
            old(self).wf(),
        ensures
            final(self).wf(),
            final(self)@ == old(self)@.revealing(code),
    {
        self.center_override_window = None;
        self.pending_center_align = false;
        self.pending_align = false;
        self.pending_reveal_direction = code;
    }

    /// Asks to show the selection after focus went left or right.
    pub fn reveal_selected_in_direction(&mut self, direction: Direction)
        requires
            old(self).wf(),
        ensures
            final(self).wf(),
            final(self)@ == old(self)@.revealing(
                match direction {
                    Direction::Left => REVEAL_LEFT,
                    Direction::Right => REVEAL_RIGHT,
                    _ => 0,
                },
            ),
    {
        let code = match direction {
            Direction::Left => REVEAL_LEFT,
            Direction::Right => REVEAL_RIGHT,
            _ => 0,
        };
        self.request_reveal(code);
    }

    /// Asks to show the selection with as little scrolling as possible.
    pub fn reveal_selected_without_direction(&mut self)
        requires
            old(self).wf(),
        ensures
            final(self).wf(),
            final(self)@ == old(self)@.revealing(REVEAL_NEUTRAL),
    {
        self.request_reveal(REVEAL_NEUTRAL);
    }

    /// Follows a change of selection by the configured style.
    pub fn follow_selection(&mut self, niri: bool)
        requires
            old(self).wf(),
        ensures
            final(self).wf(),
            final(self)@ == old(self)@.following(niri),
    {
        if niri {
            self.reveal_selected_without_direction();
        } else {
            self.align_scroll_to_selected();
        }
    }

    /// Keeps the strip where it is, or at its start if it is empty.
    pub fn clamp_scroll_offset(&mut self)
        requires
            old(self).wf(),
        ensures
            final(self).wf(),
            final(self)@ == old(self)@.settled(),
    {
        if self.columns.len() == 0 {
            self.scroll_offset_px = ZERO_BITS;
            return;
        }
        self.pending_align = false;
    }

    // ----- columns -----

    /// Inserts a column.
    fn insert_column(&mut self, at: usize, column: Column)
        requires
            old(self).wf(),
            at <= old(self)@.columns.len(),
        ensures
            final(self).wf(),
            final(self)@ == old(self)@.with_column(at as int, column@),
    {
        self.columns.insert(at, column);
        assert(self@.columns =~= old(self)@.with_column(at as int, column@).columns);
    }

    /// Adds a column behind another one and selects its window.
    pub fn insert_column_after(&mut self, index: usize, wid: WindowId)
        requires
            old(self).wf(),
        ensures
            final(self).wf(),
            final(self)@ == old(self)@.column_added_after(index as int, wid),
    {
        let len = self.columns.len();
        let at = if index < len && index + 1 < len {
            index + 1
        } else {
            len
        };
        self.insert_column(at, Column::lone(wid, ONE_BITS));
        self.selected = Some(wid);
        self.align_scroll_to_selected();
    }

    /// Adds a column at the end and selects its window.
    pub fn insert_column_at_end(&mut self, wid: WindowId)
        requires
            old(self).wf(),
        ensures
            final(self).wf(),
            final(self)@ == old(self)@.column_added_at_end(wid),
    {
        let at = self.columns.len();
        self.insert_column(at, Column::lone(wid, ONE_BITS));
        self.selected = Some(wid);
        self.align_scroll_to_selected();
    }

    /// Gives a new window a column.
    pub fn insert_new_column(&mut self, wid: WindowId, insertion_point: WindowInsertionPoint)
        requires
            old(self).wf(),
        ensures
            final(self).wf(),
            final(self)@ == old(self)@.window_added(wid, insertion_point),
    {
        match insertion_point {
            WindowInsertionPoint::EndOfTree => {
                self.insert_column_at_end(wid);
            },
            WindowInsertionPoint::NextToSelection => match self.selected_location() {
                Some((c, _)) => {
                    self.insert_column_after(c, wid);
                },
                None => {
                    if self.columns.len() > 0 {
                        self.insert_column_after(0, wid);
                    } else {
                        self.insert_column_at_end(wid);
                    }
                },
            },
        }
    }

    /// Gives a window a column of its own and shows it.
    pub fn add_window(&mut self, wid: WindowId, insertion_point: WindowInsertionPoint, niri: bool)
        requires
            old(self).wf(),
        ensures
            final(self).wf(),
            final(self)@ == old(self)@.entered(wid, insertion_point, niri),
    {
        self.insert_new_column(wid, insertion_point);
        if niri {
            self.reveal_selected_without_direction();
        }
    }

    /// Takes the window at a place out of its column. An empty column disappears.
    fn take_window(&mut self, c: usize, row: usize) -> (r: (WindowId, u64))
        requires
            old(self).wf(),
            c < old(self)@.columns.len(),
            row < old(self)@.columns[c as int].windows.len(),
        ensures
            final(self).wf(),
            final(self)@ == (StripView {
                columns: old(self)@.columns_without(c as int, row as int),
                ..old(self)@
            }),
            r.0 == old(self)@.columns[c as int].windows[row as int],
            r.1 == old(self)@.columns[c as int].fitted().height_weights[row as int],
    {
        assert(self@.columns[c as int] == self.columns@[c as int]@);
        let r = self.columns[c].take_row(row);
        if self.columns[c].windows.len() == 0 {
            self.columns.remove(c);
        }
        assert(self@.columns =~= old(self)@.columns_without(c as int, row as int));
        r
    }

    /// The window that is selected after the one at a place is gone.
    fn heir(&self, c: usize, row: usize) -> (r: Option<WindowId>)
        requires
            c <= self@.columns.len(),
        ensures
            r == StripView::heir(self@.columns, c as int, row as int),
    {
        if c < self.columns.len() {
            assert(self@.columns[c as int] == self.columns@[c as int]@);
            let windows = &self.columns[c].windows;
            if row < windows.len() {
                return Some(windows[row]);
            }
            if windows.len() > 0 {
                return Some(windows[windows.len() - 1]);
            }
        }
        if c > 0 {
            assert(self@.columns[c - 1] == self.columns@[c - 1]@);
            let windows = &self.columns[c - 1].windows;
            if windows.len() > 0 {
                return Some(windows[windows.len() - 1]);
            }
        }
        self.first_window()
    }

    /// Removes a window from the strip. Hands out the selection that is left, or
    /// nothing if the strip does not hold the window.
    pub fn remove_window(&mut self, wid: WindowId) -> (r: Option<WindowId>)
        requires
            old(self).wf(),
        ensures
            final(self).wf(),
            final(self)@ == old(self)@.removed(wid),
            r == (if old(self)@.locate(wid) is Some {
                old(self)@.removed(wid).selected
            } else {
                None
            }),
    {
        let (c, row) = match self.locate(wid) {
            Some(place) => place,
            None => {
                return None;
            },
        };
        self.take_window(c, row);
        self.fullscreen.remove(wid);
        self.fullscreen_within_gaps.remove(wid);
        if self.selected == Some(wid) {
            self.selected = self.heir(c, row);
        }
        if self.center_override_window == Some(wid) {
            self.center_override_window = None;
        }
        self.clamp_scroll_offset();
        self.selected
    }

    /// Removes windows from the strip, one after the other.
    pub fn remove_windows(&mut self, windows: &Vec<WindowId>)
        requires
            old(self).wf(),
        ensures
            final(self).wf(),
            final(self)@ == old(self)@.all_removed(windows@),
    {
        let mut i: usize = 0;
        assert(windows@.take(0) =~= Seq::empty());
        while i < windows.len()
            invariant
                i <= windows.len(),
                self.wf(),
                self@ == old(self)@.all_removed(windows@.take(i as int)),
            decreases windows.len() - i,
        {
            assert(windows@.take(i + 1).drop_last() =~= windows@.take(i as int));
            self.remove_window(windows[i]);
            i += 1;
        }
        assert(windows@.take(i as int) =~= windows@);
    }

    /// Moves a window to the end of another column and selects it.
    pub fn move_window_to_column_end(&mut self, wid: WindowId, target_col: usize)
        requires
            old(self).wf(),
        ensures
            final(self).wf(),
            final(self)@ == old(self)@.moved_to_column(wid, target_col as int),
    {
        let (c, row) = match self.locate(wid) {
            Some(place) => place,
            None => {
                return;
            },
        };
        if c == target_col {
            return;
        }
        assert(self@.columns[c as int] == self.columns@[c as int]@);
        let gone = self.columns[c].windows.len() == 1;
        let (window, weight) = self.take_window(c, row);
        let at = if gone && c < target_col {
            target_col - 1
        } else {
            target_col
        };
        let ghost between = self@;
        if at >= self.columns.len() {
            self.columns.push(Column::lone(window, ONE_BITS));
            assert(self@.columns =~= between.columns.push(view::lone_column(window, ONE_BITS)));
        } else {
            assert(self@.columns[at as int] == self.columns@[at as int]@);
            self.columns[at].put_row(window, weight);
            assert(self@.columns =~= between.columns.update(
                at as int,
                between.columns[at as int].with_row(window, weight),
            ));
        }
        self.selected = Some(window);
        self.align_scroll_to_selected();
    }

    /// Gives the window at a place a column of its own and selects it.
    fn extract(&mut self, c: usize, row: usize, at: usize) -> (r: WindowId)
        requires
            old(self).wf(),
            c < old(self)@.columns.len(),
            row < old(self)@.columns[c as int].windows.len(),
            at <= old(self)@.columns.len(),
        ensures
            final(self).wf(),
            final(self)@ == old(self)@.extracted(c as int, row as int, at as int),
            r == old(self)@.columns[c as int].windows[row as int],
    {
        assert(self@.columns[c as int] == self.columns@[c as int]@);
        let (window, weight) = self.columns[c].take_row(row);
        self.columns.insert(at, Column::lone(window, weight));
        self.selected = Some(window);
        assert(self@.columns =~= old(self)@.extracted(c as int, row as int, at as int).columns);
        window
    }

    // ----- focus -----

    /// The window next to the selection in a direction.
    pub fn neighbour(&self, direction: Direction) -> (r: Option<WindowId>)
        ensures
            r == self@.neighbour(direction),
    {
        let (c, row) = match self.selected_location() {
            Some(place) => place,
            None => {
                return None;
            },
        };
        assert(self@.columns[c as int] == self.columns@[c as int]@);
        match direction {
            Direction::Up => if row > 0 {
                Some(self.columns[c].windows[row - 1])
            } else {
                None
            },
            Direction::Down => if row < self.columns[c].windows.len() - 1 {
                Some(self.columns[c].windows[row + 1])
            } else {
                None
            },
            Direction::Left => if c > 0 {
                assert(self@.columns[c - 1] == self.columns@[c - 1]@);
                Self::row_of(&self.columns[c - 1].windows, row)
            } else {
                None
            },
            Direction::Right => if c < self.columns.len() - 1 {
                assert(self@.columns[c + 1] == self.columns@[c + 1]@);
                Self::row_of(&self.columns[c + 1].windows, row)
            } else {
                None
            },
        }
    }

    fn row_of(windows: &Vec<WindowId>, row: usize) -> (r: Option<WindowId>)
        ensures
            r == StripView::row_of(windows@, row as int),
    {
        if windows.len() == 0 {
            None
        } else if row < windows.len() {
            Some(windows[row])
        } else {
            Some(windows[windows.len() - 1])
        }
    }

    /// Moves the selection up or down in its column.
    pub fn step_vertically(&mut self, direction: Direction) -> (r: Option<WindowId>)
        requires
            old(self).wf(),
            direction is Up || direction is Down,
        ensures
            final(self).wf(),
            r == old(self)@.neighbour(direction),
            final(self)@ == old(self)@.selecting(r),
    {
        let next = self.neighbour(direction);
        if next.is_some() {
            self.selected = next;
        }
        next
    }

    /// Moves focus in a direction.
    pub fn move_focus(&mut self, direction: Direction, niri: bool) -> (r: Option<WindowId>)
        requires
            old(self).wf(),
        ensures
            final(self).wf(),
            r == old(self)@.neighbour(direction),
            final(self)@ == old(self)@.focus_moved(direction, niri),
    {
        let next = self.neighbour(direction);
        if next.is_some() {
            self.selected = next;
        }
        if next.is_some() && niri {
            match direction {
                Direction::Left | Direction::Right => {
                    self.reveal_selected_in_direction(direction);
                },
                Direction::Up | Direction::Down => {
                    self.reveal_selected_without_direction();
                },
            }
        } else {
            self.align_scroll_to_selected();
        }
        next
    }

    /// Selects a window. Says whether it is there.
    pub fn select_window(&mut self, wid: WindowId, niri: bool) -> (r: bool)
        requires
            old(self).wf(),
        ensures
            final(self).wf(),
            r == (old(self)@.locate(wid) is Some),
            final(self)@ == old(self)@.window_selected(wid, niri),
    {
        if self.locate(wid).is_none() {
            return false;
        }
        if self.selected == Some(wid) && self.center_override_window == Some(wid) {
            return true;
        }
        self.selected = Some(wid);
        self.follow_selection(niri);
        true
    }

    // ----- commands -----

    /// Swaps two columns.
    fn swap_columns(&mut self, i: usize, j: usize)
        requires
            old(self).wf(),
            i < j < old(self)@.columns.len(),
        ensures
            final(self).wf(),
            final(self)@ == (StripView {
                columns: view::swapped(old(self)@.columns, i as int, j as int),
                ..old(self)@
            }),
    {
        let right = self.columns.remove(j);
        let left = self.columns.remove(i);
        self.columns.insert(i, right);
        self.columns.insert(j, left);
        assert(self@.columns =~= view::swapped(old(self)@.columns, i as int, j as int));
    }

    /// Moves the selection in a direction. Says whether it could move.
    pub fn move_selection(&mut self, direction: Direction, niri: bool) -> (r: bool)
        requires
            old(self).wf(),
        ensures
            final(self).wf(),
            r == old(self)@.can_shift(direction),
            final(self)@ == old(self)@.selection_moved(direction, niri),
    {
        let (c, row) = match self.selected_location() {
            Some(place) => place,
            None => {
                return false;
            },
        };
        assert(self@.columns[c as int] == self.columns@[c as int]@);
        let count = self.columns.len();
        let rows = self.columns[c].windows.len();
        match direction {
            Direction::Up => {
                if row == 0 {
                    return false;
                }
                self.columns[c].swap_rows(row, row - 1);
                assert(self@.columns =~= old(self)@.shifted(direction).columns);
            },
            Direction::Down => {
                if row >= rows - 1 {
                    return false;
                }
                self.columns[c].swap_rows(row, row + 1);
                assert(self@.columns =~= old(self)@.shifted(direction).columns);
            },
            Direction::Left => {
                if rows > 1 {
                    self.extract(c, row, c);
                } else {
                    if c == 0 {
                        return false;
                    }
                    self.swap_columns(c - 1, c);
                    assert(self@.columns =~= old(self)@.shifted(direction).columns);
                }
            },
            Direction::Right => {
                if rows > 1 {
                    self.extract(c, row, c + 1);
                } else {
                    if c >= count - 1 {
                        return false;
                    }
                    self.swap_columns(c, c + 1);
                }
            },
        }
        assert(self@ == old(self)@.shifted(direction));
        self.follow_selection(niri);
        true
    }

    /// Moves the selection into the neighbouring column.
    pub fn join_selection(&mut self, direction: Direction)
        requires
            old(self).wf(),
        ensures
            final(self).wf(),
            final(self)@ == old(self)@.joined(direction),
    {
        let (c, _) = match self.selected_location() {
            Some(place) => place,
            None => {
                return;
            },
        };
        let wid = self.selected.unwrap();
        match direction {
            Direction::Left => {
                if c > 0 {
                    self.move_window_to_column_end(wid, c - 1);
                }
            },
            Direction::Right => {
                if c < self.columns.len() - 1 {
                    self.move_window_to_column_end(wid, c + 1);
                }
            },
            Direction::Up | Direction::Down => {},
        }
    }

    /// Whether the selection shares its column.
    pub fn selection_is_joined(&self) -> (r: bool)
        ensures
            r == self@.selection_is_joined(),
    {
        match self.selected_location() {
            Some((c, _)) => {
                assert(self@.columns[c as int] == self.columns@[c as int]@);
                self.columns[c].windows.len() > 1
            },
            None => false,
        }
    }

    /// Takes the selection out of its column at a side.
    fn expel(&mut self, to_left: bool, niri: bool)
        requires
            old(self).wf(),
            old(self)@.selection_is_joined(),
        ensures
            final(self).wf(),
            final(self)@ == old(self)@.expelled(to_left, niri),
    {
        let (c, row) = self.selected_location().unwrap();
        let count = self.columns.len();
        let at = if to_left {
            c
        } else {
            c + 1
        };
        self.extract(c, row, at);
        self.follow_selection(niri);
        self.clamp_scroll_offset();
    }

    /// Takes a selection that shares its column out of it, else joins it.
    pub fn consume_or_expel(&mut self, direction: Direction, niri: bool)
        requires
            old(self).wf(),
        ensures
            final(self).wf(),
            final(self)@ == old(self)@.consumed_or_expelled(direction, niri),
    {
        match direction {
            Direction::Left => {
                if self.selection_is_joined() {
                    self.expel(true, niri);
                } else {
                    self.join_selection(direction);
                }
            },
            Direction::Right => {
                if self.selection_is_joined() {
                    self.expel(false, niri);
                } else {
                    self.join_selection(direction);
                }
            },
            Direction::Up | Direction::Down => {},
        }
    }

    /// Takes a selection that shares its column out of it.
    pub fn unjoin_selection(&mut self, niri: bool)
        requires
            old(self).wf(),
        ensures
            final(self).wf(),
            final(self)@ == old(self)@.unjoined(niri),
    {
        if self.selection_is_joined() {
            self.expel(false, niri);
        }
    }

    /// Moves the windows of a neighbouring column into that of the selection.
    /// Returns them.
    pub fn stack_neighbour(&mut self) -> (r: Vec<WindowId>)
        requires
            old(self).wf(),
        ensures
            final(self).wf(),
            r@ == old(self)@.stacking_moves(),
            final(self)@ == old(self)@.stacked(),
    {
        let (c, _) = match self.selected_location() {
            Some(place) => place,
            None => {
                return Vec::new();
            },
        };
        let source = if c < self.columns.len() - 1 {
            c + 1
        } else if c > 0 {
            c - 1
        } else {
            assert(self@.stacking_moves() =~= Seq::empty());
            return Vec::new();
        };
        let moved = self.column_windows(source);
        let mut i: usize = 0;
        assert(moved@.take(0) =~= Seq::empty());
        while i < moved.len()
            invariant
                i <= moved.len(),
                self.wf(),
                self@ == old(self)@.all_moved_to_column(moved@.take(i as int), c as int),
            decreases moved.len() - i,
        {
            assert(moved@.take(i + 1).drop_last() =~= moved@.take(i as int));
            self.move_window_to_column_end(moved[i], c);
            i += 1;
        }
        assert(moved@.take(i as int) =~= moved@);
        moved
    }

    /// Gives the other windows in the column of the selection columns of their
    /// own. Returns them.
    pub fn unstack_column(&mut self) -> (r: Vec<WindowId>)
        requires
            old(self).wf(),
        ensures
            final(self).wf(),
            r@ == old(self)@.unstacking_moves(),
            final(self)@ == old(self)@.unstacked(),
    {
        if !self.selection_is_joined() {
            return Vec::new();
        }
        let ghost before = self@;
        let (c, row) = self.selected_location().unwrap();
        assert(self@.columns[c as int] == self.columns@[c as int]@);
        let ghost column = self@.columns[c as int];
        let chosen = self.columns[c].windows[row];
        self.columns[c].ensure_height_weights();
        let ghost is_chosen = |w: WindowId| w == chosen;
        let ghost is_other = |w: WindowId| w != chosen;
        let mut kept: Vec<WindowId> = Vec::new();
        let mut kept_weights: Vec<u64> = Vec::new();
        let mut moved: Vec<WindowId> = Vec::new();
        let mut moved_weights: Vec<u64> = Vec::new();
        let mut i: usize = 0;
        let ghost fitted = column.fitted();
        assert(self@.columns =~= before.columns.update(c as int, fitted));
        while i < self.columns[c].windows.len()
            invariant
                c < self.columns@.len(),
                self.wf(),
                self.columns@[c as int]@ == fitted,
                fitted == column.fitted(),
                self@ == (StripView {
                    columns: before.columns.update(c as int, fitted),
                    ..before
                }),
                i <= fitted.windows.len(),
                is_chosen == (|w: WindowId| w == chosen),
                is_other == (|w: WindowId| w != chosen),
                kept@ == column.windows.take(i as int).filter(is_chosen),
                moved@ == column.windows.take(i as int).filter(is_other),
                kept_weights@ == StripView::weights_of(column, chosen, true, i as int),
                moved_weights@ == StripView::weights_of(column, chosen, false, i as int),
                moved@.len() == moved_weights@.len(),
            decreases fitted.windows.len() - i,
        {
            let w = self.columns[c].windows[i];
            let weight = self.columns[c].height_weights[i];
            proof {
                assert(column.windows.take(i + 1).drop_last() =~= column.windows.take(i as int));
                reveal(Seq::filter);
            }
            if w == chosen {
                kept.push(w);
                kept_weights.push(weight);
            } else {
                moved.push(w);
                moved_weights.push(weight);
            }
            i += 1;
        }
        assert(column.windows.take(i as int) =~= column.windows);
        self.columns[c].windows = kept;
        self.columns[c].height_weights = kept_weights;
        let ghost lead = ColumnView {
            windows: column.windows.filter(is_chosen),
            height_weights: StripView::weights_of(
                column,
                chosen,
                true,
                column.windows.len() as int,
            ),
            ..column
        };
        let ghost fresh = |j: int| view::lone_column(moved@[j], moved_weights@[j]);
        assert(self@.columns =~= before.columns.take(c as int) + seq![lead] + Seq::new(0, fresh)
            + before.columns.skip(c + 1));
        let mut k: usize = 0;
        while k < moved.len()
            invariant
                k <= moved.len(),
                c < before.columns.len(),
                self.wf(),
                moved@.len() == moved_weights@.len(),
                fresh == (|j: int| view::lone_column(moved@[j], moved_weights@[j])),
                self@ == (StripView {
                    columns: before.columns.take(c as int) + seq![lead] + Seq::new(
                        k as nat,
                        fresh,
                    ) + before.columns.skip(c + 1),
                    ..before
                }),
            decreases moved.len() - k,
        {
            let count = self.columns.len();
            assert(self@.columns.len() == count);
            assert(self@.columns.len() == c + 1 + k + (before.columns.len() - c - 1));
            let ghost prior = self@.columns;
            self.columns.insert(c + 1 + k, Column::lone(moved[k], moved_weights[k]));
            assert(self@.columns =~= prior.insert(c + 1 + k, fresh(k as int)));
            k += 1;
            assert(self@.columns =~= before.columns.take(c as int) + seq![lead] + Seq::new(
                k as nat,
                fresh,
            ) + before.columns.skip(c + 1));
        }
        assert(self@.columns =~= before.unstacked().columns);
        moved
    }

    /// Two windows change places, with their heights. Says whether both are there.
    pub fn swap_windows(&mut self, a: WindowId, b: WindowId) -> (r: bool)
        requires
            old(self).wf(),
        ensures
            final(self).wf(),
            r == old(self)@.can_swap(a, b),
            final(self)@ == old(self)@.with_swapped(a, b),
    {
        let (ac, ar) = match self.locate(a) {
            Some(place) => place,
            None => {
                return false;
            },
        };
        let (bc, br) = match self.locate(b) {
            Some(place) => place,
            None => {
                return false;
            },
        };
        assert(self@.columns[ac as int] == self.columns@[ac as int]@);
        assert(self@.columns[bc as int] == self.columns@[bc as int]@);
        if ac == bc {
            self.columns[ac].swap_rows(ar, br);
            assert(self@.columns =~= old(self)@.with_swapped(a, b).columns);
            return true;
        }
        self.columns[ac].ensure_height_weights();
        self.columns[bc].ensure_height_weights();
        let x = self.columns[ac].windows[ar];
        let y = self.columns[bc].windows[br];
        let xw = self.columns[ac].height_weights[ar];
        let yw = self.columns[bc].height_weights[br];
        self.columns[ac].windows.set(ar, y);
        self.columns[ac].height_weights.set(ar, yw);
        self.columns[bc].windows.set(br, x);
        self.columns[bc].height_weights.set(br, xw);
        assert(self@.columns =~= old(self)@.with_swapped(a, b).columns);
        true
    }

    /// `to` takes the place of `from` everywhere.
    pub fn replace_window(&mut self, from: WindowId, to: WindowId)
        requires
            old(self).wf(),
        ensures
            final(self).wf(),
            final(self)@ == old(self)@.with_replaced(from, to),
    {
        let mut c: usize = 0;
        while c < self.columns.len()
            invariant
                self.wf(),
                c <= self.columns.len() == old(self).columns.len(),
                self@ == (StripView { columns: self@.columns, ..old(self)@ }),
                forall|j: int|
                    0 <= j < self.columns.len() ==> (#[trigger] self.columns@[j])@ == (if j < c {
                        old(self).columns@[j]@.renamed(from, to)
                    } else {
                        old(self).columns@[j]@
                    }),
            decreases self.columns.len() - c,
        {
            self.columns[c].rename(from, to);
            c += 1;
        }
        assert(self@.columns =~= old(self)@.with_replaced(from, to).columns);
        if self.selected == Some(from) {
            self.selected = Some(to);
        }
        if self.center_override_window == Some(from) {
            self.center_override_window = Some(to);
        }
        if self.fullscreen.remove(from) {
            self.fullscreen.insert(to);
        } else {
            assert(self.fullscreen@ =~= old(self).fullscreen@);
        }
        if self.fullscreen_within_gaps.remove(from) {
            self.fullscreen_within_gaps.insert(to);
        } else {
            assert(self.fullscreen_within_gaps@ =~= old(self).fullscreen_within_gaps@);
        }
    }

    /// Removes the windows of a process.
    pub fn remove_windows_for_app(&mut self, pid: Pid)
        requires
            old(self).wf(),
        ensures
            final(self).wf(),
            final(self)@ == old(self)@.app_removed(pid),
    {
        let windows = self.app_windows(pid);
        self.remove_windows(&windows);
    }

    /// Makes the strip hold the windows that a process has.
    pub fn set_windows_for_app(
        &mut self,
        pid: Pid,
        desired: Vec<WindowId>,
        insertion_point: WindowInsertionPoint,
        niri: bool,
    )
        requires
            old(self).wf(),
        ensures
            final(self).wf(),
            final(self)@ == old(self)@.app_set(pid, desired@, insertion_point, niri),
    {
        let current = self.app_windows(pid);
        let delta = systems::reconcile_app_membership(pid, current, desired);
        self.remove_windows(&delta.removals);
        let ghost between = self@;
        let added = delta.additions;
        let mut i: usize = 0;
        assert(added@.take(0) =~= Seq::empty());
        while i < added.len()
            invariant
                i <= added.len(),
                self.wf(),
                self@ == between.windows_added(added@.take(i as int), insertion_point),
            decreases added.len() - i,
        {
            assert(added@.take(i + 1).drop_last() =~= added@.take(i as int));
            self.insert_new_column(added[i], insertion_point);
            i += 1;
        }
        assert(added@.take(i as int) =~= added@);
        if niri {
            self.reveal_selected_without_direction();
        }
    }

    /// Gives a window from another strip a column beside the selection.
    pub fn receive(&mut self, wid: WindowId, niri: bool)
        requires
            old(self).wf(),
        ensures
            final(self).wf(),
            final(self)@ == old(self)@.received(wid, niri),
    {
        match self.selected_location() {
            Some((c, _)) => {
                self.insert_column_after(c, wid);
            },
            None => {
                self.insert_column_at_end(wid);
            },
        }
        self.follow_selection(niri);
    }

    /// Lets a window go to another strip.
    pub fn send_away(&mut self, wid: WindowId, niri: bool)
        requires
            old(self).wf(),
        ensures
            final(self).wf(),
            final(self)@ == old(self)@.sent_away(wid, niri),
    {
        self.remove_window(wid);
        self.follow_selection(niri);
    }

    /// The selection covers the screen, or no longer does. Returns it.
    pub fn toggle_fullscreen(&mut self) -> (r: Option<WindowId>)
        requires
            old(self).wf(),
        ensures
            final(self).wf(),
            r == old(self)@.selected_or_first(),
            final(self)@ == old(self)@.fullscreen_toggled(),
    {
        let selected = self.selected_or_first();
        match selected {
            Some(w) => {
                if !self.fullscreen.remove(w) {
                    self.fullscreen_within_gaps.remove(w);
                    self.fullscreen.insert(w);
                    assert(self.fullscreen@ =~= old(self).fullscreen@.insert(w));
                }
            },
            None => {},
        }
        selected
    }

    /// The selection covers the screen within its gaps, or no longer does.
    /// Returns it.
    pub fn toggle_fullscreen_within_gaps(&mut self) -> (r: Option<WindowId>)
        requires
            old(self).wf(),
        ensures
            final(self).wf(),
            r == old(self)@.selected_or_first(),
            final(self)@ == old(self)@.fullscreen_within_gaps_toggled(),
    {
        let selected = self.selected_or_first();
        match selected {
            Some(w) => {
                if !self.fullscreen_within_gaps.remove(w) {
                    self.fullscreen.remove(w);
                    self.fullscreen_within_gaps.insert(w);
                    assert(self.fullscreen_within_gaps@ =~= old(
                        self,
                    ).fullscreen_within_gaps@.insert(w));
                }
            },
            None => {},
        }
        selected
    }

    // ----- geometry -----

    /// What a resize command changes.
    pub fn resize_plan(&self, orientation: ResizeOrientation) -> (r: ResizePlan)
        ensures
            r == self@.resize_plan(orientation),
    {
        let vertical = match orientation {
            ResizeOrientation::Vertical => true,
            _ => false,
        };
        let smart = match orientation {
            ResizeOrientation::Smart => true,
            _ => false,
        };
        match self.selected_location() {
            Some((column, row)) => {
                assert(self@.columns[column as int] == self.columns@[column as int]@);
                let many = self.columns[column].windows.len() > 1;
                if vertical || (smart && many) {
                    if many {
                        ResizePlan::Row { column, row }
                    } else {
                        ResizePlan::Nothing
                    }
                } else {
                    ResizePlan::Width { column }
                }
            },
            None => if vertical {
                ResizePlan::Nothing
            } else {
                ResizePlan::Strip
            },
        }
    }

    /// Sets the width of a column by hand.
    pub fn set_width(&mut self, column: usize, offset: u64)
        requires
            old(self).wf(),
            column < old(self)@.columns.len(),
        ensures
            final(self).wf(),
            final(self)@ == old(self)@.with_width(column as int, offset),
    {
        assert(self@.columns[column as int] == self.columns@[column as int]@);
        self.columns[column].width_offset = offset;
        self.columns[column].width_overridden = true;
        assert(self@.columns =~= old(self)@.with_width(column as int, offset).columns);
    }

    /// Sets the heights in a column by hand.
    pub fn set_heights(&mut self, column: usize, weights: Vec<u64>)
        requires
            old(self).wf(),
            column < old(self)@.columns.len(),
        ensures
            final(self).wf(),
            final(self)@ == old(self)@.with_heights(column as int, weights@),
    {
        assert(self@.columns[column as int] == self.columns@[column as int]@);
        self.columns[column].height_weights = weights;
        assert(self@.columns =~= old(self)@.with_heights(column as int, weights@).columns);
    }

    /// Takes over a width that was dragged, and the heights where given.
    pub fn drag(&mut self, wid: WindowId, offset: u64, weights: Option<Vec<u64>>, niri: bool)
        requires
            old(self).wf(),
        ensures
            final(self).wf(),
            final(self)@ == old(self)@.dragged(
                wid,
                offset,
                view::listing(weights),
                niri,
            ),
    {
        if self.selected != Some(wid) {
            return;
        }
        let column = match self.locate(wid) {
            Some((column, _)) => column,
            None => {
                return;
            },
        };
        assert(self@.columns[column as int] == self.columns@[column as int]@);
        let many = self.columns[column].windows.len() > 1;
        self.set_width(column, offset);
        if many {
            if let Some(heights) = weights {
                self.set_heights(column, heights);
            }
        }
        self.follow_selection(niri);
    }

    pub fn set_column_width_ratio(&mut self, ratio: u64)
        requires
            old(self).wf(),
        ensures
            final(self).wf(),
            final(self)@ == (StripView { column_width_ratio: ratio, ..old(self)@ }),
    {
        self.column_width_ratio = ratio;
    }

    /// Snaps to a column and selects one of its windows, which is returned.
    pub fn snap(&mut self, column: usize, offset: u64) -> (r: Option<WindowId>)
        requires
            old(self).wf(),
            column < old(self)@.columns.len(),
        ensures
            final(self).wf(),
            final(self)@ == old(self)@.snapped(column as int, offset),
            r is Some ==> final(self)@.selected == r,
            r is None <==> old(self)@.columns[column as int].windows.len() == 0,
    {
        let row = match self.selected_location() {
            Some((_, row)) => row,
            None => 0,
        };
        assert(self@.columns[column as int] == self.columns@[column as int]@);
        self.scroll_offset_px = offset;
        let target = Self::row_of(&self.columns[column].windows, row);
        if target.is_some() {
            self.selected = target;
            self.request_reveal(0);
        }
        target
    }

    /// Takes the pending requests: whether to centre, whether to align, and the
    /// reveal code.
    pub fn take_scroll_requests(&mut self) -> (r: (bool, bool, i8))
        requires
            old(self).wf(),
        ensures
            final(self).wf(),
            r == (
                old(self)@.pending_center_align,
                old(self)@.pending_align,
                old(self)@.pending_reveal_direction,
            ),
            final(self)@ == old(self)@.scroll_done(),
    {
        let r = (self.pending_center_align, self.pending_align, self.pending_reveal_direction);
        self.pending_center_align = false;
        self.pending_align = false;
        self.pending_reveal_direction = 0;
        r
    }

    /// Remembers the measures of the last layout.
    pub fn store_measures(
        &mut self,
        screen_width: u64,
        gap_x: u64,
        step: u64,
        center_offset_delta: u64,
        scroll_offset: u64,
    )
        requires
            old(self).wf(),
        ensures
            final(self).wf(),
            final(self)@ == old(self)@.measured(
                screen_width,
                gap_x,
                step,
                center_offset_delta,
                scroll_offset,
            ),
    {
        self.last_screen_width = screen_width;
        self.last_gap_x = gap_x;
        self.last_step_px = step;
        self.last_center_offset_delta_px = center_offset_delta;
        self.scroll_offset_px = scroll_offset;
    }

    /// Remembers how far the strip was scrolled, and how far beyond its end.
    pub fn store_scroll(&mut self, scroll_offset: u64, overscroll: u64)
        requires
            old(self).wf(),
        ensures
            final(self).wf(),
            final(self)@ == old(self)@.scrolled(scroll_offset, overscroll),
    {
        self.scroll_offset_px = scroll_offset;
        self.overscroll_accumulation = overscroll;
    }

    /// The measures: scroll offset, last screen width, last gap, last step,
    /// last centring offset, overscroll.
    pub fn measures(&self) -> (r: (u64, u64, u64, u64, u64, u64))
        ensures
            r == (
                self@.scroll_offset_px,
                self@.last_screen_width,
                self@.last_gap_x,
                self@.last_step_px,
                self@.last_center_offset_delta_px,
                self@.overscroll_accumulation,
            ),
    {
        (
            self.scroll_offset_px,
            self.last_screen_width,
            self.last_gap_x,
            self.last_step_px,
            self.last_center_offset_delta_px,
            self.overscroll_accumulation,
        )
    }

    pub fn column_width_ratio(&self) -> (r: u64)
        ensures
            r == self@.column_width_ratio,
    {
        self.column_width_ratio
    }

    pub fn center_override_window(&self) -> (r: Option<WindowId>)
        ensures
            r == self@.center_override_window,
    {
        self.center_override_window
    }

    /// A column of the strip.
    pub fn column(&self, c: usize) -> (r: &Column)
        requires
            c < self@.columns.len(),
        ensures
            r@ == self@.columns[c as int],
    {
        assert(self@.columns[c as int] == self.columns@[c as int]@);
        &self.columns[c]
    }
}

} // verus!
