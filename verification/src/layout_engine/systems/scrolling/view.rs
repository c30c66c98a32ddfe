//! A strip as a mathematical object, and what each command makes of it.

use vstd::prelude::*;

use crate::actor::{Pid, WindowId};
use crate::common::config::{ScrollingAlignment, ScrollingLayoutSettings, WindowInsertionPoint};
use crate::layout_engine::systems;
use crate::layout_engine::{Direction, ResizeOrientation};

verus! {

/// The bits of the number one.
pub const ONE_BITS: u64 = 0x3FF0000000000000;

/// The bits of the number zero.
pub const ZERO_BITS: u64 = 0;

/// A strip scrolls to show the selected column after focus went left.
pub const REVEAL_LEFT: i8 = -1;

/// A strip scrolls to show the selected column after focus went right.
pub const REVEAL_RIGHT: i8 = 1;

/// A strip scrolls just enough to show the selected column.
pub const REVEAL_NEUTRAL: i8 = 2;

/// A number that tells windows apart: process in the upper half, number in the lower.
pub open spec fn packed(window: WindowId) -> u64 {
    ((window.pid as u32 as u64) << 32) | (window.idx as u64)
}

/// The node number of a window is odd.
pub open spec fn window_node(window: WindowId) -> u64 {
    ((packed(window) << 1) | (packed(window) >> 63)) | 1
}

/// The node number of a column that a window started, before a window's bit is set.
pub open spec fn column_node(window: WindowId) -> u64 {
    (packed(window) << 1) | (packed(window) >> 63)
}

/// A column: its windows from top to bottom with their heights, and how its
/// width deviates from that of the strip.
pub struct ColumnView {
    pub node_id: u64,
    pub windows: Seq<WindowId>,
    pub width_offset: u64,
    pub width_overridden: bool,
    pub height_weights: Seq<u64>,
}

/// A strip: columns from left to right, the selection, and how it has to scroll.
pub struct StripView {
    pub columns: Seq<ColumnView>,
    pub selected: Option<WindowId>,
    pub column_width_ratio: u64,
    pub scroll_offset_px: u64,
    pub pending_align: bool,
    pub pending_center_align: bool,
    pub pending_reveal_direction: i8,
    pub center_override_window: Option<WindowId>,
    pub last_screen_width: u64,
    pub last_gap_x: u64,
    pub last_step_px: u64,
    pub last_center_offset_delta_px: u64,
    pub overscroll_accumulation: u64,
    pub fullscreen: Set<WindowId>,
    pub fullscreen_within_gaps: Set<WindowId>,
}

/// What a resize command changes.
#[derive(Clone, Copy, Debug, PartialEq, Eq, Structural)]
pub enum ResizePlan {
    Nothing,
    /// The width of all columns.
    Strip,
    /// The width of one column.
    Width { column: usize },
    /// The height of one row.
    Row { column: usize, row: usize },
}

/// Where the selected column comes to rest.
#[derive(Clone, Copy, Debug, PartialEq, Eq, Structural)]
pub enum Anchor {
    Left,
    Center,
    Right,
}

/// A choice as a list.
pub open spec fn just(choice: Option<WindowId>) -> Seq<WindowId> {
    match choice {
        Some(w) => seq![w],
        None => Seq::empty(),
    }
}

/// What an optional vector lists.
pub open spec fn listing(list: Option<Vec<u64>>) -> Option<Seq<u64>> {
    match list {
        Some(v) => Some(v@),
        None => None,
    }
}

/// The first position of a window in a list, from `from` on.
pub open spec fn first_at(list: Seq<WindowId>, window: WindowId, from: int) -> Option<int>
    decreases list.len() - from,
{
    if 0 <= from < list.len() {
        if list[from] == window {
            Some(from)
        } else {
            first_at(list, window, from + 1)
        }
    } else {
        None
    }
}

/// The column and row of a window, from a column on.
pub open spec fn find_in(columns: Seq<ColumnView>, window: WindowId, from: int) -> Option<
    (int, int),
>
    decreases columns.len() - from,
{
    if 0 <= from < columns.len() {
        match first_at(columns[from].windows, window, 0) {
            Some(row) => Some((from, row)),
            None => find_in(columns, window, from + 1),
        }
    } else {
        None
    }
}

/// The windows of the first columns, column by column.
pub open spec fn flattened(columns: Seq<ColumnView>) -> Seq<WindowId>
    decreases columns.len(),
{
    if columns.len() == 0 {
        Seq::empty()
    } else {
        flattened(columns.drop_last()) + columns.last().windows
    }
}

/// As many weights as windows: missing ones are one.
pub open spec fn fitted(weights: Seq<u64>, count: nat) -> Seq<u64> {
    Seq::new(
        count,
        |i: int|
            if i < weights.len() {
                weights[i]
            } else {
                ONE_BITS
            },
    )
}

/// A column with a single window.
pub open spec fn lone_column(window: WindowId, weight: u64) -> ColumnView {
    ColumnView {
        node_id: column_node(window),
        windows: seq![window],
        width_offset: ZERO_BITS,
        width_overridden: false,
        height_weights: seq![weight],
    }
}

pub open spec fn swapped<T>(list: Seq<T>, i: int, j: int) -> Seq<T> {
    list.update(i, list[j]).update(j, list[i])
}

impl ColumnView {
    pub open spec fn fitted(self) -> ColumnView {
        ColumnView { height_weights: fitted(self.height_weights, self.windows.len()), ..self }
    }

    /// The column without one of its windows.
    pub open spec fn without_row(self, row: int) -> ColumnView {
        ColumnView {
            windows: self.windows.remove(row),
            height_weights: self.fitted().height_weights.remove(row),
            ..self
        }
    }

    /// The column with one more window at its end.
    pub open spec fn with_row(self, window: WindowId, weight: u64) -> ColumnView {
        ColumnView {
            windows: self.windows.push(window),
            height_weights: self.fitted().height_weights.push(weight),
            ..self
        }
    }

    pub open spec fn with_rows_swapped(self, i: int, j: int) -> ColumnView {
        ColumnView {
            windows: swapped(self.windows, i, j),
            height_weights: swapped(self.fitted().height_weights, i, j),
            ..self
        }
    }

    pub open spec fn renamed(self, from: WindowId, to: WindowId) -> ColumnView {
        ColumnView {
            windows: self.windows.map_values(
                |w: WindowId|
                    if w == from {
                        to
                    } else {
                        w
                    },
            ),
            ..self
        }
    }

    /// The node number that identifies the column.
    pub open spec fn stable_node(self) -> u64 {
        if self.node_id != 0 {
            self.node_id
        } else if self.windows.len() > 0 {
            column_node(self.windows[0])
        } else {
            1
        }
    }
}

pub open spec fn renamed_choice(choice: Option<WindowId>, from: WindowId, to: WindowId) -> Option<
    WindowId,
> {
    if choice == Some(from) {
        Some(to)
    } else {
        choice
    }
}

pub open spec fn renamed_member(set: Set<WindowId>, from: WindowId, to: WindowId) -> Set<WindowId> {
    if set.contains(from) {
        set.remove(from).insert(to)
    } else {
        set
    }
}

impl StripView {
    /// A strip without columns.
    pub open spec fn empty(column_width_ratio: u64) -> StripView {
        StripView {
            columns: Seq::empty(),
            selected: None,
            column_width_ratio,
            scroll_offset_px: ZERO_BITS,
            pending_align: false,
            pending_center_align: false,
            pending_reveal_direction: 0,
            center_override_window: None,
            last_screen_width: ZERO_BITS,
            last_gap_x: ZERO_BITS,
            last_step_px: ZERO_BITS,
            last_center_offset_delta_px: ZERO_BITS,
            overscroll_accumulation: ZERO_BITS,
            fullscreen: Set::empty(),
            fullscreen_within_gaps: Set::empty(),
        }
    }

    pub open spec fn locate(self, window: WindowId) -> Option<(int, int)> {
        find_in(self.columns, window, 0)
    }

    pub open spec fn selected_location(self) -> Option<(int, int)> {
        match self.selected {
            Some(w) => self.locate(w),
            None => None,
        }
    }

    pub open spec fn first_window(self) -> Option<WindowId> {
        if self.columns.len() > 0 && self.columns[0].windows.len() > 0 {
            Some(self.columns[0].windows[0])
        } else {
            None
        }
    }

    pub open spec fn selected_or_first(self) -> Option<WindowId> {
        if self.selected is Some {
            self.selected
        } else {
            self.first_window()
        }
    }

    pub open spec fn all_windows(self) -> Seq<WindowId> {
        flattened(self.columns)
    }

    pub open spec fn app_windows(self, pid: Pid) -> Seq<WindowId> {
        self.all_windows().filter(|w: WindowId| w.pid == pid)
    }

    pub open spec fn selected_column(self) -> Seq<WindowId> {
        match self.selected_location() {
            Some((c, _)) => self.columns[c].windows,
            None => Seq::empty(),
        }
    }

    // ----- scrolling requests -----

    /// The strip has to align with the selection: centred while the same
    /// window stays centred, else at the anchor. Without a selected window it
    /// goes back to its start.
    pub open spec fn aligning(self) -> StripView {
        if self.center_override_window is Some && self.center_override_window == self.selected {
            StripView {
                pending_center_align: true,
                pending_reveal_direction: 0,
                pending_align: false,
                ..self
            }
        } else {
            let s = StripView {
                center_override_window: None,
                pending_center_align: false,
                pending_reveal_direction: 0,
                ..self
            };
            if self.selected_location() is None {
                StripView { scroll_offset_px: ZERO_BITS, ..s }
            } else {
                StripView { pending_align: true, ..s }
            }
        }
    }

    /// Centring is requested, or given up if the selection is centred already.
    pub open spec fn centering(self) -> StripView {
        if self.selected_location() is None {
            self
        } else if self.center_override_window is Some && self.center_override_window
            == self.selected {
            StripView {
                center_override_window: None,
                pending_center_align: false,
                pending_align: true,
                pending_reveal_direction: 0,
                ..self
            }
        } else {
            StripView {
                center_override_window: self.selected,
                pending_center_align: true,
                pending_align: false,
                pending_reveal_direction: 0,
                ..self
            }
        }
    }

    pub open spec fn revealing(self, code: i8) -> StripView {
        StripView {
            center_override_window: None,
            pending_center_align: false,
            pending_align: false,
            pending_reveal_direction: code,
            ..self
        }
    }

    /// After a change of selection the strip reveals or aligns, by the style.
    pub open spec fn following(self, niri: bool) -> StripView {
        if niri {
            self.revealing(REVEAL_NEUTRAL)
        } else {
            self.aligning()
        }
    }

    /// The strip keeps its position, or goes back to its start if it is empty.
    pub open spec fn settled(self) -> StripView {
        if self.columns.len() == 0 {
            StripView { scroll_offset_px: ZERO_BITS, ..self }
        } else {
            StripView { pending_align: false, ..self }
        }
    }

    // ----- columns -----

    pub open spec fn with_column(self, at: int, column: ColumnView) -> StripView {
        StripView { columns: self.columns.insert(at, column), ..self }
    }

    /// A new column behind column `index`, with its window selected.
    pub open spec fn column_added_after(self, index: int, window: WindowId) -> StripView {
        let at = if index + 1 < self.columns.len() {
            index + 1
        } else {
            self.columns.len() as int
        };
        StripView {
            selected: Some(window),
            ..self.with_column(at, lone_column(window, ONE_BITS))
        }.aligning()
    }

    pub open spec fn column_added_at_end(self, window: WindowId) -> StripView {
        StripView {
            selected: Some(window),
            ..self.with_column(self.columns.len() as int, lone_column(window, ONE_BITS))
        }.aligning()
    }

    /// A new window gets a column: at the end, or behind the selected one. A
    /// strip without selection takes it behind its first column.
    pub open spec fn window_added(self, window: WindowId, point: WindowInsertionPoint) ->
        StripView {
        if point is EndOfTree {
            self.column_added_at_end(window)
        } else {
            match self.selected_location() {
                Some((c, _)) => self.column_added_after(c, window),
                None => if self.columns.len() > 0 {
                    self.column_added_after(0, window)
                } else {
                    self.column_added_at_end(window)
                },
            }
        }
    }

    /// A window enters the strip.
    pub open spec fn entered(self, window: WindowId, point: WindowInsertionPoint, niri: bool) ->
        StripView {
        let s = self.window_added(window, point);
        if niri {
            s.revealing(REVEAL_NEUTRAL)
        } else {
            s
        }
    }

    pub open spec fn windows_added(self, windows: Seq<WindowId>, point: WindowInsertionPoint) ->
        StripView
        decreases windows.len(),
    {
        if windows.len() == 0 {
            self
        } else {
            self.windows_added(windows.drop_last(), point).window_added(windows.last(), point)
        }
    }

    /// The columns without the window at a place. An empty column disappears.
    pub open spec fn columns_without(self, c: int, row: int) -> Seq<ColumnView> {
        let rest = self.columns[c].without_row(row);
        if rest.windows.len() == 0 {
            self.columns.remove(c)
        } else {
            self.columns.update(c, rest)
        }
    }

    /// The selection after the window at a place is gone: the window that took
    /// its place, else the last of the column there, else the last of the
    /// column before, else the first of all.
    pub open spec fn heir(columns: Seq<ColumnView>, c: int, row: int) -> Option<WindowId> {
        let here = if c < columns.len() {
            if row < columns[c].windows.len() {
                Some(columns[c].windows[row])
            } else if columns[c].windows.len() > 0 {
                Some(columns[c].windows.last())
            } else {
                None
            }
        } else {
            None
        };
        let before = if c > 0 && c - 1 < columns.len() && columns[c - 1].windows.len() > 0 {
            Some(columns[c - 1].windows.last())
        } else {
            None
        };
        if here is Some {
            here
        } else if before is Some {
            before
        } else if columns.len() > 0 && columns[0].windows.len() > 0 {
            Some(columns[0].windows[0])
        } else {
            None
        }
    }

    /// A window is gone from the strip.
    pub open spec fn removed(self, window: WindowId) -> StripView {
        match self.locate(window) {
            Some((c, row)) => {
                let columns = self.columns_without(c, row);
                StripView {
                    columns,
                    fullscreen: self.fullscreen.remove(window),
                    fullscreen_within_gaps: self.fullscreen_within_gaps.remove(window),
                    selected: if self.selected == Some(window) {
                        Self::heir(columns, c, row)
                    } else {
                        self.selected
                    },
                    center_override_window: if self.center_override_window == Some(window) {
                        None
                    } else {
                        self.center_override_window
                    },
                    ..self
                }.settled()
            },
            None => self,
        }
    }

    pub open spec fn all_removed(self, windows: Seq<WindowId>) -> StripView
        decreases windows.len(),
    {
        if windows.len() == 0 {
            self
        } else {
            self.all_removed(windows.drop_last()).removed(windows.last())
        }
    }

    /// A window moves to the end of another column, or to a new one behind the
    /// last, and is selected.
    pub open spec fn moved_to_column(self, window: WindowId, target: int) -> StripView {
        match self.locate(window) {
            Some((c, row)) => if c == target {
                self
            } else {
                let weight = self.columns[c].fitted().height_weights[row];
                let gone = self.columns[c].windows.len() == 1;
                let columns = self.columns_without(c, row);
                let at = if gone && c < target {
                    target - 1
                } else {
                    target
                };
                let placed = if at >= columns.len() {
                    columns.push(lone_column(window, ONE_BITS))
                } else {
                    columns.update(at, columns[at].with_row(window, weight))
                };
                StripView { columns: placed, selected: Some(window), ..self }.aligning()
            },
            None => self,
        }
    }

    pub open spec fn all_moved_to_column(self, windows: Seq<WindowId>, target: int) -> StripView
        decreases windows.len(),
    {
        if windows.len() == 0 {
            self
        } else {
            self.all_moved_to_column(windows.drop_last(), target).moved_to_column(
                windows.last(),
                target,
            )
        }
    }

    /// The window at a place leaves its column for one of its own and is selected.
    pub open spec fn extracted(self, c: int, row: int, at: int) -> StripView {
        let window = self.columns[c].windows[row];
        let weight = self.columns[c].fitted().height_weights[row];
        StripView {
            columns: self.columns.update(c, self.columns[c].without_row(row)).insert(
                at,
                lone_column(window, weight),
            ),
            selected: Some(window),
            ..self
        }
    }

    // ----- focus -----

    /// The window next to the selection in a direction. Across columns the row
    /// is kept as far as the column reaches.
    pub open spec fn neighbour(self, direction: Direction) -> Option<WindowId> {
        match self.selected_location() {
            Some((c, row)) => match direction {
                Direction::Up => if row > 0 {
                    Some(self.columns[c].windows[row - 1])
                } else {
                    None
                },
                Direction::Down => if row + 1 < self.columns[c].windows.len() {
                    Some(self.columns[c].windows[row + 1])
                } else {
                    None
                },
                Direction::Left => if c > 0 {
                    Self::row_of(self.columns[c - 1].windows, row)
                } else {
                    None
                },
                Direction::Right => if c + 1 < self.columns.len() {
                    Self::row_of(self.columns[c + 1].windows, row)
                } else {
                    None
                },
            },
            None => None,
        }
    }

    /// The window in a row, or the last one.
    pub open spec fn row_of(windows: Seq<WindowId>, row: int) -> Option<WindowId> {
        if windows.len() == 0 {
            None
        } else if row < windows.len() {
            Some(windows[row])
        } else {
            Some(windows.last())
        }
    }

    pub open spec fn selecting(self, choice: Option<WindowId>) -> StripView {
        if choice is Some {
            StripView { selected: choice, ..self }
        } else {
            self
        }
    }

    pub open spec fn focus_moved(self, direction: Direction, niri: bool) -> StripView {
        let next = self.neighbour(direction);
        let s = self.selecting(next);
        if next is Some && niri {
            match direction {
                Direction::Left => s.revealing(REVEAL_LEFT),
                Direction::Right => s.revealing(REVEAL_RIGHT),
                _ => s.revealing(REVEAL_NEUTRAL),
            }
        } else {
            s.aligning()
        }
    }

    pub open spec fn window_selected(self, window: WindowId, niri: bool) -> StripView {
        if self.locate(window) is None || (self.selected == Some(window)
            && self.center_override_window == Some(window)) {
            self
        } else {
            StripView { selected: Some(window), ..self }.following(niri)
        }
    }

    // ----- commands -----

    /// Whether the selection can move in a direction: out of a column that it
    /// shares, past a neighbouring column, or past a neighbouring row.
    pub open spec fn can_shift(self, direction: Direction) -> bool {
        match self.selected_location() {
            Some((c, row)) => match direction {
                Direction::Up => row > 0,
                Direction::Down => row + 1 < self.columns[c].windows.len(),
                Direction::Left => self.columns[c].windows.len() > 1 || c > 0,
                Direction::Right => self.columns[c].windows.len() > 1 || c + 1
                    < self.columns.len(),
            },
            None => false,
        }
    }

    pub open spec fn shifted(self, direction: Direction) -> StripView {
        let (c, row) = self.selected_location()->0;
        match direction {
            Direction::Up => StripView {
                columns: self.columns.update(c, self.columns[c].with_rows_swapped(row, row - 1)),
                ..self
            },
            Direction::Down => StripView {
                columns: self.columns.update(c, self.columns[c].with_rows_swapped(row, row + 1)),
                ..self
            },
            Direction::Left => if self.columns[c].windows.len() > 1 {
                self.extracted(c, row, c)
            } else {
                StripView { columns: swapped(self.columns, c, c - 1), ..self }
            },
            Direction::Right => if self.columns[c].windows.len() > 1 {
                self.extracted(c, row, c + 1)
            } else {
                StripView { columns: swapped(self.columns, c, c + 1), ..self }
            },
        }
    }

    pub open spec fn selection_moved(self, direction: Direction, niri: bool) -> StripView {
        if self.can_shift(direction) {
            self.shifted(direction).following(niri)
        } else {
            self
        }
    }

    /// The selection moves into the neighbouring column.
    pub open spec fn joined(self, direction: Direction) -> StripView {
        match self.selected_location() {
            Some((c, _)) => match direction {
                Direction::Left => if c > 0 {
                    self.moved_to_column(self.selected->0, c - 1)
                } else {
                    self
                },
                Direction::Right => if c + 1 < self.columns.len() {
                    self.moved_to_column(self.selected->0, c + 1)
                } else {
                    self
                },
                _ => self,
            },
            None => self,
        }
    }

    /// The selection shares its column.
    pub open spec fn selection_is_joined(self) -> bool {
        match self.selected_location() {
            Some((c, _)) => self.columns[c].windows.len() > 1,
            None => false,
        }
    }

    /// The selection leaves its column at a side.
    pub open spec fn expelled(self, to_left: bool, niri: bool) -> StripView {
        let (c, row) = self.selected_location()->0;
        self.extracted(
            c,
            row,
            if to_left {
                c
            } else {
                c + 1
            },
        ).following(niri).settled()
    }

    pub open spec fn consumed_or_expelled(self, direction: Direction, niri: bool) -> StripView {
        match direction {
            Direction::Left | Direction::Right => if self.selection_is_joined() {
                self.expelled(direction is Left, niri)
            } else {
                self.joined(direction)
            },
            _ => self,
        }
    }

    pub open spec fn unjoined(self, niri: bool) -> StripView {
        if self.selection_is_joined() {
            self.expelled(false, niri)
        } else {
            self
        }
    }

    /// The column whose windows a stacking command takes over.
    pub open spec fn stacking_source(self) -> Option<int> {
        match self.selected_location() {
            Some((c, _)) => if c + 1 < self.columns.len() {
                Some(c + 1)
            } else if c > 0 {
                Some(c - 1)
            } else {
                None
            },
            None => None,
        }
    }

    /// The windows that a stacking command moves.
    pub open spec fn stacking_moves(self) -> Seq<WindowId> {
        match self.stacking_source() {
            Some(t) => self.columns[t].windows,
            None => Seq::empty(),
        }
    }

    pub open spec fn stacked(self) -> StripView {
        match self.selected_location() {
            Some((c, _)) => self.all_moved_to_column(self.stacking_moves(), c),
            None => self,
        }
    }

    /// The windows that an unstacking command gives columns of their own.
    pub open spec fn unstacking_moves(self) -> Seq<WindowId> {
        if self.selection_is_joined() {
            let (c, row) = self.selected_location()->0;
            let chosen = self.columns[c].windows[row];
            self.columns[c].windows.filter(|w: WindowId| w != chosen)
        } else {
            Seq::empty()
        }
    }

    /// The weights of the windows of a column that are, or are not, `window`.
    pub open spec fn weights_of(column: ColumnView, window: WindowId, keep: bool, upto: int) ->
        Seq<u64>
        decreases upto,
    {
        if upto <= 0 {
            Seq::empty()
        } else {
            let rest = Self::weights_of(column, window, keep, upto - 1);
            if (column.windows[upto - 1] == window) == keep {
                rest.push(column.fitted().height_weights[upto - 1])
            } else {
                rest
            }
        }
    }

    pub open spec fn unstacked(self) -> StripView {
        if self.selection_is_joined() {
            let (c, row) = self.selected_location()->0;
            let column = self.columns[c];
            let chosen = column.windows[row];
            let moved = self.unstacking_moves();
            let weights = Self::weights_of(column, chosen, false, column.windows.len() as int);
            let kept = ColumnView {
                windows: column.windows.filter(|w: WindowId| w == chosen),
                height_weights: Self::weights_of(
                    column,
                    chosen,
                    true,
                    column.windows.len() as int,
                ),
                ..column
            };
            StripView {
                columns: self.columns.take(c) + seq![kept] + Seq::new(
                    moved.len(),
                    |i: int| lone_column(moved[i], weights[i]),
                ) + self.columns.skip(c + 1),
                ..self
            }
        } else {
            self
        }
    }

    pub open spec fn can_swap(self, a: WindowId, b: WindowId) -> bool {
        self.locate(a) is Some && self.locate(b) is Some
    }

    /// Two windows change places, with their heights.
    pub open spec fn with_swapped(self, a: WindowId, b: WindowId) -> StripView {
        if self.can_swap(a, b) {
            let (ac, ar) = self.locate(a)->0;
            let (bc, br) = self.locate(b)->0;
            if ac == bc {
                StripView {
                    columns: self.columns.update(ac, self.columns[ac].with_rows_swapped(ar, br)),
                    ..self
                }
            } else {
                let x = self.columns[ac].fitted();
                let y = self.columns[bc].fitted();
                StripView {
                    columns: self.columns.update(
                        ac,
                        ColumnView {
                            windows: x.windows.update(ar, y.windows[br]),
                            height_weights: x.height_weights.update(ar, y.height_weights[br]),
                            ..x
                        },
                    ).update(
                        bc,
                        ColumnView {
                            windows: y.windows.update(br, x.windows[ar]),
                            height_weights: y.height_weights.update(br, x.height_weights[ar]),
                            ..y
                        },
                    ),
                    ..self
                }
            }
        } else {
            self
        }
    }

    pub open spec fn with_replaced(self, from: WindowId, to: WindowId) -> StripView {
        StripView {
            columns: self.columns.map_values(|c: ColumnView| c.renamed(from, to)),
            selected: renamed_choice(self.selected, from, to),
            center_override_window: renamed_choice(self.center_override_window, from, to),
            fullscreen: renamed_member(self.fullscreen, from, to),
            fullscreen_within_gaps: renamed_member(self.fullscreen_within_gaps, from, to),
            ..self
        }
    }

    pub open spec fn app_removed(self, pid: Pid) -> StripView {
        self.all_removed(self.app_windows(pid))
    }

    pub open spec fn app_set(
        self,
        pid: Pid,
        desired: Seq<WindowId>,
        point: WindowInsertionPoint,
        niri: bool,
    ) -> StripView {
        let current = self.app_windows(pid);
        let s = self.all_removed(systems::missing_from(current, desired)).windows_added(
            systems::newcomers(pid, current, desired),
            point,
        );
        if niri {
            s.revealing(REVEAL_NEUTRAL)
        } else {
            s
        }
    }

    /// A window from another strip gets a column of its own beside the selection.
    pub open spec fn received(self, window: WindowId, niri: bool) -> StripView {
        match self.selected_location() {
            Some((c, _)) => self.column_added_after(c, window),
            None => self.column_added_at_end(window),
        }.following(niri)
    }

    /// The selection goes to another strip.
    pub open spec fn sent_away(self, window: WindowId, niri: bool) -> StripView {
        self.removed(window).following(niri)
    }

    pub open spec fn fullscreen_toggled(self) -> StripView {
        match self.selected_or_first() {
            Some(w) => if self.fullscreen.contains(w) {
                StripView { fullscreen: self.fullscreen.remove(w), ..self }
            } else {
                StripView {
                    fullscreen: self.fullscreen.insert(w),
                    fullscreen_within_gaps: self.fullscreen_within_gaps.remove(w),
                    ..self
                }
            },
            None => self,
        }
    }

    pub open spec fn fullscreen_within_gaps_toggled(self) -> StripView {
        match self.selected_or_first() {
            Some(w) => if self.fullscreen_within_gaps.contains(w) {
                StripView {
                    fullscreen_within_gaps: self.fullscreen_within_gaps.remove(w),
                    ..self
                }
            } else {
                StripView {
                    fullscreen: self.fullscreen.remove(w),
                    fullscreen_within_gaps: self.fullscreen_within_gaps.insert(w),
                    ..self
                }
            },
            None => self,
        }
    }

    // ----- geometry -----

    /// The measures of the last layout are remembered.
    pub open spec fn measured(
        self,
        screen_width: u64,
        gap_x: u64,
        step: u64,
        center_offset_delta: u64,
        scroll_offset: u64,
    ) -> StripView {
        StripView {
            last_screen_width: screen_width,
            last_gap_x: gap_x,
            last_step_px: step,
            last_center_offset_delta_px: center_offset_delta,
            scroll_offset_px: scroll_offset,
            ..self
        }
    }

    /// How far the strip was scrolled is remembered.
    pub open spec fn scrolled(self, scroll_offset: u64, overscroll: u64) -> StripView {
        StripView {
            scroll_offset_px: scroll_offset,
            overscroll_accumulation: overscroll,
            ..self
        }
    }

    /// What a resize command changes.
    pub open spec fn resize_plan(self, orientation: ResizeOrientation) -> ResizePlan {
        match self.selected_location() {
            Some((c, row)) => {
                let many = self.columns[c].windows.len() > 1;
                if orientation is Vertical || (orientation is Smart && many) {
                    if many {
                        ResizePlan::Row { column: c as usize, row: row as usize }
                    } else {
                        ResizePlan::Nothing
                    }
                } else {
                    ResizePlan::Width { column: c as usize }
                }
            },
            None => if orientation is Vertical {
                ResizePlan::Nothing
            } else {
                ResizePlan::Strip
            },
        }
    }

    /// The width of a column is set by hand.
    pub open spec fn with_width(self, c: int, offset: u64) -> StripView {
        StripView {
            columns: self.columns.update(
                c,
                ColumnView {
                    width_offset: offset,
                    width_overridden: true,
                    ..self.columns[c]
                },
            ),
            ..self
        }
    }

    /// The heights in a column are set by hand.
    pub open spec fn with_heights(self, c: int, weights: Seq<u64>) -> StripView {
        StripView {
            columns: self.columns.update(
                c,
                ColumnView { height_weights: weights, ..self.columns[c] },
            ),
            ..self
        }
    }

    /// A width was dragged: the strip takes it over if the window is selected,
    /// with the heights in its column where they were dragged too.
    pub open spec fn dragged(
        self,
        window: WindowId,
        offset: u64,
        weights: Option<Seq<u64>>,
        niri: bool,
    ) -> StripView {
        match self.locate(window) {
            Some((c, _)) if self.selected == Some(window) => {
                let s = self.with_width(c, offset);
                match weights {
                    Some(w) if self.columns[c].windows.len() > 1 => s.with_heights(c, w),
                    _ => s,
                }.following(niri)
            },
            _ => self,
        }
    }

    /// The strip has scrolled as it was asked to.
    pub open spec fn scroll_done(self) -> StripView {
        StripView {
            pending_center_align: false,
            pending_align: false,
            pending_reveal_direction: 0,
            ..self
        }
    }

    /// The strip snapped to a column: its window in the selected row, or its
    /// last one, is selected.
    pub open spec fn snapped(self, c: int, offset: u64) -> StripView {
        let row = match self.selected_location() {
            Some((_, r)) => r,
            None => 0,
        };
        let s = StripView { scroll_offset_px: offset, ..self };
        match Self::row_of(self.columns[c].windows, row) {
            Some(w) => StripView { selected: Some(w), ..s }.revealing(0),
            None => s,
        }
    }
}

/// Where the selected column comes to rest. Without centring, the outermost
/// columns rest at the edge of the screen that they are next to.
pub open spec fn anchor_for(
    settings: ScrollingLayoutSettings,
    count: nat,
    selected: int,
    centered: bool,
) -> Anchor {
    let niri = settings.focus_navigation_style is Niri;
    if niri && !centered {
        Anchor::Left
    } else {
        let edges = !niri && !centered && count > 1;
        match settings.alignment {
            ScrollingAlignment::Left => if edges && selected == count - 1 {
                Anchor::Right
            } else {
                Anchor::Left
            },
            ScrollingAlignment::Center => if edges && selected == 0 {
                Anchor::Left
            } else if edges && selected == count - 1 {
                Anchor::Right
            } else {
                Anchor::Center
            },
            ScrollingAlignment::Right => if edges && selected == 0 {
                Anchor::Left
            } else {
                Anchor::Right
            },
        }
    }
}

} // verus!
