//! What a strip is asked to show, and what its columns are known by.

use vstd::prelude::*;

use crate::actor::{Pid, WindowId};
use crate::common::config::WindowInsertionPoint;
use crate::layout_engine::Direction;
use crate::layout_engine::systems;
use crate::layout_engine::systems::scrolling::laws;
use crate::layout_engine::systems::scrolling::view;
use crate::layout_engine::systems::scrolling::view::{ColumnView, StripView};

verus! {

/// A strip is asked to do one thing at most: to centre the selection, to align
/// with it or to reveal it.
pub open spec fn at_most_one_request(s: StripView) -> bool {
    &&& !(s.pending_align && s.pending_center_align)
    &&& s.pending_reveal_direction != 0 ==> !s.pending_align && !s.pending_center_align
}

/// Each way to ask a strip for something leaves one request at most.
pub proof fn law_asking(s: StripView, code: i8, niri: bool)
    requires
        at_most_one_request(s),
    ensures
        at_most_one_request(s.aligning()),
        at_most_one_request(s.centering()),
        at_most_one_request(s.revealing(code)),
        at_most_one_request(s.following(niri)),
        at_most_one_request(s.settled()),
        at_most_one_request(s.scroll_done()),
{
}

/// Centring twice gives up centring, and the strip aligns with the selection.
pub proof fn law_centering_twice(s: StripView)
    requires
        s.selected_location() is Some,
        s.center_override_window != s.selected,
    ensures
        s.centering().center_override_window == s.selected,
        s.centering().pending_center_align,
        s.centering().centering().center_override_window is None,
        s.centering().centering().pending_align,
        !s.centering().centering().pending_center_align,
{
}

proof fn lemma_added(s: StripView, windows: Seq<WindowId>, point: WindowInsertionPoint)
    requires
        at_most_one_request(s),
    ensures
        at_most_one_request(s.windows_added(windows, point)),
    decreases windows.len(),
{
    if windows.len() > 0 {
        lemma_added(s, windows.drop_last(), point);
    }
}

proof fn lemma_removed(s: StripView, windows: Seq<WindowId>)
    requires
        at_most_one_request(s),
    ensures
        at_most_one_request(s.all_removed(windows)),
    decreases windows.len(),
{
    if windows.len() > 0 {
        lemma_removed(s, windows.drop_last());
    }
}

proof fn lemma_moved(s: StripView, windows: Seq<WindowId>, target: int)
    requires
        at_most_one_request(s),
    ensures
        at_most_one_request(s.all_moved_to_column(windows, target)),
    decreases windows.len(),
{
    if windows.len() > 0 {
        lemma_moved(s, windows.drop_last(), target);
    }
}

/// Windows that come and go leave one request at most.
pub proof fn law_one_request_as_windows_change(
    s: StripView,
    window: WindowId,
    other: WindowId,
    pid: Pid,
    desired: Seq<WindowId>,
    point: WindowInsertionPoint,
    niri: bool,
)
    requires
        at_most_one_request(s),
    ensures
        at_most_one_request(s.entered(window, point, niri)),
        at_most_one_request(s.removed(window)),
        at_most_one_request(s.app_removed(pid)),
        at_most_one_request(s.app_set(pid, desired, point, niri)),
        at_most_one_request(s.received(window, niri)),
        at_most_one_request(s.sent_away(window, niri)),
        at_most_one_request(s.with_replaced(window, other)),
        at_most_one_request(s.with_swapped(window, other)),
{
    let current = s.app_windows(pid);
    lemma_removed(s, current);
    let gone = systems::missing_from(current, desired);
    lemma_removed(s, gone);
    lemma_added(s.all_removed(gone), systems::newcomers(pid, current, desired), point);
}

/// Commands leave one request at most.
pub proof fn law_one_request_after_commands(
    s: StripView,
    direction: Direction,
    window: WindowId,
    niri: bool,
)
    requires
        at_most_one_request(s),
    ensures
        at_most_one_request(s.focus_moved(direction, niri)),
        at_most_one_request(s.window_selected(window, niri)),
        at_most_one_request(s.selection_moved(direction, niri)),
        at_most_one_request(s.joined(direction)),
        at_most_one_request(s.consumed_or_expelled(direction, niri)),
        at_most_one_request(s.unjoined(niri)),
        at_most_one_request(s.stacked()),
        at_most_one_request(s.unstacked()),
        at_most_one_request(s.fullscreen_toggled()),
        at_most_one_request(s.fullscreen_within_gaps_toggled()),
{
    if s.selected_location() is Some {
        lemma_moved(s, s.stacking_moves(), (s.selected_location()->0).0);
    }
}

/// A column keeps its identity whatever happens to the windows in it.
pub proof fn law_column_identity(
    c: ColumnView,
    row: int,
    other: int,
    window: WindowId,
    to: WindowId,
    weight: u64,
)
    requires
        c.node_id != 0,
    ensures
        c.without_row(row).stable_node() == c.stable_node(),
        c.with_row(window, weight).stable_node() == c.stable_node(),
        c.with_rows_swapped(row, other).stable_node() == c.stable_node(),
        c.renamed(window, to).stable_node() == c.stable_node(),
        c.fitted().stable_node() == c.stable_node(),
{
}

/// A new column is known by the window that started it.
pub proof fn law_new_column(window: WindowId, weight: u64)
    ensures
        view::lone_column(window, weight).stable_node() == view::column_node(window),
{
}

/// A column that moves past another takes its identity along, and so does the
/// other.
pub proof fn law_columns_change_places(s: StripView, direction: Direction)
    requires
        direction is Left || direction is Right,
        s.can_shift(direction),
        !s.selection_is_joined(),
    ensures
        ({
            let c = (s.selected_location()->0).0;
            let d = if direction is Left {
                c - 1
            } else {
                c + 1
            };
            let after = s.shifted(direction).columns;
            &&& after.len() == s.columns.len()
            &&& 0 <= c < after.len()
            &&& 0 <= d < after.len()
            &&& after[d] == s.columns[c]
            &&& after[c] == s.columns[d]
        }),
{
    laws::law_locate(s.columns, s.selected->0);
}

} // verus!
