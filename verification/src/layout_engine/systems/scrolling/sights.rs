//! What of a strip comes to be seen.

use vstd::prelude::*;

use crate::actor::WindowId;
use crate::common::config::ScrollingLayoutSettings;
use crate::layout_engine::systems::scrolling::motion;
use crate::layout_engine::systems::scrolling::places;
use crate::layout_engine::systems::scrolling::view;
use crate::layout_engine::systems::scrolling::view::{Anchor, StripView};
use crate::layout_engine::Direction;

verus! {

/// A column that the focus moved to and that is wider than the viewport shows its edge
/// on the side that the focus moved towards; its left edge where the focus moved up or
/// down. A column clipped at one side shows that side.
pub proof fn law_seen_after_focus(
    s: StripView,
    c: int,
    r: int,
    w: WindowId,
    direction: Direction,
    clipped_left: bool,
    clipped_right: bool,
)
    requires
        places::no_doubles(s),
        places::stands(s, c, r, w),
        s.selected == Some(w),
        s.focus_moved(direction, true).selected != s.selected,
    ensures
        ({
            let t = s.focus_moved(direction, true);
            let step = motion::reveal_step_for(
                t.pending_reveal_direction,
                clipped_left,
                clipped_right,
            );
            &&& !t.pending_align && !t.pending_center_align
            &&& clipped_left && clipped_right && direction is Right ==> step is ToRightEdge
            &&& clipped_left && clipped_right && !(direction is Right) ==> step is ToLeftEdge
            &&& clipped_left && !clipped_right ==> step is ToLeftEdge
            &&& !clipped_left && clipped_right ==> step is ToRightEdge
            &&& !clipped_left && !clipped_right ==> step is Stay
        }),
{
}

/// A strip goes where it was last asked to: it centres or aligns its selection, goes back
/// to its start without one, and else stays where it is.
pub proof fn law_scrolls(s: StripView, c: int, r: int, w: WindowId)
    requires
        places::no_doubles(s),
        places::stands(s, c, r, w),
        s.selected == Some(w),
    ensures
        s.center_override_window != s.selected ==> ({
            let t = s.aligning();
            motion::scroll_target_for(t.pending_center_align, t.pending_align, true) is Selected
        }),
        s.center_override_window == s.selected ==> ({
            let t = s.aligning();
            motion::scroll_target_for(t.pending_center_align, t.pending_align, true) is Centered
        }),
        s.center_override_window != s.selected ==> ({
            let t = s.centering();
            motion::scroll_target_for(t.pending_center_align, t.pending_align, true) is Centered
        }),
        ({
            let t = s.scroll_done();
            &&& motion::scroll_target_for(t.pending_center_align, t.pending_align, true) is Here
            &&& motion::reveal_step_for(t.pending_reveal_direction, true, true) is Stay
        }),
        forall|center: bool, align: bool|
            center || align ==> #[trigger] motion::scroll_target_for(center, align, false) is Start,
{
    places::law_found_where_it_stands(s, c, r, w);
}

/// A gesture leaves a strip only past the end that it heads for.
pub proof fn law_overshot(before_start: bool, past_end: bool, backwards: bool, forwards: bool)
    ensures
        ({
            let end = motion::overshot_end(before_start, past_end, backwards, forwards);
            &&& before_start && backwards && !(past_end && forwards) ==> end == Some(
                Direction::Left,
            )
            &&& past_end && forwards && !(before_start && backwards) ==> end == Some(
                Direction::Right,
            )
            &&& !(before_start && backwards) && !(past_end && forwards) ==> end is None
        }),
{
}

/// Where the selected column rests. A single column, and a centred one, rests as the
/// settings say. Of several, the first never rests at the right edge and the last never
/// at the left one; those between rest as the settings say. With the other style of
/// navigation a column rests at the left edge unless it is centred.
pub proof fn law_rests(
    settings: ScrollingLayoutSettings,
    count: nat,
    selected: int,
    centered: bool,
)
    requires
        0 <= selected < count,
    ensures
        ({
            let a = view::anchor_for(settings, count, selected, centered);
            let set = if settings.alignment is Left {
                Anchor::Left
            } else if settings.alignment is Center {
                Anchor::Center
            } else {
                Anchor::Right
            };
            let niri = settings.focus_navigation_style is Niri;
            &&& niri && !centered ==> a is Left
            &&& centered ==> a == set
            &&& !niri && count == 1 ==> a == set
            &&& !niri && 0 < selected < count - 1 ==> a == set
            &&& !niri && !centered && count > 1 && selected == 0 ==> a is Left
            &&& !niri && !centered && count > 1 && selected == count - 1 ==> a is Right
        }),
{
}

} // verus!
