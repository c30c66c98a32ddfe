//! How a strip moves, apart from lengths.

use vstd::prelude::*;

use crate::actor::WindowId;
use crate::layout_engine::Direction;
use crate::layout_engine::systems::navigation::Coverage;
use crate::layout_engine::systems::scrolling::state::LayoutState;
use crate::layout_engine::systems::scrolling::view;
use crate::layout_engine::systems::scrolling::view::StripView;

verus! {

/// Where a strip is to scroll to.
#[derive(Clone, Copy, Debug, PartialEq, Eq, Structural)]
pub enum ScrollTarget {
    /// Where it is.
    Here,
    /// Its start.
    Start,
    /// The selected column at the anchor.
    Selected,
    /// The selected column in the middle.
    Centered,
}

/// Where a strip that was asked to centre or to align is to scroll to. Without a
/// selected window that is its start.
pub open spec fn scroll_target_for(center: bool, align: bool, selected: bool) -> ScrollTarget {
    if !center && !align {
        ScrollTarget::Here
    } else if !selected {
        ScrollTarget::Start
    } else if center {
        ScrollTarget::Centered
    } else {
        ScrollTarget::Selected
    }
}

/// Where a strip that was asked to centre or to align is to scroll to.
pub fn scroll_target(center: bool, align: bool, selected: bool) -> (r: ScrollTarget)
    ensures
        r == scroll_target_for(center, align, selected),
{
    if center {
        if selected {
            ScrollTarget::Centered
        } else {
            ScrollTarget::Start
        }
    } else if align {
        if selected {
            ScrollTarget::Selected
        } else {
            ScrollTarget::Start
        }
    } else {
        ScrollTarget::Here
    }
}

/// What it takes to show the selected column.
#[derive(Clone, Copy, Debug, PartialEq, Eq, Structural)]
pub enum RevealStep {
    /// It is to be seen already, or nobody asked.
    Stay,
    /// Its left edge goes to the left edge of the viewport.
    ToLeftEdge,
    /// Its right edge goes to the right edge of the viewport.
    ToRightEdge,
}

/// What it takes to show the selected column, given at which sides it is clipped.
/// Where it is clipped at both, the edge that focus moved towards counts; without
/// a direction it is the left one.
pub open spec fn reveal_step_for(code: i8, clipped_left: bool, clipped_right: bool) -> RevealStep {
    if code != view::REVEAL_LEFT && code != view::REVEAL_RIGHT && code != view::REVEAL_NEUTRAL {
        RevealStep::Stay
    } else if clipped_left && clipped_right {
        if code == view::REVEAL_RIGHT {
            RevealStep::ToRightEdge
        } else {
            RevealStep::ToLeftEdge
        }
    } else if clipped_left {
        RevealStep::ToLeftEdge
    } else if clipped_right {
        RevealStep::ToRightEdge
    } else {
        RevealStep::Stay
    }
}

/// What it takes to show the selected column.
pub fn reveal_step(code: i8, clipped_left: bool, clipped_right: bool) -> (r: RevealStep)
    ensures
        r == reveal_step_for(code, clipped_left, clipped_right),
{
    if code == view::REVEAL_RIGHT {
        if clipped_right {
            RevealStep::ToRightEdge
        } else if clipped_left {
            RevealStep::ToLeftEdge
        } else {
            RevealStep::Stay
        }
    } else if code == view::REVEAL_LEFT || code == view::REVEAL_NEUTRAL {
        if clipped_left {
            RevealStep::ToLeftEdge
        } else if clipped_right {
            RevealStep::ToRightEdge
        } else {
            RevealStep::Stay
        }
    } else {
        RevealStep::Stay
    }
}

/// Where a column is drawn.
#[derive(Clone, Copy, Debug, PartialEq, Eq, Structural)]
pub enum Parking {
    /// Where it lies.
    InView,
    /// Beyond the left edge of the screen.
    BeyondLeft,
    /// Beyond the right edge of the screen.
    BeyondRight,
}

/// A column that lies outside the viewport is parked beyond the screen.
pub fn parking(left_of_view: bool, right_of_view: bool) -> (r: Parking)
    ensures
        r is BeyondLeft <==> left_of_view,
        r is BeyondRight <==> right_of_view && !left_of_view,
{
    if left_of_view {
        Parking::BeyondLeft
    } else if right_of_view {
        Parking::BeyondRight
    } else {
        Parking::InView
    }
}

/// The end of a strip that a gesture went past: the start if it went back, the end
/// if it went forth.
pub open spec fn overshot_end(
    before_start: bool,
    past_end: bool,
    backwards: bool,
    forwards: bool,
) -> Option<Direction> {
    if before_start && backwards {
        Some(Direction::Left)
    } else if past_end && forwards {
        Some(Direction::Right)
    } else {
        None
    }
}

/// The end of a strip that a gesture went past.
pub fn overshot(
    before_start: bool,
    past_end: bool,
    backwards: bool,
    forwards: bool,
) -> (r: Option<Direction>)
    ensures
        r == overshot_end(before_start, past_end, backwards, forwards),
{
    if before_start && backwards {
        Some(Direction::Left)
    } else if past_end && forwards {
        Some(Direction::Right)
    } else {
        None
    }
}

/// What comes of going past an end: whether the way counts towards what was gone
/// before, and the direction in which to leave once that is enough.
pub fn overscroll(end: Option<Direction>, enough: bool) -> (r: (bool, Option<Direction>))
    ensures
        r.0 == (end is Some && !enough),
        r.1 == if enough {
            end
        } else {
            None
        },
{
    if enough {
        (false, end)
    } else {
        (end.is_some(), None)
    }
}

impl StripView {
    /// How much of the screen a window covers.
    pub open spec fn coverage(self, window: WindowId) -> Coverage {
        if self.fullscreen.contains(window) {
            Coverage::Screen
        } else if self.fullscreen_within_gaps.contains(window) {
            Coverage::WithinGaps
        } else {
            Coverage::Share
        }
    }

    /// Whether a column fills the viewport: it is the only one and its width was
    /// not set by hand.
    pub open spec fn fills_viewport(self, c: int) -> bool {
        self.columns.len() == 1 && !self.columns[c].width_overridden
    }
}

impl LayoutState {
    /// How much of the screen a window covers.
    pub fn coverage(&self, wid: WindowId) -> (r: Coverage)
        requires
            self.wf(),
        ensures
            r == self@.coverage(wid),
    {
        if self.is_fullscreen(wid) {
            Coverage::Screen
        } else if self.is_fullscreen_within_gaps(wid) {
            Coverage::WithinGaps
        } else {
            Coverage::Share
        }
    }

    /// Whether a column fills the viewport.
    pub fn fills_viewport(&self, c: usize) -> (r: bool)
        requires
            self.wf(),
            c < self@.columns.len(),
        ensures
            r == self@.fills_viewport(c as int),
    {
        self.column_count() == 1 && !self.column(c).width_overridden
    }
}

/// A column that is to be seen whole stays where it is, and one that is clipped
/// does not, once somebody asked for it.
pub proof fn law_reveal(code: i8, clipped_left: bool, clipped_right: bool)
    ensures
        !clipped_left && !clipped_right ==> reveal_step_for(code, clipped_left, clipped_right)
            is Stay,
        code == view::REVEAL_LEFT || code == view::REVEAL_RIGHT || code == view::REVEAL_NEUTRAL
            ==> (reveal_step_for(code, clipped_left, clipped_right) is Stay <==> !clipped_left
            && !clipped_right),
        reveal_step_for(code, clipped_left, clipped_right) is ToLeftEdge ==> clipped_left,
        reveal_step_for(code, clipped_left, clipped_right) is ToRightEdge ==> clipped_right,
        code == 0 ==> reveal_step_for(code, clipped_left, clipped_right) is Stay,
{
}

/// A toggle of fullscreen makes the selection cover the screen, or share it again;
/// the same within the gaps.
pub proof fn law_coverage_toggled(s: StripView, window: WindowId)
    requires
        s.selected_or_first() == Some(window),
    ensures
        s.fullscreen_toggled().coverage(window) is Screen <==> !s.fullscreen.contains(window),
        s.fullscreen_within_gaps_toggled().coverage(window) is WithinGaps <==> !(
        s.fullscreen_within_gaps.contains(window)),
        forall|other: WindowId|
            other != window ==> #[trigger] s.fullscreen_toggled().coverage(other) == s.coverage(
                other,
            ),
{
}

} // verus!
