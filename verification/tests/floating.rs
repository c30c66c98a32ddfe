#![allow(dead_code)]

use std::collections::HashMap;

use rift::actor::{LayoutId, WindowId};
use rift::common::config::StackDefaultOrientation;
use rift::geometry::Frame;
use rift::layout_engine::systems::floating::system::FloatingLayoutSystem;
use rift::layout_engine::systems::navigation::Coverage;
use rift::layout_engine::Direction;
use rift::model::tree::view::NodeId;

/// A rectangle on the screen.
#[derive(Clone, Copy, Debug, Default, PartialEq)]
struct Rect {
    x: f64,
    y: f64,
    width: f64,
    height: f64,
}

impl Rect {
    fn new(x: f64, y: f64, width: f64, height: f64) -> Rect {
        Rect { x, y, width, height }
    }

    fn right(&self) -> f64 {
        self.x + self.width
    }

    fn bottom(&self) -> f64 {
        self.y + self.height
    }

    fn mid(&self) -> (f64, f64) {
        (self.x + self.width / 2.0, self.y + self.height / 2.0)
    }

    /// Both corners on whole points.
    fn round(&self) -> Rect {
        let (x, y) = (self.x.round(), self.y.round());
        Rect { x, y, width: self.right().round() - x, height: self.bottom().round() - y }
    }
}

impl From<Rect> for Frame {
    fn from(rect: Rect) -> Frame {
        Frame {
            x: rect.x.to_bits(),
            y: rect.y.to_bits(),
            width: rect.width.to_bits(),
            height: rect.height.to_bits(),
        }
    }
}

impl From<Frame> for Rect {
    fn from(frame: Frame) -> Rect {
        Rect {
            x: f64::from_bits(frame.x),
            y: f64::from_bits(frame.y),
            width: f64::from_bits(frame.width),
            height: f64::from_bits(frame.height),
        }
    }
}

/// The gaps around and between windows.
#[derive(Clone, Copy, Debug, Default)]
struct Gaps {
    left: f64,
    right: f64,
    top: f64,
    bottom: f64,
    horizontal: f64,
    vertical: f64,
}

/// The part of a screen that windows are laid out in.
fn tiling_area(screen: Rect, gaps: &Gaps) -> Rect {
    Rect {
        x: screen.x + gaps.left,
        y: screen.y + gaps.top,
        width: (screen.width - gaps.left - gaps.right).max(0.0),
        height: (screen.height - gaps.top - gaps.bottom).max(0.0),
    }
}

/// What a window says about its size. Zero stands for no limit.
#[derive(Clone, Copy, Debug)]
struct Limits {
    is_resizable: bool,
    locked_width: f64,
    locked_height: f64,
    min_width: f64,
    min_height: f64,
    max_width: f64,
    max_height: f64,
}

impl Default for Limits {
    fn default() -> Limits {
        Limits {
            is_resizable: true,
            locked_width: 0.0,
            locked_height: 0.0,
            min_width: 0.0,
            min_height: 0.0,
            max_width: 0.0,
            max_height: 0.0,
        }
    }
}

type LimitsByWindow = HashMap<WindowId, Limits>;

fn sane(value: f64) -> f64 {
    if value.is_finite() {
        value.max(0.0)
    } else {
        0.0
    }
}

impl Limits {
    fn normalized(self) -> Limits {
        let (min_width, min_height) = (sane(self.min_width), sane(self.min_height));
        let above = |max: f64, min: f64| if max > 0.0 { max.max(min) } else { 0.0 };
        Limits {
            is_resizable: self.is_resizable,
            locked_width: sane(self.locked_width),
            locked_height: sane(self.locked_height),
            min_width,
            min_height,
            max_width: above(sane(self.max_width), min_width),
            max_height: above(sane(self.max_height), min_height),
        }
    }

    fn min_for_axis(&self, horizontal: bool) -> f64 {
        if horizontal {
            self.min_width
        } else {
            self.min_height
        }
    }

    fn max_for_axis(&self, horizontal: bool) -> f64 {
        if horizontal {
            self.max_width
        } else {
            self.max_height
        }
    }

    fn fixed_for_axis(&self, horizontal: bool) -> Option<f64> {
        let locked = if horizontal { self.locked_width } else { self.locked_height };
        let (min, max) = (self.min_for_axis(horizontal), self.max_for_axis(horizontal));
        if locked > 0.0 {
            Some(locked)
        } else {
            (min > 0.0 && max == min).then_some(min)
        }
    }

    fn resizable_for_axis(&self, horizontal: bool) -> bool {
        self.is_resizable && self.fixed_for_axis(horizontal).is_none()
    }
}


fn frame(system: &FloatingLayoutSystem, window: WindowId) -> Option<Rect> {
    system.frame(window).map(Rect::from)
}

/// The window that is nearest to the active one in a direction. Windows that share
/// a row or a column with it come first.
fn nearest(
    system: &FloatingLayoutSystem,
    layout: LayoutId,
    direction: Direction,
    exclude: Option<NodeId>,
) -> Option<WindowId> {
    let source = frame(system, system.active_window(layout)?)?;
    let (x, y) = source.mid();
    let horizontal = matches!(direction, Direction::Left | Direction::Right);
    let forward = matches!(direction, Direction::Right | Direction::Down);
    system
        .directional_candidates(layout, exclude)
        .into_iter()
        .filter_map(|window| {
            let other = frame(system, window)?;
            let (other_x, other_y) = other.mid();
            let (along, across, overlaps) = if horizontal {
                (
                    other_x - x,
                    other_y - y,
                    source.y < other.bottom() && other.y < source.bottom(),
                )
            } else {
                (other_y - y, other_x - x, source.x < other.right() && other.x < source.right())
            };
            let along = if forward { along } else { -along };
            (along > 0.0).then_some((window, !overlaps, along * along + across * across))
        })
        .min_by(|a, b| a.1.cmp(&b.1).then(a.2.total_cmp(&b.2)))
        .map(|(window, _, _)| window)
}

fn move_focus(
    system: &mut FloatingLayoutSystem,
    layout: LayoutId,
    direction: Direction,
) -> (Option<WindowId>, Vec<WindowId>) {
    let nearest = nearest(system, layout, direction, None);
    system.move_focus(layout, direction, nearest)
}

fn window_in_direction(
    system: &FloatingLayoutSystem,
    layout: LayoutId,
    direction: Direction,
) -> Option<WindowId> {
    let nearest = nearest(system, layout, direction, None);
    system.window_in_direction(layout, direction, nearest)
}

fn join_selection_with_direction(
    system: &mut FloatingLayoutSystem,
    layout: LayoutId,
    direction: Direction,
) {
    let target = nearest(system, layout, direction, system.own_container(layout));
    system.join_selection_with_direction(layout, direction, target);
}

fn consume_or_expel_selection(
    system: &mut FloatingLayoutSystem,
    layout: LayoutId,
    direction: Direction,
) {
    let target = nearest(system, layout, direction, system.own_container(layout));
    system.consume_or_expel_selection(layout, direction, target);
}

fn centered(screen: Rect, width: f64, height: f64) -> Rect {
    let (x, y) = screen.mid();
    Rect::new(x - width / 2.0, y - height / 2.0, width, height)
}

/// A frame in the middle of the screen.
fn default_frame(screen: Rect, limits: Limits) -> Rect {
    let limits = limits.normalized();
    let fit = |value: f64, horizontal: bool| {
        if let Some(fixed) = limits.fixed_for_axis(horizontal) {
            return fixed;
        }
        let value = value.max(limits.min_for_axis(horizontal));
        let max = limits.max_for_axis(horizontal);
        if max > 0.0 {
            value.min(max)
        } else {
            value
        }
    };
    centered(screen, fit(screen.width * 0.7, true), fit(screen.height * 0.7, false))
}

fn cascade_frame(frame: Rect, screen: Rect, index: usize, count: usize) -> Rect {
    if count <= 1 {
        return frame;
    }
    let slots = (count - 1) as f64;
    let free_x = (screen.width - frame.width).max(0.0);
    let free_y = (screen.height - frame.height).max(0.0);
    let span_x = (slots * 36.0).min(free_x);
    let span_y = (slots * 36.0).min(free_y);
    let fraction = index as f64 / slots;
    Rect {
        x: screen.x + free_x / 2.0 - span_x / 2.0 + span_x * fraction,
        y: screen.y + free_y / 2.0 - span_y / 2.0 + span_y * fraction,
        ..frame
    }
}

fn initial_frame(
    spread: bool,
    screen: Rect,
    limits: Limits,
    live: Option<Rect>,
    index: usize,
    count: usize,
) -> Rect {
    let default = default_frame(screen, limits);
    let mut frame = live.unwrap_or(default);
    let width = frame.width.min(default.width);
    let height = frame.height.min(default.height);
    if (width, height) != (frame.width, frame.height) {
        frame = centered(screen, width, height);
    }
    if spread {
        cascade_frame(frame, screen, index, count)
    } else {
        frame
    }
}

/// Gives every window of a layout that has no frame its first one.
fn initialize_frames(
    system: &mut FloatingLayoutSystem,
    layout: LayoutId,
    screen: Rect,
    limits: &LimitsByWindow,
    live: impl Fn(WindowId) -> Option<Rect>,
) {
    let spread = system.spreads_initial_windows();
    let count = system.all_windows_in_layout(layout).len();
    let frames = system
        .windows_without_frame(layout)
        .into_iter()
        .map(|(index, window)| {
            let limits = limits.get(&window).copied().unwrap_or_default();
            initial_frame(spread, screen, limits, live(window), index, count).into()
        })
        .collect();
    system.initialize_frames(layout, &frames);
}

fn fullscreen_frame(
    system: &FloatingLayoutSystem,
    node: NodeId,
    screen: Rect,
    gaps: &Gaps,
) -> Option<Rect> {
    match system.inner().coverage(node) {
        Coverage::Share => None,
        Coverage::Screen => Some(screen),
        Coverage::WithinGaps => Some(tiling_area(screen, gaps)),
    }
}

/// The frames of all windows of a layout.
fn calculate_layout(
    system: &FloatingLayoutSystem,
    layout: LayoutId,
    screen: Rect,
    limits: &LimitsByWindow,
    gaps: &Gaps,
) -> Vec<(WindowId, Rect)> {
    let spread = system.spreads_initial_windows();
    let windows = system.all_windows_in_layout(layout);
    let count = windows.len();
    windows
        .into_iter()
        .enumerate()
        .map(|(index, window)| {
            let rect = system
                .inner()
                .window_node(layout, window)
                .and_then(|node| fullscreen_frame(system, node, screen, gaps))
                .or_else(|| frame(system, window))
                .unwrap_or_else(|| {
                    let limits = limits.get(&window).copied().unwrap_or_default();
                    initial_frame(spread, screen, limits, None, index, count)
                });
            (window, rect)
        })
        .collect()
}


fn w(index: u32) -> WindowId {
    WindowId::new(1, index)
}

fn rect(x: f64, y: f64) -> Rect {
    Rect::new(x, y, 200., 150.)
}

fn framed(x: f64, y: f64) -> Option<Frame> {
    Some(rect(x, y).into())
}

fn fixture() -> (FloatingLayoutSystem, LayoutId) {
    let mut system = FloatingLayoutSystem::default();
    let layout = system.create_layout();
    for index in 1..=4 {
        system.add_window_after_selection(layout, w(index));
        system.store_frame(w(index), rect(20. + (index - 1) as f64 * 250., 40.).into());
    }
    system.select_window(layout, w(1));
    (system, layout)
}

fn stack(system: &mut FloatingLayoutSystem, layout: LayoutId) {
    system.apply_stacking_to_parent_of_selection(layout, StackDefaultOrientation::Perpendicular);
}

fn all_frames(system: &FloatingLayoutSystem) -> Vec<(WindowId, Frame)> {
    let mut windows = system.framed_windows();
    windows.sort();
    windows.into_iter().map(|window| (window, system.frame(window).unwrap())).collect()
}

fn clear_frames(system: &mut FloatingLayoutSystem, layout: LayoutId) {
    for window in system.all_windows_in_layout(layout) {
        system.remove_window(window);
    }
    for index in 1..=4 {
        system.add_window_after_selection(layout, w(index));
    }
    system.select_window(layout, w(1));
}

#[test]
fn explicit_stacks_share_geometry_and_restore_only_their_members() {
    let (mut system, layout) = fixture();
    stack(&mut system, layout);
    assert_eq!(system.visible_windows_in_layout(layout).len(), 4);
    join_selection_with_direction(&mut system, layout, Direction::Right);
    assert_ne!(system.frame(w(1)), system.frame(w(2)));
    stack(&mut system, layout);
    join_selection_with_direction(&mut system, layout, Direction::Right);
    assert_eq!(system.cycle_windows(layout), vec![w(1), w(2), w(3)]);
    system.add_window_after_selection(layout, w(5));
    system.set_windows_for_app(layout, 1, (1..=6).map(w).collect());
    assert_eq!(system.visible_windows_in_layout(layout).len(), 4);
    system.select_window(layout, w(2));
    system.store_frame(w(2), rect(100., 80.).into());
    system.store_frame(w(1), rect(999., 999.).into());
    assert_eq!(system.frame(w(1)), framed(100., 80.));
    system.keep_independent_frame(w(4), rect(999., 999.).into());
    system.unjoin_selection(layout);
    assert_eq!(system.frame(w(2)), framed(270., 40.));
    assert_eq!(system.frame(w(4)), framed(770., 40.));
    system.select_window(layout, w(1));
    system.unstack_parent_of_selection(
        layout,
        StackDefaultOrientation::Perpendicular,
    );
    assert_eq!(system.frame(w(1)), framed(100., 80.));
    assert_eq!(system.frame(w(3)), framed(520., 40.));
}

#[test]
fn directional_focus_reaches_hidden_members_and_neighboring_windows() {
    let (mut system, layout) = fixture();
    join_selection_with_direction(&mut system, layout, Direction::Right);
    assert!(system.ascend_selection(layout));
    stack(&mut system, layout);
    assert_eq!(system.selected_window(layout), Some(w(1)));
    system.store_frame(w(3), rect(20., 400.).into());
    for (direction, expected) in [
        (Direction::Down, w(2)),
        (Direction::Down, w(3)),
        (Direction::Up, w(2)),
        (Direction::Up, w(1)),
    ] {
        assert_eq!(move_focus(&mut system, layout, direction).0, Some(expected));
    }
    system.remove_window(w(3));
    system.remove_window(w(4));
    assert_eq!(move_focus(&mut system, layout, Direction::Right).0, Some(w(2)));
    assert_eq!(move_focus(&mut system, layout, Direction::Right).0, Some(w(1)));
    system.unjoin_selection(layout);
    assert_eq!(system.all_windows_in_layout(layout).len(), 2);
    assert!(!system.parent_of_selection_is_stacked(layout));
}

#[test]
fn a_stack_that_is_ascended_to_acts_on_the_member_it_remembers() {
    let (mut system, layout) = fixture();
    join_selection_with_direction(&mut system, layout, Direction::Right);
    stack(&mut system, layout);
    system.select_window(layout, w(2));
    assert_eq!(system.active_window(layout), Some(w(2)));
    assert!(system.ascend_selection(layout));
    assert_eq!(system.selected_window(layout), None);
    assert_eq!(system.active_window(layout), Some(w(2)));
    let groups = system.collect_group_containers(layout, false);
    assert_eq!(groups.len(), 1);
    assert_eq!(groups[0].front, w(2));
    let place = groups[0].info.window_ids.iter().position(|window| *window == w(2));
    assert_eq!(Some(groups[0].info.selected_index), place);
    assert!(system.ascend_selection(layout));
    assert_eq!(system.active_window(layout), Some(w(2)));
    assert!(system.descend_selection(layout));
    assert_eq!(system.active_window(layout), Some(w(2)));
    system.unjoin_selection(layout);
    assert_eq!(system.selected_window(layout), Some(w(2)));
}

#[test]
fn geometry_initialization_is_bounded_and_only_happens_once() {
    let (mut system, layout) = fixture();
    clear_frames(&mut system, layout);
    let screen = Rect::new(1000., 50., 1000., 800.);
    system.spread_initial_windows();
    initialize_frames(&mut system, layout, screen, &HashMap::new(), |_| Some(screen));
    let before = all_frames(&system);
    assert_eq!(before.len(), 4);
    assert!(before.iter().all(|(_, frame)| {
        let frame = Rect::from(*frame);
        screen.x <= frame.x
            && screen.y <= frame.y
            && frame.right() <= screen.right()
            && frame.bottom() <= screen.bottom()
    }));
    assert_ne!(system.frame(w(1)), system.frame(w(2)));
    initialize_frames(&mut system, layout, screen, &HashMap::new(), |_| Some(screen));
    assert_eq!(all_frames(&system), before);
    clear_frames(&mut system, layout);
    initialize_frames(&mut system, layout, screen, &HashMap::new(), |_| Some(rect(1020., 80.)));
    assert_eq!(system.frame(w(1)), framed(1020., 80.));
    system.toggle_fullscreen_of_selection(layout);
    let frames = calculate_layout(&system, layout, screen, &HashMap::new(), &Gaps::default());
    assert_eq!(
        frames.iter().find(|(wid, _)| *wid == w(2)).unwrap().1,
        rect(1020., 80.)
    );
}

#[test]
fn saved_stack_frames_survive_identity_changes_and_layout_clones() {
    let (mut system, layout) = fixture();
    join_selection_with_direction(&mut system, layout, Direction::Right);
    stack(&mut system, layout);
    system.select_window(layout, w(3));
    join_selection_with_direction(&mut system, layout, Direction::Right);
    stack(&mut system, layout);
    system.select_window(layout, w(1));
    join_selection_with_direction(&mut system, layout, Direction::Right);
    assert_eq!(system.cycle_windows(layout), vec![w(1), w(2), w(3)]);
    assert_eq!(system.frame(w(4)), framed(770., 40.));
    let frame_of_second = system.frame(w(2));
    let mut restored = system;
    restored.replace_window(w(2), w(9));
    assert_eq!(restored.frame(w(9)), frame_of_second);
    assert_eq!(restored.independent_frame(w(9)), framed(270., 40.));
    let clone = restored.clone_layout(layout);
    restored.remove_layout(layout);
    assert!(restored.frame(w(9)).is_some());
    restored.remove_layout(clone);
    assert!(restored.framed_windows().is_empty());
    assert!((1..=9).all(|index| restored.independent_frame(w(index)).is_none()));
}
