#![allow(dead_code)]

use std::collections::HashMap;

use rift::actor::{LayoutId, WindowId};
use rift::common::config::{
    ScrollingAlignment, ScrollingFocusNavigationStyle, ScrollingLayoutSettings,
    WindowInsertionPoint,
};
use rift::layout_engine::systems::navigation::Coverage;
use rift::layout_engine::systems::scrolling::motion::{
    overscroll, overshot, parking, reveal_step, scroll_target, Parking, RevealStep, ScrollTarget,
};
use rift::layout_engine::systems::scrolling::state::{Column, LayoutState};
use rift::layout_engine::systems::scrolling::system::{anchor_for, ScrollingLayoutSystem};
use rift::layout_engine::systems::scrolling::view::{Anchor, ResizePlan};
use rift::layout_engine::{Direction, ResizeOrientation};

/// A rectangle on the screen.
#[derive(Clone, Copy, Debug, Default, PartialEq)]
struct Rect {
    x: f64,
    y: f64,
    width: f64,
    height: f64,
}

impl Rect {
    fn new(x: f64, y: f64, width: f64, height: f64) -> Rect {
        Rect { x, y, width, height }
    }

    fn right(&self) -> f64 {
        self.x + self.width
    }

    fn bottom(&self) -> f64 {
        self.y + self.height
    }

    fn mid(&self) -> (f64, f64) {
        (self.x + self.width / 2.0, self.y + self.height / 2.0)
    }

    /// Both corners on whole points.
    fn round(&self) -> Rect {
        let (x, y) = (self.x.round(), self.y.round());
        Rect { x, y, width: self.right().round() - x, height: self.bottom().round() - y }
    }
}

/// The gaps around and between windows.
#[derive(Clone, Copy, Debug, Default)]
struct Gaps {
    left: f64,
    right: f64,
    top: f64,
    bottom: f64,
    horizontal: f64,
    vertical: f64,
}

/// The part of a screen that windows are laid out in.
fn tiling_area(screen: Rect, gaps: &Gaps) -> Rect {
    Rect {
        x: screen.x + gaps.left,
        y: screen.y + gaps.top,
        width: (screen.width - gaps.left - gaps.right).max(0.0),
        height: (screen.height - gaps.top - gaps.bottom).max(0.0),
    }
}

/// What a window says about its size. Zero stands for no limit.
#[derive(Clone, Copy, Debug)]
struct Limits {
    is_resizable: bool,
    locked_width: f64,
    locked_height: f64,
    min_width: f64,
    min_height: f64,
    max_width: f64,
    max_height: f64,
}

impl Default for Limits {
    fn default() -> Limits {
        Limits {
            is_resizable: true,
            locked_width: 0.0,
            locked_height: 0.0,
            min_width: 0.0,
            min_height: 0.0,
            max_width: 0.0,
            max_height: 0.0,
        }
    }
}

type LimitsByWindow = HashMap<WindowId, Limits>;

fn sane(value: f64) -> f64 {
    if value.is_finite() {
        value.max(0.0)
    } else {
        0.0
    }
}

impl Limits {
    fn normalized(self) -> Limits {
        let (min_width, min_height) = (sane(self.min_width), sane(self.min_height));
        let above = |max: f64, min: f64| if max > 0.0 { max.max(min) } else { 0.0 };
        Limits {
            is_resizable: self.is_resizable,
            locked_width: sane(self.locked_width),
            locked_height: sane(self.locked_height),
            min_width,
            min_height,
            max_width: above(sane(self.max_width), min_width),
            max_height: above(sane(self.max_height), min_height),
        }
    }

    fn min_for_axis(&self, horizontal: bool) -> f64 {
        if horizontal {
            self.min_width
        } else {
            self.min_height
        }
    }

    fn max_for_axis(&self, horizontal: bool) -> f64 {
        if horizontal {
            self.max_width
        } else {
            self.max_height
        }
    }

    fn fixed_for_axis(&self, horizontal: bool) -> Option<f64> {
        let locked = if horizontal { self.locked_width } else { self.locked_height };
        let (min, max) = (self.min_for_axis(horizontal), self.max_for_axis(horizontal));
        if locked > 0.0 {
            Some(locked)
        } else {
            (min > 0.0 && max == min).then_some(min)
        }
    }

    fn resizable_for_axis(&self, horizontal: bool) -> bool {
        self.is_resizable && self.fixed_for_axis(horizontal).is_none()
    }
}

/// What one of several neighbours wants of a length.
#[derive(Clone, Copy, Debug)]
struct AxisConstraints {
    min: f64,
    fixed: Option<f64>,
    max: Option<f64>,
    weight: f64,
    can_grow: bool,
}

/// Divides a length by weight. Nobody gets less than it needs or more than its
/// limit; what cannot grow gets the least it needs.
fn solve_axis_lengths(constraints: &[AxisConstraints], available: f64) -> Vec<f64> {
    let mut lengths: Vec<f64> = constraints
        .iter()
        .map(|c| c.fixed.unwrap_or(c.min).max(0.0))
        .collect();
    let needed: f64 = lengths.iter().sum();
    if needed > available {
        let scale = if needed > 0.0 { available.max(0.0) / needed } else { 0.0 };
        return lengths.into_iter().map(|length| length * scale).collect();
    }
    let mut open: Vec<usize> =
        (0..constraints.len()).filter(|&i| constraints[i].can_grow).collect();
    while !open.is_empty() {
        let settled: f64 =
            (0..lengths.len()).filter(|i| !open.contains(i)).map(|i| lengths[i]).sum();
        let left = (available - settled).max(0.0);
        let total: f64 = open.iter().map(|&i| constraints[i].weight.max(0.0)).sum();
        let share = |i: usize| {
            if total > f64::EPSILON {
                left * constraints[i].weight.max(0.0) / total
            } else {
                left / open.len() as f64
            }
        };
        let short: Vec<(usize, f64)> = open
            .iter()
            .map(|&i| (i, constraints[i].min.max(0.0)))
            .filter(|&(i, min)| share(i) < min)
            .collect();
        let bound: Vec<(usize, f64)> = if short.is_empty() {
            open.iter()
                .filter_map(|&i| constraints[i].max.map(|max| (i, max.max(lengths[i]))))
                .filter(|&(i, max)| share(i) > max)
                .collect()
        } else {
            short
        };
        if bound.is_empty() {
            let shares: Vec<f64> = open.iter().map(|&i| share(i)).collect();
            for (&i, length) in open.iter().zip(shares) {
                lengths[i] = length;
            }
            break;
        }
        for &(i, length) in &bound {
            lengths[i] = length;
        }
        open.retain(|i| !bound.iter().any(|(j, _)| j == i));
    }
    lengths
}

fn clamp_ratio(settings: &ScrollingLayoutSettings, ratio: f64) -> f64 {
    ratio
        .clamp(
            f64::from_bits(settings.min_column_width_ratio),
            f64::from_bits(settings.max_column_width_ratio),
        )
        .max(0.05)
}

/// Ratios say what share of the viewport a column has, gaps included: ratios that
/// add up to one fill it exactly.
fn proportional_width(viewport: f64, gap: f64, ratio: f64) -> f64 {
    ((viewport + gap) * ratio - gap).max(1.0)
}

fn ratio_for_width(viewport: f64, gap: f64, width: f64) -> f64 {
    (width + gap) / (viewport + gap)
}

fn columns(state: &LayoutState) -> Vec<&Column> {
    (0..state.column_count()).map(|index| state.column(index)).collect()
}

fn widths_and_starts(
    settings: &ScrollingLayoutSettings,
    state: &LayoutState,
    viewport: f64,
    gap: f64,
) -> (Vec<f64>, Vec<f64>) {
    let base = clamp_ratio(settings, f64::from_bits(state.column_width_ratio()));
    let widths: Vec<f64> = columns(state)
        .into_iter()
        .map(|column| {
            let ratio = clamp_ratio(settings, base + f64::from_bits(column.width_offset));
            proportional_width(viewport, gap, ratio)
        })
        .collect();
    let starts = starts(&widths, gap);
    (widths, starts)
}

fn starts(widths: &[f64], gap: f64) -> Vec<f64> {
    let mut cursor = 0.0;
    widths
        .iter()
        .map(|width| {
            let start = cursor;
            cursor += width + gap;
            start
        })
        .collect()
}

fn offset_range(state: &LayoutState, last_start: f64, centering: f64) -> (f64, f64) {
    if state.center_override_window().is_some() {
        (centering, last_start + centering)
    } else {
        (0.0, last_start)
    }
}

fn column_width(
    settings: &ScrollingLayoutSettings,
    column: &Column,
    fills: bool,
    base: f64,
    viewport: f64,
    gap: f64,
    limits: &LimitsByWindow,
) -> f64 {
    let ratio = if fills {
        1.0
    } else {
        clamp_ratio(settings, base + f64::from_bits(column.width_offset))
    };
    let mut min = 1.0_f64;
    let mut fixed: Option<f64> = None;
    let mut max: Option<f64> = None;
    for window in &column.windows {
        let Some(limits) = limits.get(window).map(|limits| limits.normalized()) else {
            continue;
        };
        min = min.max(limits.min_for_axis(true));
        if let Some(locked) = limits.fixed_for_axis(true) {
            fixed = Some(fixed.map_or(locked, |current| current.max(locked)));
        }
        let most = limits.max_for_axis(true);
        if most > 0.0 {
            max = Some(max.map_or(most, |current| current.min(most)));
        }
    }
    let required = fixed.unwrap_or(min).max(min);
    let mut width = proportional_width(viewport, gap, ratio).max(required);
    if let Some(max) = max {
        width = width.min(max).max(required);
    }
    // Strips scroll from column to column; they do not pan within one.
    width.min(viewport.max(1.0))
}

fn row_heights(column: &Column, limits: &LimitsByWindow, available: f64) -> Vec<f64> {
    let constraints: Vec<AxisConstraints> = column
        .windows
        .iter()
        .enumerate()
        .map(|(row, window)| {
            let own = limits.get(window).map(|limits| limits.normalized());
            let min = own.map_or(0.0, |own| own.min_for_axis(false));
            let weight = column.height_weights.get(row).map_or(1.0, |bits| f64::from_bits(*bits));
            AxisConstraints {
                min,
                fixed: own.and_then(|own| own.fixed_for_axis(false)),
                max: own.map(|own| own.max_for_axis(false)).filter(|max| *max > 0.0),
                // Weights are heights; what is divided by them is what lies above the least.
                weight: (weight - min).max(0.001),
                can_grow: own.map_or(true, |own| own.resizable_for_axis(false)),
            }
        })
        .collect();
    solve_axis_lengths(&constraints, available)
}

/// A length within the limits of a window, and no longer than it is.
fn fitted(own: Limits, horizontal: bool, length: f64) -> f64 {
    let wanted =
        own.fixed_for_axis(horizontal).unwrap_or(length).max(own.min_for_axis(horizontal));
    let max = own.max_for_axis(horizontal);
    let wanted = if max > 0.0 { wanted.min(max) } else { wanted };
    wanted.min(length).max(0.0)
}

/// The frames of all windows of a strip. The strip remembers what was measured.
fn calculate_layout(
    system: &mut ScrollingLayoutSystem,
    layout: LayoutId,
    screen: Rect,
    limits: &LimitsByWindow,
    gaps: &Gaps,
) -> Vec<(WindowId, Rect)> {
    if !system.contains_layout(layout) {
        return Vec::new();
    }
    let (center, align, reveal) = system.take_scroll_requests(layout);
    let settings = system.settings();
    let Some(state) = system.layout_state(layout) else {
        return Vec::new();
    };
    let tiling = tiling_area(screen, gaps);
    let gap = gaps.horizontal;
    let list = columns(state);
    let base = clamp_ratio(&settings, f64::from_bits(state.column_width_ratio()));
    let widths: Vec<f64> = list
        .iter()
        .enumerate()
        .map(|(index, column)| {
            let fills = state.fills_viewport(index);
            column_width(&settings, column, fills, base, tiling.width, gap, limits)
        })
        .collect();
    let starts = starts(&widths, gap);
    let location = state.selected_location();
    let selected = location.map_or(0, |(column, _)| column);
    let selected_width = widths
        .get(selected)
        .copied()
        .unwrap_or_else(|| proportional_width(tiling.width, gap, base));
    let centered = state.center_override_window().is_some();
    let center_x = tiling.x + (tiling.width - selected_width) / 2.0;
    let anchor_x = match anchor_for(&settings, list.len(), selected, centered) {
        Anchor::Left => tiling.x,
        Anchor::Center => center_x,
        Anchor::Right => tiling.right() - selected_width,
    };
    let centering = anchor_x - center_x;
    let selected_start =
        location.map(|(column, _)| starts.get(column).copied().unwrap_or(0.0));

    let start = selected_start.unwrap_or(0.0);
    let mut offset = match scroll_target(center, align, selected_start.is_some()) {
        ScrollTarget::Here => f64::from_bits(state.measures().0),
        ScrollTarget::Start => 0.0,
        ScrollTarget::Selected => start,
        ScrollTarget::Centered => centering + start,
    };
    if selected_start.is_some() {
        let x = anchor_x + start - offset;
        offset = match reveal_step(reveal, x < tiling.x, x + selected_width > tiling.right()) {
            RevealStep::Stay => offset,
            RevealStep::ToLeftEdge => anchor_x + start - tiling.x,
            RevealStep::ToRightEdge => anchor_x + start + selected_width - tiling.right(),
        };
    }
    let last_start = starts.last().copied().unwrap_or(0.0);
    let (least, most) = offset_range(state, last_start, centering);
    offset = offset.clamp(least, most);

    let mut out = Vec::new();
    for (index, column) in list.iter().enumerate() {
        let width = widths[index];
        let place = anchor_x + starts[index] - offset;
        // A column that is out of sight is parked beyond the edge of the screen, so
        // that it shows neither in the outer gap nor on a display next to this one.
        let x = match parking(place + width <= tiling.x, place >= tiling.right()) {
            Parking::InView => place,
            Parking::BeyondLeft => screen.x - width,
            Parking::BeyondRight => screen.right(),
        };
        let count = column.windows.len();
        if count == 0 {
            continue;
        }
        let available = (tiling.height - gaps.vertical * (count - 1) as f64).max(0.0);
        let mut y = tiling.y;
        for (window, height) in column.windows.iter().zip(row_heights(column, limits, available)) {
            let height = height.max(0.0);
            let mut frame = Rect::new(x.round(), y.round(), width.round(), height.round());
            match state.coverage(*window) {
                Coverage::Screen => frame = screen,
                Coverage::WithinGaps => frame = tiling,
                Coverage::Share => {
                    if let Some(own) = limits.get(window).map(|limits| limits.normalized()) {
                        frame.width = fitted(own, true, frame.width);
                        frame.height = fitted(own, false, frame.height);
                    }
                }
            }
            out.push((*window, frame));
            y += height + gaps.vertical;
        }
    }
    system.store_measures(
        layout,
        tiling.width.to_bits(),
        gap.to_bits(),
        (selected_width + gap).to_bits(),
        centering.to_bits(),
        offset.to_bits(),
    );
    out
}

/// Scrolls a strip by a number of columns. Says in which direction the end was
/// overshot for long enough to switch workspaces.
fn scroll_by_delta(
    system: &mut ScrollingLayoutSystem,
    layout: LayoutId,
    delta: f64,
) -> Option<Direction> {
    let settings = system.settings();
    let threshold = f64::from_bits(settings.workspace_switch_threshold);
    let state = system.layout_state(layout)?;
    let (offset, viewport, gap, _, centering, gone) = state.measures();
    let (viewport, gap) = (f64::from_bits(viewport), f64::from_bits(gap));
    if viewport <= 0.0 {
        return None;
    }
    let (widths, starts) = widths_and_starts(&settings, state, viewport, gap);
    let last_start = starts.last().copied()?;
    let selected = state.selected_location().map_or(0, |(column, _)| column);
    let step = widths.get(selected).copied().unwrap_or(1.0) + gap;
    if step <= 0.0 {
        return None;
    }
    let (least, most) = offset_range(state, last_start, f64::from_bits(centering));
    let raw = f64::from_bits(offset) + delta * step;
    let end = overshot(raw < least, raw > most, delta < 0.0, delta > 0.0);
    let over = match end {
        Some(Direction::Left) => (least - raw) / step,
        Some(_) => (raw - most) / step,
        None => 0.0,
    };
    let total = f64::from_bits(gone) + over;
    let (counts, reached) = overscroll(end, total >= threshold);
    let kept = if counts { total } else { 0.0 };
    system.store_scroll(layout, raw.clamp(least, most).to_bits(), kept.to_bits());
    reached
}

/// Brings the nearest column to the anchor and selects a window in it.
fn snap_to_nearest_column(
    system: &mut ScrollingLayoutSystem,
    layout: LayoutId,
) -> Option<WindowId> {
    let settings = system.settings();
    let state = system.layout_state(layout)?;
    let (offset, viewport, gap, _, centering, _) = state.measures();
    let (viewport, gap) = (f64::from_bits(viewport), f64::from_bits(gap));
    if viewport <= 0.0 {
        return None;
    }
    let (_, starts) = widths_and_starts(&settings, state, viewport, gap);
    let last_start = starts.last().copied()?;
    let (least, most) = offset_range(state, last_start, f64::from_bits(centering));
    let place = f64::from_bits(offset) - least;
    let column = (0..starts.len())
        .min_by(|&a, &b| {
            let (a, b) = ((starts[a] - place).abs(), (starts[b] - place).abs());
            a.partial_cmp(&b).unwrap_or(std::cmp::Ordering::Equal)
        })
        .unwrap_or(0);
    let target = (least + starts[column]).clamp(least, most);
    system.snap_to_column(layout, column, target.to_bits())
}

/// Changes a height or a width by a share.
fn resize_selection_by(
    system: &mut ScrollingLayoutSystem,
    layout: LayoutId,
    amount: f64,
    orientation: ResizeOrientation,
) {
    let settings = system.settings();
    let plan = system.resize_plan(layout, orientation);
    let Some(state) = system.layout_state(layout) else {
        return;
    };
    let base = f64::from_bits(state.column_width_ratio());
    match plan {
        ResizePlan::Nothing => {}
        ResizePlan::Strip => {
            let ratio = clamp_ratio(&settings, base + amount);
            system.set_strip_ratio(layout, ratio.to_bits());
        }
        ResizePlan::Width { column } => {
            let current = base + f64::from_bits(state.column(column).width_offset);
            let offset = clamp_ratio(&settings, current + amount) - base;
            system.resize_column(layout, column, offset.to_bits());
        }
        ResizePlan::Row { column, row } => {
            let mut weights = heights(state.column(column));
            let total: f64 = weights.iter().sum();
            if total <= f64::EPSILON {
                return;
            }
            let share = (weights[row] / total + amount).clamp(0.05, 0.95);
            let others = (total - weights[row]).max(f64::EPSILON);
            let scale = total.max(10_000.0);
            for (index, weight) in weights.iter_mut().enumerate() {
                *weight = if index == row {
                    share * scale
                } else {
                    (1.0 - share) * scale * (*weight / others)
                };
            }
            system.resize_rows(layout, column, weights.into_iter().map(f64::to_bits).collect());
        }
    }
}

/// The heights in a column, one for each window.
fn heights(column: &Column) -> Vec<f64> {
    if column.height_weights.len() == column.windows.len() {
        column.height_weights.iter().map(|bits| f64::from_bits(*bits)).collect()
    } else {
        let mut weights: Vec<f64> =
            column.height_weights.iter().map(|bits| f64::from_bits(*bits)).collect();
        weights.resize(column.windows.len(), 1.0);
        weights
    }
}

/// A window was resized from outside.
fn on_window_resized(
    system: &mut ScrollingLayoutSystem,
    layout: LayoutId,
    window: WindowId,
    new: Rect,
    screen: Rect,
    gaps: &Gaps,
) {
    let settings = system.settings();
    let tiling = tiling_area(screen, gaps);
    let Some(state) = system.layout_state(layout) else {
        return;
    };
    let Some((column, row)) = state.locate(window) else {
        return;
    };
    if tiling.width <= 0.0 {
        return;
    }
    let ratio = ratio_for_width(tiling.width, gaps.horizontal, new.width);
    let offset =
        clamp_ratio(&settings, ratio) - f64::from_bits(state.column_width_ratio());
    let column = state.column(column);
    let count = column.windows.len();
    let available = tiling.height - gaps.vertical * count.saturating_sub(1) as f64;
    let dragged = (count > 1 && tiling.height > 0.0).then(|| {
        let weights = heights(column);
        if available <= 0.0 {
            return weights.into_iter().map(f64::to_bits).collect();
        }
        // Heights serve as weights, so the division comes out as it was dragged.
        let own = new.height.max(1.0);
        let left = (available - own).max(1.0);
        let others: f64 =
            weights.iter().enumerate().filter(|(i, _)| *i != row).map(|(_, weight)| *weight).sum();
        weights
            .iter()
            .enumerate()
            .map(|(index, weight)| {
                if index == row {
                    own
                } else if others > 0.0 {
                    left * (weight / others)
                } else {
                    left / (count - 1).max(1) as f64
                }
            })
            .map(f64::to_bits)
            .collect()
    });
    system.drag_window(layout, window, offset.to_bits(), dragged);
}

fn wid(pid: i32, idx: u32) -> WindowId {
    WindowId::new(pid, idx)
}

fn screen(width: f64, height: f64) -> Rect {
    Rect::new(0.0, 0.0, width, height)
}

fn bits(value: f64) -> u64 {
    value.to_bits()
}

fn render(
    system: &mut ScrollingLayoutSystem,
    layout: LayoutId,
    screen: Rect,
    gaps: &Gaps,
) -> Vec<(WindowId, Rect)> {
    calculate_layout(system, layout, screen, &HashMap::new(), gaps)
}

fn frame_for(frames: &[(WindowId, Rect)], wid: WindowId) -> Rect {
    frames
        .iter()
        .find(|(id, _)| *id == wid)
        .map(|(_, frame)| *frame)
        .expect("missing frame")
}

fn scroll_offset(system: &ScrollingLayoutSystem, layout: LayoutId) -> f64 {
    f64::from_bits(system.layout_state(layout).expect("layout state missing").measures().0)
}

fn windows_of(system: &ScrollingLayoutSystem, layout: LayoutId, column: usize) -> Vec<WindowId> {
    system.layout_state(layout).expect("layout state missing").column_windows(column)
}

fn column_count(system: &ScrollingLayoutSystem, layout: LayoutId) -> usize {
    system.layout_state(layout).expect("layout state missing").column_count()
}

#[test]
fn snapping_selects_and_returns_the_window_in_the_landed_column() {
    let mut system = ScrollingLayoutSystem::new(&ScrollingLayoutSettings::default());
    let layout = system.create_layout();
    let w1 = wid(1, 1);
    let w2 = wid(1, 2);
    let w3 = wid(1, 3);
    system.add_window_after_selection(layout, w1);
    system.add_window_after_selection(layout, w2);
    system.add_window_after_selection(layout, w3);
    let _ = render(&mut system, layout, screen(1000.0, 800.0), &Gaps::default());

    let step = f64::from_bits(system.layout_state(layout).unwrap().measures().3);
    system.store_scroll(layout, (step * 0.7).to_bits(), bits(0.0));

    assert_eq!(snap_to_nearest_column(&mut system, layout), Some(w2));
    assert_eq!(system.selected_window(layout), Some(w2));
    assert!((scroll_offset(&system, layout) - step).abs() < 0.001);
}

fn setup_two_windows(
    settings: ScrollingLayoutSettings,
) -> (ScrollingLayoutSystem, LayoutId, WindowId, WindowId) {
    let mut system = ScrollingLayoutSystem::new(&settings);
    let layout = system.create_layout();
    let w1 = wid(1, 1);
    let w2 = wid(1, 2);
    system.add_window_after_selection(layout, w1);
    system.add_window_after_selection(layout, w2);
    (system, layout, w1, w2)
}

#[test]
fn respects_min_width_and_min_height_independently() {
    let mut system = ScrollingLayoutSystem::new(&ScrollingLayoutSettings::default());
    let layout = system.create_layout();
    let window = wid(10, 1);
    system.add_window_after_selection(layout, window);

    let mut constraints = HashMap::new();
    constraints.insert(
        window,
        Limits {
            is_resizable: true,
            locked_width: 0.0,
            locked_height: 0.0,
            min_width: 700.0,
            min_height: 500.0,
            max_width: 0.0,
            max_height: 0.0,
        }
        .normalized(),
    );

    let frames = calculate_layout(&mut system, layout, screen(800.0, 600.0), &constraints, &Gaps::default());
    let frame = frame_for(&frames, window);
    assert!(frame.width >= 699.0);
    assert!(frame.height >= 499.0);
}

#[test]
fn row_constraints_apply_vertical_min_independent_of_column_width() {
    let mut system = ScrollingLayoutSystem::new(&ScrollingLayoutSettings::default());
    let layout = system.create_layout();
    let w1 = wid(20, 1);
    let w2 = wid(20, 2);
    system.add_window_after_selection(layout, w1);
    system.add_window_after_selection(layout, w2);

    system.join_selection_with_direction(layout, Direction::Left);
    assert_eq!(windows_of(&system, layout, 0), vec![w1, w2]);
    assert!(system.select_window(layout, w1));

    let mut constraints = HashMap::new();
    constraints.insert(
        w1,
        Limits {
            is_resizable: true,
            locked_width: 0.0,
            locked_height: 0.0,
            min_width: 500.0,
            min_height: 350.0,
            max_width: 0.0,
            max_height: 0.0,
        }
        .normalized(),
    );

    let frames = calculate_layout(&mut system, layout, screen(700.0, 600.0), &constraints, &Gaps::default());
    let frame = frame_for(&frames, w1);
    assert!(frame.width >= 499.0);
    assert!(frame.height >= 349.0);
}

#[test]
fn respects_positive_max_width_for_resizable_window() {
    let mut system = ScrollingLayoutSystem::new(&ScrollingLayoutSettings::default());
    let layout = system.create_layout();
    let window = wid(30, 1);
    system.add_window_after_selection(layout, window);

    let mut constraints = HashMap::new();
    constraints.insert(
        window,
        Limits {
            is_resizable: true,
            locked_width: 0.0,
            locked_height: 0.0,
            min_width: 0.0,
            min_height: 0.0,
            max_width: 600.0,
            max_height: 0.0,
        }
        .normalized(),
    );

    let frames = calculate_layout(&mut system, layout, screen(1200.0, 700.0), &constraints, &Gaps::default());
    let frame = frame_for(&frames, window);
    assert!(frame.width <= 600.0);
}

#[test]
fn locked_window_width_wins_over_smaller_sibling_max_width_in_same_column() {
    let mut system = ScrollingLayoutSystem::new(&ScrollingLayoutSettings::default());
    let layout = system.create_layout();
    let locked = wid(31, 1);
    let capped = wid(31, 2);
    system.add_window_after_selection(layout, locked);
    system.add_window_after_selection(layout, capped);

    system.join_selection_with_direction(layout, Direction::Left);
    assert_eq!(windows_of(&system, layout, 0), vec![locked, capped]);
    assert!(system.select_window(layout, locked));

    let mut constraints = HashMap::new();
    constraints.insert(
        locked,
        Limits {
            is_resizable: false,
            locked_width: 700.0,
            locked_height: 400.0,
            min_width: 700.0,
            min_height: 0.0,
            max_width: 700.0,
            max_height: 0.0,
        }
        .normalized(),
    );
    constraints.insert(
        capped,
        Limits {
            is_resizable: true,
            locked_width: 0.0,
            locked_height: 0.0,
            min_width: 0.0,
            min_height: 0.0,
            max_width: 500.0,
            max_height: 0.0,
        }
        .normalized(),
    );

    let frames = calculate_layout(&mut system, layout, screen(1200.0, 700.0), &constraints, &Gaps::default());
    let locked_frame = frame_for(&frames, locked);
    let capped_frame = frame_for(&frames, capped);

    assert!(locked_frame.width >= 699.0);
    assert!(capped_frame.width <= 501.0);
}

#[test]
fn impossible_min_width_does_not_expand_column_beyond_tiling_width() {
    let mut system = ScrollingLayoutSystem::new(&ScrollingLayoutSettings::default());
    let layout = system.create_layout();
    let window = wid(40, 1);
    system.add_window_after_selection(layout, window);

    let mut constraints = HashMap::new();
    constraints.insert(
        window,
        Limits {
            is_resizable: true,
            locked_width: 0.0,
            locked_height: 0.0,
            min_width: 1600.0,
            min_height: 0.0,
            max_width: 0.0,
            max_height: 0.0,
        }
        .normalized(),
    );

    let screen = screen(1200.0, 700.0);
    let gaps = Gaps::default();
    let tiling = tiling_area(screen, &gaps);
    let frames = calculate_layout(&mut system, layout, screen, &constraints, &gaps);
    let frame = frame_for(&frames, window);
    assert!(frame.width <= tiling.width);
    assert!(frame.x >= tiling.x);
    assert!(frame.x + frame.width <= tiling.x + tiling.width);
}

#[test]
fn creates_columns_and_moves_focus() {
    let mut system = ScrollingLayoutSystem::new(&ScrollingLayoutSettings::default());
    let layout = system.create_layout();
    let w1 = wid(1, 1);
    let w2 = wid(1, 2);
    let w3 = wid(1, 3);

    system.add_window_after_selection(layout, w1);
    system.add_window_after_selection(layout, w2);
    system.add_window_after_selection(layout, w3);

    assert_eq!(system.visible_windows_in_layout(layout).len(), 3);
    assert_eq!(system.selected_window(layout), Some(w3));

    let (focus, _) = system.move_focus(layout, Direction::Left);
    assert_eq!(focus, Some(w2));
}

#[test]
fn move_selection_swaps_columns_horizontally() {
    let mut system = ScrollingLayoutSystem::new(&ScrollingLayoutSettings::default());
    let layout = system.create_layout();
    let w1 = wid(1, 1);
    let w2 = wid(1, 2);
    let w3 = wid(1, 3);

    system.add_window_after_selection(layout, w1);
    system.add_window_after_selection(layout, w2);
    system.add_window_after_selection(layout, w3);

    assert!(system.move_selection(layout, Direction::Left));

        assert_eq!(column_count(&system, layout), 3);
    assert_eq!(windows_of(&system, layout, 1), vec![w3]);
    assert_eq!(windows_of(&system, layout, 2), vec![w2]);
}

#[test]
fn calculates_centered_columns() {
    let (mut system, layout, _, _) = setup_two_windows(ScrollingLayoutSettings::default());
    let frames = render(&mut system, layout, screen(1000.0, 800.0), &Gaps::default());

    assert_eq!(frames.len(), 2);
    let width0 = frames[0].1.width;
    let width1 = frames[1].1.width;
    assert!(
        width0 > 1.0 && width1 > 1.0 && (width0 - width1).abs() < 1.0,
        "expected equal non-zero widths, got w0={}, w1={}",
        width0,
        width1
    );
}

#[test]
fn centers_selected_column_without_changing_alignment() {
    let mut settings = ScrollingLayoutSettings::default();
    settings.alignment = ScrollingAlignment::Left;
    let (mut system, layout, _, w2) = setup_two_windows(settings);
    system.center_selected_column(layout);

    let screen = screen(1000.0, 800.0);
    let gaps = Gaps::default();
    let frames = render(&mut system, layout, screen, &gaps);

    let tiling = tiling_area(screen, &gaps);
    let selected_frame = frame_for(&frames, w2);

    let column_width = selected_frame.width;
    let expected_x = tiling.x + (tiling.width - column_width) / 2.0;

    assert!(
        (selected_frame.x - expected_x.round()).abs() < 1.0,
        "expected centered x={}, got x={}",
        expected_x.round(),
        selected_frame.x
    );
}

#[test]
fn center_selection_clears_when_focus_moves() {
    let mut settings = ScrollingLayoutSettings::default();
    settings.alignment = ScrollingAlignment::Left;
    let (mut system, layout, _, _) = setup_two_windows(settings);
    system.center_selected_column(layout);
    let _ = system.move_focus(layout, Direction::Left);

        assert_eq!(system.layout_state(layout).unwrap().center_override_window(), None);
}

#[test]
fn center_selection_toggles_back_to_layout_alignment() {
    let mut settings = ScrollingLayoutSettings::default();
    settings.alignment = ScrollingAlignment::Left;
    let (mut system, layout, _, w2) = setup_two_windows(settings);

    // First call centers the current selection.
    system.center_selected_column(layout);
    // Second call on the same selection toggles centering off.
    system.center_selected_column(layout);

    let screen = screen(1000.0, 800.0);
    let gaps = Gaps::default();
    let frames = render(&mut system, layout, screen, &gaps);
    let tiling = tiling_area(screen, &gaps);
    let selected_frame = frame_for(&frames, w2);
    assert!(
        (selected_frame.x - tiling.x.round()).abs() < 1.0,
        "expected left-aligned x={}, got x={}",
        tiling.x.round(),
        selected_frame.x
    );
}

#[test]
fn horizontal_focus_keeps_side_by_side_columns_visible_without_anchor_snapping() {
    let mut settings = ScrollingLayoutSettings::default();
    settings.alignment = ScrollingAlignment::Left;
    settings.focus_navigation_style =
        ScrollingFocusNavigationStyle::Niri;
    settings.column_width_ratio = bits(0.45);
    settings.min_column_width_ratio = bits(0.2);
    settings.max_column_width_ratio = bits(0.9);
    let (mut system, layout, w1, w2) = setup_two_windows(settings);

    let screen = screen(1000.0, 800.0);
    let gaps = Gaps::default();

    // Apply the default initial alignment (selected = w2) so w1 starts off-screen.
    let _ = render(&mut system, layout, screen, &gaps);

    let _ = system.move_focus(layout, Direction::Left);
    let left_frames = render(&mut system, layout, screen, &gaps);
    let offset_after_left = scroll_offset(&system, layout);

    let _ = system.move_focus(layout, Direction::Right);
    let right_frames = render(&mut system, layout, screen, &gaps);
    let offset_after_right = scroll_offset(&system, layout);

    let w1_x_after_left = frame_for(&left_frames, w1).x;
    let w2_x_after_right = frame_for(&right_frames, w2).x;

    assert!(
        (offset_after_left - offset_after_right).abs() < 1.0,
        "expected no snap when toggling focus between visible columns, got offsets {} -> {}",
        offset_after_left,
        offset_after_right
    );
    assert!(
        w1_x_after_left >= -1.0 && w2_x_after_right >= -1.0,
        "expected side-by-side visibility, got x positions w1={}, w2={}",
        w1_x_after_left,
        w2_x_after_right
    );
}

#[test]
fn niri_focus_does_not_shift_two_half_width_columns_with_inner_gap() {
    let mut settings = ScrollingLayoutSettings::default();
    settings.alignment = ScrollingAlignment::Left;
    settings.focus_navigation_style =
        ScrollingFocusNavigationStyle::Niri;
    settings.column_width_ratio = bits(0.5);
    settings.min_column_width_ratio = bits(0.2);
    settings.max_column_width_ratio = bits(0.9);
    let (mut system, layout, w1, w2) = setup_two_windows(settings);

    let screen = screen(3360.0, 1387.0);
    let mut gaps = Gaps::default();
    gaps.left = 6.0;
    gaps.right = 6.0;
    gaps.top = 6.0;
    gaps.bottom = 6.0;
    gaps.horizontal = 6.0;

    let initial = render(&mut system, layout, screen, &gaps);
    let initial_w1 = frame_for(&initial, w1);
    let initial_w2 = frame_for(&initial, w2);
    assert_eq!(initial_w1.x, 6.0);
    assert_eq!(initial_w1.width, 1671.0);
    assert_eq!(initial_w2.x, 1683.0);
    assert_eq!(initial_w2.x + initial_w2.width, 3354.0);

    assert!(system.move_focus(layout, Direction::Left).0.is_some());
    let focused_left = render(&mut system, layout, screen, &gaps);
    assert!(system.move_focus(layout, Direction::Right).0.is_some());
    let focused_right = render(&mut system, layout, screen, &gaps);

    for window in [w1, w2] {
        assert_eq!(
            frame_for(&focused_left, window).x,
            frame_for(&focused_right, window).x,
            "focus change shifted window {window:?}"
        );
    }
    assert_eq!(scroll_offset(&system, layout), 0.0);
}

#[test]
fn horizontal_focus_anchored_snaps_to_alignment() {
    let mut settings = ScrollingLayoutSettings::default();
    settings.alignment = ScrollingAlignment::Left;
    settings.focus_navigation_style =
        ScrollingFocusNavigationStyle::Anchored;
    settings.column_width_ratio = bits(0.45);
    settings.min_column_width_ratio = bits(0.2);
    settings.max_column_width_ratio = bits(0.9);
    let (mut system, layout, _, _) = setup_two_windows(settings);

    let screen = screen(1000.0, 800.0);
    let gaps = Gaps::default();
    let _ = render(&mut system, layout, screen, &gaps);

    let _ = system.move_focus(layout, Direction::Left);
    let _ = render(&mut system, layout, screen, &gaps);
    let offset_after_left = scroll_offset(&system, layout);

    let _ = system.move_focus(layout, Direction::Right);
    let _ = render(&mut system, layout, screen, &gaps);
    let offset_after_right = scroll_offset(&system, layout);

    assert!(
        (offset_after_left - offset_after_right).abs() > 1.0,
        "expected anchored mode to snap offset on focus changes, got offsets {} -> {}",
        offset_after_left,
        offset_after_right
    );
}

#[test]
fn resized_columns_remain_contiguous_without_horizontal_holes() {
    let mut settings = ScrollingLayoutSettings::default();
    settings.alignment = ScrollingAlignment::Left;
    settings.focus_navigation_style =
        ScrollingFocusNavigationStyle::Anchored;
    let (mut system, layout, w1, w2) = setup_two_windows(settings);
    let _ = system.move_focus(layout, Direction::Left);
    resize_selection_by(&mut system, layout, 0.12, ResizeOrientation::Horizontal);

    let gaps = Gaps::default();
    let frames = render(&mut system, layout, screen(1000.0, 800.0), &gaps);

    let w1_frame = frame_for(&frames, w1);
    let w2_frame = frame_for(&frames, w2);

    let expected_w2_x = w1_frame.x + w1_frame.width + gaps.horizontal;
    assert!(
        (w2_frame.x - expected_w2_x).abs() < 1.0,
        "expected contiguous columns, got w1 right+gap={} and w2 x={}",
        expected_w2_x,
        w2_frame.x
    );
}

#[test]
fn selecting_column_in_niri_mode_reveals_without_centering() {
    let mut settings = ScrollingLayoutSettings::default();
    settings.alignment = ScrollingAlignment::Center;
    settings.focus_navigation_style =
        ScrollingFocusNavigationStyle::Niri;
    settings.column_width_ratio = bits(0.45);
    settings.min_column_width_ratio = bits(0.2);
    settings.max_column_width_ratio = bits(0.9);
    let (mut system, layout, w1, _) = setup_two_windows(settings);

    let screen = screen(1000.0, 800.0);
    let gaps = Gaps::default();
    let _ = render(&mut system, layout, screen, &gaps);

    assert!(system.select_window(layout, w1));
    let frames = render(&mut system, layout, screen, &gaps);
    let w1_frame = frame_for(&frames, w1);
    let center_x = (screen.width - w1_frame.width) / 2.0;
    assert!(
        (w1_frame.x - center_x).abs() > 5.0,
        "expected niri mode select to avoid centering, got centered x={} (center x={})",
        w1_frame.x,
        center_x
    );
}

#[test]
fn niri_focus_between_different_width_columns_keeps_strip_stable() {
    let mut settings = ScrollingLayoutSettings::default();
    settings.alignment = ScrollingAlignment::Center;
    settings.focus_navigation_style =
        ScrollingFocusNavigationStyle::Niri;
    settings.column_width_ratio = bits(0.42);
    settings.min_column_width_ratio = bits(0.2);
    settings.max_column_width_ratio = bits(0.9);
    let (mut system, layout, w1, _) = setup_two_windows(settings);

    // Make focused-left column wider so selected widths differ across focus moves.
    let _ = system.move_focus(layout, Direction::Left);
    resize_selection_by(&mut system, layout, 0.15, ResizeOrientation::Horizontal);

    let screen = screen(1200.0, 800.0);
    let gaps = Gaps::default();

    let frames_left = render(&mut system, layout, screen, &gaps);
    let w1_x_left = frame_for(&frames_left, w1).x;

    let _ = system.move_focus(layout, Direction::Right);
    let frames_right = render(&mut system, layout, screen, &gaps);
    let w1_x_right = frame_for(&frames_right, w1).x;

    assert!(
        (w1_x_left - w1_x_right).abs() < 1.0,
        "expected stable strip position in niri mode, got x shift {} -> {}",
        w1_x_left,
        w1_x_right
    );
}

#[test]
fn move_selection_right_extracts_selected_from_stacked_column() {
    let (mut system, layout, w1, w2) = setup_two_windows(ScrollingLayoutSettings::default());
    system.join_selection_with_direction(layout, Direction::Left);

    assert!(system.move_selection(layout, Direction::Right));
        assert_eq!(column_count(&system, layout), 2);
    assert_eq!(windows_of(&system, layout, 0), vec![w1]);
    assert_eq!(windows_of(&system, layout, 1), vec![w2]);
    assert_eq!(system.selected_window(layout), Some(w2));
}

#[test]
fn move_selection_left_extracts_selected_from_stacked_column_at_edge() {
    let (mut system, layout, w1, w2) = setup_two_windows(ScrollingLayoutSettings::default());
    system.join_selection_with_direction(layout, Direction::Left);

    assert!(system.move_selection(layout, Direction::Left));
        assert_eq!(column_count(&system, layout), 2);
    assert_eq!(windows_of(&system, layout, 0), vec![w2]);
    assert_eq!(windows_of(&system, layout, 1), vec![w1]);
    assert_eq!(system.selected_window(layout), Some(w2));
}

#[test]
fn consume_or_expel_left_toggles_selected_window_on_left_side() {
    let (mut system, layout, w1, w2) = setup_two_windows(ScrollingLayoutSettings::default());

    system.consume_or_expel_selection(layout, Direction::Left);
        assert_eq!(column_count(&system, layout), 1);
    assert_eq!(windows_of(&system, layout, 0), vec![w1, w2]);

    system.consume_or_expel_selection(layout, Direction::Left);
        assert_eq!(column_count(&system, layout), 2);
    assert_eq!(windows_of(&system, layout, 0), vec![w2]);
    assert_eq!(windows_of(&system, layout, 1), vec![w1]);
    assert_eq!(system.selected_window(layout), Some(w2));
}

#[test]
fn consume_or_expel_right_expels_selected_window_on_right_side() {
    let (mut system, layout, w1, w2) = setup_two_windows(ScrollingLayoutSettings::default());
    system.join_selection_with_direction(layout, Direction::Left);

    system.consume_or_expel_selection(layout, Direction::Right);
        assert_eq!(column_count(&system, layout), 2);
    assert_eq!(windows_of(&system, layout, 0), vec![w1]);
    assert_eq!(windows_of(&system, layout, 1), vec![w2]);
    assert_eq!(system.selected_window(layout), Some(w2));
}

#[test]
fn niri_rightmost_resize_grow_increases_visible_width() {
    let mut settings = ScrollingLayoutSettings::default();
    settings.alignment = ScrollingAlignment::Center;
    settings.focus_navigation_style =
        ScrollingFocusNavigationStyle::Niri;
    settings.column_width_ratio = bits(0.45);
    settings.min_column_width_ratio = bits(0.2);
    settings.max_column_width_ratio = bits(0.95);
    let (mut system, layout, _, w2) = setup_two_windows(settings); // selected rightmost

    let screen = screen(1000.0, 800.0);
    let gaps = Gaps::default();

    let before = render(&mut system, layout, screen, &gaps);
    let before_frame = frame_for(&before, w2);

    resize_selection_by(&mut system, layout, 0.08, ResizeOrientation::Horizontal);

    let after = render(&mut system, layout, screen, &gaps);
    let after_frame = frame_for(&after, w2);

    let visible_width = |frame: Rect| {
        let left = frame.x.max(screen.x);
        let right =
            (frame.x + frame.width).min(screen.x + screen.width);
        (right - left).max(0.0)
    };
    let before_visible = visible_width(before_frame);
    let after_visible = visible_width(after_frame);
    assert!(
        after_visible > before_visible + 1.0,
        "expected visible width to grow, before={} after={}",
        before_visible,
        after_visible
    );
}

#[test]
fn center_override_persists_on_refocus_of_same_window_in_niri_mode() {
    let mut settings = ScrollingLayoutSettings::default();
    settings.alignment = ScrollingAlignment::Left;
    settings.focus_navigation_style =
        ScrollingFocusNavigationStyle::Niri;
    let (mut system, layout, _, w2) = setup_two_windows(settings);

    system.center_selected_column(layout);

    let screen = screen(1000.0, 800.0);
    let gaps = Gaps::default();
    let before = frame_for(&render(&mut system, layout, screen, &gaps), w2);

    assert!(system.select_window(layout, w2));
    assert!(system.select_window(layout, w2));

    let after = frame_for(&render(&mut system, layout, screen, &gaps), w2);

    assert!(
        (before.x - after.x).abs() < 1.0,
        "expected centered x to persist, got {} -> {}",
        before.x,
        after.x
    );
}

#[test]
fn vertical_resize_adjusts_height_weights_and_calculates_correctly() {
    let mut system = ScrollingLayoutSystem::new(&ScrollingLayoutSettings::default());
    let layout = system.create_layout();
    let w1 = wid(1, 1);
    let w2 = wid(1, 2);
    system.add_window_after_selection(layout, w1);
    system.add_window_after_selection(layout, w2);

    // Join them to the same column
    system.join_selection_with_direction(layout, Direction::Left);

    let screen = screen(1000.0, 800.0);
    let gaps = Gaps::default();

    // 1. Initial layout calculation (should be split equally)
    let frames_before = render(&mut system, layout, screen, &gaps);
    let f1_before = frame_for(&frames_before, w1);
    let f2_before = frame_for(&frames_before, w2);
    assert!((f1_before.height - f2_before.height).abs() < 1.0);

    // 2. Select w1 and resize it
    assert!(system.select_window(layout, w1));
    let mut new_f1 = f1_before;
    new_f1.height = f1_before.height + 100.0;

    on_window_resized(&mut system, layout, w1, new_f1, screen, &gaps);

    // 3. Re-calculate layout and verify resized heights are preserved
    let frames_after = render(&mut system, layout, screen, &gaps);
    let f1_after = frame_for(&frames_after, w1);
    let f2_after = frame_for(&frames_after, w2);

    assert!((f1_after.height - (f1_before.height + 100.0)).abs() < 2.0);
    assert!((f2_after.height - (f2_before.height - 100.0)).abs() < 2.0);
    assert!(
        (f1_after.height + f2_after.height
            - (f1_before.height + f2_before.height))
            .abs()
            < 2.0
    );
}

#[test]
fn vertical_resize_command_changes_row_height_without_changing_column_width() {
    let mut system = ScrollingLayoutSystem::new(&ScrollingLayoutSettings::default());
    let layout = system.create_layout();
    let w1 = wid(1, 1);
    let w2 = wid(1, 2);
    system.add_window_after_selection(layout, w1);
    system.add_window_after_selection(layout, w2);
    system.join_selection_with_direction(layout, Direction::Left);
    assert!(system.select_window(layout, w1));

    let screen = screen(1000.0, 800.0);
    let gaps = Gaps::default();
    let before = frame_for(&render(&mut system, layout, screen, &gaps), w1);

    resize_selection_by(&mut system, layout, 0.05, ResizeOrientation::Vertical);

    let after = frame_for(&render(&mut system, layout, screen, &gaps), w1);
    assert!(after.height > before.height);
    assert!((after.width - before.width).abs() < 1.0);
}

#[test]
fn smart_resize_uses_row_height_for_a_stacked_column() {
    let mut system = ScrollingLayoutSystem::new(&ScrollingLayoutSettings::default());
    let layout = system.create_layout();
    let w1 = wid(1, 1);
    let w2 = wid(1, 2);
    system.add_window_after_selection(layout, w1);
    system.add_window_after_selection(layout, w2);
    system.join_selection_with_direction(layout, Direction::Left);
    assert!(system.select_window(layout, w1));

    let screen = screen(1000.0, 800.0);
    let gaps = Gaps::default();
    let before = frame_for(&render(&mut system, layout, screen, &gaps), w1);
    resize_selection_by(&mut system, layout, 0.05, ResizeOrientation::Smart);
    let after = frame_for(&render(&mut system, layout, screen, &gaps), w1);

    assert!(after.height > before.height);
    assert!((after.width - before.width).abs() < 1.0);
}

#[test]
fn niri_new_window_reveal_does_not_unnecessarily_push_offscreen() {
    let mut settings = ScrollingLayoutSettings::default();
    settings.alignment = ScrollingAlignment::Center;
    settings.focus_navigation_style =
        ScrollingFocusNavigationStyle::Niri;
    settings.column_width_ratio = bits(0.4);
    let mut system = ScrollingLayoutSystem::new(&settings);
    let layout = system.create_layout();
    let w1 = wid(1, 1);
    let w2 = wid(1, 2);

    // Add first window
    system.add_window_after_selection(layout, w1);
    let screen = screen(1000.0, 800.0);
    let gaps = Gaps::default();
    let _ = render(&mut system, layout, screen, &gaps);
    assert_eq!(scroll_offset(&system, layout), 0.0);

    // Add second window
    system.add_window_after_selection(layout, w2);
    let frames = render(&mut system, layout, screen, &gaps);
    let offset = scroll_offset(&system, layout);

    // Both windows fit on screen (0.4 * 1000 = 400 width each, total 800 width < 1000 screen width).
    // Since we are in Niri mode, adding a new window w2 to the right of w1
    // should reveal it, but since w2 already fits fully on screen at offset 0.0
    // (starts at 400.0, ends at 800.0), the scroll offset should remain 0.0,
    // keeping both windows on screen!
    assert_eq!(offset, 0.0);

    let w1_frame = frame_for(&frames, w1);
    let w2_frame = frame_for(&frames, w2);
    assert!(w1_frame.x >= 0.0);
    assert!(w2_frame.x + w2_frame.width <= 1000.0);
}

#[test]
fn anchored_alignments_adjust_outer_columns() {
    let screen = screen(1000.0, 800.0);
    let gaps = Gaps::default();

    // Test Left Alignment: last column is anchored to the right.
    {
        let mut settings = ScrollingLayoutSettings::default();
        settings.alignment = ScrollingAlignment::Left;
        settings.focus_navigation_style =
            ScrollingFocusNavigationStyle::Anchored;
        settings.column_width_ratio = bits(0.4);
        let mut system = ScrollingLayoutSystem::new(&settings);
        let layout = system.create_layout();
        let w1 = wid(1, 1);
        let w2 = wid(1, 2);
        let w3 = wid(1, 3);
        system.add_window_after_selection(layout, w1);
        system.add_window_after_selection(layout, w2);
        system.add_window_after_selection(layout, w3);

        assert!(system.select_window(layout, w1));
        let w1_frame = frame_for(&render(&mut system, layout, screen, &gaps), w1);
        assert!((w1_frame.x - 0.0).abs() < 1.0); // left-aligned

        assert!(system.select_window(layout, w2));
        let w2_frame = frame_for(&render(&mut system, layout, screen, &gaps), w2);
        assert!((w2_frame.x - 0.0).abs() < 1.0); // left-aligned

        assert!(system.select_window(layout, w3));
        let w3_frame = frame_for(&render(&mut system, layout, screen, &gaps), w3);
        assert!((w3_frame.x - 600.0).abs() < 1.0); // right-aligned
    }

    // Test Right Alignment: first column is anchored to the left.
    {
        let mut settings = ScrollingLayoutSettings::default();
        settings.alignment = ScrollingAlignment::Right;
        settings.focus_navigation_style =
            ScrollingFocusNavigationStyle::Anchored;
        settings.column_width_ratio = bits(0.4);
        let mut system = ScrollingLayoutSystem::new(&settings);
        let layout = system.create_layout();
        let w1 = wid(1, 1);
        let w2 = wid(1, 2);
        let w3 = wid(1, 3);
        system.add_window_after_selection(layout, w1);
        system.add_window_after_selection(layout, w2);
        system.add_window_after_selection(layout, w3);

        assert!(system.select_window(layout, w1));
        let w1_frame = frame_for(&render(&mut system, layout, screen, &gaps), w1);
        assert!((w1_frame.x - 0.0).abs() < 1.0); // left-aligned

        assert!(system.select_window(layout, w2));
        let w2_frame = frame_for(&render(&mut system, layout, screen, &gaps), w2);
        assert!((w2_frame.x - 600.0).abs() < 1.0); // right-aligned

        assert!(system.select_window(layout, w3));
        let w3_frame = frame_for(&render(&mut system, layout, screen, &gaps), w3);
        assert!((w3_frame.x - 600.0).abs() < 1.0); // right-aligned
    }

    // Test Center Alignment: first column is left-anchored, last is right-anchored, middle is centered.
    {
        let mut settings = ScrollingLayoutSettings::default();
        settings.alignment = ScrollingAlignment::Center;
        settings.focus_navigation_style =
            ScrollingFocusNavigationStyle::Anchored;
        settings.column_width_ratio = bits(0.4);
        let mut system = ScrollingLayoutSystem::new(&settings);
        let layout = system.create_layout();
        let w1 = wid(1, 1);
        let w2 = wid(1, 2);
        let w3 = wid(1, 3);
        system.add_window_after_selection(layout, w1);
        system.add_window_after_selection(layout, w2);
        system.add_window_after_selection(layout, w3);

        assert!(system.select_window(layout, w1));
        let w1_frame = frame_for(&render(&mut system, layout, screen, &gaps), w1);
        assert!((w1_frame.x - 0.0).abs() < 1.0); // left-aligned

        assert!(system.select_window(layout, w2));
        let w2_frame = frame_for(&render(&mut system, layout, screen, &gaps), w2);
        assert!((w2_frame.x - 300.0).abs() < 1.0); // centered

        assert!(system.select_window(layout, w3));
        let w3_frame = frame_for(&render(&mut system, layout, screen, &gaps), w3);
        assert!((w3_frame.x - 600.0).abs() < 1.0); // right-aligned
    }
}

#[test]
fn single_column_fills_full_width() {
    let mut settings = ScrollingLayoutSettings::default();
    settings.column_width_ratio = bits(0.4);
    let mut system = ScrollingLayoutSystem::new(&settings);
    let layout = system.create_layout();
    let w1 = wid(1, 1);

    system.add_window_after_selection(layout, w1);

    let screen = screen(1000.0, 800.0);
    let gaps = Gaps::default();
    let frames1 = render(&mut system, layout, screen, &gaps);
    let w1_frame1 = frame_for(&frames1, w1);

    // With only 1 column, width should be 100% of tiling width (1000.0)
    assert!((w1_frame1.width - 1000.0).abs() < 1.0);
    assert!((w1_frame1.x - 0.0).abs() < 1.0);

    // Add a second window (w2)
    let w2 = wid(1, 2);
    system.add_window_after_selection(layout, w2);

    let frames2 = render(&mut system, layout, screen, &gaps);
    let w1_frame2 = frame_for(&frames2, w1);
    let w2_frame2 = frame_for(&frames2, w2);

    // With 2 columns, they should respect the configured column_width_ratio (0.4 * 1000 = 400.0)
    assert!((w1_frame2.width - 400.0).abs() < 1.0);
    assert!((w2_frame2.width - 400.0).abs() < 1.0);
}

#[test]
fn app_reconciliation_honors_updated_next_to_selection_policy() {
    let mut settings = ScrollingLayoutSettings::default();
    settings.base.window_insertion_point = Some(WindowInsertionPoint::EndOfTree);
    let mut system = ScrollingLayoutSystem::new(&settings);
    let layout = system.create_layout();
    let w1 = wid(1, 1);
    let w2 = wid(1, 2);
    let w3 = wid(1, 3);
    system.add_window_after_selection(layout, w1);
    system.add_window_after_selection(layout, w2);
    assert!(system.select_window(layout, w1));

    settings.base.window_insertion_point = Some(WindowInsertionPoint::NextToSelection);
    system.update_settings(&settings);
    system.set_windows_for_app(layout, 1, vec![w1, w2, w3]);

    assert_eq!(system.all_windows_in_layout(layout), vec![w1, w3, w2]);
}

#[test]
fn app_reconciliation_honors_updated_end_of_tree_policy() {
    let mut settings = ScrollingLayoutSettings::default();
    let mut system = ScrollingLayoutSystem::new(&settings);
    let layout = system.create_layout();
    let w1 = wid(1, 1);
    let w2 = wid(1, 2);
    let w3 = wid(1, 3);
    system.add_window_after_selection(layout, w1);
    system.add_window_after_selection(layout, w2);
    assert!(system.select_window(layout, w1));

    settings.base.window_insertion_point = Some(WindowInsertionPoint::EndOfTree);
    system.update_settings(&settings);
    system.set_windows_for_app(layout, 1, vec![w1, w2, w3]);

    assert_eq!(system.all_windows_in_layout(layout), vec![w1, w2, w3]);
}
