#![allow(dead_code)]

use std::collections::HashMap;
use std::ops::Deref;

use rift::actor::{LayoutId, WindowId};
use rift::common::config::StackDefaultOrientation;
use rift::layout_engine::systems::arrangement::{combining, Arrangement, Combining};
use rift::layout_engine::systems::traditional::system::TraditionalLayoutSystem;
use rift::layout_engine::{Direction, LayoutKind, Orientation, ResizeOrientation};
use rift::model::tree::forest::Forest;
use rift::model::tree::view::{NodeId, Place, SizeChange};

/// A rectangle on the screen.
#[derive(Clone, Copy, Debug, Default, PartialEq)]
struct Rect {
    x: f64,
    y: f64,
    width: f64,
    height: f64,
}

impl Rect {
    fn new(x: f64, y: f64, width: f64, height: f64) -> Rect {
        Rect { x, y, width, height }
    }

    fn right(&self) -> f64 {
        self.x + self.width
    }

    fn bottom(&self) -> f64 {
        self.y + self.height
    }

    fn mid(&self) -> (f64, f64) {
        (self.x + self.width / 2.0, self.y + self.height / 2.0)
    }

    /// Both corners on whole points.
    fn round(&self) -> Rect {
        let (x, y) = (self.x.round(), self.y.round());
        Rect { x, y, width: self.right().round() - x, height: self.bottom().round() - y }
    }
}

/// The gaps around and between windows.
#[derive(Clone, Copy, Debug, Default)]
struct Gaps {
    left: f64,
    right: f64,
    top: f64,
    bottom: f64,
    horizontal: f64,
    vertical: f64,
}

/// The part of a screen that windows are laid out in.
fn tiling_area(screen: Rect, gaps: &Gaps) -> Rect {
    Rect {
        x: screen.x + gaps.left,
        y: screen.y + gaps.top,
        width: (screen.width - gaps.left - gaps.right).max(0.0),
        height: (screen.height - gaps.top - gaps.bottom).max(0.0),
    }
}

/// What a window says about its size. Zero stands for no limit.
#[derive(Clone, Copy, Debug)]
struct Limits {
    is_resizable: bool,
    locked_width: f64,
    locked_height: f64,
    min_width: f64,
    min_height: f64,
    max_width: f64,
    max_height: f64,
}

impl Default for Limits {
    fn default() -> Limits {
        Limits {
            is_resizable: true,
            locked_width: 0.0,
            locked_height: 0.0,
            min_width: 0.0,
            min_height: 0.0,
            max_width: 0.0,
            max_height: 0.0,
        }
    }
}

type LimitsByWindow = HashMap<WindowId, Limits>;

fn sane(value: f64) -> f64 {
    if value.is_finite() {
        value.max(0.0)
    } else {
        0.0
    }
}

impl Limits {
    fn normalized(self) -> Limits {
        let (min_width, min_height) = (sane(self.min_width), sane(self.min_height));
        let above = |max: f64, min: f64| if max > 0.0 { max.max(min) } else { 0.0 };
        Limits {
            is_resizable: self.is_resizable,
            locked_width: sane(self.locked_width),
            locked_height: sane(self.locked_height),
            min_width,
            min_height,
            max_width: above(sane(self.max_width), min_width),
            max_height: above(sane(self.max_height), min_height),
        }
    }

    fn min_for_axis(&self, horizontal: bool) -> f64 {
        if horizontal {
            self.min_width
        } else {
            self.min_height
        }
    }

    fn max_for_axis(&self, horizontal: bool) -> f64 {
        if horizontal {
            self.max_width
        } else {
            self.max_height
        }
    }

    fn fixed_for_axis(&self, horizontal: bool) -> Option<f64> {
        let locked = if horizontal { self.locked_width } else { self.locked_height };
        let (min, max) = (self.min_for_axis(horizontal), self.max_for_axis(horizontal));
        if locked > 0.0 {
            Some(locked)
        } else {
            (min > 0.0 && max == min).then_some(min)
        }
    }

    fn resizable_for_axis(&self, horizontal: bool) -> bool {
        self.is_resizable && self.fixed_for_axis(horizontal).is_none()
    }
}

/// What one of several neighbours wants of a length.
#[derive(Clone, Copy, Debug)]
struct AxisConstraints {
    min: f64,
    fixed: Option<f64>,
    max: Option<f64>,
    weight: f64,
    can_grow: bool,
}

/// Divides a length by weight. Nobody gets less than it needs or more than its
/// limit; what cannot grow gets the least it needs.
fn solve_axis_lengths(constraints: &[AxisConstraints], available: f64) -> Vec<f64> {
    let mut lengths: Vec<f64> = constraints
        .iter()
        .map(|c| c.fixed.unwrap_or(c.min).max(0.0))
        .collect();
    let needed: f64 = lengths.iter().sum();
    if needed > available {
        let scale = if needed > 0.0 { available.max(0.0) / needed } else { 0.0 };
        return lengths.into_iter().map(|length| length * scale).collect();
    }
    let mut open: Vec<usize> =
        (0..constraints.len()).filter(|&i| constraints[i].can_grow).collect();
    while !open.is_empty() {
        let settled: f64 =
            (0..lengths.len()).filter(|i| !open.contains(i)).map(|i| lengths[i]).sum();
        let left = (available - settled).max(0.0);
        let total: f64 = open.iter().map(|&i| constraints[i].weight.max(0.0)).sum();
        let share = |i: usize| {
            if total > f64::EPSILON {
                left * constraints[i].weight.max(0.0) / total
            } else {
                left / open.len() as f64
            }
        };
        let short: Vec<(usize, f64)> = open
            .iter()
            .map(|&i| (i, constraints[i].min.max(0.0)))
            .filter(|&(i, min)| share(i) < min)
            .collect();
        let bound: Vec<(usize, f64)> = if short.is_empty() {
            open.iter()
                .filter_map(|&i| constraints[i].max.map(|max| (i, max.max(lengths[i]))))
                .filter(|&(i, max)| share(i) > max)
                .collect()
        } else {
            short
        };
        if bound.is_empty() {
            let shares: Vec<f64> = open.iter().map(|&i| share(i)).collect();
            for (&i, length) in open.iter().zip(shares) {
                lengths[i] = length;
            }
            break;
        }
        for &(i, length) in &bound {
            lengths[i] = length;
        }
        open.retain(|i| !bound.iter().any(|(j, _)| j == i));
    }
    lengths
}

const MIN_NODE_SIZE: f32 = 0.05;

#[derive(Clone, Copy, Debug, Default)]
struct Weight {
    size: f32,
    total: f32,
    remembered: f32,
}

/// Follows the size steps that layouts note.
#[derive(Debug, Default)]
struct NodeSizes {
    weights: HashMap<NodeId, Weight>,
    children: HashMap<NodeId, Vec<NodeId>>,
    parents: HashMap<NodeId, NodeId>,
}

impl NodeSizes {
    fn new() -> NodeSizes {
        NodeSizes::default()
    }

    fn weight(&self, node: NodeId) -> Weight {
        self.weights.get(&node).copied().unwrap_or_default()
    }

    fn size(&self, node: NodeId) -> f32 {
        self.weight(node).size
    }

    fn set_size(&mut self, node: NodeId, size: f32) {
        self.entry(node).size = size;
    }

    fn set_total(&mut self, node: NodeId, total: f32) {
        self.entry(node).total = total;
    }

    fn entry(&mut self, node: NodeId) -> &mut Weight {
        self.weights.entry(node).or_default()
    }

    fn children(&self, node: NodeId) -> Vec<NodeId> {
        self.children.get(&node).cloned().unwrap_or_default()
    }

    fn children_total(&self, node: NodeId) -> f32 {
        self.children(node).into_iter().map(|child| self.size(child).max(0.0)).sum()
    }

    fn recompute_total(&mut self, node: NodeId) {
        let total = self.children_total(node);
        self.entry(node).total = total;
    }

    fn follow(&mut self, changes: &[SizeChange]) {
        for &change in changes {
            self.step(change);
        }
    }

    fn step(&mut self, change: SizeChange) {
        match change {
            SizeChange::Created { node } => {
                self.weights.insert(node, Weight::default());
            }
            SizeChange::Attached { node, parent, index } => {
                let list = self.children.entry(parent).or_default();
                let index = (index as usize).min(list.len());
                list.insert(index, node);
                self.parents.insert(node, parent);
                self.entry(node).size = 1.0;
                self.entry(parent).total += 1.0;
            }
            SizeChange::Detached { node, parent, is_window } => {
                self.release(node, parent, is_window);
                if let Some(list) = self.children.get_mut(&parent) {
                    list.retain(|&child| child != node);
                }
                self.parents.remove(&node);
            }
            SizeChange::Dropped { node } => {
                self.weights.remove(&node);
                self.children.remove(&node);
            }
            SizeChange::Copied { src, dest } => {
                let weight = self.weight(src);
                self.weights.insert(dest, weight);
            }
            SizeChange::Inherited { node, from } => {
                let own = self.size(node);
                if let Some(&parent) = self.parents.get(&node) {
                    self.entry(parent).total -= own;
                }
                let taken = std::mem::replace(&mut self.entry(from).size, 0.0);
                self.entry(node).size = taken;
            }
            SizeChange::Totalled { parent } => self.recompute_total(parent),
            SizeChange::Halved { node, added } => {
                let size = self.size(node).max(0.0);
                let half = if size <= f32::EPSILON { 1.0 } else { size * 0.5 };
                self.entry(node).size = half;
                self.entry(added).size = half;
                if let Some(&parent) = self.parents.get(&node) {
                    self.recompute_total(parent);
                }
            }
            SizeChange::Evened { node } => self.even_out(node),
            SizeChange::Remembered { node } => {
                let size = self.size(node);
                self.entry(node).remembered = size;
            }
            SizeChange::Recalled { node } => {
                let size = self.weight(node).remembered;
                self.entry(node).size = size;
            }
            SizeChange::Summed { node, first, second } => {
                let sum = self.weight(first).remembered + self.weight(second).remembered;
                self.entry(node).size = sum;
            }
            SizeChange::Promoted { parent } => {
                let whole = self.size(parent).max(0.0);
                let total = self.children_total(parent);
                let list = self.children(parent);
                for &child in &list {
                    let share = if total.is_finite() && total > f32::EPSILON {
                        whole * self.size(child).max(0.0) / total
                    } else {
                        whole / list.len() as f32
                    };
                    self.entry(child).remembered = share;
                }
            }
            SizeChange::Rationed { parent, master, stack, ratio } => {
                let ratio = f64::from_bits(ratio).clamp(0.05, 0.95) as f32;
                let total = 2.0_f32;
                let master_size = (ratio * total).max(MIN_NODE_SIZE);
                let stack_size = (total - master_size).max(MIN_NODE_SIZE);
                self.entry(master).size = master_size;
                self.entry(stack).size = stack_size;
                self.entry(parent).total = master_size + stack_size;
            }
        }
    }

    /// A window that leaves lets its siblings keep their proportions; a container
    /// just takes its weight along.
    fn release(&mut self, node: NodeId, parent: NodeId, is_window: bool) {
        if !is_window {
            let size = self.size(node);
            self.entry(parent).total -= size;
            return;
        }
        let rest: Vec<_> =
            self.children(parent).into_iter().filter(|&child| child != node).collect();
        let total: f32 = rest.iter().map(|&child| self.size(child).max(0.0)).sum();
        if rest.is_empty() {
            self.entry(parent).total = 0.0;
        } else if total.is_finite() && total > f32::EPSILON {
            let scale = rest.len() as f32 / total;
            for &child in &rest {
                self.entry(child).size *= scale;
            }
            self.entry(parent).total = rest.len() as f32;
        } else {
            for &child in &rest {
                self.entry(child).size = 1.0;
            }
            self.entry(parent).total = rest.len() as f32;
        }
    }

    fn even_out(&mut self, node: NodeId) {
        let list = self.children(node);
        if list.is_empty() {
            return;
        }
        self.entry(node).total = list.len() as f32;
        for &child in &list {
            self.entry(child).size = 1.0;
        }
        for child in list {
            self.even_out(child);
        }
    }

    fn proportion(&self, node: NodeId) -> Option<f64> {
        let parent = *self.parents.get(&node)?;
        let total = self.children_total(parent);
        (total.is_finite() && total > f32::EPSILON)
            .then(|| f64::from(self.size(node).max(0.0)) / f64::from(total))
    }

    /// Moves weight from one sibling to another. Nobody is left with too little.
    fn take_share(&mut self, node: NodeId, from: NodeId, share: f32) {
        let share = share.min(self.size(from) - MIN_NODE_SIZE);
        let share = share.max(MIN_NODE_SIZE - self.size(node));
        self.entry(from).size -= share;
        self.entry(node).size += share;
        let Some(&parent) = self.parents.get(&node) else {
            return;
        };
        let list = self.children(parent);
        let total = self.children_total(parent);
        if total > f32::EPSILON && total.is_finite() {
            let scale = list.len() as f32 / total;
            for &child in &list {
                self.entry(child).size *= scale;
            }
            self.entry(parent).total = list.len() as f32;
        }
    }

    /// Grows a node in a direction by a share of the screen, at the expense of the
    /// neighbour that the layout names.
    fn resize(
        &mut self,
        system: &TraditionalLayoutSystem,
        node: NodeId,
        screen_ratio: f64,
        direction: Direction,
    ) -> bool {
        let Some((resizing, sibling)) = system.resize_pair(node, direction) else {
            return false;
        };
        let rate = system
            .exchange_nodes(resizing, direction)
            .into_iter()
            .try_fold(1.0, |rate, above| self.proportion(above).map(|part| rate * part))
            .unwrap_or(1.0);
        let Some(&parent) = self.parents.get(&resizing) else {
            return false;
        };
        let local = screen_ratio * f64::from(self.children_total(parent)) / rate;
        self.take_share(resizing, sibling, local as f32);
        true
    }
}

/// Where the line that marks a stack is drawn.
#[derive(Clone, Copy, Debug, PartialEq, Eq)]
enum LinePlacement {
    Before,
    After,
}

/// How stacks look.
#[derive(Clone, Copy, Debug)]
struct StackStyle {
    offset: f64,
    line_thickness: f64,
    line_of_rows: LinePlacement,
    line_of_columns: LinePlacement,
}

impl Default for StackStyle {
    fn default() -> StackStyle {
        StackStyle {
            offset: 0.0,
            line_thickness: 0.0,
            line_of_rows: LinePlacement::Before,
            line_of_columns: LinePlacement::Before,
        }
    }
}

struct StackLayout {
    container: Rect,
    offset: f64,
    is_horizontal: bool,
    width: f64,
    height: f64,
}

impl StackLayout {
    fn new(rect: Rect, count: usize, offset: f64, is_horizontal: bool, style: &StackStyle) -> Self {
        let container = beside_line(rect, is_horizontal, style);
        let spread = count.saturating_sub(1) as f64 * offset;
        let (width, height) = if is_horizontal {
            ((container.width - spread).max(100.0), container.height.max(100.0))
        } else {
            (container.width.max(100.0), (container.height - spread).max(100.0))
        };
        StackLayout { container, offset, is_horizontal, width, height }
    }

    fn frame(&self, index: usize) -> Rect {
        let moved = index as f64 * self.offset;
        let (dx, dy) = if self.is_horizontal { (moved, 0.0) } else { (0.0, moved) };
        let c = &self.container;
        let width = self.width.min(c.width);
        let height = self.height.min(c.height);
        let max_x = (c.x + c.width - width).max(c.x);
        let max_y = (c.y + c.height - height).max(c.y);
        Rect {
            x: (c.x + dx).clamp(c.x, max_x),
            y: (c.y + dy).clamp(c.y, max_y),
            width,
            height,
        }
        .round()
    }
}

fn beside_line(mut rect: Rect, is_horizontal: bool, style: &StackStyle) -> Rect {
    let reserve = style.line_thickness.max(0.0);
    if reserve <= 0.0 {
        return rect;
    }
    if is_horizontal {
        if style.line_of_rows == LinePlacement::Before {
            rect.y += reserve;
        }
        rect.height = (rect.height - reserve).max(0.0);
    } else {
        if style.line_of_columns == LinePlacement::Before {
            rect.x += reserve;
        }
        rect.width = (rect.width - reserve).max(0.0);
    }
    rect
}

/// Everything that frames depend on.
struct Frames<'a> {
    system: &'a TraditionalLayoutSystem,
    sizes: &'a NodeSizes,
    limits: &'a LimitsByWindow,
    gaps: &'a Gaps,
    style: &'a StackStyle,
    screen: Rect,
}

#[derive(Clone, Copy)]
struct Need {
    min: f64,
    fixed: Option<f64>,
    max: Option<f64>,
    can_grow: bool,
}

const FREE: Need = Need { min: 0.0, fixed: None, max: None, can_grow: true };

fn leaf_need(limits: Limits, horizontal: bool) -> Need {
    let limits = limits.normalized();
    let min = limits.min_for_axis(horizontal);
    let max = Some(limits.max_for_axis(horizontal)).filter(|max| *max > 0.0);
    if limits.is_resizable {
        // Bounds that such windows report are often transient; only a locked axis counts.
        return match limits.fixed_for_axis(horizontal) {
            Some(fixed) => Need { min, fixed: Some(fixed), max: Some(fixed), can_grow: false },
            None => Need { min: 0.0, fixed: None, max, can_grow: true },
        };
    }
    let fixed = limits.fixed_for_axis(horizontal).filter(|v| *v > 0.0);
    Need { min, fixed, max: max.or(fixed), can_grow: fixed.is_none() }
}

fn largest(parts: impl Iterator<Item = Option<f64>>) -> Option<f64> {
    parts.into_iter().try_fold(0.0_f64, |acc, part| part.map(|value| acc.max(value)))
}

fn total(parts: impl Iterator<Item = Option<f64>>) -> Option<f64> {
    parts.into_iter().try_fold(0.0_f64, |acc, part| part.map(|value| acc + value))
}

impl Frames<'_> {
    fn tree(&self) -> &Forest {
        self.system.tree()
    }

    fn need(&self, node: NodeId, horizontal: bool) -> Need {
        if let Some(window) = self.tree().window_at(node) {
            return self.limits.get(&window).map_or(FREE, |limits| leaf_need(*limits, horizontal));
        }
        let children = self.tree().children(node);
        if children.is_empty() {
            return FREE;
        }
        let kind = self.tree().kind(node);
        let parts: Vec<Need> = children
            .iter()
            .map(|&child| {
                let need = self.need(child, horizontal);
                Need {
                    min: need.min.max(0.0),
                    fixed: need.fixed.map(|v| v.max(0.0)),
                    max: need.max.map(|v| v.max(0.0)),
                    can_grow: need.can_grow,
                }
            })
            .collect();
        let can_grow = parts.iter().any(|part| part.can_grow);
        let axis = if horizontal { Orientation::Horizontal } else { Orientation::Vertical };
        let plus = |need: Need, extra: f64| Need {
            min: need.min + extra,
            fixed: need.fixed.map(|v| v + extra),
            max: need.max.map(|v| v + extra),
            can_grow: need.can_grow,
        };
        let line = self.style.line_thickness.max(0.0);
        let further = (parts.len() - 1) as f64;
        let largest = Need {
            min: parts.iter().fold(0.0_f64, |acc, part| acc.max(part.min)),
            fixed: largest(parts.iter().map(|part| part.fixed)),
            max: largest(parts.iter().map(|part| part.max)),
            can_grow,
        };
        match combining(kind, axis, parts.len()) {
            Combining::Only { with_line } => plus(parts[0], if with_line { line } else { 0.0 }),
            Combining::Piled => {
                let span = self.style.offset.max(0.0) * further;
                let required = parts
                    .iter()
                    .fold(0.0_f64, |acc, part| acc.max(part.fixed.unwrap_or(part.min)));
                Need {
                    min: required + span,
                    fixed: None,
                    max: largest.max.map(|value| value + span),
                    can_grow,
                }
            }
            Combining::Lined => plus(largest, line),
            Combining::Summed => {
                let gap = if horizontal { self.gaps.horizontal } else { self.gaps.vertical };
                let sum = Need {
                    min: parts.iter().map(|part| part.min).sum(),
                    fixed: total(parts.iter().map(|part| part.fixed)),
                    max: total(parts.iter().map(|part| part.max)),
                    can_grow,
                };
                plus(sum, gap * further)
            }
            Combining::Largest => largest,
        }
    }

    fn lay_out(&self, node: NodeId, rect: Rect, out: &mut Vec<(WindowId, Rect)>) {
        let info = self.tree().info(node);
        let rect = if info.is_fullscreen {
            self.screen
        } else if info.is_fullscreen_within_gaps {
            tiling_area(self.screen, self.gaps)
        } else {
            rect
        };
        match self.tree().arrangement(node) {
            Arrangement::Nothing => {}
            Arrangement::Window { window } => {
                let mut frame = rect;
                if let Some(&limits) = self.limits.get(&window) {
                    let fit = |need: Need, length: f64| {
                        let wanted = need.fixed.unwrap_or(length).max(need.min);
                        let wanted = need.max.map_or(wanted, |max| wanted.min(max));
                        wanted.min(length).max(0.0)
                    };
                    frame.width = fit(leaf_need(limits, true), rect.width);
                    frame.height = fit(leaf_need(limits, false), rect.height);
                }
                out.push((window, frame));
            }
            Arrangement::Pile { axis, focused } => {
                self.lay_out_stack(node, rect, axis == Orientation::Horizontal, focused, out)
            }
            Arrangement::Row { axis } => {
                self.lay_out_axis(node, rect, axis == Orientation::Horizontal, out)
            }
        }
    }

    fn lay_out_stack(
        &self,
        node: NodeId,
        rect: Rect,
        is_horizontal: bool,
        focused: usize,
        out: &mut Vec<(WindowId, Rect)>,
    ) {
        let children = self.tree().children(node);
        let offset = if children.len() > 1 {
            // The focused child keeps the size it requires; a limit alone requires none.
            let need = self.need(children[focused], is_horizontal);
            let length = if is_horizontal { rect.width } else { rect.height };
            let required = need.fixed.unwrap_or(need.min).clamp(0.0, length.max(0.0));
            let most = (length - required).max(0.0) / (children.len() - 1) as f64;
            self.style.offset.min(most)
        } else {
            self.style.offset
        };
        let layout = StackLayout::new(rect, children.len(), offset, is_horizontal, self.style);
        for (index, &child) in children.iter().enumerate() {
            self.lay_out(child, layout.frame(index), out);
        }
    }

    fn lay_out_axis(
        &self,
        node: NodeId,
        rect: Rect,
        horizontal: bool,
        out: &mut Vec<(WindowId, Rect)>,
    ) {
        let children = self.tree().children(node);
        if children.is_empty() {
            return;
        }
        let weights: Vec<f32> = children.iter().map(|&child| self.sizes.size(child)).collect();
        let sum: f32 = weights.iter().sum();
        let even = !sum.is_finite()
            || sum <= f32::EPSILON
            || weights.iter().any(|size| !size.is_finite() || *size < 0.05 - f32::EPSILON);
        let gap = if horizontal { self.gaps.horizontal } else { self.gaps.vertical };
        let length = if horizontal { rect.width } else { rect.height };
        let usable = if gap == 0.0 {
            length
        } else {
            (length - gap * (children.len() - 1) as f64).max(0.0)
        };
        let constraints: Vec<AxisConstraints> = children
            .iter()
            .zip(&weights)
            .map(|(&child, &size)| {
                let need = self.need(child, horizontal);
                AxisConstraints {
                    min: need.min,
                    fixed: need.fixed,
                    max: need.max,
                    weight: f64::from(if even { 1.0 } else { size.max(0.0) }),
                    can_grow: need.can_grow,
                }
            })
            .collect();
        let mut offset = if horizontal { rect.x } else { rect.y };
        for (&child, part) in children.iter().zip(solve_axis_lengths(&constraints, usable)) {
            let frame = if horizontal {
                Rect { x: offset, width: part, ..rect }
            } else {
                Rect { y: offset, height: part, ..rect }
            };
            self.lay_out(child, frame.round(), out);
            offset += part + gap;
        }
    }

    /// The frames of all windows of a layout.
    fn calculate_layout(&self, layout: LayoutId) -> Vec<(WindowId, Rect)> {
        self.calculate_layout_for_node(self.system.root(layout))
    }

    /// The frames of the windows below a node that has the screen to itself.
    fn calculate_layout_for_node(&self, node: NodeId) -> Vec<(WindowId, Rect)> {
        let mut out = Vec::new();
        self.lay_out(node, tiling_area(self.screen, self.gaps), &mut out);
        out
    }
}

/// Edges that moved by less than a point did not move.
fn moved(delta: f64) -> f64 {
    if delta.abs() < 1.0 {
        0.0
    } else {
        delta
    }
}

/// A node follows a change of its frame: at most one edge along each axis.
fn set_frame_from_resize(
    system: &TraditionalLayoutSystem,
    sizes: &mut NodeSizes,
    node: NodeId,
    old: Rect,
    new: Rect,
    screen: Rect,
) {
    let axes = [
        (
            (Direction::Left, moved(old.x - new.x)),
            (Direction::Right, moved(new.right() - old.right())),
            screen.width,
        ),
        (
            (Direction::Up, moved(old.y - new.y)),
            (Direction::Down, moved(new.bottom() - old.bottom())),
            screen.height,
        ),
    ];
    for (near, far, whole) in axes {
        let (primary, secondary) =
            if near.1.abs() >= far.1.abs() { (near, far) } else { (far, near) };
        let chosen = system.drag_direction(
            node,
            primary.0,
            primary.1 != 0.0,
            secondary.0,
            secondary.1 != 0.0,
        );
        if let Some(direction) = chosen {
            let delta = if direction == primary.0 { primary.1 } else { secondary.1 };
            sizes.resize(system, node, delta / whole, direction);
        }
    }
}

/// Changes the share of the selected window.
fn resize_selection_by(
    system: &TraditionalLayoutSystem,
    sizes: &mut NodeSizes,
    layout: LayoutId,
    amount: f64,
    orientation: ResizeOrientation,
) {
    if amount == 0.0 {
        return;
    }
    if let Some((node, _, direction)) = system.resize_choice(layout, orientation) {
        sizes.resize(system, node, amount, direction);
    }
}

/// A system with the weights of its nodes.
struct TestSystem {
    system: TraditionalLayoutSystem,
    sizes: NodeSizes,
    bare_root: Option<NodeId>,
}

impl Deref for TestSystem {
    type Target = TraditionalLayoutSystem;

    fn deref(&self) -> &TraditionalLayoutSystem {
        &self.system
    }
}

impl TestSystem {
    fn new() -> TestSystem {
        TestSystem {
            system: TraditionalLayoutSystem::default(),
            sizes: NodeSizes::new(),
            bare_root: None,
        }
    }

    fn bare() -> TestSystem {
        let mut system = TestSystem::new();
        let layout = system.create_layout();
        let root = system.root(layout);
        system.set_layout(root, LayoutKind::Horizontal);
        system.bare_root = Some(root);
        system
    }

    fn root_id(&self) -> NodeId {
        self.bare_root.unwrap()
    }

    fn add_child(&mut self, parent: NodeId, kind: LayoutKind) -> NodeId {
        let child = self.insert_container(Place::Last(parent));
        self.set_layout(child, kind);
        child
    }

    fn add_child_of_root(&mut self, kind: LayoutKind) -> NodeId {
        self.add_child(self.root_id(), kind)
    }

    fn move_over(&self, from: NodeId, direction: Direction) -> Option<NodeId> {
        self.tree().move_over(from, direction)
    }

    fn parent_of_window(&self, layout: LayoutId, window: WindowId) -> NodeId {
        self.tree().parent(self.window_node(layout, window).unwrap()).unwrap()
    }

    fn synced<R>(&mut self, step: impl FnOnce(&mut TraditionalLayoutSystem) -> R) -> R {
        let result = step(&mut self.system);
        let changes = self.system.take_size_changes();
        self.sizes.follow(&changes);
        result
    }

    fn size(&self, node: NodeId) -> f32 {
        self.sizes.size(node)
    }

    fn total(&self, node: NodeId) -> f32 {
        self.sizes.weight(node).total
    }

    fn set_size(&mut self, node: NodeId, size: f32) {
        self.sizes.set_size(node, size);
    }

    fn set_total(&mut self, node: NodeId, total: f32) {
        self.sizes.set_total(node, total);
    }

    fn proportion(&self, node: NodeId) -> Option<f64> {
        self.sizes.proportion(node)
    }

    fn create_layout(&mut self) -> LayoutId {
        self.synced(|system| system.create_layout())
    }

    fn set_layout(&mut self, node: NodeId, kind: LayoutKind) {
        self.synced(|system| system.set_layout(node, kind))
    }

    fn insert_container(&mut self, place: Place) -> NodeId {
        self.synced(|system| system.insert_container(place))
    }

    fn set_equalize_nodes(&mut self, value: bool) {
        self.synced(|system| system.set_equalize_nodes(value))
    }

    fn add_window_after_selection(&mut self, layout: LayoutId, window: WindowId) {
        self.synced(|system| system.add_window_after_selection(layout, window))
    }

    fn add_window_under(&mut self, layout: LayoutId, parent: NodeId, window: WindowId) -> NodeId {
        self.synced(|system| system.add_window_under(layout, parent, window))
    }

    fn remove_window(&mut self, window: WindowId) {
        self.synced(|system| system.remove_window(window))
    }

    fn remove_window_and_rebalance_parent(&mut self, window: WindowId) {
        self.synced(|system| system.remove_window_and_rebalance_parent(window))
    }

    fn select(&mut self, node: NodeId) {
        self.synced(|system| system.select(node))
    }

    fn select_window(&mut self, layout: LayoutId, window: WindowId) -> bool {
        self.synced(|system| system.select_window(layout, window))
    }

    fn move_node(&mut self, layout: LayoutId, node: NodeId, direction: Direction) -> bool {
        self.synced(|system| system.move_node(layout, node, direction))
    }

    fn join_selection_with_direction(&mut self, layout: LayoutId, direction: Direction) {
        self.synced(|system| system.join_selection_with_direction(layout, direction))
    }

    fn unjoin_selection(&mut self, layout: LayoutId) {
        self.synced(|system| system.unjoin_selection(layout))
    }

    fn consume_or_expel_selection(&mut self, layout: LayoutId, direction: Direction) {
        self.synced(|system| system.consume_or_expel_selection(layout, direction))
    }

    fn apply_stacking_to_parent_of_selection(
        &mut self,
        layout: LayoutId,
        orientation: StackDefaultOrientation,
    ) -> Vec<WindowId> {
        self.synced(|system| system.apply_stacking_to_parent_of_selection(layout, orientation))
    }

    fn unstack_parent_of_selection(
        &mut self,
        layout: LayoutId,
        orientation: StackDefaultOrientation,
    ) -> Vec<WindowId> {
        self.synced(|system| system.unstack_parent_of_selection(layout, orientation))
    }

    fn toggle_tile_orientation(&mut self, layout: LayoutId) {
        self.synced(|system| system.toggle_tile_orientation(layout))
    }

    fn rebalance(&mut self, layout: LayoutId) {
        self.synced(|system| system.rebalance(layout))
    }

    fn resize_selection_by(
        &mut self,
        layout: LayoutId,
        amount: f64,
        orientation: ResizeOrientation,
    ) {
        resize_selection_by(&self.system, &mut self.sizes, layout, amount, orientation);
    }

    fn set_frame_from_resize(&mut self, node: NodeId, old: Rect, new: Rect, screen: Rect) {
        set_frame_from_resize(&self.system, &mut self.sizes, node, old, new, screen);
    }

    fn draw_tree(&self, layout: LayoutId) -> String {
        format!("{:?}", self.all_windows_in_layout(layout))
    }

    fn calculate_layout(
        &self,
        layout: LayoutId,
        screen: Rect,
        offset: f64,
        limits: &LimitsByWindow,
        gaps: &Gaps,
        line_thickness: f64,
    ) -> Vec<(WindowId, Rect)> {
        let style = StackStyle { offset, line_thickness, ..StackStyle::default() };
        let frames = Frames {
            system: &self.system,
            sizes: &self.sizes,
            limits,
            gaps,
            style: &style,
            screen,
        };
        frames.calculate_layout(layout)
    }

    fn calculate_layout_for_node(
        &self,
        node: NodeId,
        screen: Rect,
        _rect: Rect,
        offset: f64,
        limits: &LimitsByWindow,
        gaps: &Gaps,
        line_thickness: f64,
    ) -> Vec<(WindowId, Rect)> {
        let style = StackStyle { offset, line_thickness, ..StackStyle::default() };
        let frames = Frames {
            system: &self.system,
            sizes: &self.sizes,
            limits,
            gaps,
            style: &style,
            screen,
        };
        frames.calculate_layout_for_node(node)
    }
}

fn w(idx: u32) -> WindowId {
    WindowId::new(1, idx)
}

#[test]
fn window_in_direction_prefers_leftmost_when_moving_right() {
    let mut system = TestSystem::new();
    let layout = system.create_layout();
    let root = system.root(layout);
    system.set_layout(root, LayoutKind::Horizontal);
    system.add_window_after_selection(layout, w(1));
    system.add_window_after_selection(layout, w(2));

    assert_eq!(system.window_in_direction(layout, Direction::Right), Some(w(1)));
    assert_eq!(system.window_in_direction(layout, Direction::Left), Some(w(2)));
}

#[test]
fn window_in_direction_prefers_top_for_down_direction_after_orientation_toggle() {
    let mut system = TestSystem::new();
    let layout = system.create_layout();
    let root = system.root(layout);
    system.set_layout(root, LayoutKind::Horizontal);
    system.add_window_after_selection(layout, w(1));
    system.add_window_after_selection(layout, w(2));
    system.toggle_tile_orientation(layout);

    assert_eq!(system.window_in_direction(layout, Direction::Down), Some(w(1)));
    assert_eq!(system.window_in_direction(layout, Direction::Up), Some(w(2)));
}

#[test]
fn test_move_over_no_parent() {
    let system = TestSystem::bare();
    // Root has no parent
    assert_eq!(system.move_over(system.root_id(), Direction::Right), None);
}

#[test]
fn test_move_over_matching_orientation() {
    let mut system = TestSystem::bare();
    // Root is Horizontal
    let child1 = system.add_child_of_root(LayoutKind::Horizontal);
    let child2 = system.add_child_of_root(LayoutKind::Horizontal);
    let child3 = system.add_child_of_root(LayoutKind::Horizontal);

    // Direction Right (Horizontal), should move to next sibling
    assert_eq!(system.move_over(child1, Direction::Right), Some(child2));
    assert_eq!(system.move_over(child2, Direction::Right), Some(child3));
    assert_eq!(system.move_over(child3, Direction::Right), None);

    // Direction Left
    assert_eq!(system.move_over(child3, Direction::Left), Some(child2));
    assert_eq!(system.move_over(child2, Direction::Left), Some(child1));
    assert_eq!(system.move_over(child1, Direction::Left), None);
}

#[test]
fn test_move_over_non_matching_non_stacked() {
    let mut system = TestSystem::bare();
    // Root is Horizontal
    let child1 = system.add_child_of_root(LayoutKind::Vertical);
    let _child2 = system.add_child_of_root(LayoutKind::Vertical);

    // Direction Up (Vertical), root is Horizontal, not matching, and not stacked
    assert_eq!(system.move_over(child1, Direction::Up), None);
}

#[test]
fn test_move_over_non_matching_stacked() {
    let mut system = TestSystem::bare();
    // Create a stacked parent
    let stacked_parent = system.add_child_of_root(LayoutKind::HorizontalStack);
    let child1 = system.add_child(stacked_parent, LayoutKind::Horizontal);
    let child2 = system.add_child(stacked_parent, LayoutKind::Horizontal);
    let child3 = system.add_child(stacked_parent, LayoutKind::Horizontal);

    // Direction Up (Vertical), parent is HorizontalStack (Horizontal), orientations don't match
    // Should not move within stack, return None
    assert_eq!(system.move_over(child2, Direction::Up), None);
    assert_eq!(system.move_over(child3, Direction::Up), None);
    assert_eq!(system.move_over(child1, Direction::Up), None);

    // Direction Down -> also None
    assert_eq!(system.move_over(child1, Direction::Down), None);
    assert_eq!(system.move_over(child2, Direction::Down), None);
    assert_eq!(system.move_over(child3, Direction::Down), None);
}

#[test]
fn test_move_over_matching_stacked() {
    let mut system = TestSystem::bare();
    // Create a stacked parent
    let stacked_parent = system.add_child_of_root(LayoutKind::HorizontalStack);
    let child1 = system.add_child(stacked_parent, LayoutKind::Horizontal);
    let child2 = system.add_child(stacked_parent, LayoutKind::Horizontal);
    let child3 = system.add_child(stacked_parent, LayoutKind::Horizontal);

    // Direction Left (Horizontal), parent is HorizontalStack (Horizontal), orientations match
    // Should move in siblings list: Left -> prev
    assert_eq!(system.move_over(child2, Direction::Left), Some(child1));
    assert_eq!(system.move_over(child3, Direction::Left), Some(child2));
    assert_eq!(system.move_over(child1, Direction::Left), None);

    // Direction Right -> next
    assert_eq!(system.move_over(child1, Direction::Right), Some(child2));
    assert_eq!(system.move_over(child2, Direction::Right), Some(child3));
    assert_eq!(system.move_over(child3, Direction::Right), None);
}

#[test]
fn test_unstack_default_orientation_behavior() {

    let mut system = TestSystem::bare();
    let layout = system.create_layout();
    let root_node = system.root(layout);

    let horizontal_stack_container = system.add_child(root_node, LayoutKind::HorizontalStack);
    system.select(horizontal_stack_container);
    let _ = system.unstack_parent_of_selection(layout,
        StackDefaultOrientation::Perpendicular,
    );
    assert_eq!(
        system.layout(horizontal_stack_container),
        LayoutKind::Vertical
    );

    let vertical_stack_container = system.add_child(root_node, LayoutKind::VerticalStack);
    system.select(vertical_stack_container);
    let _ = system.unstack_parent_of_selection(layout,
        StackDefaultOrientation::Perpendicular,
    );
    assert_eq!(
        system.layout(vertical_stack_container),
        LayoutKind::Horizontal
    );

    let horizontal_stack_container2 = system.add_child(root_node, LayoutKind::HorizontalStack);
    system.select(horizontal_stack_container2);
    let _ = system.unstack_parent_of_selection(layout,
        StackDefaultOrientation::Same,
    );
    assert_eq!(
        system.layout(horizontal_stack_container2),
        LayoutKind::Horizontal
    );

    let vertical_stack_container2 = system.add_child(root_node, LayoutKind::VerticalStack);
    system.select(vertical_stack_container2);
    let _ = system.unstack_parent_of_selection(layout,
        StackDefaultOrientation::Same,
    );
    assert_eq!(
        system.layout(vertical_stack_container2),
        LayoutKind::Vertical
    );
}

#[test]
fn test_stack_default_orientation_behavior() {

    let mut system = TestSystem::bare();
    let layout = system.create_layout();
    let root_node = system.root(layout);

    for &parent_kind in &[LayoutKind::Horizontal, LayoutKind::Vertical] {
        let container = system.add_child(root_node, parent_kind);
        system.select(container);
        let _ =
            system.apply_stacking_to_parent_of_selection(layout,
                StackDefaultOrientation::Perpendicular,
            );
        let expected_perp = match parent_kind {
            LayoutKind::Horizontal => LayoutKind::VerticalStack,
            LayoutKind::Vertical => LayoutKind::HorizontalStack,
            _ => unreachable!(),
        };
        assert_eq!(system.layout(container), expected_perp);

        let container = system.add_child(root_node, parent_kind);
        system.select(container);
        let _ =
            system.apply_stacking_to_parent_of_selection(layout,
                StackDefaultOrientation::Same,
            );
        let expected_same = match parent_kind {
            LayoutKind::Horizontal => LayoutKind::HorizontalStack,
            LayoutKind::Vertical => LayoutKind::VerticalStack,
            _ => unreachable!(),
        };
        assert_eq!(system.layout(container), expected_same);

        let container = system.add_child(root_node, parent_kind);
        system.select(container);
        let _ =
            system.apply_stacking_to_parent_of_selection(layout,
                StackDefaultOrientation::Horizontal,
            );
        assert_eq!(system.layout(container), LayoutKind::HorizontalStack);

        let container = system.add_child(root_node, parent_kind);
        system.select(container);
        let _ =
            system.apply_stacking_to_parent_of_selection(layout,
                StackDefaultOrientation::Vertical,
            );
        assert_eq!(system.layout(container), LayoutKind::VerticalStack);
    }
}

#[test]
fn stacked_container_survives_new_additions() {

    let mut system = TestSystem::new();
    let layout = system.create_layout();
    let root = system.root(layout);
    system.set_layout(root, LayoutKind::Horizontal);

    system.add_window_after_selection(layout, w(1));
    system.add_window_after_selection(layout, w(2));
    system.add_window_after_selection(layout, w(3));

    system.select_window(layout, w(1));
    system.join_selection_with_direction(layout, Direction::Right);
    let _ = system.apply_stacking_to_parent_of_selection(layout, StackDefaultOrientation::Same);

    let stacked_child = system.selection(layout);
    let stacked_container = system.tree().parent(stacked_child).unwrap();
    assert!(system.layout(stacked_container).is_stacked());

    system.add_window_after_selection(layout, w(4));
    assert!(
        system.layout(stacked_container).is_stacked(),
        "joined container lost stack while still focused"
    );

    system.select_window(layout, w(3));
    system.add_window_after_selection(layout, w(5));

    assert!(
        system.layout(stacked_container).is_stacked(),
        "the joined container lost its stacked layout after adding another window"
    );
}

#[test]
fn joining_into_existing_stack_keeps_it_stacked() {

    let mut system = TestSystem::new();
    let layout = system.create_layout();
    let root = system.root(layout);
    system.set_layout(root, LayoutKind::Horizontal);

    system.add_window_after_selection(layout, w(1));
    system.add_window_after_selection(layout, w(2));
    system.add_window_after_selection(layout, w(3));

    system.select_window(layout, w(1));
    system.join_selection_with_direction(layout, Direction::Right);
    let _ = system.apply_stacking_to_parent_of_selection(layout, StackDefaultOrientation::Same);

    let stacked_child = system.selection(layout);
    let stacked_container = system.tree().parent(stacked_child).unwrap();
    assert!(system.layout(stacked_container).is_stacked());

    system.add_window_after_selection(layout, w(3));
    system.select_window(layout, w(3));
    system.join_selection_with_direction(layout, Direction::Left);

    assert!(system.layout(stacked_container).is_stacked());
    assert_eq!(
        system.tree().children(stacked_container).len(),
        3,
        "expected the joined stack to grow instead of being replaced"
    );
}

#[test]
fn joining_right_into_existing_stack_prepends_left_neighbor() {

    let mut system = TestSystem::new();
    let layout = system.create_layout();
    let root = system.root(layout);
    system.set_layout(root, LayoutKind::Horizontal);

    let left = w(145);
    let a = w(146);
    let b = w(147);
    system.add_window_after_selection(layout, left);
    system.add_window_after_selection(layout, a);
    system.add_window_after_selection(layout, b);

    assert!(system.select_window(layout, a));
    system.join_selection_with_direction(layout, Direction::Right);
    let _ = system.apply_stacking_to_parent_of_selection(layout, StackDefaultOrientation::Same);

    assert!(system.select_window(layout, a));
    system.join_selection_with_direction(layout, Direction::Left);

    let stacked_container = system.window_node(layout, a)
        .and_then(|node| system.tree().parent(node))
        .expect("stacked container");
    let child_windows: Vec<_> = system.tree().children(stacked_container).into_iter().filter_map(|child| system.window_at(child))
        .collect();
    assert_eq!(child_windows, vec![left, a, b], "{}", system.draw_tree(layout));
}

#[test]
fn visible_windows_follow_tree_order() {
    let mut system = TestSystem::new();
    let layout = system.create_layout();
    let root = system.root(layout);
    system.set_layout(root, LayoutKind::Horizontal);

    let w1 = w(148);
    let w2 = w(149);
    let w3 = w(150);
    system.add_window_after_selection(layout, w1);
    system.add_window_after_selection(layout, w2);
    system.add_window_after_selection(layout, w3);

    assert_eq!(system.visible_windows_in_layout(layout), vec![w1, w2, w3]);
}

#[test]
fn joining_siblings_preserves_parent_size_invariants() {
    let mut system = TestSystem::new();
    let layout = system.create_layout();
    let root = system.root(layout);
    system.set_layout(root, LayoutKind::Horizontal);

    let w1 = w(150);
    let w2 = w(151);
    let w3 = w(152);
    system.add_window_after_selection(layout, w1);
    system.add_window_after_selection(layout, w2);
    system.add_window_after_selection(layout, w3);

    assert!(system.select_window(layout, w1));
    system.join_selection_with_direction(layout, Direction::Right);

    let children = system.tree().children(root);
    assert_eq!(
        children.len(),
        2,
        "join should group two siblings under one container"
    );

    let total = system.total(root);
    let sum_children: f32 =
        children.iter().map(|&child| system.size(child)).sum();
    assert!(
        (sum_children - total).abs() < 0.0001,
        "parent total should remain equal to the sum of child sizes after joining siblings"
    );
}

#[test]
fn consecutive_perpendicular_joins_do_not_panic() {
    // Regression: two joins in quick succession where the second collapses the
    // container built by the first. Moving both children out of `p1` leaves it
    // with one child, so the tree observer collapses `p1` and removes it from the
    // forest mid-join; the old code then indexed `info[p1]` on a dead key and
    // panicked with "invalid SecondaryMap key used".
    let mut system = TestSystem::new();
    let layout = system.create_layout();
    let root = system.root(layout);
    system.set_layout(root, LayoutKind::Horizontal);

    let w1 = w(160);
    let w2 = w(161);
    let w3 = w(162);
    system.add_window_after_selection(layout, w1);
    system.add_window_after_selection(layout, w2);
    system.add_window_after_selection(layout, w3);

    // First join builds a vertical container holding exactly w1 and w2.
    assert!(system.select_window(layout, w1));
    system.join_selection_with_direction(layout, Direction::Down);

    // Second join is perpendicular to that container. It merges the container's
    // only two children, leaving the container with a single child, so the tree
    // observer collapses it and removes it from the forest mid-join. Must not panic.
    assert!(system.select_window(layout, w1));
    system.join_selection_with_direction(layout, Direction::Right);

    // Tree must remain internally consistent: every window still reachable.
    let mut windows = system.all_windows_in_layout(layout);
    windows.sort();
    assert_eq!(windows, vec![w1, w2, w3], "{}", system.draw_tree(layout));
}

#[test]
fn joining_siblings_keeps_combined_outer_share() {
    let mut system = TestSystem::new();
    let layout = system.create_layout();
    let root = system.root(layout);
    system.set_layout(root, LayoutKind::Horizontal);

    let w1 = w(153);
    let w2 = w(154);
    let w3 = w(155);
    system.add_window_after_selection(layout, w1);
    system.add_window_after_selection(layout, w2);
    system.add_window_after_selection(layout, w3);

    let n1 = system.window_node(layout, w1).expect("w1 node");
    let n2 = system.window_node(layout, w2).expect("w2 node");
    let n3 = system.window_node(layout, w3).expect("w3 node");
    system.set_size(n1, 3.0);
    system.set_size(n2, 2.0);
    system.set_size(n3, 1.0);
    system.set_total(root, 6.0);

    assert!(system.select_window(layout, w1));
    system.join_selection_with_direction(layout, Direction::Right);

    let children = system.tree().children(root);
    let grouped = children[0];
    let sibling = children[1];

    assert!(
        (system.size(grouped) - 5.0).abs() < 0.0001,
        "newly grouped siblings should keep their combined outer share"
    );
    assert!(
        (system.size(sibling) - 1.0).abs() < 0.0001,
        "unrelated sibling share should be preserved when grouping neighbors"
    );

    let screen = Rect::new(0.0, 0.0, 1200.0, 800.0);
    let frames: HashMap<_, _> = system
        .calculate_layout(
            layout,
            screen,
            0.0,
            &HashMap::new(),
            &Default::default(),
            0.0,
        )
        .into_iter()
        .collect();
    assert!(
        (frames[&w3].width - 200.0).abs() < 1.0,
        "layout pass must render the grouped 5:1 outer ratio"
    );
}

#[test]
fn unjoin_preserves_window_order() {
    let mut system = TestSystem::new();
    let layout = system.create_layout();
    let root = system.root(layout);
    system.set_layout(root, LayoutKind::Horizontal);

    let w1 = w(160);
    let w2 = w(161);
    let w3 = w(162);
    system.add_window_after_selection(layout, w1);
    system.add_window_after_selection(layout, w2);
    system.add_window_after_selection(layout, w3);

    assert!(system.select_window(layout, w1));
    system.join_selection_with_direction(layout, Direction::Right);
    assert!(system.select_window(layout, w1));
    system.unjoin_selection(layout);

    assert_eq!(
        system.visible_windows_in_layout(layout),
        vec![w1, w2, w3],
        "{}",
        system.draw_tree(layout)
    );
    let root_children = system.tree().children(root);
    assert_eq!(root_children.len(), 3, "{}", system.draw_tree(layout));
    assert!(root_children.iter().all(|node| system.window_at(*node).is_some()));
}

#[test]
fn consume_or_expel_toggles_between_joined_and_unjoined() {
    let mut system = TestSystem::new();
    let layout = system.create_layout();
    let root = system.root(layout);
    system.set_layout(root, LayoutKind::Horizontal);

    let w1 = w(166);
    let w2 = w(167);
    let w3 = w(168);
    system.add_window_after_selection(layout, w1);
    system.add_window_after_selection(layout, w2);
    system.add_window_after_selection(layout, w3);
    assert!(system.select_window(layout, w1));

    system.consume_or_expel_selection(layout, Direction::Right);
    let joined_parent = system.parent_of_window(layout, w1);
    assert_eq!(system.tree().children(joined_parent).len(), 2);

    system.consume_or_expel_selection(layout, Direction::Right);
    let root_children = system.tree().children(root);
    assert_eq!(root_children.len(), 3, "{}", system.draw_tree(layout));
    assert!(root_children.iter().all(|node| system.window_at(*node).is_some()));
}

#[test]
fn unjoin_preserves_nested_and_outer_resize_ratios() {
    let mut system = TestSystem::new();
    let layout = system.create_layout();
    let root = system.root(layout);
    system.set_layout(root, LayoutKind::Horizontal);

    let w1 = w(163);
    let w2 = w(164);
    let w3 = w(165);
    system.add_window_after_selection(layout, w1);
    system.add_window_after_selection(layout, w2);
    system.add_window_after_selection(layout, w3);
    assert!(system.select_window(layout, w1));
    system.join_selection_with_direction(layout, Direction::Right);

    let n1 = system.window_node(layout, w1).unwrap();
    let n2 = system.window_node(layout, w2).unwrap();
    let n3 = system.window_node(layout, w3).unwrap();
    let group = system.tree().parent(n1).unwrap();
    system.set_size(group, 6.0);
    system.set_size(n3, 4.0);
    system.set_total(root, 10.0);
    system.set_size(n1, 3.0);
    system.set_size(n2, 1.0);
    system.set_total(group, 4.0);

    system.select(n1);
    system.unjoin_selection(layout);

    assert!((system.size(n1) - 4.5).abs() < 0.0001);
    assert!((system.size(n2) - 1.5).abs() < 0.0001);
    assert!((system.size(n3) - 4.0).abs() < 0.0001);
    assert!((system.total(root) - 10.0).abs() < 0.0001);
}

#[test]
fn rebalance_evenly_resets_skewed_sibling_sizes() {
    let mut system = TestSystem::new();
    let layout = system.create_layout();
    let root = system.root(layout);
    system.set_layout(root, LayoutKind::Horizontal);

    let w1 = w(170);
    let w2 = w(171);
    let w3 = w(172);
    system.add_window_after_selection(layout, w1);
    system.add_window_after_selection(layout, w2);
    system.add_window_after_selection(layout, w3);

    let n1 = system.window_node(layout, w1).expect("w1 node");
    let n2 = system.window_node(layout, w2).expect("w2 node");
    let n3 = system.window_node(layout, w3).expect("w3 node");
    system.set_size(n1, 5.0);
    system.set_size(n2, 2.0);
    system.set_size(n3, 1.0);
    system.set_total(root, 8.0);

    system.rebalance(layout);

    assert!((system.size(n1) - 1.0).abs() < 0.0001);
    assert!((system.size(n2) - 1.0).abs() < 0.0001);
    assert!((system.size(n3) - 1.0).abs() < 0.0001);
    assert!((system.total(root) - 3.0).abs() < 0.0001);
}

#[test]
fn toggling_orientation_preserves_user_resize_ratios() {
    let mut system = TestSystem::new();
    let layout = system.create_layout();
    let root = system.root(layout);
    system.set_layout(root, LayoutKind::Horizontal);
    system.add_window_after_selection(layout, w(176));
    system.add_window_after_selection(layout, w(177));

    let n1 = system.window_node(layout, w(176)).unwrap();
    let n2 = system.window_node(layout, w(177)).unwrap();
    system.set_size(n1, 3.0);
    system.set_size(n2, 1.0);
    system.set_total(root, 4.0);

    system.select(n1);
    system.toggle_tile_orientation(layout);

    assert_eq!(system.layout(root), LayoutKind::Vertical);
    assert!((system.size(n1) - 3.0).abs() < 0.0001);
    assert!((system.size(n2) - 1.0).abs() < 0.0001);
    assert!((system.total(root) - 4.0).abs() < 0.0001);
}

#[test]
fn reordering_siblings_preserves_user_resize_ratios() {
    let mut system = TestSystem::new();
    let layout = system.create_layout();
    let root = system.root(layout);
    system.set_layout(root, LayoutKind::Horizontal);
    system.add_window_after_selection(layout, w(178));
    system.add_window_after_selection(layout, w(179));
    system.add_window_after_selection(layout, w(180));

    let n1 = system.window_node(layout, w(178)).unwrap();
    let n2 = system.window_node(layout, w(179)).unwrap();
    let n3 = system.window_node(layout, w(180)).unwrap();
    system.set_size(n1, 5.0);
    system.set_size(n2, 2.0);
    system.set_size(n3, 1.0);
    system.set_total(root, 8.0);

    assert!(system.move_node(layout, n2, Direction::Right));

    assert_eq!(system.tree().children(root), vec![n1, n3, n2]);
    assert!((system.size(n1) - 5.0).abs() < 0.0001);
    assert!((system.size(n2) - 2.0).abs() < 0.0001);
    assert!((system.size(n3) - 1.0).abs() < 0.0001);
    assert!((system.total(root) - 8.0).abs() < 0.0001);
}

#[test]
fn removing_a_sibling_preserves_remaining_proportions() {
    let mut system = TestSystem::new();
    let layout = system.create_layout();
    let root = system.root(layout);
    system.set_layout(root, LayoutKind::Horizontal);

    system.add_window_after_selection(layout, w(173));
    system.add_window_after_selection(layout, w(174));
    system.add_window_after_selection(layout, w(175));

    let n1 = system.window_node(layout, w(173)).expect("w1 node");
    let n2 = system.window_node(layout, w(174)).expect("w2 node");
    system.set_size(n1, 0.8);
    system.set_size(n2, 1.2);
    system.set_total(root, 3.0);

    system.remove_window(w(175));

    assert!((system.size(n1) - 0.8).abs() < 0.0001);
    assert!((system.size(n2) - 1.2).abs() < 0.0001);
    assert!((system.total(root) - 2.0).abs() < 0.0001);
}

#[test]
fn fallback_removal_rebalances_stack_only_and_preserves_outer_resize() {
    let mut system = TestSystem::new();
    let layout = system.create_layout();
    let root = system.root(layout);
    system.set_layout(root, LayoutKind::Horizontal);
    let w1 = w(181);
    let w2 = w(182);
    let outside = w(183);
    let closing = w(184);
    system.add_window_after_selection(layout, w1);
    system.add_window_after_selection(layout, w2);
    system.add_window_after_selection(layout, outside);
    assert!(system.select_window(layout, w1));
    system.join_selection_with_direction(layout, Direction::Right);

    let n1 = system.window_node(layout, w1).unwrap();
    let n2 = system.window_node(layout, w2).unwrap();
    let outside_node = system.window_node(layout, outside).unwrap();
    let stack = system.tree().parent(n1).unwrap();
    system.set_layout(stack, LayoutKind::HorizontalStack);
    let closing_node = system.add_window_under(layout, stack, closing);

    system.set_size(stack, 0.6);
    system.set_size(outside_node, 1.4);
    system.set_total(root, 2.0);
    system.set_size(n1, 1.0);
    system.set_size(n2, 0.5);
    system.set_size(closing_node, 0.5);
    system.set_total(stack, 2.0);

    system.remove_window_and_rebalance_parent(closing);

    assert!((system.size(stack) - 0.6).abs() < 0.0001);
    assert!((system.size(outside_node) - 1.4).abs() < 0.0001);
    assert!((system.total(root) - 2.0).abs() < 0.0001);
    assert!((system.size(n1) - 1.0).abs() < 0.0001);
    assert!((system.size(n2) - 1.0).abs() < 0.0001);
    assert!((system.total(stack) - 2.0).abs() < 0.0001);
}

#[test]
fn stacked_locked_windows_do_not_consume_entire_parent_axis() {

    let mut system = TestSystem::new();
    let layout = system.create_layout();
    let root = system.root(layout);
    system.set_layout(root, LayoutKind::Horizontal);

    let w1 = w(1);
    let w2 = w(2);
    let w3 = w(3);
    system.add_window_after_selection(layout, w1);
    system.add_window_after_selection(layout, w2);
    system.add_window_after_selection(layout, w3);

    system.select_window(layout, w1);
    system.join_selection_with_direction(layout, Direction::Right);
    let _ = system.apply_stacking_to_parent_of_selection(layout, StackDefaultOrientation::Same);

    let mut constraints = HashMap::new();
    for wid in [w1, w2] {
        constraints.insert(
            wid,
            Limits {
                is_resizable: false,
                locked_width: 280.0,
                locked_height: 120.0,
                min_width: 280.0,
                min_height: 120.0,
                max_width: 280.0,
                max_height: 120.0,
            }
            .normalized(),
        );
    }

    let screen = Rect::new(0.0, 0.0, 500.0, 300.0);
    let positions = system.calculate_layout(
        layout,
        screen,
        40.0,
        &constraints,
        &Default::default(),
        0.0,
    );
    let frames: HashMap<WindowId, Rect> = positions.into_iter().collect();
    let stacked_w1 = frames.get(&w1).copied().expect("stacked window missing");
    let sibling_w3 = frames.get(&w3).copied().expect("sibling window missing");

    assert!(
        stacked_w1.width >= 279.0,
        "stacked locked width should be preserved after stack offset reservation"
    );
    assert!(
        sibling_w3.width >= 100.0,
        "sibling outside stack should still get meaningful width"
    );
}

#[test]
fn focused_locked_child_in_mixed_stack_limits_stack_growth() {

    let mut system = TestSystem::new();
    let layout = system.create_layout();
    let root = system.root(layout);
    system.set_layout(root, LayoutKind::Horizontal);

    let settings = w(11);
    let normal = w(12);
    let sibling = w(13);
    system.add_window_after_selection(layout, settings);
    system.add_window_after_selection(layout, normal);
    system.add_window_after_selection(layout, sibling);

    system.select_window(layout, settings);
    system.join_selection_with_direction(layout, Direction::Right);
    let _ = system.apply_stacking_to_parent_of_selection(layout, StackDefaultOrientation::Same);

    let mut constraints = HashMap::new();
    constraints.insert(
        settings,
        Limits {
            is_resizable: false,
            locked_width: 320.0,
            locked_height: 200.0,
            min_width: 320.0,
            min_height: 200.0,
            max_width: 320.0,
            max_height: 200.0,
        }
        .normalized(),
    );

    let screen = Rect::new(0.0, 0.0, 1200.0, 800.0);
    assert!(system.select_window(layout, settings));
    let frames: HashMap<WindowId, Rect> = system
        .calculate_layout(
            layout,
            screen,
            40.0,
            &constraints,
            &Default::default(),
            0.0,
        )
        .into_iter()
        .collect();

    let settings_frame = frames.get(&settings).copied().expect("settings frame missing");
    let sibling_frame = frames.get(&sibling).copied().expect("sibling frame missing");
    assert!(
        settings_frame.width <= 321.0,
        "focused fixed-size settings window should not keep an oversized stack slot"
    );
    assert!(
        sibling_frame.width >= 290.0,
        "sibling outside mixed stack should keep its pre-grouping quarter share: {sibling_frame:?}"
    );
}

#[test]
fn focused_locked_child_does_not_shrink_parent_stack_container() {

    let mut system = TestSystem::new();
    let layout = system.create_layout();
    let root = system.root(layout);
    system.set_layout(root, LayoutKind::Horizontal);

    let constrained = w(14);
    let normal = w(15);
    let sibling = w(16);
    system.add_window_after_selection(layout, constrained);
    system.add_window_after_selection(layout, normal);
    system.add_window_after_selection(layout, sibling);

    system.select_window(layout, constrained);
    system.join_selection_with_direction(layout, Direction::Right);
    let _ = system.apply_stacking_to_parent_of_selection(layout, StackDefaultOrientation::Same);

    let mut constraints = HashMap::new();
    constraints.insert(
        constrained,
        Limits {
            is_resizable: false,
            locked_width: 320.0,
            locked_height: 200.0,
            min_width: 320.0,
            min_height: 200.0,
            max_width: 320.0,
            max_height: 200.0,
        }
        .normalized(),
    );

    let screen = Rect::new(0.0, 0.0, 1200.0, 800.0);

    assert!(system.select_window(layout, normal));
    let normal_frames: HashMap<WindowId, Rect> = system
        .calculate_layout(
            layout,
            screen,
            40.0,
            &constraints,
            &Default::default(),
            0.0,
        )
        .into_iter()
        .collect();

    assert!(system.select_window(layout, constrained));
    let constrained_frames: HashMap<WindowId, Rect> = system
        .calculate_layout(
            layout,
            screen,
            40.0,
            &constraints,
            &Default::default(),
            0.0,
        )
        .into_iter()
        .collect();

    let normal_sibling = normal_frames
        .get(&sibling)
        .copied()
        .expect("sibling frame with unconstrained focus");
    let constrained_sibling = constrained_frames
        .get(&sibling)
        .copied()
        .expect("sibling frame with constrained focus");

    assert!(
        (normal_sibling.width - constrained_sibling.width).abs() < 1.0,
        "switching focus to a constrained stack child should not shrink the parent split"
    );
}

#[test]
fn stack_offset_is_capped_to_respect_focused_fixed_width() {

    let mut system = TestSystem::new();
    let layout = system.create_layout();
    let root = system.root(layout);
    system.set_layout(root, LayoutKind::Horizontal);

    let w1 = w(21);
    let w2 = w(22);
    let w3 = w(23);
    system.add_window_after_selection(layout, w1);
    system.add_window_after_selection(layout, w2);
    system.add_window_after_selection(layout, w3);

    system.select_window(layout, w1);
    system.join_selection_with_direction(layout, Direction::Right);
    let _ = system.apply_stacking_to_parent_of_selection(layout, StackDefaultOrientation::Same);
    system.select_window(layout, w1);

    let mut constraints = HashMap::new();
    constraints.insert(
        w1,
        Limits {
            is_resizable: false,
            locked_width: 360.0,
            locked_height: 200.0,
            min_width: 360.0,
            min_height: 200.0,
            max_width: 360.0,
            max_height: 200.0,
        }
        .normalized(),
    );

    let screen = Rect::new(0.0, 0.0, 420.0, 600.0);
    let frames = system.calculate_layout(
        layout,
        screen,
        250.0,
        &constraints,
        &Default::default(),
        0.0,
    );
    let frames: HashMap<WindowId, Rect> = frames.into_iter().collect();
    let focused = frames.get(&w1).copied().expect("focused frame missing");

    assert!(
        focused.width >= 359.0,
        "focused fixed window width should be preserved by reducing stack offset"
    );
}

#[test]
fn stack_offset_is_capped_to_respect_focused_fixed_height() {

    let mut system = TestSystem::new();
    let layout = system.create_layout();
    let root = system.root(layout);
    system.set_layout(root, LayoutKind::Vertical);

    let w1 = w(31);
    let w2 = w(32);
    let w3 = w(33);
    system.add_window_after_selection(layout, w1);
    system.add_window_after_selection(layout, w2);
    system.add_window_after_selection(layout, w3);

    system.select_window(layout, w1);
    system.join_selection_with_direction(layout, Direction::Down);
    let _ = system.apply_stacking_to_parent_of_selection(layout, StackDefaultOrientation::Same);
    system.select_window(layout, w1);

    let mut constraints = HashMap::new();
    constraints.insert(
        w1,
        Limits {
            is_resizable: false,
            locked_width: 200.0,
            locked_height: 300.0,
            min_width: 200.0,
            min_height: 300.0,
            max_width: 200.0,
            max_height: 300.0,
        }
        .normalized(),
    );

    let screen = Rect::new(0.0, 0.0, 600.0, 360.0);
    let frames = system.calculate_layout(
        layout,
        screen,
        220.0,
        &constraints,
        &Default::default(),
        0.0,
    );
    let frames: HashMap<WindowId, Rect> = frames.into_iter().collect();
    let focused = frames.get(&w1).copied().expect("focused frame missing");

    assert!(
        focused.height >= 299.0,
        "focused fixed window height should be preserved by reducing stack offset"
    );
}

#[test]
fn stack_offset_is_not_capped_by_focused_max_only_width() {

    let mut system = TestSystem::new();
    let layout = system.create_layout();
    let root = system.root(layout);
    system.set_layout(root, LayoutKind::Horizontal);

    let w1 = w(34);
    let w2 = w(35);
    let w3 = w(36);
    system.add_window_after_selection(layout, w1);
    system.add_window_after_selection(layout, w2);
    system.add_window_after_selection(layout, w3);

    system.select_window(layout, w1);
    system.join_selection_with_direction(layout, Direction::Right);
    let _ = system.apply_stacking_to_parent_of_selection(layout, StackDefaultOrientation::Same);
    system.select_window(layout, w1);

    let mut constraints = HashMap::new();
    constraints.insert(
        w1,
        Limits {
            is_resizable: true,
            locked_width: 0.0,
            locked_height: 0.0,
            min_width: 0.0,
            min_height: 0.0,
            max_width: 360.0,
            max_height: 0.0,
        }
        .normalized(),
    );

    let screen = Rect::new(0.0, 0.0, 420.0, 600.0);
    let frames = system.calculate_layout(
        layout,
        screen,
        250.0,
        &constraints,
        &Default::default(),
        0.0,
    );
    let frames: HashMap<WindowId, Rect> = frames.into_iter().collect();
    let focused = frames.get(&w1).copied().expect("focused frame missing");

    // Max-only should clamp the focused frame itself, but not reduce stack offset budget.
    // With offset 250 and 3 children in a 420px container, focused width stays near 100px.
    assert!(focused.width <= 360.0);
    assert!(focused.width <= 200.0);
}

#[test]
fn focused_max_only_child_does_not_shrink_mixed_stack_container() {

    let mut system = TestSystem::new();
    let layout = system.create_layout();
    let root = system.root(layout);
    system.set_layout(root, LayoutKind::Horizontal);

    let constrained = w(46);
    let normal = w(47);
    let sibling = w(48);
    system.add_window_after_selection(layout, constrained);
    system.add_window_after_selection(layout, normal);
    system.add_window_after_selection(layout, sibling);

    system.select_window(layout, constrained);
    system.join_selection_with_direction(layout, Direction::Right);
    let _ = system.apply_stacking_to_parent_of_selection(layout, StackDefaultOrientation::Same);
    assert!(system.select_window(layout, constrained));

    let mut constraints = HashMap::new();
    constraints.insert(
        constrained,
        Limits {
            is_resizable: true,
            locked_width: 0.0,
            locked_height: 0.0,
            min_width: 0.0,
            min_height: 0.0,
            max_width: 320.0,
            max_height: 0.0,
        }
        .normalized(),
    );

    let screen = Rect::new(0.0, 0.0, 1200.0, 800.0);
    let frames: HashMap<WindowId, Rect> = system
        .calculate_layout(
            layout,
            screen,
            40.0,
            &constraints,
            &Default::default(),
            0.0,
        )
        .into_iter()
        .collect();

    let constrained_frame = frames.get(&constrained).copied().expect("constrained frame");
    let sibling_frame = frames.get(&sibling).copied().expect("sibling frame");

    assert!(
        constrained_frame.width <= 321.0,
        "focused max-only child should still be clamped at the leaf"
    );
    assert!(
        sibling_frame.width <= 601.0,
        "max-only focused child should not reclaim parent split space"
    );
}

#[test]
fn selecting_non_first_stack_child_does_not_resize_windows() {

    let mut system = TestSystem::new();
    let layout = system.create_layout();
    let root = system.root(layout);
    system.set_layout(root, LayoutKind::Horizontal);

    let first = w(130);
    let second = w(131);
    let sibling = w(132);
    system.add_window_after_selection(layout, first);
    system.add_window_after_selection(layout, second);
    system.add_window_after_selection(layout, sibling);

    assert!(system.select_window(layout, first));
    system.join_selection_with_direction(layout, Direction::Right);
    let _ = system.apply_stacking_to_parent_of_selection(layout, StackDefaultOrientation::Same);
    let screen = Rect::new(0.0, 0.0, 1200.0, 800.0);
    assert!(system.select_window(layout, first));
    let first_selected: HashMap<WindowId, Rect> = system
        .calculate_layout(
            layout,
            screen,
            40.0,
            &Default::default(),
            &Default::default(),
            0.0,
        )
        .into_iter()
        .collect();
    assert!(system.select_window(layout, second));
    let second_selected: HashMap<WindowId, Rect> = system
        .calculate_layout(
            layout,
            screen,
            40.0,
            &Default::default(),
            &Default::default(),
            0.0,
        )
        .into_iter()
        .collect();

    assert_eq!(first_selected, second_selected);
}

#[test]
fn max_only_height_does_not_cap_plain_row_cross_axis() {
    let mut system = TestSystem::new();
    let layout = system.create_layout();
    let root = system.root(layout);
    system.set_layout(root, LayoutKind::Vertical);

    let top_row = system.insert_container(Place::Last(root));
    system.set_layout(top_row, LayoutKind::Horizontal);

    let constrained = w(37);
    let unconstrained = w(38);
    let sibling = w(39);
    let constrained_node = system.add_window_under(layout, top_row, constrained);
    let _ = system.add_window_under(layout, top_row, unconstrained);
    let _ = system.add_window_under(layout, root, sibling);
    system.select(constrained_node);

    let mut constraints = HashMap::new();
    constraints.insert(
        constrained,
        Limits {
            is_resizable: true,
            locked_width: 0.0,
            locked_height: 0.0,
            min_width: 0.0,
            min_height: 0.0,
            max_width: 0.0,
            max_height: 200.0,
        }
        .normalized(),
    );

    let screen = Rect::new(0.0, 0.0, 1200.0, 800.0);
    let frames: HashMap<WindowId, Rect> = system
        .calculate_layout(
            layout,
            screen,
            0.0,
            &constraints,
            &Default::default(),
            0.0,
        )
        .into_iter()
        .collect();

    let constrained_frame = frames.get(&constrained).copied().expect("constrained frame");
    let unconstrained_frame = frames.get(&unconstrained).copied().expect("unconstrained frame");
    let sibling_frame = frames.get(&sibling).copied().expect("sibling frame");

    assert!(
        constrained_frame.height <= 201.0,
        "constrained leaf should still honor its own max height"
    );
    assert!(
        unconstrained_frame.height >= 399.0,
        "unconstrained sibling in the row should keep the row's full height"
    );
    assert!(
        (sibling_frame.height - 400.0).abs() < 1.0,
        "cross-axis max-only constraint should not change the parent split allocation"
    );
}

#[test]
fn single_child_column_propagates_max_width_to_parent_split() {
    let mut system = TestSystem::new();
    let layout = system.create_layout();
    let root = system.root(layout);
    system.set_layout(root, LayoutKind::Horizontal);

    let left_column = system.insert_container(Place::Last(root));
    system.set_layout(left_column, LayoutKind::Vertical);

    let constrained = w(140);
    let sibling = w(141);
    let constrained_node = system.add_window_under(layout, left_column, constrained);
    let _ = system.add_window_under(layout, root, sibling);
    system.select(constrained_node);

    let mut constraints = HashMap::new();
    constraints.insert(
        constrained,
        Limits {
            is_resizable: true,
            locked_width: 0.0,
            locked_height: 0.0,
            min_width: 0.0,
            min_height: 0.0,
            max_width: 320.0,
            max_height: 0.0,
        }
        .normalized(),
    );

    let screen = Rect::new(0.0, 0.0, 1200.0, 800.0);
    let frames: HashMap<WindowId, Rect> = system
        .calculate_layout(
            layout,
            screen,
            0.0,
            &constraints,
            &Default::default(),
            0.0,
        )
        .into_iter()
        .collect();

    let constrained_frame = frames.get(&constrained).copied().expect("constrained frame");
    let sibling_frame = frames.get(&sibling).copied().expect("sibling frame");

    assert!(
        constrained_frame.width <= 321.0,
        "single-child wrapper should still clamp the constrained leaf"
    );
    assert!(
        sibling_frame.width >= 879.0,
        "parent split should reclaim width instead of leaving dead space beside a wrapped constrained window"
    );
}

#[test]
fn multi_child_column_propagates_collective_max_width_to_parent_split() {
    let mut system = TestSystem::new();
    let layout = system.create_layout();
    let root = system.root(layout);
    system.set_layout(root, LayoutKind::Horizontal);

    let left_column = system.insert_container(Place::Last(root));
    system.set_layout(left_column, LayoutKind::Vertical);

    let top = w(151);
    let bottom = w(152);
    let sibling = w(153);
    let _ = system.add_window_under(layout, left_column, top);
    let _ = system.add_window_under(layout, left_column, bottom);
    let _ = system.add_window_under(layout, root, sibling);

    let mut constraints = HashMap::new();
    for wid in [top, bottom] {
        constraints.insert(
            wid,
            Limits {
                is_resizable: true,
                locked_width: 0.0,
                locked_height: 0.0,
                min_width: 0.0,
                min_height: 0.0,
                max_width: 320.0,
                max_height: 0.0,
            }
            .normalized(),
        );
    }

    let screen = Rect::new(0.0, 0.0, 1200.0, 800.0);
    let frames: HashMap<WindowId, Rect> = system
        .calculate_layout(
            layout,
            screen,
            0.0,
            &constraints,
            &Default::default(),
            0.0,
        )
        .into_iter()
        .collect();

    let top_frame = frames.get(&top).copied().expect("top frame");
    let bottom_frame = frames.get(&bottom).copied().expect("bottom frame");
    let sibling_frame = frames.get(&sibling).copied().expect("sibling frame");

    assert!(top_frame.width <= 321.0);
    assert!(bottom_frame.width <= 321.0);
    assert!(
        sibling_frame.width >= 879.0,
        "shared column max width should be reclaimed by the sibling split"
    );
}

#[test]
fn stack_line_reservation_counts_toward_cross_axis_constraints() {

    let mut system = TestSystem::new();
    let layout = system.create_layout();
    let root = system.root(layout);
    system.set_layout(root, LayoutKind::Vertical);

    let top_a = w(154);
    let top_b = w(155);
    let bottom = w(156);
    system.add_window_after_selection(layout, top_a);
    system.add_window_after_selection(layout, top_b);
    system.add_window_after_selection(layout, bottom);

    assert!(system.select_window(layout, top_a));
    system.join_selection_with_direction(layout, Direction::Right);
    let _ = system.apply_stacking_to_parent_of_selection(layout, StackDefaultOrientation::Same);

    let mut constraints = HashMap::new();
    for wid in [top_a, top_b] {
        constraints.insert(
            wid,
            Limits {
                is_resizable: false,
                locked_width: 0.0,
                locked_height: 300.0,
                min_width: 0.0,
                min_height: 0.0,
                max_width: 0.0,
                max_height: 0.0,
            }
            .normalized(),
        );
    }

    let screen = Rect::new(0.0, 0.0, 1200.0, 600.0);
    let frames: HashMap<WindowId, Rect> = system
        .calculate_layout(
            layout,
            screen,
            40.0,
            &constraints,
            &Default::default(),
            20.0,
        )
        .into_iter()
        .collect();

    for wid in [top_a, top_b] {
        let frame = frames.get(&wid).copied().expect("stack child frame");
        assert!(
            frame.height >= 299.0,
            "stack line reservation should be included before satisfying fixed child heights"
        );
    }
}

#[test]
fn single_child_stack_reserves_stack_line_on_cross_axis() {
    let mut system = TestSystem::new();
    let layout = system.create_layout();
    let root = system.root(layout);
    system.set_layout(root, LayoutKind::Vertical);

    let top_stack = system.insert_container(Place::Last(root));
    system.set_layout(top_stack, LayoutKind::HorizontalStack);

    let stacked = w(163);
    let sibling = w(164);
    let _ = system.add_window_under(layout, top_stack, stacked);
    let _ = system.add_window_under(layout, root, sibling);

    let mut constraints = HashMap::new();
    constraints.insert(
        stacked,
        Limits {
            is_resizable: false,
            locked_width: 0.0,
            locked_height: 300.0,
            min_width: 0.0,
            min_height: 0.0,
            max_width: 0.0,
            max_height: 0.0,
        }
        .normalized(),
    );

    let screen = Rect::new(0.0, 0.0, 1200.0, 600.0);
    let frames: HashMap<WindowId, Rect> = system
        .calculate_layout(
            layout,
            screen,
            40.0,
            &constraints,
            &Default::default(),
            20.0,
        )
        .into_iter()
        .collect();

    let stacked_frame = frames.get(&stacked).copied().expect("stacked frame");
    let sibling_frame = frames.get(&sibling).copied().expect("sibling frame");
    assert!(
        stacked_frame.height >= 299.0,
        "single-child stacks should reserve stack-line thickness before satisfying fixed heights"
    );
    assert!(
        sibling_frame.height <= 281.0,
        "the sibling split should not steal the stack-line reservation from a one-window stack"
    );
}

#[test]
fn non_focused_stack_windows_stay_inside_small_container() {
    let mut system = TestSystem::new();
    let layout = system.create_layout();
    let root = system.root(layout);
    system.set_layout(root, LayoutKind::HorizontalStack);

    let w1 = w(157);
    let w2 = w(158);
    let w3 = w(159);
    system.add_window_after_selection(layout, w1);
    system.add_window_after_selection(layout, w2);
    system.add_window_after_selection(layout, w3);

    let screen = Rect::new(0.0, 0.0, 60.0, 90.0);
    let frames: HashMap<WindowId, Rect> = system
        .calculate_layout(
            layout,
            screen,
            40.0,
            &Default::default(),
            &Default::default(),
            0.0,
        )
        .into_iter()
        .collect();

    for wid in [w1, w2, w3] {
        let frame = frames.get(&wid).copied().expect("stack frame");
        assert!(frame.x >= -0.5);
        assert!(frame.y >= -0.5);
        assert!(frame.right() <= 60.5, "frame spilled horizontally: {frame:?}");
        assert!(frame.bottom() <= 90.5, "frame spilled vertically: {frame:?}");
    }
}

#[test]
fn max_only_height_does_not_cap_stack_cross_axis() {
    let mut system = TestSystem::new();
    let layout = system.create_layout();
    let root = system.root(layout);
    system.set_layout(root, LayoutKind::Vertical);

    let top_stack = system.insert_container(Place::Last(root));
    system.set_layout(top_stack, LayoutKind::HorizontalStack);

    let constrained = w(40);
    let unconstrained = w(41);
    let sibling = w(42);
    let constrained_node = system.add_window_under(layout, top_stack, constrained);
    let _ = system.add_window_under(layout, top_stack, unconstrained);
    let _ = system.add_window_under(layout, root, sibling);
    system.select(constrained_node);

    let mut constraints = HashMap::new();
    constraints.insert(
        constrained,
        Limits {
            is_resizable: true,
            locked_width: 0.0,
            locked_height: 0.0,
            min_width: 0.0,
            min_height: 0.0,
            max_width: 0.0,
            max_height: 200.0,
        }
        .normalized(),
    );

    let screen = Rect::new(0.0, 0.0, 1200.0, 800.0);
    let frames: HashMap<WindowId, Rect> = system
        .calculate_layout(
            layout,
            screen,
            40.0,
            &constraints,
            &Default::default(),
            0.0,
        )
        .into_iter()
        .collect();

    let constrained_frame = frames.get(&constrained).copied().expect("constrained frame");
    let unconstrained_frame = frames.get(&unconstrained).copied().expect("unconstrained frame");
    let sibling_frame = frames.get(&sibling).copied().expect("sibling frame");

    assert!(
        constrained_frame.height <= 201.0,
        "focused constrained stack child should still honor its own max height"
    );
    assert!(
        unconstrained_frame.height >= 399.0,
        "other stacked windows should not inherit the focused window's cross-axis max"
    );
    assert!(
        (sibling_frame.height - 400.0).abs() < 1.0,
        "stack container should not shrink just because the selected child has a max-only cap"
    );
}

#[test]
fn stack_cross_axis_size_does_not_change_with_focus() {
    let mut system = TestSystem::new();
    let layout = system.create_layout();
    let root = system.root(layout);
    system.set_layout(root, LayoutKind::Vertical);

    let top_stack = system.insert_container(Place::Last(root));
    system.set_layout(top_stack, LayoutKind::HorizontalStack);

    let constrained = w(43);
    let unconstrained = w(44);
    let sibling = w(45);
    let constrained_node = system.add_window_under(layout, top_stack, constrained);
    let _unconstrained_node = system.add_window_under(layout, top_stack, unconstrained);
    let _ = system.add_window_under(layout, root, sibling);

    let mut constraints = HashMap::new();
    constraints.insert(
        constrained,
        Limits {
            is_resizable: false,
            locked_width: 280.0,
            locked_height: 200.0,
            min_width: 280.0,
            min_height: 200.0,
            max_width: 280.0,
            max_height: 200.0,
        }
        .normalized(),
    );

    let screen = Rect::new(0.0, 0.0, 1200.0, 800.0);

    system.select(constrained_node);
    let constrained_frames: HashMap<WindowId, Rect> = system
        .calculate_layout(
            layout,
            screen,
            40.0,
            &constraints,
            &Default::default(),
            0.0,
        )
        .into_iter()
        .collect();

    assert!(system.select_window(layout, unconstrained));
    let unconstrained_frames: HashMap<WindowId, Rect> = system
        .calculate_layout(
            layout,
            screen,
            40.0,
            &constraints,
            &Default::default(),
            0.0,
        )
        .into_iter()
        .collect();

    let constrained_sibling = constrained_frames
        .get(&sibling)
        .copied()
        .expect("sibling frame when constrained child focused");
    let unconstrained_sibling = unconstrained_frames
        .get(&sibling)
        .copied()
        .expect("sibling frame when unconstrained child focused");
    let unconstrained_frame =
        unconstrained_frames.get(&unconstrained).copied().expect("unconstrained frame");

    assert!(
        (constrained_sibling.height - unconstrained_sibling.height).abs() < 1.0,
        "switching focus inside a stack should not resize sibling containers"
    );
    assert!(
        unconstrained_frame.height >= 399.0,
        "an unconstrained focused child should still be allowed to use the stack's full height"
    );
}

#[test]
fn adding_window_after_selection_splits_selected_share() {
    let mut system = TestSystem::new();
    system.set_equalize_nodes(false);
    let layout = system.create_layout();
    let root = system.root(layout);
    system.set_layout(root, LayoutKind::Horizontal);

    let w1 = w(71);
    let w2 = w(72);
    let w3 = w(73);
    let w4 = w(74);

    system.add_window_after_selection(layout, w1);
    system.add_window_after_selection(layout, w2);
    system.add_window_after_selection(layout, w3);

    let n1 = system.window_node(layout, w1).expect("w1 node missing");
    let n2 = system.window_node(layout, w2).expect("w2 node missing");
    let n3 = system.window_node(layout, w3).expect("w3 node missing");

    system.set_size(n1, 3.0);
    system.set_size(n2, 1.0);
    system.set_size(n3, 1.0);
    system.set_total(root, 5.0);

    system.select_window(layout, w2);
    system.add_window_after_selection(layout, w4);

    let n4 = system.window_node(layout, w4).expect("w4 node missing");
    let size2 = system.size(n2);
    let size4 = system.size(n4);
    let total = system.total(root);

    assert!((size2 - 0.5).abs() < 0.0001, "selected child should be halved");
    assert!((size4 - 0.5).abs() < 0.0001, "new sibling should get half");
    assert!((total - 5.0).abs() < 0.0001, "parent total should be preserved");
}

#[test]
fn equalize_nodes_gives_new_window_average_sibling_share() {
    let mut system = TestSystem::new();
    system.set_equalize_nodes(true);
    let layout = system.create_layout();
    let root = system.root(layout);
    system.set_layout(root, LayoutKind::Horizontal);

    let first = w(301);
    let second = w(302);
    let third = w(303);
    system.add_window_after_selection(layout, first);
    system.add_window_after_selection(layout, second);

    let first_node = system.window_node(layout, first).unwrap();
    let second_node = system.window_node(layout, second).unwrap();
    system.set_size(first_node, 1.5);
    system.set_size(second_node, 0.5);
    system.set_total(root, 2.0);
    system.select(first_node);

    system.add_window_after_selection(layout, third);

    let third_node = system.window_node(layout, third).unwrap();
    assert_eq!(system.size(first_node), 1.5);
    assert_eq!(system.size(second_node), 0.5);
    assert_eq!(system.size(third_node), 1.0);
    assert_eq!(system.total(root), 3.0);
}

#[test]
fn manual_resize_uses_dominant_edge_delta_when_edges_disagree() {
    let mut system = TestSystem::new();
    let layout = system.create_layout();
    let root = system.root(layout);
    system.set_layout(root, LayoutKind::Horizontal);

    let left = w(81);
    let right = w(82);
    system.add_window_after_selection(layout, left);
    system.add_window_after_selection(layout, right);

    let right_node = system.window_node(layout, right)
        .expect("right window node missing");

    let old_frame = Rect::new(500.0, 0.0, 500.0, 800.0);
    // Left edge expands by 20px while right edge retracts by 10px.
    // We should use the dominant edge (20px), not the net (10px).
    let new_frame = Rect::new(480.0, 0.0, 510.0, 800.0);
    let screen = Rect::new(0.0, 0.0, 1000.0, 800.0);

    system.set_frame_from_resize(right_node, old_frame, new_frame, screen);

    let after = system.proportion(right_node)
        .expect("right node proportion missing");
    assert!(
        after > 0.515,
        "dominant-edge resize should apply more than the 10px net delta"
    );
}

#[test]
fn manual_resize_keeps_small_node_size_across_layout_pass() {
    let mut system = TestSystem::new();
    let layout = system.create_layout();
    let root = system.root(layout);
    system.set_layout(root, LayoutKind::Horizontal);

    let left = w(83);
    let right = w(84);
    system.add_window_after_selection(layout, left);
    system.add_window_after_selection(layout, right);

    let right_node = system.window_node(layout, right)
        .expect("right window node missing");

    let old_frame = Rect::new(500.0, 0.0, 500.0, 800.0);
    let new_frame = Rect::new(950.0, 0.0, 50.0, 800.0);
    let screen = Rect::new(0.0, 0.0, 1000.0, 800.0);

    system.set_frame_from_resize(right_node, old_frame, new_frame, screen);
    let before = system.proportion(right_node)
        .expect("right node proportion missing");

    let gaps = Gaps::default();
    let _ = system.calculate_layout_for_node(
        root,
        screen,
        screen,
        0.0,
        &HashMap::new(),
        &gaps,
        0.0,
    );

    let after = system.proportion(right_node)
        .expect("right node proportion missing");
    assert!(
        before <= 0.051,
        "manual resize should reach the small-node clamp, got {before}"
    );
    assert!(
        (after - before).abs() < 0.0001,
        "layout pass should not rebalance to 50/50"
    );
}

#[test]
fn adding_with_root_selected_splits_active_child_share() {
    let mut system = TestSystem::new();
    system.set_equalize_nodes(false);
    let layout = system.create_layout();
    let root = system.root(layout);
    system.set_layout(root, LayoutKind::Horizontal);

    let w1 = w(91);
    let w2 = w(92);
    let w3 = w(93);
    system.add_window_after_selection(layout, w1);
    system.add_window_after_selection(layout, w2);

    let n1 = system.window_node(layout, w1).expect("w1 node missing");
    let n2 = system.window_node(layout, w2).expect("w2 node missing");
    system.set_size(n1, 3.0);
    system.set_size(n2, 1.0);
    system.set_total(root, 4.0);

    system.select(root);
    system.add_window_after_selection(layout, w3);

    let n3 = system.window_node(layout, w3).expect("w3 node missing");
    assert!((system.size(n2) - 0.5).abs() < 0.0001);
    assert!((system.size(n3) - 0.5).abs() < 0.0001);
    assert!((system.total(root) - 4.0).abs() < 0.0001);
}

#[test]
fn adding_second_window_forces_even_split_when_selected_size_is_zero() {
    let mut system = TestSystem::new();
    system.set_equalize_nodes(false);
    let layout = system.create_layout();
    let root = system.root(layout);
    system.set_layout(root, LayoutKind::Horizontal);

    let w1 = w(94);
    let w2 = w(95);
    system.add_window_after_selection(layout, w1);

    let n1 = system.window_node(layout, w1).expect("w1 node missing");
    system.set_size(n1, 0.0);
    system.set_total(root, 0.0);

    system.select_window(layout, w1);
    system.add_window_after_selection(layout, w2);

    let n2 = system.window_node(layout, w2).expect("w2 node missing");
    let s1 = system.size(n1);
    let s2 = system.size(n2);
    let total = system.total(root);

    assert!((s1 - s2).abs() < 0.0001, "second insert should split 50/50");
    assert!(
        (total - (s1 + s2)).abs() < 0.0001,
        "parent total should be recomputed"
    );
    assert!(
        (s1 / total - 0.5).abs() < 0.0001,
        "resulting proportion should be 50%"
    );
}

#[test]
fn insertion_split_respects_non_resizable_locked_size_hints() {
    let mut system = TestSystem::new();
    let layout = system.create_layout();
    let root = system.root(layout);
    system.set_layout(root, LayoutKind::Horizontal);

    let w1 = w(96);
    let w2 = w(97);
    system.add_window_after_selection(layout, w1);
    system.add_window_after_selection(layout, w2);

    let mut constraints = HashMap::new();
    constraints.insert(
        w1,
        Limits {
            is_resizable: false,
            locked_width: 1000.0,
            locked_height: 800.0,
            min_width: 0.0,
            min_height: 0.0,
            max_width: 0.0,
            max_height: 0.0,
        }
        .normalized(),
    );
    constraints.insert(
        w2,
        Limits {
            is_resizable: false,
            locked_width: 500.0,
            locked_height: 800.0,
            min_width: 0.0,
            min_height: 0.0,
            max_width: 0.0,
            max_height: 0.0,
        }
        .normalized(),
    );

    let screen = Rect::new(0.0, 0.0, 1500.0, 800.0);
    let frames: HashMap<WindowId, Rect> = system
        .calculate_layout(
            layout,
            screen,
            0.0,
            &constraints,
            &Default::default(),
            0.0,
        )
        .into_iter()
        .collect();

    let f1 = frames.get(&w1).copied().expect("w1 frame missing");
    let f2 = frames.get(&w2).copied().expect("w2 frame missing");
    assert!(
        f1.width >= 999.0,
        "non-resizable w1 should keep locked width"
    );
    assert!(
        f2.width >= 499.0,
        "non-resizable w2 should keep locked width"
    );
}

#[test]
fn insertion_split_ignores_bounds_for_resizable_windows() {
    let mut system = TestSystem::new();
    let layout = system.create_layout();
    let root = system.root(layout);
    system.set_layout(root, LayoutKind::Horizontal);

    let w1 = w(98);
    let w2 = w(99);
    system.add_window_after_selection(layout, w1);
    system.add_window_after_selection(layout, w2);

    let mut constraints = HashMap::new();
    constraints.insert(
        w1,
        Limits {
            is_resizable: true,
            locked_width: 0.0,
            locked_height: 0.0,
            min_width: 1000.0,
            min_height: 0.0,
            max_width: 0.0,
            max_height: 0.0,
        }
        .normalized(),
    );
    constraints.insert(
        w2,
        Limits {
            is_resizable: true,
            locked_width: 0.0,
            locked_height: 0.0,
            min_width: 0.0,
            min_height: 0.0,
            max_width: 0.0,
            max_height: 0.0,
        }
        .normalized(),
    );

    let screen = Rect::new(0.0, 0.0, 1500.0, 800.0);
    let frames: HashMap<WindowId, Rect> = system
        .calculate_layout(
            layout,
            screen,
            0.0,
            &constraints,
            &Default::default(),
            0.0,
        )
        .into_iter()
        .collect();

    let f1 = frames.get(&w1).copied().expect("w1 frame missing");
    let f2 = frames.get(&w2).copied().expect("w2 frame missing");
    assert!(
        (f1.width - f2.width).abs() < 1.0,
        "new split should remain even"
    );
}

#[test]
fn insertion_split_respects_axis_locked_width_for_resizable_window() {
    let mut system = TestSystem::new();
    let layout = system.create_layout();
    let root = system.root(layout);
    system.set_layout(root, LayoutKind::Horizontal);

    let w1 = w(106);
    let w2 = w(107);
    system.add_window_after_selection(layout, w1);
    system.add_window_after_selection(layout, w2);

    let mut constraints = HashMap::new();
    constraints.insert(
        w1,
        Limits {
            is_resizable: true,
            locked_width: 0.0,
            locked_height: 0.0,
            min_width: 1000.0,
            min_height: 0.0,
            max_width: 1000.0,
            max_height: 0.0,
        }
        .normalized(),
    );
    constraints.insert(
        w2,
        Limits {
            is_resizable: true,
            locked_width: 0.0,
            locked_height: 0.0,
            min_width: 0.0,
            min_height: 0.0,
            max_width: 0.0,
            max_height: 0.0,
        }
        .normalized(),
    );

    let screen = Rect::new(0.0, 0.0, 1500.0, 800.0);
    let frames: HashMap<WindowId, Rect> = system
        .calculate_layout(
            layout,
            screen,
            0.0,
            &constraints,
            &Default::default(),
            0.0,
        )
        .into_iter()
        .collect();

    let f1 = frames.get(&w1).copied().expect("w1 frame missing");
    let f2 = frames.get(&w2).copied().expect("w2 frame missing");
    assert!(f1.width >= 999.0, "axis-locked width should be preserved");
    assert!(
        f2.width >= 499.0,
        "remaining sibling should get leftover width"
    );
}

#[test]
fn max_only_width_cap_reclaims_space_for_sibling() {
    let mut system = TestSystem::new();
    let layout = system.create_layout();
    let root = system.root(layout);
    system.set_layout(root, LayoutKind::Horizontal);

    let w1 = w(108);
    let w2 = w(109);
    system.add_window_after_selection(layout, w1);
    system.add_window_after_selection(layout, w2);

    let mut constraints = HashMap::new();
    constraints.insert(
        w1,
        Limits {
            is_resizable: true,
            locked_width: 0.0,
            locked_height: 0.0,
            min_width: 0.0,
            min_height: 0.0,
            max_width: 600.0,
            max_height: 0.0,
        }
        .normalized(),
    );

    let screen = Rect::new(0.0, 0.0, 1600.0, 900.0);
    let frames: HashMap<WindowId, Rect> = system
        .calculate_layout(
            layout,
            screen,
            0.0,
            &constraints,
            &Default::default(),
            0.0,
        )
        .into_iter()
        .collect();

    let f1 = frames.get(&w1).copied().expect("w1 frame missing");
    let f2 = frames.get(&w2).copied().expect("w2 frame missing");
    assert!((f1.width - 600.0).abs() < 1.0);
    assert!((f2.width - 1000.0).abs() < 1.0);
    assert!((f2.x - 600.0).abs() < 1.0);
}

#[test]
fn adding_with_many_siblings_splits_inside_new_subcontainer() {
    let mut system = TestSystem::new();
    let layout = system.create_layout();
    let root = system.root(layout);
    system.set_layout(root, LayoutKind::Horizontal);

    let w1 = w(101);
    let w2 = w(102);
    let w3 = w(103);
    let w4 = w(104);
    let w5 = w(105);
    system.add_window_after_selection(layout, w1);
    system.add_window_after_selection(layout, w2);
    system.add_window_after_selection(layout, w3);
    system.add_window_after_selection(layout, w4);

    let n2 = system.window_node(layout, w2).expect("w2 node missing");
    system.set_size(n2, 2.0);
    let total = system
        .tree()
        .children(root)
        .into_iter()
        .map(|child| system.size(child).max(0.0))
        .sum();
    system.set_total(root, total);

    system.select_window(layout, w2);
    system.add_window_after_selection(layout, w5);

    let n5 = system.window_node(layout, w5).expect("w5 node missing");
    let parent2 = system.tree().parent(n2).expect("w2 parent missing");
    let parent5 = system.tree().parent(n5).expect("w5 parent missing");
    assert_eq!(parent2, parent5, "w2 and w5 should share the new container");
    let size2 = system.size(n2);
    let size5 = system.size(n5);
    assert!((size2 - size5).abs() < 0.0001, "new smart split should be 50/50");
}

#[test]
fn manual_resize_at_outer_edge_is_noop_instead_of_reversing() {
    let mut system = TestSystem::new();
    let layout = system.create_layout();
    let root = system.root(layout);
    system.set_layout(root, LayoutKind::Horizontal);

    let left = w(41);
    let right = w(42);
    system.add_window_after_selection(layout, left);
    system.add_window_after_selection(layout, right);

    let right_node = system.window_node(layout, right)
        .expect("right window node missing");
    let before = system.proportion(right_node)
        .expect("right node proportion missing");

    // Simulate dragging the right edge outward on the rightmost tile.
    // There is no neighbor to the right, so this should no-op.
    let old_frame = Rect::new(500.0, 0.0, 500.0, 800.0);
    let new_frame = Rect::new(500.0, 0.0, 550.0, 800.0);
    let screen = Rect::new(0.0, 0.0, 1000.0, 800.0);

    system.set_frame_from_resize(right_node, old_frame, new_frame, screen);

    let after = system.proportion(right_node)
        .expect("right node proportion missing");
    assert_eq!(before, after);
}

#[test]
fn command_resize_at_outer_edge_can_still_resize_using_available_neighbor() {
    let mut system = TestSystem::new();
    let layout = system.create_layout();
    let root = system.root(layout);
    system.set_layout(root, LayoutKind::Horizontal);

    let left = w(51);
    let right = w(52);
    system.add_window_after_selection(layout, left);
    system.add_window_after_selection(layout, right);
    system.select_window(layout, right);

    let right_node = system.window_node(layout, right)
        .expect("right window node missing");
    let before = system.proportion(right_node)
        .expect("right node proportion missing");

    system.resize_selection_by(layout, 0.10, ResizeOrientation::Horizontal);

    let after = system.proportion(right_node)
        .expect("right node proportion missing");
    assert!(after > before);
}

#[test]
fn manual_resize_ignores_cross_axis_jitter_when_hitting_edge() {
    let mut system = TestSystem::new();
    let layout = system.create_layout();
    let root = system.root(layout);
    system.set_layout(root, LayoutKind::Horizontal);

    let left = w(61);
    let right = w(62);
    system.add_window_after_selection(layout, left);
    system.add_window_after_selection(layout, right);

    let right_node = system.window_node(layout, right)
        .expect("right window node missing");
    let before = system.proportion(right_node)
        .expect("right node proportion missing");

    // Horizontal outward drag with small vertical jitter should stay horizontal-only;
    // since we are at the right edge, this should no-op.
    let old_frame = Rect::new(500.0, 0.0, 500.0, 800.0);
    let new_frame = Rect::new(500.0, 0.4, 550.0, 799.6);
    let screen = Rect::new(0.0, 0.0, 1000.0, 800.0);

    system.set_frame_from_resize(right_node, old_frame, new_frame, screen);

    let after = system.proportion(right_node)
        .expect("right node proportion missing");
    assert_eq!(before, after);
}
