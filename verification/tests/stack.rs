use rift::actor::{LayoutId, WindowId};
use rift::common::config::{StackDefaultOrientation, WindowInsertionPoint};
use rift::layout_engine::systems::stack::StackLayoutSystem;
use rift::layout_engine::{Direction, LayoutKind, ResizeOrientation};

fn w(idx: u32) -> WindowId {
    WindowId::new(1, idx)
}

#[test]
fn create_layout_starts_as_stack() {
    let mut system = StackLayoutSystem::new(StackDefaultOrientation::Perpendicular);
    let layout = system.create_layout();
    let root = system.inner().root(layout);
    assert!(system.inner().layout(root).is_stacked());
    assert_eq!(system.inner().layout(root), LayoutKind::VerticalStack);
}

#[test]
fn create_layout_honors_stack_default_orientation_setting() {
    let mut system = StackLayoutSystem::new(StackDefaultOrientation::Horizontal);
    let layout = system.create_layout();
    let root = system.inner().root(layout);
    assert_eq!(system.inner().layout(root), LayoutKind::HorizontalStack);
}

#[test]
fn toggle_stack_command_path_keeps_layout_stacked() {
    let mut system = StackLayoutSystem::new(StackDefaultOrientation::Perpendicular);
    let layout = system.create_layout();

    system.add_window_after_selection(layout, w(1));
    system.add_window_after_selection(layout, w(2));

    let _ = system.unstack_parent_of_selection(
        layout,
        StackDefaultOrientation::Perpendicular,
    );
    let _ = system.apply_stacking_to_parent_of_selection(
        layout,
        StackDefaultOrientation::Perpendicular,
    );

    let root = system.inner().root(layout);
    assert!(system.inner().layout(root).is_stacked());
}

#[test]
fn set_windows_for_app_noop_keeps_fullscreen_state() {
    let mut system = StackLayoutSystem::new(StackDefaultOrientation::Perpendicular);
    let layout = system.create_layout();

    system.add_window_after_selection(layout, w(1));
    system.add_window_after_selection(layout, w(2));
    let _ = system.toggle_fullscreen_of_selection(layout);
    assert!(system.has_any_fullscreen_node(layout));

    system.set_windows_for_app(layout, 1, vec![w(1), w(2)]);

    assert!(system.has_any_fullscreen_node(layout));
}

#[test]
fn set_windows_for_app_honors_updated_end_of_tree_policy() {
    let mut system = StackLayoutSystem::new(StackDefaultOrientation::Perpendicular);
    let layout = system.create_layout();
    system.add_window_after_selection(layout, w(1));
    system.add_window_after_selection(layout, w(2));
    system.select_window(layout, w(1));

    system.update_settings(
        StackDefaultOrientation::Perpendicular,
        WindowInsertionPoint::EndOfTree,
    );
    system.set_windows_for_app(layout, 1, vec![w(1), w(2), w(3)]);

    assert_eq!(system.all_windows_in_layout(layout), vec![w(1), w(2), w(3)]);
}

fn setup_fullscreen_stack_system() -> (StackLayoutSystem, LayoutId) {
    let mut system = StackLayoutSystem::new(StackDefaultOrientation::Perpendicular);
    let layout = system.create_layout();
    system.add_window_after_selection(layout, w(1));
    system.add_window_after_selection(layout, w(2));
    let _ = system.toggle_fullscreen_of_selection(layout);
    assert!(system.has_any_fullscreen_node(layout));
    (system, layout)
}

#[test]
fn resize_selection_noop_keeps_fullscreen_state() {
    let (mut system, layout) = setup_fullscreen_stack_system();
    system.resize_selection_by(layout, ResizeOrientation::Horizontal);
    assert!(system.has_any_fullscreen_node(layout));
}

#[test]
fn rebalance_noop_keeps_fullscreen_state() {
    let (mut system, layout) = setup_fullscreen_stack_system();
    system.rebalance(layout);
    assert!(system.has_any_fullscreen_node(layout));
}

#[test]
fn split_selection_noop_keeps_fullscreen_state() {
    let (mut system, layout) = setup_fullscreen_stack_system();
    system.split_selection(layout, LayoutKind::Horizontal);
    assert!(system.has_any_fullscreen_node(layout));
}

#[test]
fn join_selection_noop_keeps_fullscreen_state() {
    let (mut system, layout) = setup_fullscreen_stack_system();
    system.join_selection_with_direction(layout, Direction::Right);
    assert!(system.has_any_fullscreen_node(layout));
}

#[test]
fn unjoin_selection_noop_keeps_fullscreen_state() {
    let (mut system, layout) = setup_fullscreen_stack_system();
    system.unjoin_selection(layout);
    assert!(system.has_any_fullscreen_node(layout));
}
