use rift::actor::{LayoutId, WindowId};
use rift::common::config::{
    MasterStackSettings, ScrollingFocusNavigationStyle, ScrollingLayoutSettings,
    StackDefaultOrientation, WindowInsertionPoint,
};
use rift::geometry::Frame;
use rift::layout_engine::systems::arrangement::{combining, Arrangement, Combining};
use rift::layout_engine::systems::floating::system::FloatingLayoutSystem;
use rift::layout_engine::systems::master_stack::system::MasterStackLayoutSystem;
use rift::layout_engine::systems::navigation::Coverage;
use rift::layout_engine::systems::reconcile_app_membership;
use rift::layout_engine::systems::scrolling::motion::{
    overscroll, overshot, parking, reveal_step, scroll_target, Parking, RevealStep, ScrollTarget,
};
use rift::layout_engine::systems::scrolling::state::{
    column_node_id, packed_window_id, window_node_id, LayoutState,
};
use rift::layout_engine::systems::scrolling::system::ScrollingLayoutSystem;
use rift::layout_engine::systems::stack::StackLayoutSystem;
use rift::layout_engine::systems::traditional::system::TraditionalLayoutSystem;
use rift::layout_engine::{Direction, LayoutKind, Orientation};

const EVERY_WAY: [Direction; 4] =
    [Direction::Left, Direction::Right, Direction::Up, Direction::Down];

fn w(idx: u32) -> WindowId {
    WindowId::new(1, idx)
}

fn other(idx: u32) -> WindowId {
    WindowId::new(2, idx)
}

fn sorted(mut windows: Vec<WindowId>) -> Vec<WindowId> {
    windows.sort();
    windows
}

/// Windows 1 to `count` in a tree, added one after another.
fn tree(count: u32) -> (TraditionalLayoutSystem, LayoutId) {
    let mut system = TraditionalLayoutSystem::default();
    let layout = system.create_layout();
    for idx in 1..=count {
        system.add_window_after_selection(layout, w(idx));
    }
    (system, layout)
}

fn strip(count: u32) -> (ScrollingLayoutSystem, LayoutId) {
    let mut system = ScrollingLayoutSystem::default();
    let layout = system.create_layout();
    for idx in 1..=count {
        system.add_window_after_selection(layout, w(idx));
    }
    (system, layout)
}

fn frame(x: f64) -> Frame {
    Frame {
        x: x.to_bits(),
        y: 0.0f64.to_bits(),
        width: 100.0f64.to_bits(),
        height: 50.0f64.to_bits(),
    }
}

// ----- trees -----

#[test]
fn commands_on_a_tree_keep_its_windows() {
    let all = vec![w(1), w(2), w(3), w(4)];
    for first in EVERY_WAY {
        for second in EVERY_WAY {
            let (mut system, layout) = tree(4);
            system.split_selection(layout, LayoutKind::Vertical);
            assert_eq!(sorted(system.all_windows_in_layout(layout)), all);
            system.select_window(layout, w(2));
            system.join_selection_with_direction(layout, first);
            assert_eq!(sorted(system.all_windows_in_layout(layout)), all);
            system.move_selection(layout, second);
            assert_eq!(sorted(system.all_windows_in_layout(layout)), all);
            system.consume_or_expel_selection(layout, first);
            assert_eq!(sorted(system.all_windows_in_layout(layout)), all);
            system.apply_stacking_to_parent_of_selection(
                layout,
                StackDefaultOrientation::Perpendicular,
            );
            system.move_focus(layout, second);
            system.unstack_parent_of_selection(layout, StackDefaultOrientation::Same);
            system.toggle_tile_orientation(layout);
            assert_eq!(sorted(system.all_windows_in_layout(layout)), all);
            system.ascend_selection(layout);
            system.unjoin_selection(layout);
            system.descend_selection(layout);
            assert_eq!(sorted(system.all_windows_in_layout(layout)), all);
        }
    }
}

#[test]
fn a_window_is_found_where_it_was_put() {
    let (mut system, layout) = tree(2);
    let second = system.create_layout();
    system.add_window_after_selection(second, w(3));
    assert!(system.contains_window(layout, w(1)));
    assert!(!system.contains_window(second, w(1)));
    assert!(system.contains_any_window(w(3)));
    assert_eq!(system.layouts_for_window(w(3)), vec![second]);
    assert_eq!(system.selected_window(layout), Some(w(2)));
    assert!(system.select_window(layout, w(1)));
    assert_eq!(system.selected_window(layout), Some(w(1)));
    assert!(!system.select_window(layout, w(3)));
    assert_eq!(system.selected_window(layout), Some(w(1)));
}

#[test]
fn exchanging_two_windows_of_a_tree_twice_changes_nothing() {
    let (mut system, layout) = tree(3);
    let before = system.all_windows_in_layout(layout);
    assert!(system.swap_windows(layout, w(1), w(3)));
    assert_eq!(system.all_windows_in_layout(layout), vec![w(3), w(2), w(1)]);
    assert!(system.swap_windows(layout, w(1), w(3)));
    assert_eq!(system.all_windows_in_layout(layout), before);
    assert!(!system.swap_windows(layout, w(1), w(9)));
}

#[test]
fn a_window_takes_over_the_place_of_another() {
    let (mut system, layout) = tree(3);
    system.replace_window(w(2), w(9));
    assert_eq!(system.all_windows_in_layout(layout), vec![w(1), w(9), w(3)]);
    assert!(!system.contains_any_window(w(2)));
    assert!(system.contains_window(layout, w(9)));
}

#[test]
fn a_copy_of_a_tree_holds_the_same_windows_and_stays_when_the_tree_goes() {
    let (mut system, layout) = tree(3);
    system.select_window(layout, w(2));
    let copy = system.clone_layout(layout);
    assert_ne!(copy, layout);
    assert_eq!(system.all_windows_in_layout(copy), system.all_windows_in_layout(layout));
    assert_eq!(system.selected_window(copy), Some(w(2)));
    system.remove_layout(layout);
    assert!(!system.contains_layout(layout));
    assert_eq!(system.layout_count(), 1);
    assert_eq!(system.all_windows_in_layout(copy), vec![w(1), w(2), w(3)]);
    assert_eq!(system.layouts_for_window(w(1)), vec![copy]);
}

#[test]
fn a_tree_is_made_to_hold_the_windows_of_a_process() {
    let (mut system, layout) = tree(3);
    system.add_window_after_selection(layout, other(1));
    system.set_windows_for_app(layout, 1, vec![w(3), w(5), other(7), w(5)]);
    assert_eq!(
        sorted(system.all_windows_in_layout(layout)),
        vec![w(3), w(5), other(1)],
    );
    system.remove_windows_for_app(1);
    assert_eq!(system.all_windows_in_layout(layout), vec![other(1)]);
    assert!(!system.has_windows_for_app(layout, 1));
    assert_eq!(system.windows_for_app(layout, 2), vec![other(1)]);
}

#[test]
fn the_selection_moves_to_another_tree() {
    let (mut system, from) = tree(3);
    let to = system.create_layout();
    system.add_window_after_selection(to, w(8));
    system.select_window(from, w(2));
    system.move_selection_to_layout_after_selection(from, to);
    assert_eq!(sorted(system.all_windows_in_layout(from)), vec![w(1), w(3)]);
    assert_eq!(sorted(system.all_windows_in_layout(to)), vec![w(2), w(8)]);
}

#[test]
fn a_moved_window_of_a_tree_stays_selected() {
    for chosen in 1..=4 {
        for first in EVERY_WAY {
            for second in EVERY_WAY {
                let (mut system, layout) = tree(4);
                system.select_window(layout, w(2));
                system.join_selection_with_direction(layout, Direction::Right);
                system.select_window(layout, w(chosen));
                system.move_selection(layout, first);
                assert_eq!(system.selected_window(layout), Some(w(chosen)));
                system.move_selection(layout, second);
                assert_eq!(system.selected_window(layout), Some(w(chosen)));
            }
        }
    }
}

#[test]
fn turning_tiles_twice_turns_them_back() {
    let (mut system, layout) = tree(3);
    let root = system.root(layout);
    let kind = system.layout(root);
    system.toggle_tile_orientation(layout);
    assert_ne!(system.layout(root), kind);
    system.toggle_tile_orientation(layout);
    assert_eq!(system.layout(root), kind);
}

#[test]
fn fullscreen_is_switched_on_and_off_again() {
    let (mut system, layout) = tree(2);
    assert!(!system.has_any_fullscreen_node(layout));
    assert_eq!(system.toggle_fullscreen_of_selection(layout), vec![w(2)]);
    assert!(system.has_any_fullscreen_node(layout));
    assert_eq!(system.toggle_fullscreen_within_gaps_of_selection(layout), vec![w(2)]);
    assert!(system.has_any_fullscreen_node(layout));
    assert!(system.toggle_fullscreen_within_gaps_of_selection(layout).is_empty());
    assert!(!system.has_any_fullscreen_node(layout));
    assert_eq!(system.all_windows_in_layout(layout), vec![w(1), w(2)]);
}

#[test]
fn layouts_are_numbered_apart_and_listed_while_they_exist() {
    let mut system = TraditionalLayoutSystem::default();
    let first = system.create_layout();
    let second = system.create_layout();
    assert_ne!(first, second);
    assert_eq!(system.layout_count(), 2);
    system.remove_layout(first);
    assert_eq!(system.layouts(), vec![second]);
    let third = system.create_layout();
    assert_ne!(third, first);
    assert_ne!(third, second);
    assert!(!system.contains_layout(first));
    assert!(system.contains_layout(third));
}

#[test]
fn needs_of_children_add_up_along_the_axis_of_their_container() {
    let (across, down) = (Orientation::Horizontal, Orientation::Vertical);
    assert_eq!(combining(LayoutKind::Horizontal, across, 3), Combining::Summed);
    assert_eq!(combining(LayoutKind::Horizontal, down, 3), Combining::Largest);
    assert_eq!(combining(LayoutKind::VerticalStack, down, 2), Combining::Piled);
    assert_eq!(combining(LayoutKind::VerticalStack, across, 2), Combining::Lined);
    assert_eq!(
        combining(LayoutKind::VerticalStack, across, 1),
        Combining::Only { with_line: true },
    );
    assert_eq!(combining(LayoutKind::Vertical, across, 1), Combining::Only { with_line: false });
}

// ----- what a process should have -----

#[test]
fn windows_to_remove_and_to_add_come_in_order_and_once_each() {
    let delta = reconcile_app_membership(
        1,
        vec![w(1), w(2), w(3)],
        vec![w(5), w(2), other(4), w(5), w(4)],
    );
    assert_eq!(delta.removals, vec![w(1), w(3)]);
    assert_eq!(delta.additions, vec![w(5), w(4)]);
}

// ----- strips -----

#[test]
fn commands_on_a_strip_keep_its_windows() {
    let all = vec![w(1), w(2), w(3), w(4)];
    for first in EVERY_WAY {
        for second in EVERY_WAY {
            let (mut system, layout) = strip(4);
            system.select_window(layout, w(2));
            system.join_selection_with_direction(layout, first);
            system.move_selection(layout, second);
            assert_eq!(sorted(system.all_windows_in_layout(layout)), all);
            system.consume_or_expel_selection(layout, second);
            system.move_focus(layout, first);
            system.apply_stacking_to_parent_of_selection(layout, StackDefaultOrientation::Same);
            assert_eq!(sorted(system.all_windows_in_layout(layout)), all);
            system.unstack_parent_of_selection(layout, StackDefaultOrientation::Same);
            system.unjoin_selection(layout);
            system.center_selected_column(layout);
            assert_eq!(sorted(system.all_windows_in_layout(layout)), all);
        }
    }
}

#[test]
fn stacking_in_a_strip_takes_the_next_column_over_and_unstacking_gives_it_back() {
    let (mut system, layout) = strip(3);
    system.select_window(layout, w(1));
    let same = StackDefaultOrientation::Same;
    assert_eq!(system.apply_stacking_to_parent_of_selection(layout, same), vec![w(2)]);
    let columns = system.layout_state(layout).expect("strip").column_count();
    assert_eq!(columns, 2);
    assert!(system.parent_of_selection_is_stacked(layout));
    system.select_window(layout, w(1));
    assert_eq!(system.unstack_parent_of_selection(layout, same), vec![w(2)]);
    assert_eq!(system.all_windows_in_layout(layout), vec![w(1), w(2), w(3)]);
    assert!(!system.parent_of_selection_is_stacked(layout));
}

#[test]
fn a_moved_window_of_a_strip_stays_selected() {
    for direction in EVERY_WAY {
        let (mut system, layout) = strip(4);
        assert_eq!(system.selected_window(layout), Some(w(4)));
        system.select_window(layout, w(2));
        system.join_selection_with_direction(layout, Direction::Right);
        assert_eq!(system.selected_window(layout), Some(w(2)));
        system.move_selection(layout, direction);
        assert_eq!(system.selected_window(layout), Some(w(2)));
    }
}

#[test]
fn exchanging_two_windows_of_a_strip_twice_changes_nothing() {
    let (mut system, layout) = strip(3);
    assert!(system.swap_windows(layout, w(1), w(3)));
    assert_eq!(system.all_windows_in_layout(layout), vec![w(3), w(2), w(1)]);
    assert!(system.swap_windows(layout, w(3), w(1)));
    assert_eq!(system.all_windows_in_layout(layout), vec![w(1), w(2), w(3)]);
}

#[test]
fn a_strip_is_made_to_hold_the_windows_of_a_process() {
    let (mut system, layout) = strip(3);
    system.add_window_after_selection(layout, other(1));
    system.set_windows_for_app(layout, 1, vec![w(3), w(5)]);
    assert_eq!(sorted(system.all_windows_in_layout(layout)), vec![w(3), w(5), other(1)]);
    system.replace_window(w(3), w(4));
    assert!(system.contains_window(layout, w(4)));
    assert!(!system.contains_window(layout, w(3)));
    system.remove_window(w(4));
    system.remove_windows_for_app(2);
    assert_eq!(system.all_windows_in_layout(layout), vec![w(5)]);
}

#[test]
fn a_removed_selection_passes_to_what_took_its_place() {
    let (mut system, layout) = strip(3);
    system.select_window(layout, w(2));
    system.remove_window(w(2));
    assert_eq!(system.selected_window(layout), Some(w(3)));
    system.remove_window(w(3));
    assert_eq!(system.selected_window(layout), Some(w(1)));
    system.remove_window(w(1));
    assert_eq!(system.selected_window(layout), None);
}

#[test]
fn removing_a_window_from_a_strip_hands_out_the_selection_that_is_left() {
    let mut strip = LayoutState::new(0.5f64.to_bits());
    for idx in 1..=3 {
        strip.insert_column_at_end(w(idx));
    }
    assert_eq!(strip.selected(), Some(w(3)));
    assert_eq!(strip.remove_window(w(9)), None);
    assert_eq!(strip.selected(), Some(w(3)));
    assert_eq!(strip.remove_window(w(1)), Some(w(3)));
    assert_eq!(strip.remove_window(w(3)), Some(w(2)));
    assert_eq!(strip.remove_window(w(2)), None);
    assert_eq!(strip.selected(), None);
}

#[test]
fn the_selection_moves_to_another_strip() {
    let (mut system, from) = strip(3);
    let to = system.create_layout();
    system.select_window(from, w(1));
    system.move_selection_to_layout_after_selection(from, to);
    assert_eq!(system.all_windows_in_layout(from), vec![w(2), w(3)]);
    assert_eq!(system.all_windows_in_layout(to), vec![w(1)]);
    assert_eq!(system.selected_window(to), Some(w(1)));
}

#[test]
fn a_copied_strip_does_not_follow_its_source() {
    let (mut system, layout) = strip(2);
    let copy = system.clone_layout(layout);
    system.select_window(layout, w(1));
    system.remove_layout(layout);
    assert!(!system.contains_layout(layout));
    assert_eq!(system.layout_count(), 1);
    assert_eq!(system.all_windows_in_layout(copy), vec![w(1), w(2)]);
    assert_eq!(system.selected_window(copy), Some(w(2)));
    assert!(system.all_windows_in_layout(layout).is_empty());
}

#[test]
fn scroll_requests_are_handed_out_once() {
    let mut settings = ScrollingLayoutSettings::default();
    settings.focus_navigation_style = ScrollingFocusNavigationStyle::Anchored;
    let mut system = ScrollingLayoutSystem::new(&settings);
    let layout = system.create_layout();
    system.add_window_after_selection(layout, w(1));
    assert_eq!(system.take_scroll_requests(layout), (false, true, 0));
    assert_eq!(system.take_scroll_requests(layout), (false, false, 0));
    system.center_selected_column(layout);
    assert_eq!(system.take_scroll_requests(layout), (true, false, 0));
    settings.focus_navigation_style = ScrollingFocusNavigationStyle::Niri;
    system.update_settings(&settings);
    system.add_window_after_selection(layout, w(2));
    assert_eq!(system.take_scroll_requests(layout), (false, false, 2));
    system.move_focus(layout, Direction::Left);
    assert_eq!(system.take_scroll_requests(layout), (false, false, -1));
}

// ----- stacks, masters and floating windows -----

#[test]
fn a_stack_stays_one_row_of_windows_whatever_is_asked_of_it() {
    let mut system = StackLayoutSystem::new(StackDefaultOrientation::Perpendicular);
    let layout = system.create_layout();
    for idx in 1..=3 {
        system.add_window_after_selection(layout, w(idx));
    }
    system.split_selection(layout, LayoutKind::Horizontal);
    system.join_selection_with_direction(layout, Direction::Up);
    system.unjoin_selection(layout);
    system.move_selection(layout, Direction::Up);
    assert_eq!(sorted(system.all_windows_in_layout(layout)), vec![w(1), w(2), w(3)]);
    let root = system.inner().root(layout);
    assert_eq!(system.inner().tree().children(root).len(), 3);
    let kind = system.inner().layout(root);
    system.toggle_tile_orientation(layout);
    assert_ne!(system.inner().layout(root), kind);
    system.toggle_tile_orientation(layout);
    assert_eq!(system.inner().layout(root), kind);
    system.set_windows_for_app(layout, 1, vec![w(2), w(9)]);
    assert_eq!(sorted(system.all_windows_in_layout(layout)), vec![w(2), w(9)]);
}

#[test]
fn the_master_area_holds_as_many_windows_as_it_should() {
    let mut settings = MasterStackSettings::default();
    settings.master_count = 2;
    let mut system = MasterStackLayoutSystem::new(settings);
    let layout = system.create_layout();
    for idx in 1..=4 {
        system.add_window_after_selection(layout, w(idx));
    }
    let (_, master, stack) = system.ensure_structure(layout);
    assert_eq!(system.windows_in_container(master).len(), 2);
    assert_eq!(system.windows_in_container(stack).len(), 2);
    let listed = system.windows_in_layout_by_container(layout);
    assert_eq!(sorted(listed.clone()), vec![w(1), w(2), w(3), w(4)]);

    system.adjust_master_count(layout, 1);
    let (_, master, stack) = system.ensure_structure(layout);
    assert_eq!(system.windows_in_container(master).len(), 3);
    assert_eq!(system.windows_in_container(stack).len(), 1);
    assert_eq!(system.windows_in_layout_by_container(layout), listed);
    assert!(system.has_valid_structure(layout));
}

#[test]
fn a_refused_move_leaves_master_and_stack_in_order() {
    let mut refused = 0;
    for chosen in 1..=4 {
        for direction in EVERY_WAY {
            let mut system = MasterStackLayoutSystem::default();
            let layout = system.create_layout();
            for idx in 1..=4 {
                system.add_window_after_selection(layout, w(idx));
            }
            system.select_window(layout, w(chosen));
            let before = system.windows_in_layout_by_container(layout);
            if !system.move_selection(layout, direction) {
                refused += 1;
                assert_eq!(system.windows_in_layout_by_container(layout), before);
            }
            assert_eq!(system.selected_window(layout), Some(w(chosen)));
        }
    }
    assert!(refused > 0);

    let mut system = MasterStackLayoutSystem::default();
    let layout = system.create_layout();
    for direction in EVERY_WAY {
        assert!(!system.move_selection(layout, direction));
    }
    assert_eq!(system.selected_window(layout), None);
}

#[test]
fn a_master_area_of_the_right_size_is_left_alone() {
    let mut system = MasterStackLayoutSystem::default();
    let layout = system.create_layout();
    for idx in 1..=4 {
        system.add_window_after_selection(layout, w(idx));
    }
    let (_, master, stack) = system.ensure_structure(layout);
    let before = system.windows_in_layout_by_container(layout);
    system.enforce_master_count_preserving(layout, master, stack, None);
    assert_eq!(system.windows_in_layout_by_container(layout), before);
}

#[test]
fn areas_remember_their_focused_window() {
    let mut system = MasterStackLayoutSystem::default();
    let layout = system.create_layout();
    for idx in 1..=4 {
        system.add_window_after_selection(layout, w(idx));
    }
    let (_, _, stack) = system.ensure_structure(layout);
    assert!(system.has_valid_structure(layout));
    let before = system.windows_in_layout_by_container(layout);
    system.select_window(layout, before[2]);
    assert!(system.ascend_selection(layout));
    assert!(system.has_valid_structure(layout));
    let remembered = system.inner().local_selection(stack).unwrap();
    assert_eq!(system.inner().window_at(remembered), Some(before[2]));
    system.swap_master_stack(layout);
    let after = vec![before[2], before[1], before[0], before[3]];
    assert_eq!(system.windows_in_layout_by_container(layout), after);
}

#[test]
fn settings_that_compare_equal_change_nothing() {
    let zero = |negative: bool| {
        let mut settings = MasterStackSettings::default();
        settings.master_ratio = if negative { -0.0f64 } else { 0.0f64 }.to_bits();
        settings
    };
    let mut system = MasterStackLayoutSystem::new(zero(false));
    let layout = system.create_layout();
    system.add_window_after_selection(layout, w(1));
    let (_, master, _) = system.ensure_structure(layout);
    system.update_settings(zero(true));
    assert!(system.inner().tree().is_live(master));
    assert_eq!(system.settings().master_ratio, 0.0f64.to_bits());

    let mut settings = zero(true);
    settings.master_ratio = f64::NAN.to_bits();
    system.update_settings(settings);
    let (_, master, _) = system.ensure_structure(layout);
    system.update_settings(settings);
    assert!(!system.inner().tree().is_live(master));
    assert_eq!(system.all_windows_in_layout(layout), vec![w(1)]);
}

#[test]
fn a_window_added_to_master_and_stack_is_selected() {
    let mut system = MasterStackLayoutSystem::default();
    let layout = system.create_layout();
    for idx in 1..=4 {
        system.add_window_after_selection(layout, w(idx));
        assert_eq!(system.selected_window(layout), Some(w(idx)));
    }
}

#[test]
fn commands_on_master_and_stack_keep_the_windows() {
    let all = vec![w(1), w(2), w(3), w(4)];
    for chosen in 1..=4 {
        for direction in EVERY_WAY {
            let mut system = MasterStackLayoutSystem::default();
            let layout = system.create_layout();
            for idx in 1..=4 {
                system.add_window_after_selection(layout, w(idx));
            }
            system.select_window(layout, w(chosen));
            system.promote_to_master(layout);
            assert_eq!(system.windows_in_layout_by_container(layout)[0], w(chosen));
            assert_eq!(system.selected_window(layout), Some(w(chosen)));
            system.swap_master_stack(layout);
            assert_eq!(sorted(system.all_windows_in_layout(layout)), all);
            assert_eq!(system.selected_window(layout), Some(w(chosen)));
            system.move_selection(layout, direction);
            assert_eq!(sorted(system.all_windows_in_layout(layout)), all);
            assert_eq!(system.selected_window(layout), Some(w(chosen)));
            assert!(system.has_valid_structure(layout));
        }
    }
}

#[test]
fn a_master_layout_is_made_to_hold_the_windows_of_a_process() {
    let mut system = MasterStackLayoutSystem::default();
    let layout = system.create_layout();
    for idx in 1..=3 {
        system.add_window_after_selection(layout, w(idx));
    }
    system.add_window_after_selection(layout, other(1));
    system.set_windows_for_app(layout, 1, vec![w(2), w(5)]);
    assert_eq!(sorted(system.all_windows_in_layout(layout)), vec![w(2), w(5), other(1)]);
    system.remove_window(w(5));
    system.remove_windows_for_app(2);
    assert_eq!(system.all_windows_in_layout(layout), vec![w(2)]);
}

#[test]
fn frames_of_floating_windows_come_back_when_their_stack_is_taken_apart() {
    let mut system = FloatingLayoutSystem::new(WindowInsertionPoint::NextToSelection);
    let layout = system.create_layout();
    for idx in 1..=2 {
        system.add_window_after_selection(layout, w(idx));
        system.store_frame(w(idx), frame(f64::from(idx)));
    }
    assert_eq!(system.frame(w(1)), Some(frame(1.0)));
    assert!(system.contains_floating_window(w(1)));
    assert!(!system.contains_floating_window(w(3)));

    system.join_selection_with_direction(layout, Direction::Left, Some(w(1)));
    assert_eq!(sorted(system.all_windows_in_layout(layout)), vec![w(1), w(2)]);
    let shown = system.apply_stacking_to_parent_of_selection(
        layout,
        StackDefaultOrientation::Perpendicular,
    );
    assert_eq!(shown, vec![w(2)]);
    assert_eq!(system.frame(w(1)), Some(frame(2.0)));
    assert_eq!(system.independent_frame(w(1)), Some(frame(1.0)));
    system.store_frame(w(2), frame(5.0));
    assert_eq!(system.frame(w(1)), Some(frame(5.0)));

    system.unstack_parent_of_selection(layout, StackDefaultOrientation::Perpendicular);
    assert_eq!(system.frame(w(1)), Some(frame(1.0)));
    assert_eq!(system.frame(w(2)), Some(frame(5.0)));
    assert_eq!(system.independent_frame(w(1)), None);
    system.unjoin_selection(layout);
    assert_eq!(sorted(system.all_windows_in_layout(layout)), vec![w(1), w(2)]);
    assert_eq!(system.own_container(layout), None);
}

#[test]
fn first_frames_go_to_windows_without_one_and_only_once() {
    let mut system = FloatingLayoutSystem::default();
    let layout = system.create_layout();
    for idx in 1..=4 {
        system.add_window_after_selection(layout, w(idx));
    }
    system.store_frame(w(2), frame(20.0));
    let windows = system.all_windows_in_layout(layout);
    let waiting = system.windows_without_frame(layout);
    assert_eq!(waiting.len(), 3);
    for (index, window) in &waiting {
        assert_eq!(windows[*index], *window);
        assert_ne!(*window, w(2));
    }
    let frames: Vec<Frame> = (1..=3).map(|n| frame(100.0 * n as f64)).collect();
    system.initialize_frames(layout, &frames);
    for ((_, window), frame) in waiting.iter().zip(&frames) {
        assert_eq!(system.frame(*window), Some(*frame));
    }
    assert_eq!(system.frame(w(2)), Some(frame(20.0)));
    assert!(system.windows_without_frame(layout).is_empty());
    system.initialize_frames(layout, &Vec::new());
    assert_eq!(system.frame(waiting[0].1), Some(frames[0]));
}

#[test]
fn a_floating_layout_is_made_to_hold_the_windows_of_a_process() {
    let mut system = FloatingLayoutSystem::new(WindowInsertionPoint::NextToSelection);
    let layout = system.create_layout();
    for idx in 1..=3 {
        system.add_window_after_selection(layout, w(idx));
        system.store_frame(w(idx), frame(f64::from(idx)));
    }
    system.set_windows_for_app(layout, 1, vec![w(1), w(7)]);
    assert_eq!(sorted(system.all_windows_in_layout(layout)), vec![w(1), w(7)]);
    assert_eq!(system.frame(w(2)), None);
    system.replace_window(w(1), w(4));
    assert_eq!(system.frame(w(4)), Some(frame(1.0)));
    assert_eq!(system.frame(w(1)), None);
    system.remove_window(w(4));
    assert_eq!(system.frame(w(4)), None);
}

#[test]
fn nodes_of_windows_are_odd_and_nodes_of_columns_even() {
    let wid = WindowId::new(3, 5);
    assert_eq!(packed_window_id(wid), (3 << 32) | 5);
    assert_eq!(window_node_id(wid), (6 << 32) | 11);
    assert_eq!(column_node_id(wid), (6 << 32) | 10);
    assert_ne!(window_node_id(wid), window_node_id(WindowId::new(3, 6)));
    assert_ne!(column_node_id(wid), column_node_id(WindowId::new(4, 5)));
}

#[test]
fn a_stack_shows_the_child_in_focus() {
    let (mut system, layout) = tree(3);
    system.apply_stacking_to_parent_of_selection(layout, StackDefaultOrientation::Same);
    system.select_window(layout, w(2));
    let root = system.root(layout);
    assert_eq!(
        system.tree().arrangement(root),
        Arrangement::Pile { axis: Orientation::Horizontal, focused: 1 },
    );
    assert_eq!(system.visible_windows_in_layout(layout), vec![w(2)]);
    let shown = system.tree().children(root)[1];
    assert_eq!(system.tree().arrangement(shown), Arrangement::Window { window: w(2) });
    system.unstack_parent_of_selection(layout, StackDefaultOrientation::Same);
    assert_eq!(
        system.tree().arrangement(root),
        Arrangement::Row { axis: Orientation::Horizontal },
    );
}

// ----- motion of strips -----

#[test]
fn a_clipped_column_goes_to_the_edge_that_focus_moved_towards() {
    assert_eq!(reveal_step(1, true, true), RevealStep::ToRightEdge);
    assert_eq!(reveal_step(-1, true, true), RevealStep::ToLeftEdge);
    assert_eq!(reveal_step(2, true, true), RevealStep::ToLeftEdge);
    assert_eq!(reveal_step(1, true, false), RevealStep::ToLeftEdge);
    assert_eq!(reveal_step(-1, false, true), RevealStep::ToRightEdge);
    assert_eq!(reveal_step(2, false, false), RevealStep::Stay);
    assert_eq!(reveal_step(0, true, true), RevealStep::Stay);
}

#[test]
fn a_strip_without_selection_scrolls_to_its_start() {
    assert_eq!(scroll_target(true, false, true), ScrollTarget::Centered);
    assert_eq!(scroll_target(true, true, true), ScrollTarget::Centered);
    assert_eq!(scroll_target(false, true, true), ScrollTarget::Selected);
    assert_eq!(scroll_target(true, false, false), ScrollTarget::Start);
    assert_eq!(scroll_target(false, true, false), ScrollTarget::Start);
    assert_eq!(scroll_target(false, false, true), ScrollTarget::Here);
}

#[test]
fn going_past_an_end_counts_until_it_is_enough() {
    assert_eq!(overshot(true, false, true, false), Some(Direction::Left));
    assert_eq!(overshot(true, false, false, true), None);
    assert_eq!(overshot(false, true, false, true), Some(Direction::Right));
    assert_eq!(overscroll(Some(Direction::Left), false), (true, None));
    assert_eq!(overscroll(Some(Direction::Left), true), (false, Some(Direction::Left)));
    assert_eq!(overscroll(None, true), (false, None));
    assert_eq!(parking(true, true), Parking::BeyondLeft);
    assert_eq!(parking(false, true), Parking::BeyondRight);
    assert_eq!(parking(false, false), Parking::InView);
}

#[test]
fn only_a_lone_column_fills_the_viewport_until_its_width_is_set() {
    let (mut system, layout) = strip(1);
    assert!(system.layout_state(layout).expect("strip").fills_viewport(0));
    system.resize_column(layout, 0, 0.1f64.to_bits());
    assert!(!system.layout_state(layout).expect("strip").fills_viewport(0));
    system.add_window_after_selection(layout, w(2));
    assert!(!system.layout_state(layout).expect("strip").fills_viewport(1));
    system.toggle_fullscreen_of_selection(layout);
    let state = system.layout_state(layout).expect("strip");
    assert_eq!(state.coverage(w(2)), Coverage::Screen);
    assert_eq!(state.coverage(w(1)), Coverage::Share);
}
