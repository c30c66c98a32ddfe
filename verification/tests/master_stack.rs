use rift::actor::WindowId;
use rift::common::config::{
    MasterStackNewWindowPlacement, MasterStackSettings, MasterStackSide, WindowInsertionPoint,
};
use rift::layout_engine::systems::master_stack::system::MasterStackLayoutSystem;
use rift::layout_engine::{Direction, Orientation, ResizeOrientation};

fn w(idx: u32) -> WindowId {
    WindowId::new(1, idx)
}

#[test]
fn test_create_layout() {
    let mut system = MasterStackLayoutSystem::default();
    let layout = system.create_layout();
    let windows = system.windows_in_layout_by_container(layout);
    assert!(windows.is_empty());
}

#[test]
fn test_add_windows() {
    let mut system = MasterStackLayoutSystem::default();
    let layout = system.create_layout();
    system.add_window_after_selection(layout, w(1));
    system.add_window_after_selection(layout, w(2));
    system.add_window_after_selection(layout, w(3));

    let windows = system.windows_in_layout_by_container(layout);
    // By default master_count = 1, new_window_placement = Master
    // When w1 is added: master=[w1]
    // When w2 is added: master=[w2], stack=[w1]
    // When w3 is added: master=[w3], stack=[w2, w1] (since w2 was at index 0 and got pushed to stack, w1 was pushed next)
    assert_eq!(windows, vec![w(3), w(2), w(1)]);
}

#[test]
fn next_to_selection_keeps_new_window_in_full_master_area() {
    let mut settings = MasterStackSettings::default();
    settings.base.window_insertion_point = Some(WindowInsertionPoint::NextToSelection);
    settings.master_count = 1;
    settings.new_window_placement = MasterStackNewWindowPlacement::Master;
    let mut system = MasterStackLayoutSystem::new(settings);
    let layout = system.create_layout();

    system.add_window_after_selection(layout, w(1));
    system.add_window_after_selection(layout, w(2));

    let (_root, master, stack) = system.ensure_structure(layout);
    assert_eq!(system.windows_in_container(master), vec![w(2)]);
    assert_eq!(system.windows_in_container(stack), vec![w(1)]);
}

#[test]
fn next_to_selection_orders_within_the_selected_target_area() {
    let mut settings = MasterStackSettings::default();
    settings.base.window_insertion_point = Some(WindowInsertionPoint::NextToSelection);
    settings.master_count = 2;
    let mut system = MasterStackLayoutSystem::new(settings);
    let layout = system.create_layout();

    system.add_window_after_selection(layout, w(1));
    system.add_window_after_selection(layout, w(2));
    assert!(system.select_window(layout, w(1)));
    system.add_window_after_selection(layout, w(3));

    let (_root, master, stack) = system.ensure_structure(layout);
    assert_eq!(system.windows_in_container(master), vec![w(1), w(3)]);
    assert_eq!(system.windows_in_container(stack), vec![w(2)]);
}

#[test]
fn next_to_selection_respects_stack_placement() {
    let mut settings = MasterStackSettings::default();
    settings.base.window_insertion_point = Some(WindowInsertionPoint::NextToSelection);
    settings.new_window_placement = MasterStackNewWindowPlacement::Stack;
    let mut system = MasterStackLayoutSystem::new(settings);
    let layout = system.create_layout();

    system.add_window_after_selection(layout, w(1));
    system.add_window_after_selection(layout, w(2));

    let (_root, master, stack) = system.ensure_structure(layout);
    assert_eq!(system.windows_in_container(master), vec![w(1)]);
    assert_eq!(system.windows_in_container(stack), vec![w(2)]);
}

#[test]
fn next_to_selection_respects_focused_placement() {
    let mut settings = MasterStackSettings::default();
    settings.base.window_insertion_point = Some(WindowInsertionPoint::NextToSelection);
    settings.new_window_placement = MasterStackNewWindowPlacement::Focused;
    let mut system = MasterStackLayoutSystem::new(settings);
    let layout = system.create_layout();

    system.add_window_after_selection(layout, w(1));
    system.add_window_after_selection(layout, w(2));
    assert!(system.select_window(layout, w(1)));
    system.add_window_after_selection(layout, w(3));

    let (_root, master, stack) = system.ensure_structure(layout);
    assert_eq!(system.windows_in_container(master), vec![w(2)]);
    assert_eq!(system.windows_in_container(stack), vec![w(1), w(3)]);
}

#[test]
fn end_of_tree_keeps_new_windows_after_master_overflow() {
    let mut settings = MasterStackSettings::default();
    settings.base.window_insertion_point = Some(WindowInsertionPoint::EndOfTree);
    let mut system = MasterStackLayoutSystem::new(settings);
    let layout = system.create_layout();

    system.add_window_after_selection(layout, w(1));
    system.add_window_after_selection(layout, w(2));
    system.add_window_after_selection(layout, w(3));

    assert_eq!(system.windows_in_layout_by_container(layout), vec![
        w(1),
        w(2),
        w(3)
    ]);
}

#[test]
fn resize_selection_respects_the_requested_axis() {
    let mut system = MasterStackLayoutSystem::default();
    let layout = system.create_layout();
    system.add_window_after_selection(layout, w(1));
    system.add_window_after_selection(layout, w(2));
    let (_root, master, stack) = system.ensure_structure(layout);
    assert!(system.select_window(layout, w(1)));

    let (node, neighbor, direction) =
        system.resize_choice(layout, ResizeOrientation::Horizontal).unwrap();
    assert!(node == stack && neighbor == master);
    assert_eq!(direction, Direction::Left);
    assert_ne!(master, stack);
}

#[test]
fn test_move_selection_towards_master_and_stack() {
    let mut system = MasterStackLayoutSystem::default();
    let layout = system.create_layout();
    system.add_window_after_selection(layout, w(1));
    system.add_window_after_selection(layout, w(2));
    system.add_window_after_selection(layout, w(3));
    // layout state: master=[w3], stack=[w2, w1]

    // Select w2 (which is in stack)
    assert!(system.select_window(layout, w(2)));

    // Move towards master (Left) -> promotes w2 to master, pushes w3 to stack
    assert!(system.move_selection(layout, Direction::Left));
    let windows = system.windows_in_layout_by_container(layout);
    assert_eq!(windows, vec![w(2), w(3), w(1)]);

    // Select w2 (which is in master)
    assert!(system.select_window(layout, w(2)));

    // Move towards stack (Right) -> demotes w2 to stack, top stack window (w3) becomes master
    assert!(system.move_selection(layout, Direction::Right));
    let windows = system.windows_in_layout_by_container(layout);
    assert_eq!(windows, vec![w(3), w(2), w(1)]);
}

#[test]
fn test_move_selection_within_container() {
    let mut system = MasterStackLayoutSystem::default();
    let layout = system.create_layout();
    system.add_window_after_selection(layout, w(1));
    system.add_window_after_selection(layout, w(2));
    system.add_window_after_selection(layout, w(3));
    // layout state: master=[w3], stack=[w2, w1]

    // Select w2 (which is at index 1, i.e., index 0 in stack)
    assert!(system.select_window(layout, w(2)));

    // Move down (within stack) -> swaps w2 and w1
    assert!(system.move_selection(layout, Direction::Down));
    let windows = system.windows_in_layout_by_container(layout);
    assert_eq!(windows, vec![w(3), w(1), w(2)]);

    // Move up (within stack) -> swaps w1 and w2 back
    assert!(system.select_window(layout, w(2)));
    assert!(system.move_selection(layout, Direction::Up));
    let windows = system.windows_in_layout_by_container(layout);
    assert_eq!(windows, vec![w(3), w(2), w(1)]);
}

#[test]
fn test_parallel_horizontal_layout_reordering() {
    let mut settings = MasterStackSettings::default();
    settings.master_count = 2;
    settings.master_arrangement = Some(Orientation::Horizontal);
    settings.stack_arrangement = Some(Orientation::Horizontal);

    let mut system = MasterStackLayoutSystem::new(settings);
    let layout = system.create_layout();
    system.add_window_after_selection(layout, w(1));
    system.add_window_after_selection(layout, w(2));
    system.add_window_after_selection(layout, w(3));
    system.add_window_after_selection(layout, w(4));
    // State: master=[w4, w3], stack=[w2, w1] (all horizontal)
    let windows = system.windows_in_layout_by_container(layout);
    assert_eq!(windows, vec![w(4), w(3), w(2), w(1)]);

    // 1. Focus w4 (index 0 in master) and move Right.
    // It is NOT at the border (which is w3 at index 1), so it should swap w4 and w3 within master.
    assert!(system.select_window(layout, w(4)));
    assert!(system.move_selection(layout, Direction::Right));
    let windows = system.windows_in_layout_by_container(layout);
    assert_eq!(windows, vec![w(3), w(4), w(2), w(1)]);

    // 2. Focus w4 (now at index 1 in master, which is the border) and move Right.
    // It IS at the border, so it should cross to stack, demoting w4 and swapping with w2 (index 2).
    assert!(system.move_selection(layout, Direction::Right));
    let windows = system.windows_in_layout_by_container(layout);
    assert_eq!(windows, vec![w(3), w(2), w(4), w(1)]);

    // 3. Focus w4 (now at index 2 in stack, which is the border of stack facing master) and move Left.
    // It IS at the border of stack (index == master_count), so it should promote back to master, swapping with w2 (index 1).
    assert!(system.select_window(layout, w(4)));
    assert!(system.move_selection(layout, Direction::Left));
    let windows = system.windows_in_layout_by_container(layout);
    assert_eq!(windows, vec![w(3), w(4), w(2), w(1)]);

    // 4. Focus w1 (at index 3, the rightmost stack window) and move Left.
    // It is NOT at the border of stack facing master (border is w2 at index 2), so it should swap w1 and w2 within stack.
    assert!(system.select_window(layout, w(1)));
    assert!(system.move_selection(layout, Direction::Left));
    let windows = system.windows_in_layout_by_container(layout);
    assert_eq!(windows, vec![w(3), w(4), w(1), w(2)]);
}

#[test]
fn test_parallel_horizontal_layout_reordering_stack_left() {
    let mut settings = MasterStackSettings::default();
    settings.master_side = MasterStackSide::Right; // Stack is on Left, Master is on Right
    settings.master_count = 2;
    settings.master_arrangement = Some(Orientation::Horizontal);
    settings.stack_arrangement = Some(Orientation::Horizontal);

    let mut system = MasterStackLayoutSystem::new(settings);
    let layout = system.create_layout();
    system.add_window_after_selection(layout, w(1));
    system.add_window_after_selection(layout, w(2));
    system.add_window_after_selection(layout, w(3));
    system.add_window_after_selection(layout, w(4));

    // Logical flat list: [M0, M1, S0, S1] -> [w4, w3, w1, w2] (since overflows append to stack)
    // Physical layout: w1 (leftmost stack) - w2 (rightmost stack) | w4 (leftmost master) - w3 (rightmost master)
    let windows = system.windows_in_layout_by_container(layout);
    assert_eq!(windows, vec![w(4), w(3), w(1), w(2)]);

    // 1. Focus w3 (at index 1, the right-most Master window) and move Left.
    // It is NOT at the border facing stack (which is w4 at index 0), so it should swap w3 and w4 within Master.
    assert!(system.select_window(layout, w(3)));
    assert!(system.move_selection(layout, Direction::Left));
    let windows = system.windows_in_layout_by_container(layout);
    assert_eq!(windows, vec![w(3), w(4), w(1), w(2)]);

    // 2. Focus w3 (now at index 0, which is the border facing stack) and move Left.
    // It IS at the border, so it should cross to stack, swapping with the right-most stack window w2 (index 3).
    assert!(system.move_selection(layout, Direction::Left));
    let windows = system.windows_in_layout_by_container(layout);
    assert_eq!(windows, vec![w(2), w(4), w(1), w(3)]);

    // 3. Focus w3 (now at index 3, the border of Stack facing Master) and move Right.
    // It IS at the border of Stack facing Master, so it should cross to Master, swapping with w2 (index 0).
    assert!(system.select_window(layout, w(3)));
    assert!(system.move_selection(layout, Direction::Right));
    let windows = system.windows_in_layout_by_container(layout);
    assert_eq!(windows, vec![w(3), w(4), w(1), w(2)]);
}

#[test]
fn removing_stack_window_preserves_master_membership_when_master_is_last() {
    for master_side in [MasterStackSide::Right, MasterStackSide::Bottom] {
        let mut settings = MasterStackSettings::default();
        settings.master_count = 2;
        settings.master_side = master_side;
        settings.new_window_placement = MasterStackNewWindowPlacement::Stack;
        let mut system = MasterStackLayoutSystem::new(settings);
        let layout = system.create_layout();

        system.add_window_after_selection(layout, w(1));
        system.add_window_after_selection(layout, w(2));
        system.add_window_after_selection(layout, w(3));
        system.add_window_after_selection(layout, w(4));

        let (_root, master, stack) = system.ensure_structure(layout);
        let master_before = system.windows_in_container(master);
        let stack_before = system.windows_in_container(stack);
        assert_eq!(master_before.len(), 2);
        assert_eq!(stack_before.len(), 2);
        assert!(stack_before.contains(&w(3)));

        system.remove_window(w(3));

        let (_root, master, stack) = system.ensure_structure(layout);
        assert_eq!(system.windows_in_container(master), master_before);
        assert_eq!(
            system.windows_in_container(stack),
            stack_before.into_iter().filter(|&window| window != w(3)).collect::<Vec<_>>()
        );
    }
}
