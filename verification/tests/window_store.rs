use rift::actor::WindowId;
use rift::geometry::Frame;
use rift::model::reactor::WindowState;
use rift::model::window_store::store::WindowStore;
use rift::model::window_store::view::{
    NativeFullscreenTransition, VirtualWorkspaceId, WindowPlacement, WindowRecord,
    WindowVisibility, WindowWorkspaceInfo,
};
use rift::sys::{SpaceId, WindowInfo, WindowServerId, WindowServerInfo};

fn workspace(n: u64) -> VirtualWorkspaceId {
    VirtualWorkspaceId { raw: (1 << 32) | n }
}

fn frame(x: f64, y: f64, width: f64, height: f64) -> Frame {
    Frame {
        x: x.to_bits(),
        y: y.to_bits(),
        width: width.to_bits(),
        height: height.to_bits(),
    }
}

#[test]
fn authoritative_space_only_record_is_not_pruned() {
    let mut window_store = WindowStore::default();
    let wsid = WindowServerId::new(77);
    let space = SpaceId::new(9);

    window_store.set_window_server_space(wsid, Some(space));

    assert_eq!(window_store.window_server_space(wsid), Some(space));
    assert_eq!(window_store.iter_window_server_ids(), vec![
        wsid
    ]);
}

#[test]
fn authoritative_space_record_is_pruned_when_space_is_cleared() {
    let mut window_store = WindowStore::default();
    let wsid = WindowServerId::new(78);

    window_store.set_window_server_space(wsid, Some(SpaceId::new(10)));
    window_store.set_window_server_space(wsid, None);

    assert_eq!(window_store.window_server_space(wsid), None);
    assert!(window_store.iter_window_server_ids().is_empty());
}

#[test]
fn transfer_persistent_metadata_replaces_existing_target_workspace_assignment() {
    let mut window_store = WindowStore::default();
    let space = SpaceId::new(10);
    let source_workspace = workspace(1);
    let target_workspace = workspace(2);
    let from = WindowId::new(1, 1);
    let to = WindowId::new(1, 2);

    window_store.assign_window_to_workspace(from, WindowWorkspaceInfo {
        space,
        workspace_id: source_workspace,
    });
    window_store.assign_window_to_workspace(to, WindowWorkspaceInfo {
        space,
        workspace_id: target_workspace,
    });

    window_store.transfer_persistent_window_metadata(from, to);

    assert_eq!(
        window_store.workspace_info_for_window(to),
        Some(WindowWorkspaceInfo {
            space,
            workspace_id: source_workspace,
        })
    );
    assert!(window_store.workspace_windows(space, target_workspace).is_empty());
    assert_eq!(window_store.workspace_windows(space, source_workspace), vec![to]);
}

#[test]
fn transfer_persistent_metadata_rekeys_native_fullscreen_record() {
    let mut window_store = WindowStore::default();
    let space = SpaceId::new(10);
    let fullscreen_space = SpaceId::new(0x400000000 + space.get());
    let workspace_id = workspace(1);
    let from = WindowId::new(1, 1);
    let to = WindowId::new(1, 2);
    let wsid = WindowServerId::new(77);

    window_store.assign_window_to_workspace(from, WindowWorkspaceInfo { space, workspace_id });
    let _ = window_store.suspend_window_to_native_fullscreen(
        from,
        Some(wsid),
        Some(space),
        fullscreen_space,
        NativeFullscreenTransition::Suspended,
    );

    window_store.transfer_persistent_window_metadata(from, to);

    let record = window_store
        .native_fullscreen_record_for_window(to)
        .expect("fullscreen record should follow rekey");
    assert_eq!(record.current_window_id, to);
    assert_eq!(record.window_server_id, Some(wsid));
    assert_eq!(
        record.workspace,
        Some(WindowWorkspaceInfo { space, workspace_id })
    );
    assert_eq!(
        window_store
            .native_fullscreen_record_for_window(from)
            .expect("original key should still resolve the lifecycle")
            .current_window_id,
        to
    );
}

#[test]
fn native_fullscreen_record_preserves_explicit_fallback_user_space_without_assignment() {
    let mut window_store = WindowStore::default();
    let wid = WindowId::new(1, 1);
    let wsid = WindowServerId::new(91);
    let user_space = SpaceId::new(11);
    let fullscreen_space = SpaceId::new(0x400000000 + user_space.get());

    let record = window_store.suspend_window_to_native_fullscreen(
        wid,
        Some(wsid),
        Some(user_space),
        fullscreen_space,
        NativeFullscreenTransition::Suspended,
    );

    assert_eq!(record.workspace, None);
    assert_eq!(record.last_known_user_space, Some(user_space));
    assert_eq!(
        window_store
            .native_fullscreen_record_for_window_server_id(wsid)
            .expect("record should be discoverable by wsid")
            .last_known_user_space,
        Some(user_space)
    );
}

#[test]
fn remove_window_preserves_native_fullscreen_record_until_app_cleanup() {
    let mut window_store = WindowStore::default();
    let wid = WindowId::new(7, 1);
    let wsid = WindowServerId::new(92);
    let user_space = SpaceId::new(12);
    let fullscreen_space = SpaceId::new(0x400000000 + user_space.get());

    let frame = frame(0.0, 0.0, 100.0, 100.0);
    window_store.insert_window(
        wid,
        WindowState::from(WindowInfo {
            is_standard: true,
            is_root: true,
            is_minimized: false,
            is_resizable: true,
            min_size: None,
            max_size: None,
            title: "Window".to_string(),
            frame,
            sys_id: Some(wsid),
            bundle_id: None,
            path: None,
            ax_role: None,
            ax_subrole: None,
        }),
    );
    let _ = window_store.suspend_window_to_native_fullscreen(
        wid,
        Some(wsid),
        Some(user_space),
        fullscreen_space,
        NativeFullscreenTransition::Suspended,
    );

    window_store.remove_window(wid);

    assert!(
        window_store.native_fullscreen_record_for_window(wid).is_some(),
        "transient AX removal should not drop the fullscreen lifecycle record"
    );

    window_store.remove_windows_for_app(wid.pid);

    assert!(
        window_store.native_fullscreen_record_for_window(wid).is_none(),
        "app cleanup should retire the fullscreen lifecycle record"
    );
}

#[test]
fn track_window_server_id_binds_pending_native_fullscreen_record() {
    let mut window_store = WindowStore::default();
    let wid = WindowId::new(8, 1);
    let wsid = WindowServerId::new(93);
    let user_space = SpaceId::new(13);
    let fullscreen_space = SpaceId::new(0x400000000 + user_space.get());

    let pending = window_store.suspend_window_server_to_native_fullscreen(
        wid.pid,
        wsid,
        Some(user_space),
        fullscreen_space,
        NativeFullscreenTransition::Suspended,
    );
    assert_eq!(pending.pid, wid.pid);

    window_store.track_window_server_id(wsid, wid);

    assert!(
        window_store
            .pending_native_fullscreen_record_for_window_server_id(wsid)
            .is_none(),
        "binding AX identity should consume the pending fullscreen record"
    );
    assert_eq!(
        window_store
            .native_fullscreen_record_for_window_server_id(wsid)
            .expect("resolved record should be indexed by wsid")
            .current_window_id,
        wid
    );
}

#[test]
fn track_window_server_id_discards_stale_pending_native_fullscreen_record_on_pid_mismatch() {
    let mut window_store = WindowStore::default();
    let pending_wid = WindowId::new(8, 1);
    let rebound_wid = WindowId::new(9, 1);
    let wsid = WindowServerId::new(94);
    let user_space = SpaceId::new(14);
    let fullscreen_space = SpaceId::new(0x400000000 + user_space.get());

    let pending = window_store.suspend_window_server_to_native_fullscreen(
        pending_wid.pid,
        wsid,
        Some(user_space),
        fullscreen_space,
        NativeFullscreenTransition::Suspended,
    );
    assert_eq!(pending.pid, pending_wid.pid);

    window_store.track_window_server_id(wsid, rebound_wid);

    assert!(
        window_store
            .pending_native_fullscreen_record_for_window_server_id(wsid)
            .is_none(),
        "binding a different app to the wsid should discard stale pending fullscreen state"
    );
    assert!(
        window_store.native_fullscreen_record_for_window_server_id(wsid).is_none(),
        "stale pending fullscreen state must not be rebound onto a different app"
    );
}

#[test]
fn rebinding_server_identity_keeps_both_indexes_unique() {
    let mut store = WindowStore::default();
    let first = WindowId::new(1, 1);
    let second = WindowId::new(1, 2);
    let wsid = WindowServerId::new(44);

    store.track_window_server_id(wsid, first);
    assert_eq!(store.track_window_server_id(wsid, second), Some(first));

    assert_eq!(
        store.record(first).and_then(WindowRecord::window_server_id),
        None
    );
    assert_eq!(
        store.record(second).and_then(WindowRecord::window_server_id),
        Some(wsid)
    );
    assert_eq!(store.tracked_window_id(wsid), Some(second));
    assert!(store.debug_assert_invariants());
}

#[test]
fn stale_operation_confirmation_cannot_clear_a_newer_request() {
    let mut store = WindowStore::default();
    let wid = WindowId::new(2, 1);
    let first = store.begin_operation(wid, None, Some(SpaceId::new(1)));
    let second = store.begin_operation(wid, None, Some(SpaceId::new(2)));

    assert!(!store.confirm_operation(wid, first.generation));
    assert_eq!(
        store.record(wid).and_then(WindowRecord::pending_operation),
        Some(second)
    );
    assert!(store.confirm_operation(wid, second.generation));
    assert_eq!(store.record(wid).and_then(WindowRecord::pending_operation), None);
}

#[test]
fn rekey_transfers_placement_and_pending_operation() {
    let mut store = WindowStore::default();
    let from = WindowId::new(3, 1);
    let to = WindowId::new(3, 2);
    store.set_placement(from, WindowPlacement::Floating);
    let pending = store.begin_operation(from, None, Some(SpaceId::new(8)));

    store.transfer_persistent_window_metadata(from, to);

    let target = store.record(to).expect("target record");
    assert_eq!(target.placement(), WindowPlacement::Floating);
    assert_eq!(target.pending_operation(), Some(pending));
    assert_eq!(
        store.record(from).and_then(WindowRecord::pending_operation),
        None
    );
    assert!(store.debug_assert_invariants());
}

#[test]
fn app_cleanup_removes_all_indexes_and_pending_operations() {
    let mut store = WindowStore::default();
    let wid = WindowId::new(4, 1);
    let wsid = WindowServerId::new(55);
    let workspace_id = workspace(1);
    store.track_window_server_id(wsid, wid);
    store.assign_window_to_workspace(wid, WindowWorkspaceInfo {
        space: SpaceId::new(9),
        workspace_id,
    });
    store.begin_operation(wid, None, Some(SpaceId::new(9)));

    store.remove_windows_for_app(wid.pid);

    assert!(store.record(wid).is_none());
    assert_eq!(store.tracked_window_id(wsid), None);
    assert!(store.window_ids_for_pid(wid.pid).is_empty());
    assert!(store.debug_assert_invariants());
}

fn place(space: u64, n: u64) -> WindowWorkspaceInfo {
    WindowWorkspaceInfo { space: SpaceId::new(space), workspace_id: workspace(n) }
}

fn state(sys_id: Option<WindowServerId>, is_minimized: bool) -> WindowState {
    WindowState::from(WindowInfo {
        is_standard: true,
        is_root: true,
        is_minimized,
        is_resizable: true,
        min_size: None,
        max_size: None,
        title: "Window".to_string(),
        frame: frame(1.0, 2.0, 300.0, 400.0),
        sys_id,
        bundle_id: None,
        path: None,
        ax_role: None,
        ax_subrole: None,
    })
}

fn sorted_ids(mut ids: Vec<WindowServerId>) -> Vec<u32> {
    ids.sort();
    ids.iter().map(|id| id.as_u32()).collect()
}

#[test]
fn an_empty_store_holds_nothing() {
    let store = WindowStore::default();
    let wid = WindowId::new(1, 1);
    assert!(store.record(wid).is_none());
    assert!(store.window(wid).is_none());
    assert!(!store.contains_window(wid));
    assert_eq!(store.tracked_window_count(), 0);
    assert_eq!(store.window_server_info_count(), 0);
    assert_eq!(store.visible_window_server_count(), 0);
    assert_eq!(store.workspace_assignment_count(), 0);
    assert!(store.iter_native_fullscreen_records().is_empty());
    assert!(store.debug_assert_invariants());
}

#[test]
fn an_inserted_window_is_found_by_process_number_and_workspace() {
    let mut store = WindowStore::default();
    let wid = WindowId::new(5, 2);
    let wsid = WindowServerId::new(12);
    store.insert_window(wid, state(Some(wsid), false));
    store.assign_window_to_workspace(wid, place(3, 1));

    assert_eq!(store.window_ids_for_pid(5), vec![wid]);
    assert_eq!(store.iter_windows(), vec![wid]);
    assert_eq!(store.tracked_window_id(wsid), Some(wid));
    assert_eq!(store.iter_tracked_window_server_ids(), vec![wsid]);
    assert_eq!(store.workspace_for_window(SpaceId::new(3), wid), Some(workspace(1)));
    assert_eq!(store.workspace_for_window(SpaceId::new(4), wid), None);
    assert_eq!(store.workspaces_for_window(wid), vec![workspace(1)]);
    assert_eq!(store.workspace_window_count(SpaceId::new(3), workspace(1)), 1);
    assert!(store.has_workspace_assignments_in_space(SpaceId::new(3)));
    assert!(!store.has_workspace_assignments_in_space(SpaceId::new(4)));
    let assignments = store.iter_workspace_assignments();
    assert_eq!(assignments.len(), 1);
    assert_eq!(assignments[0].window, wid);
    assert_eq!(assignments[0].workspace, place(3, 1));

    let record = store.record(wid).expect("record");
    assert_eq!(record.observed_frame(), Some(frame(1.0, 2.0, 300.0, 400.0)));
    assert_eq!(record.frame(), Some(frame(1.0, 2.0, 300.0, 400.0)));
    assert_eq!(record.requested_frame(), None);
    assert_eq!(record.workspace(), Some(place(3, 1)));
    assert_eq!(record.is_admitted_with_rule_override(None), Some(false));
    assert_eq!(record.is_admitted_with_rule_override(Some(true)), Some(true));
    assert!(store.debug_assert_invariants());
}

#[test]
fn a_minimized_window_is_not_admitted_by_a_rule() {
    let mut store = WindowStore::default();
    let wid = WindowId::new(5, 2);
    store.insert_window(wid, state(None, true));
    let record = store.record(wid).expect("record");
    assert_eq!(record.is_admitted_with_rule_override(Some(true)), Some(false));
    store.set_visibility(WindowId::new(5, 3), WindowVisibility::Minimized);
    let other = store.record(WindowId::new(5, 3)).expect("record");
    assert_eq!(other.is_admitted_with_rule_override(Some(true)), None);
    assert_eq!(other.visibility(), WindowVisibility::Minimized);
}

#[test]
fn a_state_changed_in_place_stays_changed() {
    let mut store = WindowStore::default();
    let wid = WindowId::new(5, 2);
    assert!(store.window_mut(wid).is_none());
    store.insert_window(wid, state(None, false));
    store.window_mut(wid).expect("state").is_manageable = true;
    assert!(store.window(wid).expect("state").is_admitted());
}

#[test]
fn a_window_is_in_one_workspace_at_a_time() {
    let mut store = WindowStore::default();
    let wid = WindowId::new(1, 1);
    store.insert_window(wid, state(None, false));
    assert_eq!(store.assign_window_to_workspace(wid, place(3, 1)), None);
    assert_eq!(store.assign_window_to_workspace(wid, place(3, 2)), Some(place(3, 1)));
    assert!(store.workspace_windows(SpaceId::new(3), workspace(1)).is_empty());
    assert_eq!(store.workspace_windows(SpaceId::new(3), workspace(2)), vec![wid]);
    assert_eq!(store.workspace_assignment_count(), 1);

    assert_eq!(store.remove_window_assignment(wid), Some(place(3, 2)));
    assert_eq!(store.remove_window_assignment(wid), None);
    assert_eq!(store.workspace_info_for_window(wid), None);
    assert!(!store.has_workspace_assignments_in_space(SpaceId::new(3)));
}

#[test]
fn windows_of_a_workspace_come_by_process_and_number() {
    let mut store = WindowStore::default();
    let windows = [WindowId::new(2, 1), WindowId::new(1, 9), WindowId::new(1, 3), WindowId::new(-4, 7)];
    for wid in windows {
        store.assign_window_to_workspace(wid, place(3, 1));
    }
    assert_eq!(store.workspace_windows(SpaceId::new(3), workspace(1)), vec![
        WindowId::new(-4, 7),
        WindowId::new(1, 3),
        WindowId::new(1, 9),
        WindowId::new(2, 1),
    ]);
}

#[test]
fn a_number_moves_from_one_window_to_another() {
    let mut store = WindowStore::default();
    let (first, second) = (WindowId::new(1, 1), WindowId::new(1, 2));
    let (a, b) = (WindowServerId::new(10), WindowServerId::new(11));
    assert_eq!(store.track_window_server_id(a, first), None);
    assert_eq!(store.track_window_server_id(b, second), None);
    assert_eq!(store.track_window_server_id(a, second), Some(first));
    assert_eq!(store.tracked_window_id(a), Some(second));
    assert_eq!(store.tracked_window_id(b), None);
    assert_eq!(store.iter_window_server_ids(), vec![a]);
    assert!(store.debug_assert_invariants());
}

#[test]
fn visibility_follows_the_window_server() {
    let mut store = WindowStore::default();
    let wid = WindowId::new(1, 1);
    let (a, b) = (WindowServerId::new(10), WindowServerId::new(11));
    store.track_window_server_id(a, wid);
    assert!(store.mark_window_visible(a));
    assert!(!store.mark_window_visible(a));
    assert_eq!(store.record(wid).expect("record").visibility(), WindowVisibility::Visible);
    assert!(store.mark_window_hidden(a));
    assert!(!store.mark_window_hidden(a));
    assert_eq!(store.record(wid).expect("record").visibility(), WindowVisibility::Hidden);

    store.set_visible_windows(&vec![a, b]);
    assert!(store.is_window_visible(a) && store.is_window_visible(b));
    assert_eq!(sorted_ids(store.iter_visible_window_server_ids()), vec![10, 11]);
    assert_eq!(store.visible_window_server_count(), 2);
    store.clear_visible_windows();
    assert_eq!(store.visible_window_server_count(), 0);
    assert_eq!(store.iter_window_server_ids(), vec![a]);
    assert_eq!(store.record(wid).expect("record").visibility(), WindowVisibility::Hidden);
}

#[test]
fn what_the_window_server_says_is_remembered_until_cleared() {
    let mut store = WindowStore::default();
    let wid = WindowId::new(1, 1);
    let id = WindowServerId::new(10);
    let said = WindowServerInfo { id, pid: 1, layer: 0, frame: frame(0.0, 0.0, 10.0, 10.0) };
    store.track_window_server_id(id, wid);
    assert!(!store.knows_window_server_id(id));
    assert_eq!(store.track_window_server_info(said), None);
    assert_eq!(store.track_window_server_info(said), Some(said));
    assert_eq!(store.get_window_server_info(id), Some(said));
    assert!(store.knows_window_server_id(id));
    assert_eq!(store.window_server_info_count(), 1);
    assert!(store.mark_window_server_observed(id));
    assert!(!store.mark_window_server_observed(id));
    assert!(store.is_window_server_observed(id));
    assert!(store.clear_window_server_observed(id));
    assert!(!store.clear_window_server_observed(id));
    store.set_window_server_space(id, Some(SpaceId::new(6)));
    assert_eq!(store.record(wid).expect("record").native_space(), Some(SpaceId::new(6)));
    assert_eq!(store.current_window_server_space_for_window(wid), Some(SpaceId::new(6)));

    assert_eq!(store.remove_window_server_state(id), Some(wid));
    assert_eq!(store.remove_window_server_state(id), None);
    assert!(store.iter_window_server_ids().is_empty());
    let record = store.record(wid).expect("record");
    assert_eq!((record.window_server_id(), record.native_space()), (None, None));
}

#[test]
fn a_rule_makes_a_window_float_until_it_is_cleared() {
    let mut store = WindowStore::default();
    let wid = WindowId::new(1, 1);
    store.insert_window(wid, state(None, false));
    assert!(!store.replace_rule_floating(wid, true));
    assert!(store.rule_floating(wid));
    assert_eq!(store.record(wid).expect("record").placement(), WindowPlacement::Floating);
    store.clear_rule_metadata(wid);
    assert!(!store.rule_floating(wid));
    assert_eq!(store.record(wid).expect("record").placement(), WindowPlacement::Floating);
    store.clear_rule_floating(wid);
    assert_eq!(store.record(wid).expect("record").placement(), WindowPlacement::Tiled);
    store.replace_rule_floating(wid, true);
    assert!(store.replace_rule_floating(wid, false));
    assert_eq!(store.record(wid).expect("record").placement(), WindowPlacement::Tiled);

    let unknown = WindowId::new(9, 9);
    assert!(!store.replace_rule_floating(unknown, false));
    assert!(store.record(unknown).is_none());
}

#[test]
fn a_window_comes_back_from_fullscreen_where_it_was() {
    let mut store = WindowStore::default();
    let wid = WindowId::new(1, 1);
    let id = WindowServerId::new(10);
    store.insert_window(wid, state(Some(id), false));
    store.assign_window_to_workspace(wid, place(3, 1));
    store.replace_rule_floating(wid, true);
    let record = store.suspend_window_to_native_fullscreen(
        wid,
        Some(id),
        Some(SpaceId::new(8)),
        SpaceId::new(70),
        NativeFullscreenTransition::Suspended,
    );
    assert_eq!(record.last_known_user_space, Some(SpaceId::new(3)));
    assert!(store.is_window_native_fullscreen_suspended(wid));
    assert!(store.is_window_server_id_native_fullscreen_suspended(id));
    assert_eq!(store.record(wid).expect("record").placement(), WindowPlacement::NativeFullscreen);
    assert_eq!(store.iter_native_fullscreen_records(), vec![record]);

    assert_eq!(store.restore_window_from_native_fullscreen_by_window_server_id(id), Some(record));
    assert_eq!(store.record(wid).expect("record").placement(), WindowPlacement::Floating);
    assert!(!store.is_window_native_fullscreen_suspended(wid));
    assert_eq!(store.native_fullscreen_record_for_window_server_id(id), None);
    assert_eq!(store.restore_window_from_native_fullscreen(wid), None);
    assert_eq!(store.restore_window_from_native_fullscreen_by_window_server_id(id), None);
}

#[test]
fn a_waiting_fullscreen_names_its_process() {
    let mut store = WindowStore::default();
    let id = WindowServerId::new(10);
    assert_eq!(store.pending_native_fullscreen_pid_for_window_server_id(id), None);
    for (fallback, kept) in [(Some(SpaceId::new(4)), SpaceId::new(4)), (None, SpaceId::new(4))] {
        let pending = store.suspend_window_server_to_native_fullscreen(
            6,
            id,
            fallback,
            SpaceId::new(70),
            NativeFullscreenTransition::EnterRequested,
        );
        assert_eq!(pending.last_known_user_space, Some(kept));
    }
    assert_eq!(store.pending_native_fullscreen_pid_for_window_server_id(id), Some(6));
}

#[test]
fn a_space_goes_by_another_name_and_back() {
    let mut store = WindowStore::default();
    let wid = WindowId::new(1, 1);
    let id = WindowServerId::new(10);
    store.insert_window(wid, state(Some(id), false));
    store.assign_window_to_workspace(wid, place(3, 1));
    store.set_window_server_space(id, Some(SpaceId::new(3)));

    store.remap_space(SpaceId::new(3), SpaceId::new(30));
    assert_eq!(store.workspace_info_for_window(wid), Some(place(30, 1)));
    assert_eq!(store.workspace_windows(SpaceId::new(30), workspace(1)), vec![wid]);
    assert!(store.workspace_windows(SpaceId::new(3), workspace(1)).is_empty());
    assert_eq!(store.window_server_space(id), Some(SpaceId::new(30)));
    assert_eq!(store.record(wid).expect("record").native_space(), Some(SpaceId::new(30)));
    assert!(store.debug_assert_invariants());

    store.remap_space(SpaceId::new(30), SpaceId::new(3));
    assert_eq!(store.workspace_info_for_window(wid), Some(place(3, 1)));
    assert_eq!(store.window_server_space(id), Some(SpaceId::new(3)));
}

#[test]
fn windows_that_come_along_with_a_space_take_the_place_of_those_listed_there() {
    let mut store = WindowStore::default();
    let (moved, stays) = (WindowId::new(1, 1), WindowId::new(1, 2));
    store.assign_window_to_workspace(moved, place(3, 1));
    store.assign_window_to_workspace(stays, place(4, 1));
    store.remap_space(SpaceId::new(3), SpaceId::new(4));
    assert_eq!(store.workspace_windows(SpaceId::new(4), workspace(1)), vec![moved]);
    assert_eq!(store.workspace_info_for_window(stays), Some(place(4, 1)));
}

#[test]
fn a_removed_window_leaves_no_trace() {
    let mut store = WindowStore::default();
    let wid = WindowId::new(1, 1);
    let id = WindowServerId::new(10);
    store.insert_window(wid, state(Some(id), false));
    store.assign_window_to_workspace(wid, place(3, 1));
    store.mark_window_visible(id);
    store.remove_window(wid);
    assert!(store.record(wid).is_none());
    assert!(store.iter_window_server_ids().is_empty());
    assert!(store.workspace_windows(SpaceId::new(3), workspace(1)).is_empty());
    assert!(store.window_ids_for_pid(1).is_empty());
    assert!(store.debug_assert_invariants());
}

#[test]
fn an_assignment_without_state_breaks_the_index_invariant() {
    let mut store = WindowStore::default();
    let wid = WindowId::new(1, 1);
    store.assign_window_to_workspace(wid, place(3, 1));
    assert!(!store.debug_assert_invariants());
    store.insert_window(wid, state(None, false));
    assert!(store.debug_assert_invariants());
}

#[test]
fn operations_are_numbered_one_after_another() {
    let mut store = WindowStore::default();
    let wid = WindowId::new(1, 1);
    let target = frame(5.0, 6.0, 7.0, 8.0);
    assert!(!store.confirm_operation(wid, 1));
    let first = store.begin_operation(wid, Some(target), None);
    assert_eq!(first.generation, 1);
    assert_eq!(store.record(wid).expect("record").requested_frame(), Some(target));
    assert_eq!(store.begin_operation(wid, None, None).generation, 2);
    assert!(!store.confirm_operation(wid, 1));
    assert!(store.confirm_operation(wid, 2));
    assert!(!store.confirm_operation(wid, 2));
}
