use rift::actor::WindowId;
use rift::geometry::Frame;
use rift::model::reactor::WindowState;
use rift::model::server::{
    RuntimeDisplayData, RuntimeWindowData, RuntimeWorkspaceData, WindowLayoutPosition,
};
use rift::sys::{Extent, ScreenId, ScreenInfo, SpaceId, WindowInfo, WindowServerId};

fn frame(x: f64, y: f64, width: f64, height: f64) -> Frame {
    Frame {
        x: x.to_bits(),
        y: y.to_bits(),
        width: width.to_bits(),
        height: height.to_bits(),
    }
}

fn info() -> WindowInfo {
    WindowInfo {
        is_standard: true,
        is_root: true,
        is_minimized: false,
        is_resizable: true,
        min_size: None,
        max_size: None,
        title: "Test".to_string(),
        frame: frame(1.0, 2.0, 3.0, 4.0),
        sys_id: Some(WindowServerId::new(99)),
        bundle_id: Some("com.example.test".to_string()),
        path: None,
        ax_role: None,
        ax_subrole: None,
    }
}

fn window() -> RuntimeWindowData {
    RuntimeWindowData {
        id: WindowId::new(123, 7),
        is_floating: true,
        is_focused: false,
        layout_position: Some(WindowLayoutPosition { column: 2, row: 1 }),
        app_name: Some("Test App".to_string()),
        info: info(),
    }
}

#[test]
fn window_data_serializes_with_legacy_shape() {
    let data = window().into_data();
    assert_eq!((data.id.pid, data.id.idx), (123, 7));
    assert_eq!(data.title, "Test");
    assert_eq!(data.frame, frame(1.0, 2.0, 3.0, 4.0));
    assert!(data.is_floating);
    assert!(!data.is_focused);
    assert_eq!(data.bundle_id.as_deref(), Some("com.example.test"));
    assert_eq!(data.app_name.as_deref(), Some("Test App"));
    assert_eq!(data.window_server_id, Some(99));
    assert_eq!(data.layout_position, Some(WindowLayoutPosition { column: 2, row: 1 }));

    let back = RuntimeWindowData::from_data(data);
    assert_eq!(back.id, WindowId::new(123, 7));
    assert_eq!(back.info.sys_id, Some(WindowServerId::new(99)));
    assert!(back.info.is_standard && back.info.is_root && back.info.is_resizable);
    assert!(!back.info.is_minimized);
}

#[test]
fn display_data_serializes_with_legacy_shape() {
    let info = ScreenInfo {
        id: ScreenId::new(7),
        frame: frame(10.0, 20.0, 300.0, 400.0),
        display_uuid: "display-uuid".to_string(),
        name: Some("Primary".to_string()),
        space: Some(SpaceId::new(42)),
    };
    let display = RuntimeDisplayData {
        info,
        is_active_space: true,
        is_active_context: false,
        active_space_ids: vec![42],
        inactive_space_ids: vec![43, 44],
    };
    let data = display.into_data();
    assert_eq!(data.uuid, "display-uuid");
    assert_eq!(data.name.as_deref(), Some("Primary"));
    assert_eq!(data.screen_id, 7);
    assert_eq!(data.frame, frame(10.0, 20.0, 300.0, 400.0));
    assert_eq!(data.space, Some(42));
    assert!(data.is_active_space);
    assert!(!data.is_active_context);
    assert_eq!(data.active_space_ids, vec![42]);
    assert_eq!(data.inactive_space_ids, vec![43, 44]);

    let back = RuntimeDisplayData::from_data(data);
    assert_eq!(back.info.space, Some(SpaceId::new(42)));
    assert_eq!(back.info.id, ScreenId::new(7));
}

#[test]
fn workspaces_hand_out_their_windows_in_order() {
    let mut second = window();
    second.id = WindowId::new(123, 8);
    let data = RuntimeWorkspaceData {
        id: "a".to_string(),
        index: 3,
        name: "Main".to_string(),
        layout_mode: "stack".to_string(),
        is_active: true,
        window_count: 2,
        windows: vec![window(), second],
    }
    .into_data();
    assert_eq!((data.id.as_str(), data.index, data.name.as_str()), ("a", 3, "Main"));
    assert_eq!((data.layout_mode.as_str(), data.is_active, data.window_count), ("stack", true, 2));
    assert_eq!(
        data.windows.iter().map(|window| window.id.idx).collect::<Vec<_>>(),
        vec![7, 8]
    );
}

#[test]
fn windows_are_admitted_by_rule_or_by_heuristics() {
    let mut state = WindowState::from(info());
    assert_eq!(state.frame_monotonic, frame(1.0, 2.0, 3.0, 4.0));
    assert!(!state.is_admitted());
    state.is_manageable = true;
    assert!(state.is_admitted());
    assert!(!state.is_admitted_with_override(Some(false)));
    state.manage_override = Some(false);
    assert!(!state.is_admitted());
    assert!(state.is_admitted_with_override(None));
    state.info.is_minimized = true;
    assert!(!state.is_admitted_with_override(Some(true)));
    assert!(!state.can_reconcile_admission());

    let layout = state.layout_info(WindowId::new(1, 2));
    assert_eq!(layout.window_id, WindowId::new(1, 2));
    assert_eq!(layout.title.as_deref(), Some("Test"));
    assert_eq!(
        layout.current_size,
        Extent { width: 3.0_f64.to_bits(), height: 4.0_f64.to_bits() }
    );
}
