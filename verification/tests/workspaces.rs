use rift::actor::LayoutId;
use rift::common::config::WindowInsertionPoint;
use rift::layout_engine::systems::traditional::system::TraditionalLayoutSystem;
use rift::layout_engine::workspaces::layouts::WorkspaceLayouts;
use rift::layout_engine::workspaces::view::{LayoutStateError, Size, WorkspaceRecord};
use rift::model::window_store::view::{VirtualWorkspaceId, WindowWorkspaceInfo};
use rift::sys::SpaceId;

fn workspace(n: u64) -> VirtualWorkspaceId {
    VirtualWorkspaceId { raw: (1 << 32) | n }
}

fn layout(n: u64) -> LayoutId {
    LayoutId { raw: (1 << 32) | n }
}

const SMALL: Size = Size { width: 1280, height: 800 };
const LARGE: Size = Size { width: 2560, height: 1440 };

#[test]
fn workspaces_get_layouts_and_keep_them_for_each_display() {
    let mut tree = TraditionalLayoutSystem::new(WindowInsertionPoint::NextToSelection, false);
    let mut layouts = WorkspaceLayouts::default();
    let space = SpaceId::new(1);
    let (first, second) = (workspace(1), workspace(2));
    layouts.ensure_active_for_space(space, SMALL, &[first, second], &mut tree);
    let on_small = layouts.active(space, first).unwrap();
    assert_ne!(layouts.active(space, second), Some(on_small));
    assert_eq!(layouts.active_size(space, first), Some(SMALL));
    assert_eq!(layouts.active(space, workspace(3)), None);

    layouts.ensure_active_for_workspace(space, LARGE, first, &mut tree);
    let on_large = layouts.active(space, first).unwrap();
    assert_ne!(on_large, on_small);
    assert_eq!(layouts.active_size(space, first), Some(LARGE));
    assert_eq!(layouts.active_size(space, second), Some(SMALL));

    layouts.ensure_active_for_workspace(space, SMALL, first, &mut tree);
    assert_eq!(layouts.active(space, first), Some(on_small));
}

#[test]
fn layouts_are_listed_in_order() {
    let mut layouts = WorkspaceLayouts::default();
    let (near, far) = (SpaceId::new(1), SpaceId::new(9));
    layouts.replace_layouts_for_workspace(far, workspace(1), layout(3));
    layouts.replace_layouts_for_workspace(near, workspace(2), layout(2));
    layouts.replace_layouts_for_workspace(near, workspace(1), layout(5));
    layouts.insert_layout_configuration(near, workspace(1), LARGE, layout(4));
    layouts.mark_last_saved(near, workspace(1), layout(6));
    assert_eq!(layouts.active_size(near, workspace(1)), Some(Size { width: 1000, height: 1000 }));
    assert_eq!(layouts.spaces(), vec![near, far]);
    assert_eq!(
        layouts.active_layouts_for_space(near),
        vec![(workspace(1), layout(5)), (workspace(2), layout(2))]
    );
    assert_eq!(
        layouts.all_layouts(),
        vec![
            (near, workspace(1), layout(4)),
            (near, workspace(1), layout(5)),
            (near, workspace(1), layout(6)),
            (near, workspace(2), layout(2)),
            (far, workspace(1), layout(3)),
        ]
    );
}

#[test]
fn later_generations_of_a_slot_come_after_it() {
    let mut layouts = WorkspaceLayouts::default();
    let space = SpaceId::new(1);
    let reused = VirtualWorkspaceId { raw: (3 << 32) | 1 };
    layouts.replace_layouts_for_workspace(space, workspace(2), layout(1));
    layouts.replace_layouts_for_workspace(space, reused, layout(2));
    layouts.replace_layouts_for_workspace(space, workspace(1), layout(3));
    assert_eq!(
        layouts.active_layouts_for_space(space),
        vec![(workspace(1), layout(3)), (reused, layout(2)), (workspace(2), layout(1))]
    );
}

#[test]
fn snapshots_bring_a_workspace_back() {
    let mut layouts = WorkspaceLayouts::default();
    let space = SpaceId::new(1);
    layouts.replace_layouts_for_workspace(space, workspace(1), layout(1));
    assert!(layouts.snapshot_workspace(space, workspace(2)).is_none());
    let snapshot = layouts.snapshot_workspace(space, workspace(1)).unwrap();
    layouts.replace_layouts_for_workspace(space, workspace(1), layout(2));
    layouts.install_workspace_snapshot(space, workspace(1), snapshot);
    assert_eq!(layouts.active(space, workspace(1)), Some(layout(1)));
    assert_eq!(layouts.all_layouts(), vec![(space, workspace(1), layout(1))]);
}

#[test]
fn layouts_that_are_saved_come_back_when_loaded() {
    let mut layouts = WorkspaceLayouts::default();
    let (here, there) = (SpaceId::new(1), SpaceId::new(2));
    layouts.replace_layouts_for_workspace(here, workspace(1), layout(1));
    layouts.replace_layouts_for_workspace(there, workspace(2), layout(2));
    let small = Size { width: 800, height: 600 };
    layouts.insert_layout_configuration(here, workspace(1), small, layout(3));
    let saved = layouts.saved();
    assert_eq!(saved.len(), 2);
    let back = WorkspaceLayouts::load(&saved);
    assert_eq!(back.all_layouts(), layouts.all_layouts());
    assert_eq!(back.spaces(), layouts.spaces());
    for (space, id) in [(here, workspace(1)), (there, workspace(2))] {
        assert_eq!(back.active(space, id), layouts.active(space, id));
        assert_eq!(back.active_size(space, id), layouts.active_size(space, id));
    }
    assert!(WorkspaceLayouts::load(&Vec::new()).spaces().is_empty());
}

#[test]
fn spaces_that_get_a_new_name_displace_what_was_there() {
    let mut layouts = WorkspaceLayouts::default();
    let (old, new, other) = (SpaceId::new(1), SpaceId::new(2), SpaceId::new(3));
    layouts.replace_layouts_for_workspace(old, workspace(1), layout(1));
    layouts.replace_layouts_for_workspace(new, workspace(2), layout(2));
    layouts.replace_layouts_for_workspace(other, workspace(3), layout(3));
    layouts.remap_space(SpaceId::new(7), new);
    assert_eq!(layouts.spaces(), vec![old, new, other]);
    layouts.remap_space(old, new);
    assert_eq!(layouts.spaces(), vec![new, other]);
    assert_eq!(layouts.active(new, workspace(1)), Some(layout(1)));
    assert!(!layouts.contains_workspace(new, workspace(2)));
    assert!(layouts.contains_workspace(other, workspace(3)));
    layouts.remap_space(new, old);
    assert_eq!(layouts.active(old, workspace(1)), Some(layout(1)));
}

fn known(n: u64, space: SpaceId, layouts: Vec<LayoutId>) -> WorkspaceRecord {
    WorkspaceRecord { workspace: workspace(n), space, layouts }
}

#[test]
fn stored_layouts_are_checked() {
    let space = SpaceId::new(1);
    let mut layouts = WorkspaceLayouts::default();
    assert_eq!(layouts.validate_persisted(&[], &[]), Ok(()));
    layouts.replace_layouts_for_workspace(space, workspace(1), layout(1));
    let here = WindowWorkspaceInfo { space, workspace_id: workspace(1) };
    let good = [known(1, space, vec![layout(1)])];
    assert_eq!(layouts.validate_persisted(&good, &[here]), Ok(()));
    assert_eq!(
        layouts.validate_persisted(&[], &[here]),
        Err(LayoutStateError::MissingWorkspace { workspace: workspace(1) })
    );
    assert_eq!(
        layouts.validate_persisted(&[known(1, SpaceId::new(5), vec![layout(1)])], &[]),
        Err(LayoutStateError::WrongSpace {
            workspace: workspace(1),
            stored: space,
            actual: SpaceId::new(5),
        })
    );
    assert_eq!(
        layouts.validate_persisted(&[known(1, space, vec![])], &[]),
        Err(LayoutStateError::MissingLayout { workspace: workspace(1), layout: layout(1) })
    );
    let bare = WindowWorkspaceInfo { space, workspace_id: workspace(2) };
    assert_eq!(
        layouts.validate_persisted(&good, &[here, bare]),
        Err(LayoutStateError::NoLayoutState { workspace: workspace(2), space })
    );
}
