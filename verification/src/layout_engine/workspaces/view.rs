//! The layouts of workspaces as mathematical objects, and what each operation
//! makes of them.

use vstd::prelude::*;

use crate::actor::LayoutId;
use crate::common::collections::Distinct;
use crate::layout_engine::systems::LayoutSystem;
use crate::model::window_store::view::{VirtualWorkspaceId, WindowWorkspaceInfo};
use crate::sys::SpaceId;

verus! {

/// The size of a display, in whole points.
#[derive(Clone, Copy, Debug, PartialEq, Eq, Structural, PartialOrd, Ord, Hash)]
pub struct Size {
    pub width: i32,
    pub height: i32,
}

impl Distinct for Size {
    fn same(self, other: Self) -> (r: bool) {
        self == other
    }
}

/// The layouts of one workspace.
#[verifier::ext_equal]
pub struct InfoView {
    pub configurations: Map<Size, LayoutId>,
    pub active_size: Size,
    pub last_saved: Option<LayoutId>,
}

/// The layouts of one workspace as plain values, to be written down.
pub struct SavedWorkspace {
    pub at: WindowWorkspaceInfo,
    pub configurations: Vec<(Size, LayoutId)>,
    pub active_size: Size,
    pub last_saved: Option<LayoutId>,
}

/// The layouts that a list gives to sizes. Of two for one size the later counts.
pub open spec fn configured(list: Seq<(Size, LayoutId)>) -> Map<Size, LayoutId>
    decreases list.len(),
{
    if list.len() == 0 {
        Map::empty()
    } else {
        configured(list.drop_last()).insert(list.last().0, list.last().1)
    }
}

impl SavedWorkspace {
    pub open spec fn info(self) -> InfoView {
        InfoView {
            configurations: configured(self.configurations@),
            active_size: self.active_size,
            last_saved: self.last_saved,
        }
    }
}

/// What was written down about workspaces. Of two entries for one workspace the
/// later counts.
pub open spec fn loaded(saved: Seq<SavedWorkspace>) -> LayoutsView
    decreases saved.len(),
{
    if saved.len() == 0 {
        Map::empty()
    } else {
        loaded(saved.drop_last()).insert(saved.last().at, saved.last().info())
    }
}

/// Where the layout for a display comes from.
pub enum LayoutSource {
    /// It is there.
    Kept(LayoutId),
    /// It is made after another one.
    Copied(LayoutId),
    /// It is new.
    Fresh,
}

impl InfoView {
    /// A workspace without layouts.
    pub open spec fn blank(size: Size) -> InfoView {
        InfoView { configurations: Map::empty(), active_size: size, last_saved: None }
    }

    /// The layout for the display that is in use.
    pub open spec fn active(self) -> Option<LayoutId> {
        if self.configurations.contains_key(self.active_size) {
            Some(self.configurations[self.active_size])
        } else {
            None
        }
    }

    /// Whether the workspace keeps a layout, for any display.
    pub open spec fn keeps(self, layout: LayoutId) -> bool {
        self.configurations.contains_value(layout) || self.last_saved == Some(layout)
    }

    /// A layout for a display that has none is made after the one in use, else
    /// after the one that was last saved.
    pub open spec fn source(self, size: Size) -> LayoutSource {
        if self.configurations.contains_key(size) {
            LayoutSource::Kept(self.configurations[size])
        } else if self.active() is Some {
            LayoutSource::Copied(self.active()->0)
        } else if self.last_saved is Some {
            LayoutSource::Copied(self.last_saved->0)
        } else {
            LayoutSource::Fresh
        }
    }

    /// A display is in use, with a layout. One that was there is saved.
    pub open spec fn settled(self, size: Size, layout: LayoutId) -> InfoView {
        InfoView {
            configurations: self.configurations.insert(size, layout),
            active_size: size,
            last_saved: if self.configurations.contains_key(size) {
                Some(layout)
            } else {
                self.last_saved
            },
        }
    }

    /// One layout, for the display in use.
    pub open spec fn replaced(size: Size, layout: LayoutId) -> InfoView {
        InfoView {
            configurations: Map::empty().insert(size, layout),
            active_size: size,
            last_saved: Some(layout),
        }
    }
}

/// The layouts of all workspaces.
pub type LayoutsView = Map<WindowWorkspaceInfo, InfoView>;

/// A workspace of a space.
pub open spec fn place(space: SpaceId, workspace: VirtualWorkspaceId) -> WindowWorkspaceInfo {
    WindowWorkspaceInfo { space, workspace_id: workspace }
}

/// What is recorded of a workspace.
pub open spec fn info_at(m: LayoutsView, at: WindowWorkspaceInfo, size: Size) -> InfoView {
    if m.contains_key(at) {
        m[at]
    } else {
        InfoView::blank(size)
    }
}

/// The layouts after a workspace got its display and the layout for it.
pub open spec fn settled(
    m: LayoutsView,
    at: WindowWorkspaceInfo,
    size: Size,
    layout: LayoutId,
) -> LayoutsView {
    m.insert(at, info_at(m, at, size).settled(size, layout))
}

/// The layouts after each workspace of a list got its display, with the layouts
/// that were used.
pub open spec fn all_settled(
    m: LayoutsView,
    space: SpaceId,
    size: Size,
    workspaces: Seq<VirtualWorkspaceId>,
    used: Seq<LayoutId>,
) -> LayoutsView
    decreases workspaces.len(),
{
    if workspaces.len() == 0 {
        m
    } else {
        settled(
            all_settled(m, space, size, workspaces.drop_last(), used.drop_last()),
            place(space, workspaces.last()),
            size,
            used.last(),
        )
    }
}

/// The system that makes layouts after it gave a workspace the one it needs.
pub open spec fn served<T: LayoutSystem>(tree: T::V, source: LayoutSource, layout: LayoutId) -> T::V {
    match source {
        LayoutSource::Kept(_) => tree,
        LayoutSource::Copied(from) => T::with_copy(tree, from, layout),
        LayoutSource::Fresh => T::with_fresh(tree, layout),
    }
}

/// The system after it gave each workspace of a list the layout it needs.
pub open spec fn all_served<T: LayoutSystem>(
    tree: T::V,
    m: LayoutsView,
    space: SpaceId,
    size: Size,
    workspaces: Seq<VirtualWorkspaceId>,
    used: Seq<LayoutId>,
) -> T::V
    decreases workspaces.len(),
{
    if workspaces.len() == 0 {
        tree
    } else {
        let before = all_settled(m, space, size, workspaces.drop_last(), used.drop_last());
        served::<T>(
            all_served::<T>(tree, m, space, size, workspaces.drop_last(), used.drop_last()),
            info_at(before, place(space, workspaces.last()), size).source(size),
            used.last(),
        )
    }
}

/// The layouts that were used are those that were there, and new ones.
pub open spec fn all_apt<T: LayoutSystem>(
    tree: T::V,
    m: LayoutsView,
    space: SpaceId,
    size: Size,
    workspaces: Seq<VirtualWorkspaceId>,
    used: Seq<LayoutId>,
) -> bool
    decreases workspaces.len(),
{
    used.len() == workspaces.len() && (workspaces.len() > 0 ==> {
        let before = all_settled(m, space, size, workspaces.drop_last(), used.drop_last());
        &&& all_apt::<T>(tree, m, space, size, workspaces.drop_last(), used.drop_last())
        &&& match info_at(before, place(space, workspaces.last()), size).source(size) {
            LayoutSource::Kept(layout) => used.last() == layout,
            _ => !T::known_layouts(
                all_served::<T>(tree, m, space, size, workspaces.drop_last(), used.drop_last()),
            ).contains(used.last()),
        }
    })
}

/// A space got a new name. What was recorded under the new name before is dropped.
pub open spec fn remapped(m: LayoutsView, from: SpaceId, to: SpaceId) -> LayoutsView {
    if from == to || forall|at: WindowWorkspaceInfo| #[trigger]
        m.contains_key(at) ==> at.space != from {
        m
    } else {
        Map::new(
            |at: WindowWorkspaceInfo|
                at.space != from && if at.space == to {
                    m.contains_key(place(from, at.workspace_id))
                } else {
                    m.contains_key(at)
                },
            |at: WindowWorkspaceInfo|
                if at.space == to {
                    m[place(from, at.workspace_id)]
                } else {
                    m[at]
                },
        )
    }
}

/// A layout of a workspace.
pub type LayoutRow = (SpaceId, VirtualWorkspaceId, LayoutId);

/// Rows are ordered by space, workspace and layout.
pub open spec fn row_before(a: LayoutRow, b: LayoutRow) -> bool {
    a.0.raw < b.0.raw || (a.0 == b.0 && (a.1.order() < b.1.order() || (a.1 == b.1 && a.2.order()
        < b.2.order())))
}

/// A list of rows in order, none twice.
pub open spec fn rows_in_order(rows: Seq<LayoutRow>) -> bool {
    forall|i: int, j: int| 0 <= i < j < rows.len() ==> #[trigger] row_before(rows[i], rows[j])
}

/// Whether a workspace keeps a layout.
pub open spec fn records(m: LayoutsView, row: LayoutRow) -> bool {
    m.contains_key(place(row.0, row.1)) && m[place(row.0, row.1)].keeps(row.2)
}

/// What is known of a workspace apart from its layouts: the space it belongs to,
/// and which layouts its system has.
pub struct WorkspaceRecord {
    pub workspace: VirtualWorkspaceId,
    pub space: SpaceId,
    pub layouts: Vec<LayoutId>,
}

/// The record of a workspace.
pub open spec fn record_of(records: Seq<WorkspaceRecord>, workspace: VirtualWorkspaceId) -> Option<
    WorkspaceRecord,
>
    decreases records.len(),
{
    if records.len() == 0 {
        None
    } else if records[0].workspace == workspace {
        Some(records[0])
    } else {
        record_of(records.skip(1), workspace)
    }
}

/// What can be wrong with layouts that were stored.
#[derive(Clone, Copy, Debug, PartialEq, Eq, Structural)]
pub enum LayoutStateError {
    MissingWorkspace { workspace: VirtualWorkspaceId },
    WrongSpace { workspace: VirtualWorkspaceId, stored: SpaceId, actual: SpaceId },
    NoConfigurations { workspace: VirtualWorkspaceId },
    NoActiveConfiguration { workspace: VirtualWorkspaceId },
    MissingLayout { workspace: VirtualWorkspaceId, layout: LayoutId },
    NoLayoutState { workspace: VirtualWorkspaceId, space: SpaceId },
}

/// Whether an error is what is wrong with the layouts of a workspace.
pub open spec fn is_fault(
    m: LayoutsView,
    known: Seq<WorkspaceRecord>,
    at: WindowWorkspaceInfo,
    error: LayoutStateError,
) -> bool {
    let workspace = at.workspace_id;
    let info = m[at];
    match record_of(known, workspace) {
        None => error == (LayoutStateError::MissingWorkspace { workspace }),
        Some(record) => if record.space != at.space {
            error == (LayoutStateError::WrongSpace {
                workspace,
                stored: at.space,
                actual: record.space,
            })
        } else if info.configurations.dom() =~= Set::empty() {
            error == (LayoutStateError::NoConfigurations { workspace })
        } else if !info.configurations.contains_key(info.active_size) {
            error == (LayoutStateError::NoActiveConfiguration { workspace })
        } else {
            error matches LayoutStateError::MissingLayout { workspace: w, layout } && w == workspace
                && info.keeps(layout) && !record.layouts@.contains(layout)
        },
    }
}

/// Whether nothing is wrong with the layouts of a workspace.
pub open spec fn is_sound(
    m: LayoutsView,
    known: Seq<WorkspaceRecord>,
    at: WindowWorkspaceInfo,
) -> bool {
    let info = m[at];
    match record_of(known, at.workspace_id) {
        None => false,
        Some(record) => {
            &&& record.space == at.space
            &&& info.configurations.contains_key(info.active_size)
            &&& forall|layout: LayoutId| #[trigger]
                info.keeps(layout) ==> record.layouts@.contains(layout)
        },
    }
}

/// Whether nothing is wrong with the layouts of any workspace that has some.
pub open spec fn all_sound(m: LayoutsView, known: Seq<WorkspaceRecord>) -> bool {
    forall|at: WindowWorkspaceInfo| #[trigger] m.contains_key(at) ==> is_sound(m, known, at)
}

/// The first of the workspaces that has no layouts.
pub open spec fn first_bare(m: LayoutsView, existing: Seq<WindowWorkspaceInfo>) -> Option<
    WindowWorkspaceInfo,
>
    decreases existing.len(),
{
    if existing.len() == 0 {
        None
    } else if !m.contains_key(existing[0]) {
        Some(existing[0])
    } else {
        first_bare(m, existing.skip(1))
    }
}

/// Whether a check of stored layouts may come out so. Where workspaces have
/// several faults, any may be named.
pub open spec fn is_outcome(
    m: LayoutsView,
    known: Seq<WorkspaceRecord>,
    existing: Seq<WindowWorkspaceInfo>,
    outcome: Result<(), LayoutStateError>,
) -> bool {
    if !all_sound(m, known) {
        outcome matches Err(error) && exists|at: WindowWorkspaceInfo| #[trigger]
            m.contains_key(at) && is_fault(m, known, at, error)
    } else {
        outcome == match first_bare(m, existing) {
            Some(at) => Err(
                LayoutStateError::NoLayoutState { workspace: at.workspace_id, space: at.space },
            ),
            None => Ok(()),
        }
    }
}

} // verus!
