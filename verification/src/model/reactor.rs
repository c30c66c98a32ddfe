//! State of the event loop.

use vstd::prelude::*;

use crate::actor::{Pid, WindowId};
use crate::geometry::Frame;
use crate::model::window_store::store::WindowStore;
use crate::sys::{Extent, SpaceId, WindowInfo};

verus! {

/// The state that the event loop owns.
pub struct RiftState {
    pub windows: WindowStore,
}

impl Default for RiftState {
    fn default() -> (r: RiftState)
        ensures
            r.windows.wf(),
            r.windows@ == crate::model::window_store::view::StoreView::empty(),
    {
        RiftState { windows: WindowStore::default() }
    }
}

/// Whether a change was asked for.
#[derive(Clone, Copy, Debug, PartialEq, Eq, Structural)]
pub struct Requested(pub bool);

/// A window that is being dragged.
#[derive(Clone, Copy, Debug, PartialEq, Eq, Structural)]
pub struct DragSession {
    pub window: WindowId,
    pub last_frame: Frame,
    pub origin_space: Option<SpaceId>,
    pub settled_space: Option<SpaceId>,
    pub layout_dirty: bool,
}

#[derive(Clone, Copy, Debug, PartialEq, Eq, Structural)]
pub enum DragState {
    Inactive,
    Active { session: DragSession },
    PendingSwap { session: DragSession, target: WindowId },
}

#[derive(Clone, Copy, Debug, PartialEq, Eq, Structural)]
pub enum MissionControlState {
    Inactive,
    Active,
    Transitioning,
}

#[derive(Clone, Copy, Debug, PartialEq, Eq, Structural)]
pub enum MenuState {
    Closed,
    Open(Pid),
}

#[derive(Clone, Copy, Debug, PartialEq, Eq, Structural)]
pub enum WorkspaceSwitchState {
    Inactive,
    Active,
}

#[derive(Clone, Copy, Debug, PartialEq, Eq, Structural)]
pub enum WorkspaceSwitchOrigin {
    Manual,
    Auto,
}

#[derive(Clone, Copy, Debug, PartialEq, Eq, Structural)]
pub enum StaleCleanupState {
    Enabled,
    Suppressed,
}

#[derive(Clone, Copy, Debug, PartialEq, Eq, Structural)]
pub enum RefocusState {
    /// No focus is waiting to be given back.
    Idle,
    Pending(SpaceId),
}

/// What layouts and rules need to know of a window.
#[derive(Debug)]
pub struct WindowLayoutInfo {
    pub window_id: WindowId,
    pub title: Option<String>,
    pub ax_role: Option<String>,
    pub ax_subrole: Option<String>,
    pub is_resizable: bool,
    pub current_size: Extent,
    pub min_size: Option<Extent>,
    pub max_size: Option<Extent>,
}

/// What is known of a window.
#[derive(Debug)]
pub struct WindowState {
    pub info: WindowInfo,
    /// The last known frame. Always covers the last write: a read counts only if
    /// it came after that.
    pub frame_monotonic: Frame,
    /// What the heuristics say, apart from an explicit rule.
    pub is_manageable: bool,
    pub manage_override: Option<bool>,
}

impl vstd::std_specs::convert::FromSpecImpl<WindowInfo> for WindowState {
    open spec fn obeys_from_spec() -> bool {
        true
    }

    open spec fn from_spec(info: WindowInfo) -> WindowState {
        WindowState {
            frame_monotonic: info.frame,
            info,
            is_manageable: false,
            manage_override: None,
        }
    }
}

impl From<WindowInfo> for WindowState {
    fn from(info: WindowInfo) -> (r: WindowState) {
        WindowState {
            frame_monotonic: info.frame,
            info,
            is_manageable: false,
            manage_override: None,
        }
    }
}

/// A copy of an optional text.
pub fn copied_text(text: &Option<String>) -> (r: Option<String>)
    ensures
        r == *text,
{
    match text {
        Some(t) => Some(t.clone()),
        None => None,
    }
}

impl WindowState {
    /// A window that is not minimized is admitted if a rule says so, or the
    /// heuristics without one.
    pub open spec fn admitted_with(self, manage_override: Option<bool>) -> bool {
        &&& !self.info.is_minimized
        &&& match manage_override {
            Some(managed) => managed,
            None => self.is_manageable,
        }
    }

    pub fn layout_info(&self, wid: WindowId) -> (r: WindowLayoutInfo)
        ensures
            r == (WindowLayoutInfo {
                window_id: wid,
                title: Some(self.info.title),
                ax_role: self.info.ax_role,
                ax_subrole: self.info.ax_subrole,
                is_resizable: self.info.is_resizable,
                current_size: Extent {
                    width: self.frame_monotonic.width,
                    height: self.frame_monotonic.height,
                },
                min_size: self.info.min_size,
                max_size: self.info.max_size,
            }),
    {
        WindowLayoutInfo {
            window_id: wid,
            title: Some(self.info.title.clone()),
            ax_role: copied_text(&self.info.ax_role),
            ax_subrole: copied_text(&self.info.ax_subrole),
            is_resizable: self.info.is_resizable,
            current_size: Extent {
                width: self.frame_monotonic.width,
                height: self.frame_monotonic.height,
            },
            min_size: self.info.min_size,
            max_size: self.info.max_size,
        }
    }

    /// Whether layouts may hold the window.
    pub fn is_admitted(&self) -> (r: bool)
        ensures
            r == self.admitted_with(self.manage_override),
    {
        self.is_admitted_with_override(self.manage_override)
    }

    pub fn is_admitted_with_override(&self, manage_override: Option<bool>) -> (r: bool)
        ensures
            r == self.admitted_with(manage_override),
    {
        !self.info.is_minimized && match manage_override {
            Some(managed) => managed,
            None => self.is_manageable,
        }
    }

    pub fn can_reconcile_admission(&self) -> (r: bool)
        ensures
            r == !self.info.is_minimized,
    {
        !self.info.is_minimized
    }
}

/// A minimized window is never admitted. Of the others, one that a rule speaks of is
/// admitted as the rule says, and one that none speaks of as the heuristics say.
pub proof fn law_admission(state: WindowState, rule: Option<bool>)
    ensures
        state.info.is_minimized ==> !state.admitted_with(rule),
        !state.info.is_minimized && rule == Some(true) ==> state.admitted_with(rule),
        rule == Some(false) ==> !state.admitted_with(rule),
        !state.info.is_minimized && rule is None ==> state.admitted_with(rule)
            == state.is_manageable,
{
}

} // verus!
