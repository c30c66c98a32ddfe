//! What is handed out about workspaces, windows and displays.

use vstd::prelude::*;

use crate::actor::WindowId;
use crate::geometry::Frame;
use crate::sys::{ScreenInfo, WindowInfo, WindowServerId};

verus! {

/// A workspace with its windows.
#[derive(Debug)]
pub struct RuntimeWorkspaceData {
    pub id: String,
    pub index: usize,
    pub name: String,
    pub layout_mode: String,
    pub is_active: bool,
    pub window_count: usize,
    pub windows: Vec<RuntimeWindowData>,
}

/// Where a window lies in a strip.
#[derive(Clone, Copy, Debug, PartialEq, Eq, Structural)]
pub struct WindowLayoutPosition {
    pub column: usize,
    pub row: usize,
}

#[derive(Debug)]
pub struct RuntimeWindowData {
    pub id: WindowId,
    pub is_floating: bool,
    pub is_focused: bool,
    pub layout_position: Option<WindowLayoutPosition>,
    pub app_name: Option<String>,
    pub info: WindowInfo,
}

#[derive(Debug)]
pub struct RuntimeDisplayData {
    pub info: ScreenInfo,
    /// Whether the display's space is active.
    pub is_active_space: bool,
    /// Whether commands that name no space mean this display.
    pub is_active_context: bool,
    pub active_space_ids: Vec<u64>,
    pub inactive_space_ids: Vec<u64>,
}

/// What is handed out about a window.
#[derive(Debug)]
pub struct WindowData {
    pub id: WindowId,
    pub title: String,
    pub frame: Frame,
    pub is_floating: bool,
    pub is_focused: bool,
    pub bundle_id: Option<String>,
    pub app_name: Option<String>,
    pub window_server_id: Option<u32>,
    pub layout_position: Option<WindowLayoutPosition>,
}

/// What is handed out about a workspace.
#[derive(Debug)]
pub struct WorkspaceData {
    pub id: String,
    pub index: usize,
    pub name: String,
    pub layout_mode: String,
    pub is_active: bool,
    pub window_count: usize,
    pub windows: Vec<WindowData>,
}

/// What is handed out about a display.
#[derive(Debug)]
pub struct DisplayData {
    pub uuid: String,
    pub name: Option<String>,
    pub screen_id: u32,
    pub frame: Frame,
    pub space: Option<u64>,
    pub is_active_space: bool,
    pub is_active_context: bool,
    pub active_space_ids: Vec<u64>,
    pub inactive_space_ids: Vec<u64>,
}

impl RuntimeWindowData {
    /// What is handed out about the window.
    pub open spec fn data(self) -> WindowData {
        WindowData {
            id: self.id,
            title: self.info.title,
            frame: self.info.frame,
            is_floating: self.is_floating,
            is_focused: self.is_focused,
            bundle_id: self.info.bundle_id,
            app_name: self.app_name,
            window_server_id: match self.info.sys_id {
                Some(id) => Some(id.raw),
                None => None,
            },
            layout_position: self.layout_position,
        }
    }

    pub fn into_data(self) -> (r: WindowData)
        ensures
            r == self.data(),
    {
        WindowData {
            id: self.id,
            title: self.info.title,
            frame: self.info.frame,
            is_floating: self.is_floating,
            is_focused: self.is_focused,
            bundle_id: self.info.bundle_id,
            app_name: self.app_name,
            window_server_id: match self.info.sys_id {
                Some(id) => Some(id.raw),
                None => None,
            },
            layout_position: self.layout_position,
        }
    }

    /// A window as it comes back from what was handed out: a plain one that can
    /// be resized.
    pub fn from_data(data: WindowData) -> (r: RuntimeWindowData)
        ensures
            r.data() == data,
            r.info.is_standard && r.info.is_root && r.info.is_resizable,
            !r.info.is_minimized,
            r.info.min_size is None && r.info.max_size is None,
            r.info.path is None && r.info.ax_role is None && r.info.ax_subrole is None,
    {
        RuntimeWindowData {
            id: data.id,
            is_floating: data.is_floating,
            is_focused: data.is_focused,
            layout_position: data.layout_position,
            app_name: data.app_name,
            info: WindowInfo {
                is_standard: true,
                is_root: true,
                is_minimized: false,
                is_resizable: true,
                min_size: None,
                max_size: None,
                title: data.title,
                frame: data.frame,
                sys_id: match data.window_server_id {
                    Some(raw) => Some(WindowServerId { raw }),
                    None => None,
                },
                bundle_id: data.bundle_id,
                path: None,
                ax_role: None,
                ax_subrole: None,
            },
        }
    }
}

impl RuntimeWorkspaceData {
    pub fn into_data(self) -> (r: WorkspaceData)
        ensures
            r.id == self.id,
            r.index == self.index,
            r.name == self.name,
            r.layout_mode == self.layout_mode,
            r.is_active == self.is_active,
            r.window_count == self.window_count,
            r.windows@ == self.windows@.map_values(|w: RuntimeWindowData| w.data()),
    {
        let mut rest = self.windows;
        let ghost all = rest@;
        let mut turned: Vec<WindowData> = Vec::new();
        while rest.len() > 0
            invariant
                rest@.len() <= all.len(),
                rest@ =~= all.take(rest@.len() as int),
                turned@.len() == all.len() - rest@.len(),
                forall|i: int|
                    0 <= i < turned@.len() ==> #[trigger] turned@[i] == all[all.len() - 1
                        - i].data(),
            decreases rest@.len(),
        {
            let window = rest.pop().unwrap();
            turned.push(window.into_data());
        }
        let mut windows: Vec<WindowData> = Vec::new();
        while turned.len() > 0
            invariant
                turned@.len() + windows@.len() == all.len(),
                forall|i: int|
                    0 <= i < turned@.len() ==> #[trigger] turned@[i] == all[all.len() - 1
                        - i].data(),
                forall|i: int| 0 <= i < windows@.len() ==> #[trigger] windows@[i] == all[i].data(),
            decreases turned@.len(),
        {
            let data = turned.pop().unwrap();
            windows.push(data);
        }
        assert(windows@ =~= all.map_values(|w: RuntimeWindowData| w.data()));
        WorkspaceData {
            id: self.id,
            index: self.index,
            name: self.name,
            layout_mode: self.layout_mode,
            is_active: self.is_active,
            window_count: self.window_count,
            windows,
        }
    }
}

impl RuntimeDisplayData {
    /// What is handed out about the display.
    pub open spec fn data(self) -> DisplayData {
        DisplayData {
            uuid: self.info.display_uuid,
            name: self.info.name,
            screen_id: self.info.id.raw,
            frame: self.info.frame,
            space: match self.info.space {
                Some(space) => Some(space.raw),
                None => None,
            },
            is_active_space: self.is_active_space,
            is_active_context: self.is_active_context,
            active_space_ids: self.active_space_ids,
            inactive_space_ids: self.inactive_space_ids,
        }
    }

    pub fn into_data(self) -> (r: DisplayData)
        ensures
            r == self.data(),
    {
        DisplayData {
            uuid: self.info.display_uuid,
            name: self.info.name,
            screen_id: self.info.id.raw,
            frame: self.info.frame,
            space: match self.info.space {
                Some(space) => Some(space.raw),
                None => None,
            },
            is_active_space: self.is_active_space,
            is_active_context: self.is_active_context,
            active_space_ids: self.active_space_ids,
            inactive_space_ids: self.inactive_space_ids,
        }
    }

    /// A display as it comes back from what was handed out.
    pub fn from_data(data: DisplayData) -> (r: RuntimeDisplayData)
        ensures
            r.data() == data,
    {
        RuntimeDisplayData {
            info: ScreenInfo {
                id: crate::sys::ScreenId { raw: data.screen_id },
                frame: data.frame,
                display_uuid: data.uuid,
                name: data.name,
                space: match data.space {
                    Some(raw) => Some(crate::sys::SpaceId { raw }),
                    None => None,
                },
            },
            is_active_space: data.is_active_space,
            is_active_context: data.is_active_context,
            active_space_ids: data.active_space_ids,
            inactive_space_ids: data.inactive_space_ids,
        }
    }
}

/// A display that comes back from what was handed out is the display itself.
pub proof fn law_display_comes_back(a: RuntimeDisplayData, b: RuntimeDisplayData)
    requires
        a.data() == b.data(),
    ensures
        a == b,
{
}

/// Two windows of which the same was handed out differ at most in what was not:
/// the rest of what the accessibility layer says.
pub proof fn law_window_comes_back(a: RuntimeWindowData, b: RuntimeWindowData)
    requires
        a.data() == b.data(),
    ensures
        a == (RuntimeWindowData { info: a.info, ..b }),
        a.info.title == b.info.title,
        a.info.frame == b.info.frame,
        a.info.sys_id == b.info.sys_id,
        a.info.bundle_id == b.info.bundle_id,
{
}

} // verus!
