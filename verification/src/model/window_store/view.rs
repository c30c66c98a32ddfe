//! The records of windows as mathematical objects, and what each operation makes
//! of them.

use vstd::prelude::*;

use crate::actor;
use crate::actor::{Pid, WindowId};
use crate::common::collections::Distinct;
use crate::geometry::Frame;
use crate::model::reactor::WindowState;
use crate::sys::{SpaceId, WindowServerId, WindowServerInfo};

verus! {

#[derive(Clone, Copy, Debug, PartialEq, Eq, Structural)]
pub enum WindowVisibility {
    Unknown,
    Visible,
    Hidden,
    Minimized,
}

#[derive(Clone, Copy, Debug, PartialEq, Eq, Structural)]
pub enum WindowPlacement {
    Tiled,
    Floating,
    NativeFullscreen,
}

/// A change of a window that was asked for and has not been confirmed.
#[derive(Clone, Copy, Debug, PartialEq, Eq, Structural)]
pub struct PendingWindowOperation {
    pub generation: u64,
    pub requested_frame: Option<Frame>,
    pub requested_space: Option<SpaceId>,
}

/// A virtual workspace, identified by the key that its table handed out.
#[derive(Clone, Copy, Debug, PartialEq, Eq, Structural, Hash)]
pub struct VirtualWorkspaceId {
    pub raw: u64,
}

impl VirtualWorkspaceId {
    /// Keys are ordered by the slot in their lower half first.
    pub open spec fn order(self) -> nat {
        actor::key_order(self.raw)
    }

    pub fn rank(self) -> (r: u64)
        ensures
            r == self.order(),
    {
        actor::key_rank(self.raw)
    }
}

impl Distinct for VirtualWorkspaceId {
    fn same(self, other: Self) -> (r: bool) {
        self == other
    }
}

/// A workspace on a native space.
#[derive(Clone, Copy, Debug, PartialEq, Eq, Structural, Hash)]
pub struct WindowWorkspaceInfo {
    pub space: SpaceId,
    pub workspace_id: VirtualWorkspaceId,
}

impl Distinct for WindowWorkspaceInfo {
    fn same(self, other: Self) -> (r: bool) {
        self == other
    }
}

/// A window in a workspace.
#[derive(Clone, Copy, Debug, PartialEq, Eq, Structural)]
pub struct Assignment {
    pub window: WindowId,
    pub workspace: WindowWorkspaceInfo,
}

impl Distinct for Assignment {
    fn same(self, other: Self) -> (r: bool) {
        self == other
    }
}

#[derive(Clone, Copy, Debug, PartialEq, Eq, Structural)]
pub enum NativeFullscreenTransition {
    EnterRequested,
    Suspended,
    ExitRequested,
}

/// A window on a native fullscreen space, and where it came from.
#[derive(Clone, Copy, Debug, PartialEq, Eq, Structural)]
pub struct NativeFullscreenRecord {
    pub original_window_id: WindowId,
    pub current_window_id: WindowId,
    pub window_server_id: Option<WindowServerId>,
    pub workspace: Option<WindowWorkspaceInfo>,
    pub last_known_user_space: Option<SpaceId>,
    pub fullscreen_space: SpaceId,
    pub transition: NativeFullscreenTransition,
}

/// A window on a native fullscreen space of which only the number at the window
/// server is known.
#[derive(Clone, Copy, Debug, PartialEq, Eq, Structural)]
pub struct PendingNativeFullscreenRecord {
    pub pid: Pid,
    pub window_server_id: WindowServerId,
    pub last_known_user_space: Option<SpaceId>,
    pub fullscreen_space: SpaceId,
    pub transition: NativeFullscreenTransition,
}

#[derive(Clone, Copy, Debug, PartialEq, Eq, Structural)]
pub struct PendingNativeFullscreenState {
    pub pid: Pid,
    pub last_known_user_space: Option<SpaceId>,
    pub fullscreen_space: SpaceId,
    pub transition: NativeFullscreenTransition,
}

/// Everything that is kept about one window.
#[derive(Debug)]
pub struct WindowRecord {
    pub state: Option<WindowState>,
    pub window_server_id: Option<WindowServerId>,
    pub native_space: Option<SpaceId>,
    pub workspace: Option<WindowWorkspaceInfo>,
    pub visibility: WindowVisibility,
    pub placement: WindowPlacement,
    pub pending_operation: Option<PendingWindowOperation>,
    pub operation_generation: u64,
    pub rule_floating: bool,
}

/// Everything that is kept about one window of the window server.
#[derive(Clone, Copy, Debug, PartialEq, Eq, Structural)]
pub struct ServerRecord {
    pub window_id: Option<WindowId>,
    pub visible: bool,
    pub observed: bool,
    pub space: Option<SpaceId>,
    pub info: Option<WindowServerInfo>,
    pub pending_native_fullscreen: Option<PendingNativeFullscreenState>,
}

pub open spec fn blank_record() -> WindowRecord {
    WindowRecord {
        state: None,
        window_server_id: None,
        native_space: None,
        workspace: None,
        visibility: WindowVisibility::Unknown,
        placement: WindowPlacement::Tiled,
        pending_operation: None,
        operation_generation: 0,
        rule_floating: false,
    }
}

pub open spec fn blank_server() -> ServerRecord {
    ServerRecord {
        window_id: None,
        visible: false,
        observed: false,
        space: None,
        info: None,
        pending_native_fullscreen: None,
    }
}

/// The number after a number; zero after the largest.
pub open spec fn next_generation(generation: u64) -> u64 {
    if generation == u64::MAX {
        0
    } else {
        (generation + 1) as u64
    }
}

/// The first of two values that is there.
pub open spec fn either<T>(first: Option<T>, second: Option<T>) -> Option<T> {
    match first {
        Some(_) => first,
        None => second,
    }
}

impl WindowRecord {
    /// Nothing says that the window has to be remembered.
    pub open spec fn forgettable(self) -> bool {
        &&& self.state is None
        &&& self.window_server_id is None
        &&& self.workspace is None
        &&& !self.rule_floating
    }
}

impl ServerRecord {
    /// The record without what ties it to a window, but for a pending fullscreen.
    pub open spec fn cleared(self) -> ServerRecord {
        ServerRecord {
            pending_native_fullscreen: self.pending_native_fullscreen,
            ..blank_server()
        }
    }

    pub open spec fn hidden(self) -> ServerRecord {
        ServerRecord { visible: false, ..self }
    }

    /// A pending fullscreen of a process is given up.
    pub open spec fn without_pending_of(self, pid: Pid) -> ServerRecord {
        match self.pending_native_fullscreen {
            Some(p) => if p.pid == pid {
                ServerRecord { pending_native_fullscreen: None, ..self }
            } else {
                self
            },
            None => self,
        }
    }
}

/// All that is known: windows by identity, the identities that processes own,
/// windows by their number at the window server, the index of workspaces, and the
/// windows on native fullscreen spaces with two ways to find them.
#[verifier::ext_equal]
pub struct StoreView {
    pub windows: Map<WindowId, WindowRecord>,
    pub known: Set<WindowId>,
    pub servers: Map<WindowServerId, ServerRecord>,
    pub assigned: Set<Assignment>,
    pub fullscreen: Map<WindowId, NativeFullscreenRecord>,
    pub by_current: Map<WindowId, WindowId>,
    pub by_server: Map<WindowServerId, WindowId>,
}

/// The value of a key, if there is one.
pub open spec fn value_of<K, V>(map: Map<K, V>, key: K) -> Option<V> {
    if map.contains_key(key) {
        Some(map[key])
    } else {
        None
    }
}

impl StoreView {
    pub open spec fn empty() -> StoreView {
        StoreView {
            windows: Map::empty(),
            known: Set::empty(),
            servers: Map::empty(),
            assigned: Set::empty(),
            fullscreen: Map::empty(),
            by_current: Map::empty(),
            by_server: Map::empty(),
        }
    }

    // ----- reading -----

    pub open spec fn record(self, w: WindowId) -> WindowRecord {
        if self.windows.contains_key(w) {
            self.windows[w]
        } else {
            blank_record()
        }
    }

    pub open spec fn server(self, k: WindowServerId) -> ServerRecord {
        if self.servers.contains_key(k) {
            self.servers[k]
        } else {
            blank_server()
        }
    }

    pub open spec fn workspace_of(self, w: WindowId) -> Option<WindowWorkspaceInfo> {
        self.record(w).workspace
    }

    /// The identity under which a window entered native fullscreen.
    pub open spec fn original_of(self, w: WindowId) -> Option<WindowId> {
        if self.fullscreen.contains_key(w) {
            Some(w)
        } else {
            value_of(self.by_current, w)
        }
    }

    pub open spec fn fullscreen_of(self, w: WindowId) -> Option<NativeFullscreenRecord> {
        match self.original_of(w) {
            Some(o) => value_of(self.fullscreen, o),
            None => None,
        }
    }

    pub open spec fn fullscreen_of_server(self, k: WindowServerId) -> Option<
        NativeFullscreenRecord,
    > {
        if self.by_server.contains_key(k) {
            value_of(self.fullscreen, self.by_server[k])
        } else {
            None
        }
    }

    pub open spec fn pending_of(self, k: WindowServerId) -> Option<PendingNativeFullscreenRecord> {
        match self.server(k).pending_native_fullscreen {
            Some(p) => Some(
                PendingNativeFullscreenRecord {
                    pid: p.pid,
                    window_server_id: k,
                    last_known_user_space: p.last_known_user_space,
                    fullscreen_space: p.fullscreen_space,
                    transition: p.transition,
                },
            ),
            None => None,
        }
    }

    /// The fullscreen records of some windows.
    pub open spec fn fullscreen_list(self, ws: Seq<WindowId>) -> Seq<NativeFullscreenRecord> {
        ws.map_values(|w: WindowId| self.fullscreen[w])
    }

    /// The windows of a workspace.
    pub open spec fn in_workspace(self, workspace: WindowWorkspaceInfo) -> Set<WindowId> {
        Set::new(|w: WindowId| self.assigned.contains(Assignment { window: w, workspace }))
    }

    // ----- what the indexes promise -----

    /// A window's own entries: it is known to its process, its number leads back
    /// to it, and its workspace lists it if its state is known.
    pub open spec fn window_sound(self, w: WindowId) -> bool {
        let record = self.windows[w];
        &&& self.known.contains(w)
        &&& record.window_server_id matches Some(k) ==> self.server(k).window_id == Some(w)
        &&& record.workspace matches Some(a) ==> (self.assigned.contains(
            Assignment { window: w, workspace: a },
        ) <==> record.state is Some)
    }

    /// The window behind a number has that number.
    pub open spec fn server_sound(self, k: WindowServerId) -> bool {
        self.servers[k].window_id matches Some(w) ==> self.windows.contains_key(w)
            && self.windows[w].window_server_id == Some(k)
    }

    /// A window that a workspace lists is in it, and its state is known.
    pub open spec fn assignment_sound(self, a: Assignment) -> bool {
        &&& self.windows.contains_key(a.window)
        &&& self.windows[a.window].state is Some
        &&& self.windows[a.window].workspace == Some(a.workspace)
    }

    /// All indexes agree with each other.
    pub open spec fn sound(self) -> bool {
        &&& forall|w: WindowId| #[trigger]
            self.windows.contains_key(w) ==> self.window_sound(w)
        &&& forall|w: WindowId| #[trigger]
            self.known.contains(w) ==> self.windows.contains_key(w)
        &&& forall|k: WindowServerId| #[trigger]
            self.servers.contains_key(k) ==> self.server_sound(k)
        &&& forall|a: Assignment| #[trigger]
            self.assigned.contains(a) ==> self.assignment_sound(a)
    }

    // ----- single records -----

    pub open spec fn with_record(self, w: WindowId, record: WindowRecord) -> StoreView {
        StoreView { windows: self.windows.insert(w, record), ..self }
    }

    pub open spec fn with_known(self, w: WindowId) -> StoreView {
        StoreView { known: self.known.insert(w), ..self }
    }

    pub open spec fn with_server(self, k: WindowServerId, record: ServerRecord) -> StoreView {
        StoreView { servers: self.servers.insert(k, record), ..self }
    }

    /// A window that nothing says has to be remembered is forgotten.
    pub open spec fn window_pruned(self, w: WindowId) -> StoreView {
        if self.windows.contains_key(w) && self.windows[w].forgettable() {
            StoreView { windows: self.windows.remove(w), known: self.known.remove(w), ..self }
        } else {
            self
        }
    }

    /// A blank record of the window server is forgotten.
    pub open spec fn server_pruned(self, k: WindowServerId) -> StoreView {
        if self.servers.contains_key(k) && self.servers[k] == blank_server() {
            StoreView { servers: self.servers.remove(k), ..self }
        } else {
            self
        }
    }

    pub open spec fn indexed(self, w: WindowId, workspace: WindowWorkspaceInfo) -> StoreView {
        StoreView { assigned: self.assigned.insert(Assignment { window: w, workspace }), ..self }
    }

    pub open spec fn unindexed(self, w: WindowId, workspace: WindowWorkspaceInfo) -> StoreView {
        StoreView { assigned: self.assigned.remove(Assignment { window: w, workspace }), ..self }
    }

    // ----- native fullscreen -----

    pub open spec fn server_unlinked(self, k: Option<WindowServerId>) -> StoreView {
        match k {
            Some(id) => StoreView { by_server: self.by_server.remove(id), ..self },
            None => self,
        }
    }

    /// A fullscreen record is stored under the window that it started with, in
    /// place of what was there.
    pub open spec fn upserted(self, record: NativeFullscreenRecord) -> StoreView {
        let o = record.original_window_id;
        let loose = if self.fullscreen.contains_key(o) {
            StoreView {
                by_current: self.by_current.remove(self.fullscreen[o].current_window_id),
                ..self
            }.server_unlinked(self.fullscreen[o].window_server_id)
        } else {
            self
        };
        StoreView {
            fullscreen: self.fullscreen.insert(o, record),
            by_current: loose.by_current.insert(record.current_window_id, o),
            by_server: match record.window_server_id {
                Some(k) => loose.by_server.insert(k, o),
                None => loose.by_server,
            },
            ..loose
        }
    }

    pub open spec fn fullscreen_removed(self, original: WindowId) -> StoreView {
        if self.fullscreen.contains_key(original) {
            let record = self.fullscreen[original];
            StoreView {
                fullscreen: self.fullscreen.remove(original),
                by_current: self.by_current.remove(record.current_window_id),
                ..self
            }.server_unlinked(record.window_server_id)
        } else {
            self
        }
    }

    /// The fullscreen record of a window is replaced by a changed one.
    pub open spec fn fullscreen_changed(
        self,
        w: WindowId,
        change: spec_fn(NativeFullscreenRecord) -> NativeFullscreenRecord,
    ) -> StoreView {
        match self.original_of(w) {
            Some(o) => if self.fullscreen.contains_key(o) {
                self.fullscreen_removed(o).upserted(change(self.fullscreen[o]))
            } else {
                self
            },
            None => self,
        }
    }

    /// The record of a window that enters native fullscreen.
    pub open spec fn suspension(
        self,
        w: WindowId,
        k: Option<WindowServerId>,
        fallback: Option<SpaceId>,
        space: SpaceId,
        transition: NativeFullscreenTransition,
    ) -> NativeFullscreenRecord {
        let original = match self.original_of(w) {
            Some(o) => o,
            None => w,
        };
        let existing = value_of(self.fullscreen, original);
        let workspace = self.workspace_of(w);
        NativeFullscreenRecord {
            original_window_id: original,
            current_window_id: w,
            window_server_id: either(
                k,
                match existing {
                    Some(e) => e.window_server_id,
                    None => None,
                },
            ),
            workspace: either(
                workspace,
                match existing {
                    Some(e) => e.workspace,
                    None => None,
                },
            ),
            last_known_user_space: either(
                match workspace {
                    Some(a) => Some(a.space),
                    None => None,
                },
                either(
                    fallback,
                    match existing {
                        Some(e) => e.last_known_user_space,
                        None => None,
                    },
                ),
            ),
            fullscreen_space: space,
            transition,
        }
    }

    pub open spec fn suspended(self, w: WindowId, record: NativeFullscreenRecord) -> StoreView {
        self.with_record(
            w,
            (WindowRecord { placement: WindowPlacement::NativeFullscreen, ..self.record(w) }),
        ).with_known(w).upserted(record)
    }

    /// The state of a window of the window server that enters native fullscreen.
    pub open spec fn server_suspension(
        self,
        pid: Pid,
        k: WindowServerId,
        fallback: Option<SpaceId>,
        space: SpaceId,
        transition: NativeFullscreenTransition,
    ) -> PendingNativeFullscreenState {
        PendingNativeFullscreenState {
            pid,
            last_known_user_space: either(
                fallback,
                match self.server(k).pending_native_fullscreen {
                    Some(p) => p.last_known_user_space,
                    None => None,
                },
            ),
            fullscreen_space: space,
            transition,
        }
    }

    /// A window is back from native fullscreen.
    pub open spec fn restored(self, w: WindowId) -> StoreView {
        match self.fullscreen_of(w) {
            Some(record) => {
                let s = self.fullscreen_removed(self.original_of(w)->0);
                let c = record.current_window_id;
                if s.windows.contains_key(c) {
                    s.with_record(
                        c,
                        (WindowRecord {
                            placement: if s.windows[c].rule_floating {
                                WindowPlacement::Floating
                            } else {
                                WindowPlacement::Tiled
                            },
                            ..s.windows[c]
                        }),
                    )
                } else {
                    s
                }
            },
            None => self,
        }
    }

    // ----- the window server -----

    /// A window gets a number at the window server: the window that had the
    /// number loses it, and the number that the window had is free again.
    pub open spec fn bound(self, k: WindowServerId, w: WindowId) -> StoreView {
        let s1 = self.with_server(
            k,
            (ServerRecord {
                window_id: Some(w),
                pending_native_fullscreen: None,
                ..self.server(k)
            }),
        );
        let s2 = match self.server(k).window_id {
            Some(old_window) => if old_window != w && s1.windows.contains_key(old_window) {
                s1.with_record(
                    old_window,
                    (WindowRecord { window_server_id: None, ..s1.windows[old_window] }),
                )
            } else {
                s1
            },
            None => s1,
        };
        let s3 = match s2.record(w).window_server_id {
            Some(previous) => if previous != k && s2.servers.contains_key(previous) {
                s2.with_server(
                    previous,
                    (ServerRecord { window_id: None, ..s2.servers[previous] }),
                ).server_pruned(previous)
            } else {
                s2
            },
            None => s2,
        };
        s3.with_record(
            w,
            (WindowRecord { window_server_id: Some(k), ..s3.record(w) }),
        ).with_known(w)
    }

    /// A window gets a number at the window server. A fullscreen that waited for
    /// the number goes to the window, if the process is the same.
    pub open spec fn numbered(self, k: WindowServerId, w: WindowId) -> StoreView {
        let s = self.bound(k, w);
        let t = match self.server(k).pending_native_fullscreen {
            Some(p) => if p.pid == w.pid {
                s.suspended(
                    w,
                    s.suspension(
                        w,
                        Some(k),
                        p.last_known_user_space,
                        p.fullscreen_space,
                        p.transition,
                    ),
                )
            } else {
                s
            },
            None => s.fullscreen_changed(
                w,
                |r: NativeFullscreenRecord|
                    NativeFullscreenRecord { window_server_id: Some(k), ..r },
            ),
        };
        t.server_pruned(k)
    }

    /// The visibility of the window behind a number is set.
    pub open spec fn shown(self, k: WindowServerId, visibility: WindowVisibility) -> StoreView {
        match self.server(k).window_id {
            Some(w) => self.with_record(w, (WindowRecord { visibility, ..self.record(w) })),
            None => self,
        }
    }

    pub open spec fn marked_visible(self, k: WindowServerId) -> StoreView {
        let s = self.with_server(k, (ServerRecord { visible: true, ..self.server(k) }));
        s.shown(k, WindowVisibility::Visible)
    }

    pub open spec fn all_marked_visible(self, ks: Seq<WindowServerId>) -> StoreView
        decreases ks.len(),
    {
        if ks.len() == 0 {
            self
        } else {
            self.all_marked_visible(ks.drop_last()).marked_visible(ks.last())
        }
    }

    pub open spec fn marked_hidden(self, k: WindowServerId) -> StoreView {
        if self.servers.contains_key(k) {
            let s = self.with_server(k, self.servers[k].hidden());
            s.shown(k, WindowVisibility::Hidden).server_pruned(k)
        } else {
            self
        }
    }

    pub open spec fn all_marked_hidden(self, ks: Seq<WindowServerId>) -> StoreView
        decreases ks.len(),
    {
        if ks.len() == 0 {
            self
        } else {
            self.all_marked_hidden(ks.drop_last()).marked_hidden(ks.last())
        }
    }

    pub open spec fn server_space_set(self, k: WindowServerId, space: Option<SpaceId>) ->
        StoreView {
        let s = self.with_server(k, (ServerRecord { space, ..self.server(k) }));
        let t = match s.server(k).window_id {
            Some(w) => s.with_record(w, (WindowRecord { native_space: space, ..s.record(w) })),
            None => s,
        };
        t.server_pruned(k)
    }

    /// The window server knows a number no longer.
    pub open spec fn server_cleared(self, k: WindowServerId) -> StoreView {
        if self.servers.contains_key(k) {
            let s = self.with_server(k, self.servers[k].cleared());
            let t = match self.servers[k].window_id {
                Some(w) => if s.windows.contains_key(w) {
                    s.with_record(
                        w,
                        (WindowRecord {
                            window_server_id: None,
                            native_space: None,
                            ..s.windows[w]
                        }),
                    )
                } else {
                    s
                },
                None => s,
            };
            t.server_pruned(k)
        } else {
            self
        }
    }

    // ----- windows -----

    pub open spec fn window_inserted(self, w: WindowId, state: WindowState) -> StoreView {
        let s = self.with_record(
            w,
            (WindowRecord { state: Some(state), ..self.record(w) }),
        ).with_known(w);
        let t = match self.record(w).workspace {
            Some(a) => s.indexed(w, a),
            None => s,
        };
        match state.info.sys_id {
            Some(k) => t.numbered(k, w),
            None => t,
        }
    }

    /// A window goes to a workspace, and leaves the one that it was in.
    pub open spec fn assigned_to(self, w: WindowId, workspace: WindowWorkspaceInfo) -> StoreView {
        let s = match self.workspace_of(w) {
            Some(a) => self.unindexed(w, a),
            None => self,
        };
        s.with_record(
            w,
            (WindowRecord { workspace: Some(workspace), ..s.record(w) }),
        ).with_known(w).indexed(w, workspace).fullscreen_changed(
            w,
            |r: NativeFullscreenRecord|
                NativeFullscreenRecord {
                    workspace: Some(workspace),
                    last_known_user_space: Some(workspace.space),
                    ..r
                },
        )
    }

    pub open spec fn assignment_removed(self, w: WindowId) -> StoreView {
        match self.workspace_of(w) {
            Some(a) => self.with_record(
                w,
                (WindowRecord { workspace: None, ..self.record(w) }),
            ).unindexed(w, a).window_pruned(w),
            None => self.window_pruned(w),
        }
    }

    /// What `to` keeps of its own when it takes over the record of `from`.
    pub open spec fn inherited(target: WindowRecord, source: WindowRecord) -> WindowRecord {
        WindowRecord {
            workspace: either(source.workspace, target.workspace),
            rule_floating: target.rule_floating || source.rule_floating,
            placement: source.placement,
            visibility: source.visibility,
            pending_operation: source.pending_operation,
            operation_generation: if target.operation_generation >= source.operation_generation {
                target.operation_generation
            } else {
                source.operation_generation
            },
            ..target
        }
    }

    /// What was kept about `from` goes to `to`, which is the same window under a
    /// new identity.
    pub open spec fn transferred(self, from: WindowId, to: WindowId) -> StoreView {
        if from == to || !self.windows.contains_key(from) {
            self
        } else {
            let source = self.windows[from];
            let s1 = match source.workspace {
                Some(a) => {
                    let u = self.unindexed(from, a);
                    let v = match self.workspace_of(to) {
                        Some(b) => u.unindexed(to, b),
                        None => u,
                    };
                    v.indexed(to, a)
                },
                None => self,
            };
            let s2 = s1.with_record(to, Self::inherited(s1.record(to), source)).with_known(to);
            let s3 = s2.with_record(
                from,
                (WindowRecord {
                    workspace: None,
                    rule_floating: false,
                    pending_operation: None,
                    ..s2.windows[from]
                }),
            );
            s3.fullscreen_changed(
                from,
                |r: NativeFullscreenRecord|
                    NativeFullscreenRecord {
                        current_window_id: if r.current_window_id == from {
                            to
                        } else {
                            r.current_window_id
                        },
                        workspace: either(r.workspace, source.workspace),
                        last_known_user_space: either(
                            r.last_known_user_space,
                            match source.workspace {
                                Some(a) => Some(a.space),
                                None => None,
                            },
                        ),
                        ..r
                    },
            ).window_pruned(from)
        }
    }

    pub open spec fn floating_replaced(self, w: WindowId, value: bool) -> StoreView {
        self.with_record(
            w,
            (WindowRecord {
                rule_floating: value,
                placement: if value {
                    WindowPlacement::Floating
                } else {
                    WindowPlacement::Tiled
                },
                ..self.record(w)
            }),
        ).window_pruned(w)
    }

    pub open spec fn floating_cleared(self, w: WindowId) -> StoreView {
        if self.windows.contains_key(w) {
            self.with_record(
                w,
                (WindowRecord {
                    rule_floating: false,
                    placement: if self.windows[w].placement is Floating {
                        WindowPlacement::Tiled
                    } else {
                        self.windows[w].placement
                    },
                    ..self.windows[w]
                }),
            ).window_pruned(w)
        } else {
            self
        }
    }

    pub open spec fn rules_cleared(self, w: WindowId) -> StoreView {
        if self.windows.contains_key(w) {
            self.with_record(
                w,
                (WindowRecord { rule_floating: false, ..self.windows[w] }),
            ).window_pruned(w)
        } else {
            self
        }
    }

    /// The records of the window server once a window is gone.
    pub open spec fn servers_without(self, w: WindowId) -> Map<WindowServerId, ServerRecord> {
        Map::new(
            |k: WindowServerId|
                self.servers.contains_key(k) && !(self.servers[k].window_id == Some(w)
                    && self.servers[k].cleared() == blank_server()),
            |k: WindowServerId|
                if self.servers[k].window_id == Some(w) {
                    self.servers[k].cleared()
                } else {
                    self.servers[k]
                },
        )
    }

    pub open spec fn window_removed(self, w: WindowId) -> StoreView {
        let s = match self.workspace_of(w) {
            Some(a) => self.unindexed(w, a),
            None => self,
        };
        StoreView {
            windows: self.windows.remove(w),
            known: self.known.remove(w),
            servers: self.servers_without(w),
            ..s
        }
    }

    pub open spec fn windows_removed(self, ws: Seq<WindowId>) -> StoreView
        decreases ws.len(),
    {
        if ws.len() == 0 {
            self
        } else {
            self.windows_removed(ws.drop_last()).window_removed(ws.last())
        }
    }

    pub open spec fn fullscreens_removed(self, ws: Seq<WindowId>) -> StoreView
        decreases ws.len(),
    {
        if ws.len() == 0 {
            self
        } else {
            self.fullscreens_removed(ws.drop_last()).fullscreen_removed(ws.last())
        }
    }

    /// No fullscreen of a process waits any longer, and blank records of the
    /// window server are forgotten.
    pub open spec fn pendings_dropped(self, pid: Pid) -> StoreView {
        StoreView {
            servers: Map::new(
                |k: WindowServerId|
                    self.servers.contains_key(k) && self.servers[k].without_pending_of(pid)
                        != blank_server(),
                |k: WindowServerId| self.servers[k].without_pending_of(pid),
            ),
            ..self
        }
    }

    /// Whether a list names the windows of a process once each.
    pub open spec fn lists_process(self, pid: Pid, ws: Seq<WindowId>) -> bool {
        ws.no_duplicates() && forall|w: WindowId|
            ws.contains(w) <==> self.known.contains(w) && w.pid == pid
    }

    /// Whether a list names the fullscreen records of a process once each.
    pub open spec fn lists_fullscreens(self, pid: Pid, ws: Seq<WindowId>) -> bool {
        ws.no_duplicates() && forall|w: WindowId|
            ws.contains(w) <==> self.fullscreen.contains_key(w) && w.pid == pid
    }

    /// A space by another name.
    pub open spec fn renamed_space(space: Option<SpaceId>, from: SpaceId, to: SpaceId) -> Option<
        SpaceId,
    > {
        if space == Some(from) {
            Some(to)
        } else {
            space
        }
    }

    pub open spec fn renamed_workspace(
        workspace: WindowWorkspaceInfo,
        from: SpaceId,
        to: SpaceId,
    ) -> WindowWorkspaceInfo {
        if workspace.space == from {
            WindowWorkspaceInfo { space: to, ..workspace }
        } else {
            workspace
        }
    }

    pub open spec fn renamed_record(r: WindowRecord, from: SpaceId, to: SpaceId) -> WindowRecord {
        WindowRecord {
            workspace: match r.workspace {
                Some(a) => Some(Self::renamed_workspace(a, from, to)),
                None => None,
            },
            native_space: Self::renamed_space(r.native_space, from, to),
            ..r
        }
    }

    pub open spec fn renamed_server(r: ServerRecord, from: SpaceId, to: SpaceId) -> ServerRecord {
        ServerRecord { space: Self::renamed_space(r.space, from, to), ..r }
    }

    /// Whether a workspace has windows on a space.
    pub open spec fn occupied(self, workspace: WindowWorkspaceInfo) -> bool {
        exists|w: WindowId| self.assigned.contains(Assignment { window: w, workspace })
    }

    /// The index once a space goes by another name. The windows that come along
    /// take the place of those that were listed there.
    pub open spec fn assigned_remapped(self, from: SpaceId, to: SpaceId) -> Set<Assignment> {
        Set::new(
            |a: Assignment|
                if a.workspace.space == from {
                    false
                } else if a.workspace.space == to && self.occupied(
                    WindowWorkspaceInfo { space: from, ..a.workspace },
                ) {
                    self.assigned.contains(
                        Assignment {
                            workspace: WindowWorkspaceInfo { space: from, ..a.workspace },
                            ..a
                        },
                    )
                } else {
                    self.assigned.contains(a)
                },
        )
    }

    /// A space goes by another name.
    pub open spec fn remapped(self, from: SpaceId, to: SpaceId) -> StoreView {
        if from == to {
            self
        } else {
            StoreView {
                assigned: self.assigned_remapped(from, to),
                windows: self.windows.map_values(
                    |r: WindowRecord| Self::renamed_record(r, from, to),
                ),
                servers: self.servers.map_values(
                    |r: ServerRecord| Self::renamed_server(r, from, to),
                ),
                ..self
            }
        }
    }

    pub open spec fn operation_begun(
        self,
        w: WindowId,
        frame: Option<Frame>,
        space: Option<SpaceId>,
    ) -> StoreView {
        let generation = next_generation(self.record(w).operation_generation);
        self.with_record(
            w,
            (WindowRecord {
                operation_generation: generation,
                pending_operation: Some(
                    PendingWindowOperation {
                        generation,
                        requested_frame: frame,
                        requested_space: space,
                    },
                ),
                ..self.record(w)
            }),
        ).with_known(w)
    }
}

} // verus!
