//! The store of windows.

use vstd::prelude::*;

use crate::actor::{Pid, WindowId};
use crate::common::collections::{VecMap, VecSet};
use crate::geometry::Frame;
use crate::model::reactor::WindowState;
use crate::model::window_store::view;
use crate::model::window_store::view::{
    Assignment, NativeFullscreenRecord, NativeFullscreenTransition,
    PendingNativeFullscreenRecord, PendingNativeFullscreenState, PendingWindowOperation,
    ServerRecord, StoreView, VirtualWorkspaceId, WindowPlacement, WindowRecord, WindowVisibility,
    WindowWorkspaceInfo,
};
use crate::sys::{SpaceId, WindowServerId, WindowServerInfo};

verus! {

impl Default for WindowVisibility {
    fn default() -> (r: WindowVisibility)
        ensures
            r == WindowVisibility::Unknown,
    {
        WindowVisibility::Unknown
    }
}

impl Default for WindowPlacement {
    fn default() -> (r: WindowPlacement)
        ensures
            r == WindowPlacement::Tiled,
    {
        WindowPlacement::Tiled
    }
}

impl Default for WindowRecord {
    fn default() -> (r: WindowRecord)
        ensures
            r == view::blank_record(),
    {
        WindowRecord {
            state: None,
            window_server_id: None,
            native_space: None,
            workspace: None,
            visibility: WindowVisibility::Unknown,
            placement: WindowPlacement::Tiled,
            pending_operation: None,
            operation_generation: 0,
            rule_floating: false,
        }
    }
}

impl Default for ServerRecord {
    fn default() -> (r: ServerRecord)
        ensures
            r == view::blank_server(),
    {
        ServerRecord {
            window_id: None,
            visible: false,
            observed: false,
            space: None,
            info: None,
            pending_native_fullscreen: None,
        }
    }
}

/// The first of two values that is there.
fn either<T>(first: Option<T>, second: Option<T>) -> (r: Option<T>)
    ensures
        r == view::either(first, second),
{
    match first {
        Some(_) => first,
        None => second,
    }
}

impl WindowRecord {
    /// The frame that was last observed.
    pub fn observed_frame(&self) -> (r: Option<Frame>)
        ensures
            r == match self.state {
                Some(state) => Some(state.info.frame),
                None => None,
            },
    {
        match &self.state {
            Some(state) => Some(state.info.frame),
            None => None,
        }
    }

    /// The frame that was last accepted, own writes that completed included.
    pub fn frame(&self) -> (r: Option<Frame>)
        ensures
            r == match self.state {
                Some(state) => Some(state.frame_monotonic),
                None => None,
            },
    {
        match &self.state {
            Some(state) => Some(state.frame_monotonic),
            None => None,
        }
    }

    pub fn requested_frame(&self) -> (r: Option<Frame>)
        ensures
            r == match self.pending_operation {
                Some(operation) => operation.requested_frame,
                None => None,
            },
    {
        match self.pending_operation {
            Some(operation) => operation.requested_frame,
            None => None,
        }
    }

    /// Whether layouts may hold the window, if it is known, when a rule says so.
    pub fn is_admitted_with_rule_override(&self, rule_override: Option<bool>) -> (r: Option<bool>)
        ensures
            r == match self.state {
                Some(state) => Some(state.admitted_with(rule_override)),
                None => None,
            },
    {
        match &self.state {
            Some(state) => Some(state.is_admitted_with_override(rule_override)),
            None => None,
        }
    }

    pub fn window_server_id(&self) -> (r: Option<WindowServerId>)
        ensures
            r == self.window_server_id,
    {
        self.window_server_id
    }

    pub fn native_space(&self) -> (r: Option<SpaceId>)
        ensures
            r == self.native_space,
    {
        self.native_space
    }

    pub fn workspace(&self) -> (r: Option<WindowWorkspaceInfo>)
        ensures
            r == self.workspace,
    {
        self.workspace
    }

    pub fn visibility(&self) -> (r: WindowVisibility)
        ensures
            r == self.visibility,
    {
        self.visibility
    }

    pub fn placement(&self) -> (r: WindowPlacement)
        ensures
            r == self.placement,
    {
        self.placement
    }

    pub fn pending_operation(&self) -> (r: Option<PendingWindowOperation>)
        ensures
            r == self.pending_operation,
    {
        self.pending_operation
    }

    /// Whether nothing says that the window has to be remembered.
    fn is_forgettable(&self) -> (r: bool)
        ensures
            r == self.forgettable(),
    {
        self.state.is_none() && self.window_server_id.is_none() && self.workspace.is_none()
            && !self.rule_floating
    }
}

impl ServerRecord {
    fn is_blank(&self) -> (r: bool)
        ensures
            r == (*self == view::blank_server()),
    {
        self.window_id.is_none() && !self.visible && !self.observed && self.space.is_none()
            && self.info.is_none() && self.pending_native_fullscreen.is_none()
    }
}

/// All that is kept about windows. Membership in workspaces is recorded here and
/// nowhere else.
pub struct WindowStore {
    windows: VecMap<WindowId, WindowRecord>,
    known: VecSet<WindowId>,
    servers: VecMap<WindowServerId, ServerRecord>,
    assigned: VecSet<Assignment>,
    fullscreen: VecMap<WindowId, NativeFullscreenRecord>,
    by_current: VecMap<WindowId, WindowId>,
    by_server: VecMap<WindowServerId, WindowId>,
}

impl View for WindowStore {
    type V = StoreView;

    closed spec fn view(&self) -> StoreView {
        StoreView {
            windows: self.windows@,
            known: self.known@,
            servers: self.servers@,
            assigned: self.assigned@,
            fullscreen: self.fullscreen@,
            by_current: self.by_current@,
            by_server: self.by_server@,
        }
    }
}

impl Default for WindowStore {
    fn default() -> (r: WindowStore)
        ensures
            r.wf(),
            r@ == StoreView::empty(),
    {
        WindowStore {
            windows: VecMap::new(),
            known: VecSet::new(),
            servers: VecMap::new(),
            assigned: VecSet::new(),
            fullscreen: VecMap::new(),
            by_current: VecMap::new(),
            by_server: VecMap::new(),
        }
    }
}

/// What the first members of a list are when one more is counted.
proof fn lemma_take_contains<T>(list: Seq<T>, i: int)
    requires
        0 <= i < list.len(),
        list.no_duplicates(),
    ensures
        forall|x: T| #[trigger]
            list.take(i + 1).contains(x) <==> list.take(i).contains(x) || x == list[i],
        !list.take(i).contains(list[i]),
{
    assert(list.take(i + 1) =~= list.take(i).push(list[i]));
    lemma_push_contains(list.take(i), list[i]);
}

/// What a list holds once something is added.
proof fn lemma_push_contains<T>(list: Seq<T>, last: T)
    ensures
        forall|x: T| #[trigger] list.push(last).contains(x) <==> list.contains(x) || x == last,
        list.no_duplicates() && !list.contains(last) ==> list.push(last).no_duplicates(),
{
    let longer = list.push(last);
    assert forall|x: T| #[trigger] longer.contains(x) <==> list.contains(x) || x == last by {
        if list.contains(x) {
            let j = choose|j: int| 0 <= j < list.len() && list[j] == x;
            assert(longer[j] == x);
        }
        assert(longer[list.len() as int] == last);
    }
}

/// Two maps with the same values are the same.
proof fn lemma_same_map<K, V>(a: Map<K, V>, b: Map<K, V>)
    requires
        forall|k: K| view::value_of(a, k) == #[trigger] view::value_of(b, k),
    ensures
        a == b,
{
    assert forall|k: K| a.contains_key(k) == b.contains_key(k) by {
        assert(view::value_of(a, k) == view::value_of(b, k));
    }
    assert forall|k: K| #[trigger] a.contains_key(k) implies a[k] == b[k] by {
        assert(view::value_of(a, k) == view::value_of(b, k));
    }
    assert(a =~= b);
}

/// Puts a window into an ordered list, at its place.
fn insert_sorted(list: &mut Vec<WindowId>, window: WindowId)
    requires
        old(list)@.no_duplicates(),
        !old(list)@.contains(window),
        forall|a: int, b: int|
            0 <= a < b < old(list)@.len() ==> (#[trigger] old(list)@[a]).le(
                #[trigger] old(list)@[b],
            ),
    ensures
        final(list)@.no_duplicates(),
        forall|a: int, b: int|
            0 <= a < b < final(list)@.len() ==> (#[trigger] final(list)@[a]).le(
                #[trigger] final(list)@[b],
            ),
        forall|w: WindowId| #[trigger]
            final(list)@.contains(w) <==> old(list)@.contains(w) || w == window,
{
    let mut i: usize = list.len();
    while i > 0 && window.not_after(list[i - 1])
        invariant
            i <= list@.len(),
            list@ == old(list)@,
            forall|j: int| i <= j < list@.len() ==> window.le(#[trigger] list@[j]),
        decreases i,
    {
        i -= 1;
    }
    list.insert(i, window);
    proof {
        let before = old(list)@;
        let after = list@;
        assert forall|w: WindowId| #[trigger] after.contains(w) <==> before.contains(w) || w
            == window by {
            if before.contains(w) {
                let j = choose|j: int| 0 <= j < before.len() && before[j] == w;
                assert(after[if j < i { j } else { j + 1 }] == w);
            }
            if after.contains(w) {
                let j = choose|j: int| 0 <= j < after.len() && after[j] == w;
                if j < i {
                    assert(before[j] == w);
                } else if j > i {
                    assert(before[j - 1] == w);
                }
            }
            assert(after[i as int] == window);
        }
        assert forall|a: int, b: int| 0 <= a < b < after.len() implies (#[trigger] after[a]).le(
            #[trigger] after[b],
        ) by {
            let x = if a < i { a } else { a - 1 };
            let y = if b < i { b } else { b - 1 };
            if a != i {
                assert(after[a] == before[x]);
            }
            if b != i {
                assert(after[b] == before[y]);
            }
            if a < i && i > 0 {
                assert(before[i - 1].le(window));
                if a < i - 1 {
                    assert(before[a].le(before[i - 1]));
                }
            }
        }
        assert forall|a: int, b: int| 0 <= a < b < after.len() implies after[a] != after[b] by {
            let x = if a < i { a } else { a - 1 };
            let y = if b < i { b } else { b - 1 };
            if a != i && b != i {
                assert(after[a] == before[x] && after[b] == before[y]);
            } else if a == i {
                assert(before.contains(before[y]));
            } else {
                assert(before.contains(before[x]));
            }
        }
    }
}

impl WindowStore {
    pub closed spec fn wf(&self) -> bool {
        &&& self.windows.wf()
        &&& self.known.wf()
        &&& self.servers.wf()
        &&& self.assigned.wf()
        &&& self.fullscreen.wf()
        &&& self.by_current.wf()
        &&& self.by_server.wf()
    }

    // ----- single records -----

    /// The record of a window, a blank one if there is none yet, to be changed.
    fn record_mut(&mut self, w: WindowId) -> (r: &mut WindowRecord)
        requires
            old(self).wf(),
        ensures
            *r == old(self)@.record(w),
            final(self).wf(),
            final(self)@ == old(self)@.with_record(w, *final(r)),
    {
        if !self.windows.contains_key(w) {
            self.windows.insert(w, WindowRecord::default());
            assert(forall|x: WindowRecord| #[trigger]
                self.windows@.insert(w, x) =~= old(self).windows@.insert(w, x));
        }
        self.windows.get_mut(w).unwrap()
    }

    /// The record of a number at the window server, a blank one if there is none
    /// yet, to be changed.
    fn server_record_mut(&mut self, k: WindowServerId) -> (r: &mut ServerRecord)
        requires
            old(self).wf(),
        ensures
            *r == old(self)@.server(k),
            final(self).wf(),
            final(self)@ == old(self)@.with_server(k, *final(r)),
    {
        if !self.servers.contains_key(k) {
            self.servers.insert(k, ServerRecord::default());
            assert(forall|x: ServerRecord| #[trigger]
                self.servers@.insert(k, x) =~= old(self).servers@.insert(k, x));
        }
        self.servers.get_mut(k).unwrap()
    }

    fn server(&self, k: WindowServerId) -> (r: ServerRecord)
        requires
            self.wf(),
        ensures
            r == self@.server(k),
    {
        match self.servers.get(k) {
            Some(record) => *record,
            None => ServerRecord::default(),
        }
    }

    fn prune_window_record(&mut self, w: WindowId)
        requires
            old(self).wf(),
        ensures
            final(self).wf(),
            final(self)@ == old(self)@.window_pruned(w),
    {
        let gone = match self.windows.get(w) {
            Some(record) => record.is_forgettable(),
            None => false,
        };
        if gone {
            self.windows.remove(w);
            self.known.remove(w);
        }
    }

    fn prune_window_server_record(&mut self, k: WindowServerId)
        requires
            old(self).wf(),
        ensures
            final(self).wf(),
            final(self)@ == old(self)@.server_pruned(k),
    {
        let gone = match self.servers.get(k) {
            Some(record) => record.is_blank(),
            None => false,
        };
        if gone {
            self.servers.remove(k);
        }
    }

    fn remove_window_from_workspace_index(&mut self, w: WindowId, workspace: WindowWorkspaceInfo)
        requires
            old(self).wf(),
        ensures
            final(self).wf(),
            final(self)@ == old(self)@.unindexed(w, workspace),
    {
        self.assigned.remove(Assignment { window: w, workspace });
    }

    fn add_window_to_workspace_index(&mut self, w: WindowId, workspace: WindowWorkspaceInfo)
        requires
            old(self).wf(),
        ensures
            final(self).wf(),
            final(self)@ == old(self)@.indexed(w, workspace),
    {
        self.assigned.insert(Assignment { window: w, workspace });
    }

    // ----- native fullscreen -----

    fn native_fullscreen_original_window(&self, w: WindowId) -> (r: Option<WindowId>)
        requires
            self.wf(),
        ensures
            r == self@.original_of(w),
    {
        if self.fullscreen.contains_key(w) {
            Some(w)
        } else {
            match self.by_current.get(w) {
                Some(original) => Some(*original),
                None => None,
            }
        }
    }

    fn upsert_native_fullscreen_record(&mut self, record: NativeFullscreenRecord)
        requires
            old(self).wf(),
        ensures
            final(self).wf(),
            final(self)@ == old(self)@.upserted(record),
    {
        let original = record.original_window_id;
        if let Some(previous) = self.fullscreen.insert(original, record) {
            self.by_current.remove(previous.current_window_id);
            if let Some(k) = previous.window_server_id {
                self.by_server.remove(k);
            }
        }
        self.by_current.insert(record.current_window_id, original);
        if let Some(k) = record.window_server_id {
            self.by_server.insert(k, original);
        }
    }

    fn remove_native_fullscreen_record_by_original_window(&mut self, original: WindowId) -> (r:
        Option<NativeFullscreenRecord>)
        requires
            old(self).wf(),
        ensures
            final(self).wf(),
            r == view::value_of(old(self)@.fullscreen, original),
            final(self)@ == old(self)@.fullscreen_removed(original),
    {
        match self.fullscreen.remove(original) {
            Some(record) => {
                self.by_current.remove(record.current_window_id);
                if let Some(k) = record.window_server_id {
                    self.by_server.remove(k);
                }
                Some(record)
            },
            None => {
                assert(self@ =~= old(self)@);
                None
            },
        }
    }

    /// Notes that a window enters or leaves native fullscreen.
    pub fn suspend_window_to_native_fullscreen(
        &mut self,
        window_id: WindowId,
        window_server_id: Option<WindowServerId>,
        fallback_last_known_user_space: Option<SpaceId>,
        fullscreen_space: SpaceId,
        transition: NativeFullscreenTransition,
    ) -> (r: NativeFullscreenRecord)
        requires
            old(self).wf(),
        ensures
            final(self).wf(),
            r == old(self)@.suspension(
                window_id,
                window_server_id,
                fallback_last_known_user_space,
                fullscreen_space,
                transition,
            ),
            final(self)@ == old(self)@.suspended(window_id, r),
    {
        let original = match self.native_fullscreen_original_window(window_id) {
            Some(original) => original,
            None => window_id,
        };
        let existing = match self.fullscreen.get(original) {
            Some(record) => Some(*record),
            None => None,
        };
        let workspace = self.workspace_info_for_window(window_id);
        let record = NativeFullscreenRecord {
            original_window_id: original,
            current_window_id: window_id,
            window_server_id: either(
                window_server_id,
                match existing {
                    Some(e) => e.window_server_id,
                    None => None,
                },
            ),
            workspace: either(
                workspace,
                match existing {
                    Some(e) => e.workspace,
                    None => None,
                },
            ),
            last_known_user_space: either(
                match workspace {
                    Some(a) => Some(a.space),
                    None => None,
                },
                either(
                    fallback_last_known_user_space,
                    match existing {
                        Some(e) => e.last_known_user_space,
                        None => None,
                    },
                ),
            ),
            fullscreen_space,
            transition,
        };
        self.record_mut(window_id).placement = WindowPlacement::NativeFullscreen;
        self.known.insert(window_id);
        self.upsert_native_fullscreen_record(record);
        record
    }

    /// Notes that a window of which only the number is known enters or leaves
    /// native fullscreen.
    pub fn suspend_window_server_to_native_fullscreen(
        &mut self,
        pid: Pid,
        window_server_id: WindowServerId,
        fallback_last_known_user_space: Option<SpaceId>,
        fullscreen_space: SpaceId,
        transition: NativeFullscreenTransition,
    ) -> (r: PendingNativeFullscreenRecord)
        requires
            old(self).wf(),
        ensures
            final(self).wf(),
            final(self)@ == old(self)@.with_server(
                window_server_id,
                (ServerRecord {
                    pending_native_fullscreen: Some(
                        old(self)@.server_suspension(
                            pid,
                            window_server_id,
                            fallback_last_known_user_space,
                            fullscreen_space,
                            transition,
                        ),
                    ),
                    ..old(self)@.server(window_server_id)
                }),
            ),
            Some(r) == final(self)@.pending_of(window_server_id),
    {
        let last_known_user_space = either(
            fallback_last_known_user_space,
            match self.server(window_server_id).pending_native_fullscreen {
                Some(p) => p.last_known_user_space,
                None => None,
            },
        );
        let state = PendingNativeFullscreenState {
            pid,
            last_known_user_space,
            fullscreen_space,
            transition,
        };
        self.server_record_mut(window_server_id).pending_native_fullscreen = Some(state);
        PendingNativeFullscreenRecord {
            pid,
            window_server_id,
            last_known_user_space,
            fullscreen_space,
            transition,
        }
    }

    pub fn native_fullscreen_record_for_window(&self, window_id: WindowId) -> (r: Option<
        NativeFullscreenRecord,
    >)
        requires
            self.wf(),
        ensures
            r == self@.fullscreen_of(window_id),
    {
        match self.native_fullscreen_original_window(window_id) {
            Some(original) => match self.fullscreen.get(original) {
                Some(record) => Some(*record),
                None => None,
            },
            None => None,
        }
    }

    pub fn native_fullscreen_record_for_window_server_id(&self, wsid: WindowServerId) -> (r: Option<
        NativeFullscreenRecord,
    >)
        requires
            self.wf(),
        ensures
            r == self@.fullscreen_of_server(wsid),
    {
        match self.by_server.get(wsid) {
            Some(original) => match self.fullscreen.get(*original) {
                Some(record) => Some(*record),
                None => None,
            },
            None => None,
        }
    }

    pub fn pending_native_fullscreen_record_for_window_server_id(&self, wsid: WindowServerId) -> (r:
        Option<PendingNativeFullscreenRecord>)
        requires
            self.wf(),
        ensures
            r == self@.pending_of(wsid),
    {
        match self.server(wsid).pending_native_fullscreen {
            Some(p) => Some(
                PendingNativeFullscreenRecord {
                    pid: p.pid,
                    window_server_id: wsid,
                    last_known_user_space: p.last_known_user_space,
                    fullscreen_space: p.fullscreen_space,
                    transition: p.transition,
                },
            ),
            None => None,
        }
    }

    pub fn pending_native_fullscreen_pid_for_window_server_id(&self, wsid: WindowServerId) -> (r:
        Option<Pid>)
        requires
            self.wf(),
        ensures
            r == match self@.pending_of(wsid) {
                Some(p) => Some(p.pid),
                None => None,
            },
    {
        match self.pending_native_fullscreen_record_for_window_server_id(wsid) {
            Some(p) => Some(p.pid),
            None => None,
        }
    }

    pub fn is_window_native_fullscreen_suspended(&self, window_id: WindowId) -> (r: bool)
        requires
            self.wf(),
        ensures
            r == (self@.fullscreen_of(window_id) is Some && self@.fullscreen_of(
                window_id,
            )->0.transition is Suspended),
    {
        match self.native_fullscreen_record_for_window(window_id) {
            Some(record) => record.transition == NativeFullscreenTransition::Suspended,
            None => false,
        }
    }

    pub fn is_window_server_id_native_fullscreen_suspended(&self, wsid: WindowServerId) -> (r: bool)
        requires
            self.wf(),
        ensures
            r == (self@.fullscreen_of_server(wsid) is Some && self@.fullscreen_of_server(
                wsid,
            )->0.transition is Suspended),
    {
        match self.native_fullscreen_record_for_window_server_id(wsid) {
            Some(record) => record.transition == NativeFullscreenTransition::Suspended,
            None => false,
        }
    }

    /// The window is back from native fullscreen. Returns what was noted.
    pub fn restore_window_from_native_fullscreen(&mut self, window_id: WindowId) -> (r: Option<
        NativeFullscreenRecord,
    >)
        requires
            old(self).wf(),
        ensures
            final(self).wf(),
            r == old(self)@.fullscreen_of(window_id),
            final(self)@ == old(self)@.restored(window_id),
    {
        let original = match self.native_fullscreen_original_window(window_id) {
            Some(original) => original,
            None => {
                return None;
            },
        };
        let record = match self.remove_native_fullscreen_record_by_original_window(original) {
            Some(record) => record,
            None => {
                return None;
            },
        };
        if let Some(window) = self.windows.get_mut(record.current_window_id) {
            window.placement = if window.rule_floating {
                WindowPlacement::Floating
            } else {
                WindowPlacement::Tiled
            };
        }
        Some(record)
    }

    pub fn restore_window_from_native_fullscreen_by_window_server_id(
        &mut self,
        wsid: WindowServerId,
    ) -> (r: Option<NativeFullscreenRecord>)
        requires
            old(self).wf(),
        ensures
            final(self).wf(),
            match old(self)@.fullscreen_of_server(wsid) {
                Some(record) => {
                    &&& r == old(self)@.fullscreen_of(record.current_window_id)
                    &&& final(self)@ == old(self)@.restored(record.current_window_id)
                },
                None => r is None && final(self)@ == old(self)@,
            },
    {
        match self.native_fullscreen_record_for_window_server_id(wsid) {
            Some(record) => self.restore_window_from_native_fullscreen(record.current_window_id),
            None => None,
        }
    }

    // ----- the window server -----

    pub fn tracked_window_id(&self, wsid: WindowServerId) -> (r: Option<WindowId>)
        requires
            self.wf(),
        ensures
            r == self@.server(wsid).window_id,
    {
        self.server(wsid).window_id
    }

    fn bind(&mut self, wsid: WindowServerId, window_id: WindowId)
        requires
            old(self).wf(),
        ensures
            final(self).wf(),
            final(self)@ == old(self)@.bound(wsid, window_id),
    {
        let former = self.server(wsid).window_id;
        let record = self.server_record_mut(wsid);
        record.window_id = Some(window_id);
        record.pending_native_fullscreen = None;
        if let Some(old_window) = former {
            if old_window != window_id {
                if let Some(record) = self.windows.get_mut(old_window) {
                    record.window_server_id = None;
                }
            }
        }
        let previous = match self.windows.get(window_id) {
            Some(record) => record.window_server_id,
            None => None,
        };
        if let Some(previous_wsid) = previous {
            if previous_wsid != wsid {
                if self.servers.contains_key(previous_wsid) {
                    self.server_record_mut(previous_wsid).window_id = None;
                    self.prune_window_server_record(previous_wsid);
                }
            }
        }
        self.record_mut(window_id).window_server_id = Some(wsid);
        self.known.insert(window_id);
    }

    /// Notes the number of a window at the window server. Returns the window that
    /// had the number before.
    pub fn track_window_server_id(&mut self, wsid: WindowServerId, window_id: WindowId) -> (r:
        Option<WindowId>)
        requires
            old(self).wf(),
        ensures
            final(self).wf(),
            r == old(self)@.server(wsid).window_id,
            final(self)@ == old(self)@.numbered(wsid, window_id),
    {
        let before = self.server(wsid);
        self.bind(wsid, window_id);
        let ghost s = self@;
        match before.pending_native_fullscreen {
            Some(pending) => {
                if pending.pid == window_id.pid {
                    self.suspend_window_to_native_fullscreen(
                        window_id,
                        Some(wsid),
                        pending.last_known_user_space,
                        pending.fullscreen_space,
                        pending.transition,
                    );
                }
            },
            None => {
                if let Some(original) = self.native_fullscreen_original_window(window_id) {
                    if let Some(record) = self.remove_native_fullscreen_record_by_original_window(
                        original,
                    ) {
                        let mut changed = record;
                        changed.window_server_id = Some(wsid);
                        self.upsert_native_fullscreen_record(changed);
                    }
                }
            },
        }
        self.prune_window_server_record(wsid);
        before.window_id
    }

    pub fn track_window_server_info(&mut self, info: WindowServerInfo) -> (r: Option<
        WindowServerInfo,
    >)
        requires
            old(self).wf(),
        ensures
            final(self).wf(),
            r == old(self)@.server(info.id).info,
            final(self)@ == old(self)@.with_server(
                info.id,
                (ServerRecord { info: Some(info), ..old(self)@.server(info.id) }),
            ),
    {
        let record = self.server_record_mut(info.id);
        let before = record.info;
        record.info = Some(info);
        before
    }

    pub fn get_window_server_info(&self, wsid: WindowServerId) -> (r: Option<WindowServerInfo>)
        requires
            self.wf(),
        ensures
            r == self@.server(wsid).info,
    {
        self.server(wsid).info
    }

    pub fn knows_window_server_id(&self, wsid: WindowServerId) -> (r: bool)
        requires
            self.wf(),
        ensures
            r == (self@.server(wsid).info is Some),
    {
        self.server(wsid).info.is_some()
    }

    fn show(&mut self, wsid: WindowServerId, visibility: WindowVisibility)
        requires
            old(self).wf(),
        ensures
            final(self).wf(),
            final(self)@ == old(self)@.shown(wsid, visibility),
    {
        if let Some(w) = self.server(wsid).window_id {
            self.record_mut(w).visibility = visibility;
        }
    }

    /// Says whether the window was hidden before.
    pub fn mark_window_visible(&mut self, wsid: WindowServerId) -> (r: bool)
        requires
            old(self).wf(),
        ensures
            final(self).wf(),
            r == !old(self)@.server(wsid).visible,
            final(self)@ == old(self)@.marked_visible(wsid),
    {
        let record = self.server_record_mut(wsid);
        let changed = !record.visible;
        record.visible = true;
        self.show(wsid, WindowVisibility::Visible);
        changed
    }

    pub fn set_visible_windows(&mut self, wsids: &Vec<WindowServerId>)
        requires
            old(self).wf(),
        ensures
            final(self).wf(),
            final(self)@ == old(self)@.all_marked_visible(wsids@),
    {
        let mut i: usize = 0;
        assert(wsids@.take(0) =~= Seq::empty());
        while i < wsids.len()
            invariant
                i <= wsids.len(),
                self.wf(),
                self@ == old(self)@.all_marked_visible(wsids@.take(i as int)),
            decreases wsids.len() - i,
        {
            assert(wsids@.take(i + 1).drop_last() =~= wsids@.take(i as int));
            self.mark_window_visible(wsids[i]);
            i += 1;
        }
        assert(wsids@.take(i as int) =~= wsids@);
    }

    /// Hides all windows, in an order that the store chooses.
    pub fn clear_visible_windows(&mut self)
        requires
            old(self).wf(),
        ensures
            final(self).wf(),
            exists|order: Seq<WindowServerId>|
                #![trigger old(self)@.all_marked_hidden(order)]
                order.no_duplicates() && (forall|k: WindowServerId|
                    order.contains(k) <==> old(self)@.servers.contains_key(k)) && final(self)@
                    == old(self)@.all_marked_hidden(order),
    {
        let keys = self.servers.keys();
        let mut i: usize = 0;
        assert(keys@.take(0) =~= Seq::empty());
        while i < keys.len()
            invariant
                i <= keys.len(),
                self.wf(),
                self@ == old(self)@.all_marked_hidden(keys@.take(i as int)),
            decreases keys.len() - i,
        {
            assert(keys@.take(i + 1).drop_last() =~= keys@.take(i as int));
            self.mark_window_hidden(keys[i]);
            i += 1;
        }
        assert(keys@.take(i as int) =~= keys@);
        assert(self@ == old(self)@.all_marked_hidden(keys@));
    }

    /// Says whether the window was visible before.
    pub fn mark_window_hidden(&mut self, wsid: WindowServerId) -> (r: bool)
        requires
            old(self).wf(),
        ensures
            final(self).wf(),
            r == old(self)@.server(wsid).visible,
            final(self)@ == old(self)@.marked_hidden(wsid),
    {
        let changed = self.server(wsid).visible;
        if self.servers.contains_key(wsid) {
            self.server_record_mut(wsid).visible = false;
            self.show(wsid, WindowVisibility::Hidden);
            self.prune_window_server_record(wsid);
        }
        changed
    }

    pub fn is_window_visible(&self, wsid: WindowServerId) -> (r: bool)
        requires
            self.wf(),
        ensures
            r == self@.server(wsid).visible,
    {
        self.server(wsid).visible
    }

    /// Says whether the window had not been observed before.
    pub fn mark_window_server_observed(&mut self, wsid: WindowServerId) -> (r: bool)
        requires
            old(self).wf(),
        ensures
            final(self).wf(),
            r == !old(self)@.server(wsid).observed,
            final(self)@ == old(self)@.with_server(
                wsid,
                (ServerRecord { observed: true, ..old(self)@.server(wsid) }),
            ),
    {
        let record = self.server_record_mut(wsid);
        let changed = !record.observed;
        record.observed = true;
        changed
    }

    /// Says whether the window had been observed before.
    pub fn clear_window_server_observed(&mut self, wsid: WindowServerId) -> (r: bool)
        requires
            old(self).wf(),
        ensures
            final(self).wf(),
            r == old(self)@.server(wsid).observed,
            final(self)@ == (if old(self)@.servers.contains_key(wsid) {
                old(self)@.with_server(
                    wsid,
                    (ServerRecord { observed: false, ..old(self)@.server(wsid) }),
                ).server_pruned(wsid)
            } else {
                old(self)@
            }),
    {
        let changed = self.server(wsid).observed;
        if self.servers.contains_key(wsid) {
            self.server_record_mut(wsid).observed = false;
            self.prune_window_server_record(wsid);
        }
        changed
    }

    pub fn is_window_server_observed(&self, wsid: WindowServerId) -> (r: bool)
        requires
            self.wf(),
        ensures
            r == self@.server(wsid).observed,
    {
        self.server(wsid).observed
    }

    pub fn set_window_server_space(&mut self, wsid: WindowServerId, space: Option<SpaceId>)
        requires
            old(self).wf(),
        ensures
            final(self).wf(),
            final(self)@ == old(self)@.server_space_set(wsid, space),
    {
        self.server_record_mut(wsid).space = space;
        if let Some(w) = self.server(wsid).window_id {
            self.record_mut(w).native_space = space;
        }
        self.prune_window_server_record(wsid);
    }

    pub fn window_server_space(&self, wsid: WindowServerId) -> (r: Option<SpaceId>)
        requires
            self.wf(),
        ensures
            r == self@.server(wsid).space,
    {
        self.server(wsid).space
    }

    /// The window server knows a number no longer. Returns the window that had it.
    pub fn remove_window_server_state(&mut self, wsid: WindowServerId) -> (r: Option<WindowId>)
        requires
            old(self).wf(),
        ensures
            final(self).wf(),
            r == old(self)@.server(wsid).window_id,
            final(self)@ == old(self)@.server_cleared(wsid),
    {
        let wid = self.tracked_window_id(wsid);
        if self.servers.contains_key(wsid) {
            let record = self.server_record_mut(wsid);
            record.window_id = None;
            record.visible = false;
            record.observed = false;
            record.space = None;
            record.info = None;
            if let Some(w) = wid {
                if let Some(record) = self.windows.get_mut(w) {
                    record.window_server_id = None;
                    record.native_space = None;
                }
            }
            self.prune_window_server_record(wsid);
        }
        wid
    }

    // ----- windows -----

    pub fn record(&self, window_id: WindowId) -> (r: Option<&WindowRecord>)
        requires
            self.wf(),
        ensures
            r is Some <==> self@.windows.contains_key(window_id),
            r is Some ==> *(r->0) == self@.windows[window_id],
    {
        self.windows.get(window_id)
    }

    pub fn window(&self, window_id: WindowId) -> (r: Option<&WindowState>)
        requires
            self.wf(),
        ensures
            r is Some <==> self@.record(window_id).state is Some,
            r is Some ==> *(r->0) == self@.record(window_id).state->0,
    {
        match self.windows.get(window_id) {
            Some(record) => record.state.as_ref(),
            None => None,
        }
    }

    /// The state of a window, to be changed.
    pub fn window_mut(&mut self, window_id: WindowId) -> (r: Option<&mut WindowState>)
        requires
            old(self).wf(),
        ensures
            r is Some <==> old(self)@.record(window_id).state is Some,
            final(self).wf(),
            r is None ==> final(self)@ == old(self)@,
            r is Some ==> Some(*(r->0)) == old(self)@.record(window_id).state,
            r is Some ==> final(self)@ == old(self)@.with_record(
                window_id,
                (WindowRecord { state: Some(*final(r->0)), ..old(self)@.record(window_id) }),
            ),
    {
        if !self.contains_window(window_id) {
            return None;
        }
        let record = self.record_mut(window_id);
        match &mut record.state {
            Some(state) => Some(state),
            None => None,
        }
    }

    /// Notes a window, with its number if it has one.
    pub fn insert_window(&mut self, window_id: WindowId, window: WindowState)
        requires
            old(self).wf(),
        ensures
            final(self).wf(),
            final(self)@ == old(self)@.window_inserted(window_id, window),
    {
        let wsid = window.info.sys_id;
        let record = self.record_mut(window_id);
        record.state = Some(window);
        let workspace = record.workspace;
        self.known.insert(window_id);
        if let Some(a) = workspace {
            self.add_window_to_workspace_index(window_id, a);
        }
        if let Some(k) = wsid {
            self.track_window_server_id(k, window_id);
        }
    }

    pub fn contains_window(&self, window_id: WindowId) -> (r: bool)
        requires
            self.wf(),
        ensures
            r == (self@.record(window_id).state is Some),
    {
        self.window(window_id).is_some()
    }

    /// The windows whose state is known, in an order that the store chooses.
    pub fn iter_windows(&self) -> (r: Vec<WindowId>)
        requires
            self.wf(),
        ensures
            r@.no_duplicates(),
            forall|x: WindowId| r@.contains(x) <==> self@.record(x).state is Some,
    {
        let keys = self.windows.keys();
        let mut out: Vec<WindowId> = Vec::new();
        let mut i: usize = 0;
        while i < keys.len()
            invariant
                i <= keys.len(),
                self.wf(),
                keys@.no_duplicates(),
                forall|x: WindowId| keys@.contains(x) <==> self@.windows.contains_key(x),
                out@.no_duplicates(),
                forall|x: WindowId| #[trigger]
                    out@.contains(x) <==> keys@.take(i as int).contains(x) && self@.record(x).state is Some,
            decreases keys.len() - i,
        {
            let key = keys[i];
            let ghost before = out@;
            proof {
                lemma_take_contains(keys@, i as int);
                assert(keys@.contains(key));
            }
            if self.contains_window(key) {
                out.push(key);
                proof {
                    lemma_push_contains(before, key);
                }
            }
            i += 1;
        }
        assert(keys@.take(i as int) =~= keys@);
        out
    }

    /// The numbers that windows have.
    pub fn iter_tracked_window_server_ids(&self) -> (r: Vec<WindowServerId>)
        requires
            self.wf(),
        ensures
            r@.no_duplicates(),
            forall|x: WindowServerId| r@.contains(x) <==> self@.server(x).window_id is Some,
    {
        let keys = self.servers.keys();
        let mut out: Vec<WindowServerId> = Vec::new();
        let mut i: usize = 0;
        while i < keys.len()
            invariant
                i <= keys.len(),
                self.wf(),
                keys@.no_duplicates(),
                forall|x: WindowServerId| keys@.contains(x) <==> self@.servers.contains_key(x),
                out@.no_duplicates(),
                forall|x: WindowServerId| #[trigger]
                    out@.contains(x) <==> keys@.take(i as int).contains(x) && self@.server(x).window_id is Some,
            decreases keys.len() - i,
        {
            let key = keys[i];
            let ghost before = out@;
            proof {
                lemma_take_contains(keys@, i as int);
                assert(keys@.contains(key));
            }
            if self.server(key).window_id.is_some() {
                out.push(key);
                proof {
                    lemma_push_contains(before, key);
                }
            }
            i += 1;
        }
        assert(keys@.take(i as int) =~= keys@);
        out
    }

    /// The numbers of windows that are visible.
    pub fn iter_visible_window_server_ids(&self) -> (r: Vec<WindowServerId>)
        requires
            self.wf(),
        ensures
            r@.no_duplicates(),
            forall|x: WindowServerId| r@.contains(x) <==> self@.server(x).visible,
    {
        let keys = self.servers.keys();
        let mut out: Vec<WindowServerId> = Vec::new();
        let mut i: usize = 0;
        while i < keys.len()
            invariant
                i <= keys.len(),
                self.wf(),
                keys@.no_duplicates(),
                forall|x: WindowServerId| keys@.contains(x) <==> self@.servers.contains_key(x),
                out@.no_duplicates(),
                forall|x: WindowServerId| #[trigger]
                    out@.contains(x) <==> keys@.take(i as int).contains(x) && self@.server(x).visible,
            decreases keys.len() - i,
        {
            let key = keys[i];
            let ghost before = out@;
            proof {
                lemma_take_contains(keys@, i as int);
                assert(keys@.contains(key));
            }
            if self.server(key).visible {
                out.push(key);
                proof {
                    lemma_push_contains(before, key);
                }
            }
            i += 1;
        }
        assert(keys@.take(i as int) =~= keys@);
        out
    }

    /// The numbers that the window server has told something about.
    pub fn window_servers_with_info(&self) -> (r: Vec<WindowServerId>)
        requires
            self.wf(),
        ensures
            r@.no_duplicates(),
            forall|x: WindowServerId| r@.contains(x) <==> self@.server(x).info is Some,
    {
        let keys = self.servers.keys();
        let mut out: Vec<WindowServerId> = Vec::new();
        let mut i: usize = 0;
        while i < keys.len()
            invariant
                i <= keys.len(),
                self.wf(),
                keys@.no_duplicates(),
                forall|x: WindowServerId| keys@.contains(x) <==> self@.servers.contains_key(x),
                out@.no_duplicates(),
                forall|x: WindowServerId| #[trigger]
                    out@.contains(x) <==> keys@.take(i as int).contains(x) && self@.server(x).info is Some,
            decreases keys.len() - i,
        {
            let key = keys[i];
            let ghost before = out@;
            proof {
                lemma_take_contains(keys@, i as int);
                assert(keys@.contains(key));
            }
            if self.server(key).info.is_some() {
                out.push(key);
                proof {
                    lemma_push_contains(before, key);
                }
            }
            i += 1;
        }
        assert(keys@.take(i as int) =~= keys@);
        out
    }

    /// The windows that are in a workspace.
    pub fn assigned_windows(&self) -> (r: Vec<WindowId>)
        requires
            self.wf(),
        ensures
            r@.no_duplicates(),
            forall|x: WindowId| r@.contains(x) <==> self@.workspace_of(x) is Some,
    {
        let keys = self.windows.keys();
        let mut out: Vec<WindowId> = Vec::new();
        let mut i: usize = 0;
        while i < keys.len()
            invariant
                i <= keys.len(),
                self.wf(),
                keys@.no_duplicates(),
                forall|x: WindowId| keys@.contains(x) <==> self@.windows.contains_key(x),
                out@.no_duplicates(),
                forall|x: WindowId| #[trigger]
                    out@.contains(x) <==> keys@.take(i as int).contains(x) && self@.workspace_of(x) is Some,
            decreases keys.len() - i,
        {
            let key = keys[i];
            let ghost before = out@;
            proof {
                lemma_take_contains(keys@, i as int);
                assert(keys@.contains(key));
            }
            if self.workspace_info_for_window(key).is_some() {
                out.push(key);
                proof {
                    lemma_push_contains(before, key);
                }
            }
            i += 1;
        }
        assert(keys@.take(i as int) =~= keys@);
        out
    }

    /// How many windows are known with their state.
    pub fn tracked_window_count(&self) -> (r: usize)
        requires
            self.wf(),
        ensures
            r == Set::new(|x: WindowId| self@.record(x).state is Some).len(),
    {
        let list = self.iter_windows();
        proof {
            list@.unique_seq_to_set();
            assert(list@.to_set() =~= Set::new(|x: WindowId| self@.record(x).state is Some));
        }
        list.len()
    }

    /// How many windows the window server has told something about.
    pub fn window_server_info_count(&self) -> (r: usize)
        requires
            self.wf(),
        ensures
            r == Set::new(|x: WindowServerId| self@.server(x).info is Some).len(),
    {
        let list = self.window_servers_with_info();
        proof {
            list@.unique_seq_to_set();
            assert(list@.to_set() =~= Set::new(|x: WindowServerId| self@.server(x).info is Some));
        }
        list.len()
    }

    /// How many windows are visible.
    pub fn visible_window_server_count(&self) -> (r: usize)
        requires
            self.wf(),
        ensures
            r == Set::new(|x: WindowServerId| self@.server(x).visible).len(),
    {
        let list = self.iter_visible_window_server_ids();
        proof {
            list@.unique_seq_to_set();
            assert(list@.to_set() =~= Set::new(|x: WindowServerId| self@.server(x).visible));
        }
        list.len()
    }

    /// How many windows are in a workspace.
    pub fn workspace_assignment_count(&self) -> (r: usize)
        requires
            self.wf(),
        ensures
            r == Set::new(|x: WindowId| self@.workspace_of(x) is Some).len(),
    {
        let list = self.assigned_windows();
        proof {
            list@.unique_seq_to_set();
            assert(list@.to_set() =~= Set::new(|x: WindowId| self@.workspace_of(x) is Some));
        }
        list.len()
    }

    pub fn iter_window_server_ids(&self) -> (r: Vec<WindowServerId>)
        requires
            self.wf(),
        ensures
            r@.no_duplicates(),
            forall|k: WindowServerId| r@.contains(k) <==> self@.servers.contains_key(k),
    {
        self.servers.keys()
    }

    /// The windows of a process, in an order that the store chooses.
    pub fn window_ids_for_pid(&self, pid: Pid) -> (r: Vec<WindowId>)
        requires
            self.wf(),
        ensures
            self@.lists_process(pid, r@),
    {
        let all = self.known.to_vec();
        let mut out: Vec<WindowId> = Vec::new();
        let mut i: usize = 0;
        while i < all.len()
            invariant
                i <= all.len(),
                all@.no_duplicates(),
                out@.no_duplicates(),
                forall|w: WindowId| #[trigger]
                    out@.contains(w) <==> all@.take(i as int).contains(w) && w.pid == pid,
            decreases all.len() - i,
        {
            let w = all[i];
            let ghost before = out@;
            proof {
                lemma_take_contains(all@, i as int);
            }
            if w.pid == pid {
                out.push(w);
                proof {
                    lemma_push_contains(before, w);
                }
            }
            i += 1;
        }
        assert(all@.take(i as int) =~= all@);
        assert forall|w: WindowId| out@.contains(w) <==> self@.known.contains(w) && w.pid
            == pid by {
            assert(all@.to_set().contains(w) == all@.contains(w));
        }
        out
    }

    /// The windows that are in workspaces, each with its workspace, in an order
    /// that the store chooses.
    pub fn iter_workspace_assignments(&self) -> (r: Vec<Assignment>)
        requires
            self.wf(),
        ensures
            r@.no_duplicates(),
            forall|a: Assignment|
                r@.contains(a) <==> self@.workspace_of(a.window) == Some(a.workspace),
    {
        let windows = self.assigned_windows();
        let mut out: Vec<Assignment> = Vec::new();
        let mut i: usize = 0;
        while i < windows.len()
            invariant
                i <= windows.len(),
                self.wf(),
                windows@.no_duplicates(),
                forall|w: WindowId| windows@.contains(w) <==> self@.workspace_of(w) is Some,
                out@.len() == i,
                forall|j: int|
                    0 <= j < i ==> {
                        &&& (#[trigger] out@[j]).window == windows@[j]
                        &&& self@.workspace_of(windows@[j]) == Some(out@[j].workspace)
                    },
            decreases windows.len() - i,
        {
            let window = windows[i];
            assert(windows@.contains(window));
            let workspace = self.workspace_info_for_window(window).unwrap();
            out.push(Assignment { window, workspace });
            i += 1;
        }
        proof {
            assert forall|a: Assignment| out@.contains(a) <==> self@.workspace_of(a.window) == Some(
                a.workspace,
            ) by {
                if self@.workspace_of(a.window) == Some(a.workspace) {
                    assert(windows@.contains(a.window));
                    let j = choose|j: int| 0 <= j < windows@.len() && windows@[j] == a.window;
                    assert(out@[j] == a);
                }
                if out@.contains(a) {
                    let j = choose|j: int| 0 <= j < out@.len() && out@[j] == a;
                    assert(out@[j].window == windows@[j]);
                }
            }
        }
        out
    }

    /// The fullscreen records, in an order that the store chooses.
    pub fn iter_native_fullscreen_records(&self) -> (r: Vec<NativeFullscreenRecord>)
        requires
            self.wf(),
        ensures
            exists|order: Seq<WindowId>|
                order.no_duplicates() && (forall|w: WindowId|
                    order.contains(w) <==> self@.fullscreen.contains_key(w))
                    && #[trigger] self@.fullscreen_list(order) == r@,
    {
        let keys = self.fullscreen.keys();
        let mut out: Vec<NativeFullscreenRecord> = Vec::new();
        let mut i: usize = 0;
        while i < keys.len()
            invariant
                i <= keys.len(),
                self.wf(),
                forall|w: WindowId| keys@.contains(w) <==> self@.fullscreen.contains_key(w),
                out@.len() == i,
                forall|j: int| 0 <= j < i ==> #[trigger] out@[j] == self@.fullscreen[keys@[j]],
            decreases keys.len() - i,
        {
            assert(keys@.contains(keys@[i as int]));
            out.push(*self.fullscreen.get(keys[i]).unwrap());
            i += 1;
        }
        assert(self@.fullscreen_list(keys@) =~= out@);
        out
    }

    // ----- workspaces -----

    pub fn workspace_info_for_window(&self, window_id: WindowId) -> (r: Option<WindowWorkspaceInfo>)
        requires
            self.wf(),
        ensures
            r == self@.workspace_of(window_id),
    {
        match self.windows.get(window_id) {
            Some(record) => record.workspace,
            None => None,
        }
    }

    pub fn workspace_for_window(&self, space: SpaceId, window_id: WindowId) -> (r: Option<
        VirtualWorkspaceId,
    >)
        requires
            self.wf(),
        ensures
            r == match self@.workspace_of(window_id) {
                Some(a) => if a.space == space {
                    Some(a.workspace_id)
                } else {
                    None
                },
                None => None,
            },
    {
        match self.workspace_info_for_window(window_id) {
            Some(a) => if a.space == space {
                Some(a.workspace_id)
            } else {
                None
            },
            None => None,
        }
    }

    pub fn workspaces_for_window(&self, window_id: WindowId) -> (r: Vec<VirtualWorkspaceId>)
        requires
            self.wf(),
        ensures
            r@ == match self@.workspace_of(window_id) {
                Some(a) => seq![a.workspace_id],
                None => Seq::empty(),
            },
    {
        let mut out: Vec<VirtualWorkspaceId> = Vec::new();
        if let Some(a) = self.workspace_info_for_window(window_id) {
            out.push(a.workspace_id);
        }
        out
    }

    /// Puts a window in a workspace. Returns the one that it was in.
    pub fn assign_window_to_workspace(
        &mut self,
        window_id: WindowId,
        assignment: WindowWorkspaceInfo,
    ) -> (r: Option<WindowWorkspaceInfo>)
        requires
            old(self).wf(),
        ensures
            final(self).wf(),
            r == old(self)@.workspace_of(window_id),
            final(self)@ == old(self)@.assigned_to(window_id, assignment),
    {
        let before = self.workspace_info_for_window(window_id);
        if let Some(a) = before {
            self.remove_window_from_workspace_index(window_id, a);
        }
        self.record_mut(window_id).workspace = Some(assignment);
        self.known.insert(window_id);
        self.add_window_to_workspace_index(window_id, assignment);
        if let Some(original) = self.native_fullscreen_original_window(window_id) {
            if let Some(record) = self.remove_native_fullscreen_record_by_original_window(
                original,
            ) {
                let mut changed = record;
                changed.workspace = Some(assignment);
                changed.last_known_user_space = Some(assignment.space);
                self.upsert_native_fullscreen_record(changed);
            }
        }
        before
    }

    /// Takes a window out of its workspace, which is returned.
    pub fn remove_window_assignment(&mut self, window_id: WindowId) -> (r: Option<
        WindowWorkspaceInfo,
    >)
        requires
            old(self).wf(),
        ensures
            final(self).wf(),
            r == old(self)@.workspace_of(window_id),
            final(self)@ == old(self)@.assignment_removed(window_id),
    {
        let before = self.workspace_info_for_window(window_id);
        if let Some(a) = before {
            self.record_mut(window_id).workspace = None;
            self.remove_window_from_workspace_index(window_id, a);
        }
        self.prune_window_record(window_id);
        before
    }

    /// Hands what was kept about `from` over to `to`, which is the same window
    /// under a new identity.
    pub fn transfer_persistent_window_metadata(&mut self, from: WindowId, to: WindowId)
        requires
            old(self).wf(),
        ensures
            final(self).wf(),
            final(self)@ == old(self)@.transferred(from, to),
    {
        if from == to {
            return;
        }
        let (workspace, rule_floating, placement, visibility, pending, generation) =
            match self.windows.get(from) {
            Some(record) => (
                record.workspace,
                record.rule_floating,
                record.placement,
                record.visibility,
                record.pending_operation,
                record.operation_generation,
            ),
            None => {
                return;
            },
        };
        let target_workspace = self.workspace_info_for_window(to);
        if let Some(a) = workspace {
            self.remove_window_from_workspace_index(from, a);
            if let Some(b) = target_workspace {
                self.remove_window_from_workspace_index(to, b);
            }
            self.add_window_to_workspace_index(to, a);
        }
        let target = self.record_mut(to);
        if workspace.is_some() {
            target.workspace = workspace;
        }
        target.rule_floating = target.rule_floating || rule_floating;
        target.placement = placement;
        target.visibility = visibility;
        target.pending_operation = pending;
        if target.operation_generation < generation {
            target.operation_generation = generation;
        }
        self.known.insert(to);
        let source = self.record_mut(from);
        source.workspace = None;
        source.rule_floating = false;
        source.pending_operation = None;
        if let Some(original) = self.native_fullscreen_original_window(from) {
            if let Some(record) = self.remove_native_fullscreen_record_by_original_window(
                original,
            ) {
                let mut changed = record;
                if changed.current_window_id == from {
                    changed.current_window_id = to;
                }
                changed.workspace = either(changed.workspace, workspace);
                changed.last_known_user_space = either(
                    changed.last_known_user_space,
                    match workspace {
                        Some(a) => Some(a.space),
                        None => None,
                    },
                );
                self.upsert_native_fullscreen_record(changed);
            }
        }
        self.prune_window_record(from);
    }

    /// The windows of a workspace, in order.
    pub fn workspace_windows(&self, space: SpaceId, workspace_id: VirtualWorkspaceId) -> (r: Vec<
        WindowId,
    >)
        requires
            self.wf(),
        ensures
            r@.no_duplicates(),
            r@.to_set() == self@.in_workspace(WindowWorkspaceInfo { space, workspace_id }),
            forall|i: int, j: int| 0 <= i < j < r@.len() ==> (#[trigger] r@[i]).le(#[trigger] r@[j]),
    {
        let workspace = WindowWorkspaceInfo { space, workspace_id };
        let all = self.assigned.to_vec();
        let mut out: Vec<WindowId> = Vec::new();
        let mut i: usize = 0;
        while i < all.len()
            invariant
                i <= all.len(),
                all@.no_duplicates(),
                workspace == (WindowWorkspaceInfo { space, workspace_id }),
                out@.no_duplicates(),
                forall|a: int, b: int|
                    0 <= a < b < out@.len() ==> (#[trigger] out@[a]).le(#[trigger] out@[b]),
                forall|w: WindowId| #[trigger]
                    out@.contains(w) <==> all@.take(i as int).contains(
                        Assignment { window: w, workspace },
                    ),
            decreases all.len() - i,
        {
            proof {
                lemma_take_contains(all@, i as int);
            }
            let a = all[i];
            if a.workspace == workspace {
                let ghost before = out@;
                assert(!before.contains(a.window)) by {
                    assert(a == (Assignment { window: a.window, workspace }));
                }
                insert_sorted(&mut out, a.window);
            }
            i += 1;
        }
        assert(all@.take(i as int) =~= all@);
        assert forall|w: WindowId| out@.to_set().contains(w) == self@.in_workspace(
            workspace,
        ).contains(w) by {
            assert(all@.to_set().contains(Assignment { window: w, workspace }) == all@.contains(
                Assignment { window: w, workspace },
            ));
        }
        assert(out@.to_set() =~= self@.in_workspace(workspace));
        out
    }

    pub fn workspace_window_count(&self, space: SpaceId, workspace_id: VirtualWorkspaceId) -> (r:
        usize)
        requires
            self.wf(),
        ensures
            r == self@.in_workspace(WindowWorkspaceInfo { space, workspace_id }).len(),
    {
        let windows = self.workspace_windows(space, workspace_id);
        proof {
            windows@.unique_seq_to_set();
        }
        windows.len()
    }

    pub fn has_workspace_assignments_in_space(&self, space: SpaceId) -> (r: bool)
        requires
            self.wf(),
        ensures
            r == exists|a: Assignment| #[trigger]
                self@.assigned.contains(a) && a.workspace.space == space,
    {
        let all = self.assigned.to_vec();
        let mut i: usize = 0;
        while i < all.len()
            invariant
                i <= all.len(),
                all@.to_set() == self@.assigned,
                forall|j: int| 0 <= j < i ==> (#[trigger] all@[j]).workspace.space != space,
            decreases all.len() - i,
        {
            if all[i].workspace.space == space {
                assert(all@.to_set().contains(all@[i as int]));
                return true;
            }
            i += 1;
        }
        assert forall|a: Assignment| #[trigger] self@.assigned.contains(a) implies a.workspace.space
            != space by {
            assert(all@.to_set().contains(a));
            let j = choose|j: int| 0 <= j < all@.len() && all@[j] == a;
            assert(all@[j] == a);
        }
        false
    }

    /// A space of the window of a window server number: that of its fullscreen
    /// record, else one that has the window.
    pub fn current_window_server_space_for_window(&self, window_id: WindowId) -> (r: Option<
        SpaceId,
    >)
        requires
            self.wf(),
        ensures
            match self@.fullscreen_of(window_id) {
                Some(NativeFullscreenRecord { window_server_id: Some(k), .. }) => r
                    == self@.server(k).space,
                _ => {
                    ||| exists|k: WindowServerId|
                        self@.server(k).window_id == Some(window_id) && r == (
                        #[trigger] self@.server(k)).space
                    ||| r is None && forall|k: WindowServerId|
                        (#[trigger] self@.server(k)).window_id != Some(window_id)
                },
            },
    {
        if let Some(record) = self.native_fullscreen_record_for_window(window_id) {
            if let Some(k) = record.window_server_id {
                return self.window_server_space(k);
            }
        }
        let keys = self.servers.keys();
        let mut i: usize = 0;
        while i < keys.len()
            invariant
                i <= keys.len(),
                self.wf(),
                forall|k: WindowServerId| keys@.contains(k) <==> self@.servers.contains_key(k),
                forall|j: int|
                    0 <= j < i ==> self@.server(#[trigger] keys@[j]).window_id != Some(window_id),
                !(self@.fullscreen_of(window_id) is Some && self@.fullscreen_of(
                    window_id,
                )->0.window_server_id is Some),
            decreases keys.len() - i,
        {
            let k = keys[i];
            if self.server(k).window_id == Some(window_id) {
                return self.window_server_space(k);
            }
            i += 1;
        }
        assert forall|k: WindowServerId| (#[trigger] self@.server(k)).window_id != Some(
            window_id,
        ) by {
            if self@.servers.contains_key(k) {
                assert(keys@.contains(k));
                let j = choose|j: int| 0 <= j < keys@.len() && keys@[j] == k;
                assert(keys@[j] == k);
            }
        }
        None
    }

    // ----- rules -----

    /// Sets whether a rule lets the window float. Returns what was set before.
    pub fn replace_rule_floating(&mut self, window_id: WindowId, value: bool) -> (r: bool)
        requires
            old(self).wf(),
        ensures
            final(self).wf(),
            r == old(self)@.record(window_id).rule_floating,
            final(self)@ == old(self)@.floating_replaced(window_id, value),
    {
        let record = self.record_mut(window_id);
        let previous = record.rule_floating;
        record.rule_floating = value;
        record.placement = if value {
            WindowPlacement::Floating
        } else {
            WindowPlacement::Tiled
        };
        self.prune_window_record(window_id);
        previous
    }

    pub fn clear_rule_floating(&mut self, window_id: WindowId)
        requires
            old(self).wf(),
        ensures
            final(self).wf(),
            final(self)@ == old(self)@.floating_cleared(window_id),
    {
        if self.windows.contains_key(window_id) {
            let record = self.record_mut(window_id);
            record.rule_floating = false;
            if record.placement == WindowPlacement::Floating {
                record.placement = WindowPlacement::Tiled;
            }
            self.prune_window_record(window_id);
        }
    }

    pub fn rule_floating(&self, window_id: WindowId) -> (r: bool)
        requires
            self.wf(),
        ensures
            r == self@.record(window_id).rule_floating,
    {
        match self.windows.get(window_id) {
            Some(record) => record.rule_floating,
            None => false,
        }
    }

    pub fn clear_rule_metadata(&mut self, window_id: WindowId)
        requires
            old(self).wf(),
        ensures
            final(self).wf(),
            final(self)@ == old(self)@.rules_cleared(window_id),
    {
        if self.windows.contains_key(window_id) {
            self.record_mut(window_id).rule_floating = false;
            self.prune_window_record(window_id);
        }
    }

    // ----- removal -----

    /// Forgets a window, but for a fullscreen record.
    pub fn remove_window(&mut self, window_id: WindowId)
        requires
            old(self).wf(),
        ensures
            final(self).wf(),
            final(self)@ == old(self)@.window_removed(window_id),
    {
        if let Some(record) = self.windows.remove(window_id) {
            if let Some(a) = record.workspace {
                self.remove_window_from_workspace_index(window_id, a);
            }
        }
        let keys = self.servers.keys();
        let ghost start = self@;
        let ghost goal = start.servers_without(window_id);
        let mut i: usize = 0;
        assert forall|j: int| 0 <= j < keys@.len() implies start.servers.contains_key(
            #[trigger] keys@[j],
        ) by {
            assert(keys@.contains(keys@[j]));
        }
        while i < keys.len()
            invariant
                i <= keys.len(),
                self.wf(),
                keys@.no_duplicates(),
                goal == start.servers_without(window_id),
                !start.windows.contains_key(window_id),
                forall|j: int|
                    0 <= j < keys@.len() ==> start.servers.contains_key(#[trigger] keys@[j]),
                forall|k: WindowServerId| keys@.contains(k) <==> start.servers.contains_key(k),
                self@ == (StoreView { servers: self@.servers, ..start }),
                forall|k: WindowServerId| #[trigger]
                    self@.servers.contains_key(k) ==> keys@.contains(k),
                forall|j: int|
                    0 <= j < i ==> view::value_of(self@.servers, #[trigger] keys@[j])
                        == view::value_of(goal, keys@[j]),
                forall|j: int|
                    i <= j < keys@.len() ==> view::value_of(self@.servers, #[trigger] keys@[j])
                        == view::value_of(start.servers, keys@[j]),
            decreases keys.len() - i,
        {
            let k = keys[i];
            let ghost before = self@;
            assert(view::value_of(before.servers, keys@[i as int]) == Some(start.servers[k]));
            if self.server(k).window_id == Some(window_id) {
                self.remove_window_server_state(k);
                assert(self@.windows == before.windows);
            }
            assert forall|j: int| 0 <= j < keys@.len() && j != i implies view::value_of(
                self@.servers,
                #[trigger] keys@[j],
            ) == view::value_of(before.servers, keys@[j]) by {
                assert(keys@[j] != k);
            }
            i += 1;
        }
        proof {
            assert forall|k: WindowServerId| view::value_of(self@.servers, k)
                == #[trigger] view::value_of(goal, k) by {
                if start.servers.contains_key(k) {
                    assert(keys@.contains(k));
                    let j = choose|j: int| 0 <= j < keys@.len() && keys@[j] == k;
                    assert(view::value_of(self@.servers, keys@[j]) == view::value_of(
                        goal,
                        keys@[j],
                    ));
                } else {
                    assert(!keys@.contains(k));
                    assert(!self@.servers.contains_key(k));
                }
            }
            lemma_same_map(self@.servers, goal);
        }
        self.known.remove(window_id);
        assert(self@.servers == goal);
    }

    /// Forgets a process: its windows, its fullscreen records, and what waits for
    /// its windows. Windows and records go in an order that the store chooses.
    pub fn remove_windows_for_app(&mut self, pid: Pid)
        requires
            old(self).wf(),
        ensures
            final(self).wf(),
            exists|windows: Seq<WindowId>, records: Seq<WindowId>|
                #![trigger old(self)@.lists_process(pid, windows), old(self)@.lists_fullscreens(
                    pid,
                    records,
                )]
                old(self)@.lists_process(pid, windows) && old(self)@.lists_fullscreens(
                    pid,
                    records,
                ) && final(self)@ == old(self)@.windows_removed(windows).fullscreens_removed(
                    records,
                ).pendings_dropped(pid),
    {
        let windows = self.window_ids_for_pid(pid);
        let mut i: usize = 0;
        assert(windows@.take(0) =~= Seq::empty());
        while i < windows.len()
            invariant
                i <= windows.len(),
                self.wf(),
                self@.fullscreen == old(self)@.fullscreen,
                self@ == old(self)@.windows_removed(windows@.take(i as int)),
            decreases windows.len() - i,
        {
            assert(windows@.take(i + 1).drop_last() =~= windows@.take(i as int));
            self.remove_window(windows[i]);
            i += 1;
        }
        assert(windows@.take(i as int) =~= windows@);
        let ghost between = self@;
        let keys = self.fullscreen.keys();
        let mut records: Vec<WindowId> = Vec::new();
        let mut k: usize = 0;
        while k < keys.len()
            invariant
                k <= keys.len(),
                keys@.no_duplicates(),
                records@.no_duplicates(),
                forall|w: WindowId| #[trigger]
                    records@.contains(w) <==> keys@.take(k as int).contains(w) && w.pid == pid,
            decreases keys.len() - k,
        {
            let ghost before = records@;
            proof {
                lemma_take_contains(keys@, k as int);
            }
            if keys[k].pid == pid {
                records.push(keys[k]);
                proof {
                    lemma_push_contains(before, keys@[k as int]);
                }
            }
            k += 1;
        }
        assert(keys@.take(k as int) =~= keys@);
        assert(old(self)@.lists_fullscreens(pid, records@));
        let mut m: usize = 0;
        assert(records@.take(0) =~= Seq::empty());
        while m < records.len()
            invariant
                m <= records.len(),
                self.wf(),
                self@ == between.fullscreens_removed(records@.take(m as int)),
            decreases records.len() - m,
        {
            assert(records@.take(m + 1).drop_last() =~= records@.take(m as int));
            self.remove_native_fullscreen_record_by_original_window(records[m]);
            m += 1;
        }
        assert(records@.take(m as int) =~= records@);
        self.drop_pendings(pid);
        assert(old(self)@.lists_process(pid, windows@));
    }

    fn drop_pendings(&mut self, pid: Pid)
        requires
            old(self).wf(),
        ensures
            final(self).wf(),
            final(self)@ == old(self)@.pendings_dropped(pid),
    {
        let keys = self.servers.keys();
        let ghost start = self@;
        let ghost goal = start.pendings_dropped(pid).servers;
        let mut i: usize = 0;
        assert forall|j: int| 0 <= j < keys@.len() implies start.servers.contains_key(
            #[trigger] keys@[j],
        ) by {
            assert(keys@.contains(keys@[j]));
        }
        while i < keys.len()
            invariant
                i <= keys.len(),
                self.wf(),
                keys@.no_duplicates(),
                goal == start.pendings_dropped(pid).servers,
                forall|j: int|
                    0 <= j < keys@.len() ==> start.servers.contains_key(#[trigger] keys@[j]),
                forall|k: WindowServerId| keys@.contains(k) <==> start.servers.contains_key(k),
                self@ == (StoreView { servers: self@.servers, ..start }),
                forall|k: WindowServerId| #[trigger]
                    self@.servers.contains_key(k) ==> keys@.contains(k),
                forall|j: int|
                    0 <= j < i ==> view::value_of(self@.servers, #[trigger] keys@[j])
                        == view::value_of(goal, keys@[j]),
                forall|j: int|
                    i <= j < keys@.len() ==> view::value_of(self@.servers, #[trigger] keys@[j])
                        == view::value_of(start.servers, keys@[j]),
            decreases keys.len() - i,
        {
            let k = keys[i];
            let ghost before = self@;
            assert(view::value_of(before.servers, keys@[i as int]) == Some(start.servers[k]));
            let record = self.server(k);
            if let Some(pending) = record.pending_native_fullscreen {
                if pending.pid == pid {
                    self.server_record_mut(k).pending_native_fullscreen = None;
                }
            }
            self.prune_window_server_record(k);
            assert forall|j: int| 0 <= j < keys@.len() && j != i implies view::value_of(
                self@.servers,
                #[trigger] keys@[j],
            ) == view::value_of(before.servers, keys@[j]) by {
                assert(keys@[j] != k);
            }
            i += 1;
        }
        proof {
            assert forall|k: WindowServerId| view::value_of(self@.servers, k)
                == #[trigger] view::value_of(goal, k) by {
                if start.servers.contains_key(k) {
                    assert(keys@.contains(k));
                    let j = choose|j: int| 0 <= j < keys@.len() && keys@[j] == k;
                    assert(view::value_of(self@.servers, keys@[j]) == view::value_of(
                        goal,
                        keys@[j],
                    ));
                } else {
                    assert(!keys@.contains(k));
                    assert(!self@.servers.contains_key(k));
                }
            }
            lemma_same_map(self@.servers, goal);
        }
    }

    // ----- spaces -----

    fn is_occupied(&self, list: &Vec<Assignment>, workspace: WindowWorkspaceInfo) -> (r: bool)
        requires
            list@.to_set() == self@.assigned,
        ensures
            r == self@.occupied(workspace),
    {
        let mut i: usize = 0;
        while i < list.len()
            invariant
                i <= list.len(),
                list@.to_set() == self@.assigned,
                forall|j: int| 0 <= j < i ==> (#[trigger] list@[j]).workspace != workspace,
            decreases list.len() - i,
        {
            if list[i].workspace == workspace {
                let ghost a = list@[i as int];
                assert(list@.to_set().contains(a));
                assert(a == (Assignment { window: a.window, workspace }));
                return true;
            }
            i += 1;
        }
        assert forall|w: WindowId| !self@.assigned.contains(
            Assignment { window: w, workspace },
        ) by {
            let a = Assignment { window: w, workspace };
            if self@.assigned.contains(a) {
                assert(list@.to_set().contains(a));
                let j = choose|j: int| 0 <= j < list@.len() && list@[j] == a;
                assert(list@[j] == a);
            }
        }
        false
    }

    /// The entry that an entry of the index becomes, if it is kept.
    fn remapped_entry(
        &self,
        list: &Vec<Assignment>,
        a: Assignment,
        from: SpaceId,
        to: SpaceId,
    ) -> (r: Option<Assignment>)
        requires
            list@.to_set() == self@.assigned,
            from != to,
        ensures
            r == (if a.workspace.space == from {
                Some(
                    Assignment {
                        workspace: WindowWorkspaceInfo { space: to, ..a.workspace },
                        ..a
                    },
                )
            } else if a.workspace.space == to && self@.occupied(
                WindowWorkspaceInfo { space: from, ..a.workspace },
            ) {
                None
            } else {
                Some(a)
            }),
    {
        let workspace_id = a.workspace.workspace_id;
        if a.workspace.space == from {
            Some(
                Assignment {
                    window: a.window,
                    workspace: WindowWorkspaceInfo { space: to, workspace_id },
                },
            )
        } else if a.workspace.space == to && self.is_occupied(
            list,
            WindowWorkspaceInfo { space: from, workspace_id },
        ) {
            None
        } else {
            Some(a)
        }
    }

    fn remap_assignments(&mut self, from: SpaceId, to: SpaceId)
        requires
            old(self).wf(),
            from != to,
        ensures
            final(self).wf(),
            final(self)@ == (StoreView {
                assigned: old(self)@.assigned_remapped(from, to),
                ..old(self)@
            }),
    {
        let list = self.assigned.to_vec();
        let mut next: VecSet<Assignment> = VecSet::new();
        let ghost kept = |a: Assignment|
            if a.workspace.space == from {
                Some(
                    Assignment {
                        workspace: WindowWorkspaceInfo { space: to, ..a.workspace },
                        ..a
                    },
                )
            } else if a.workspace.space == to && old(self)@.occupied(
                WindowWorkspaceInfo { space: from, ..a.workspace },
            ) {
                None
            } else {
                Some(a)
            };
        let mut i: usize = 0;
        while i < list.len()
            invariant
                i <= list.len(),
                from != to,
                self@ == old(self)@,
                self.wf(),
                list@.to_set() == self@.assigned,
                next.wf(),
                kept == (|a: Assignment|
                    if a.workspace.space == from {
                        Some(
                            Assignment {
                                workspace: WindowWorkspaceInfo { space: to, ..a.workspace },
                                ..a
                            },
                        )
                    } else if a.workspace.space == to && old(self)@.occupied(
                        WindowWorkspaceInfo { space: from, ..a.workspace },
                    ) {
                        None
                    } else {
                        Some(a)
                    }),
                forall|x: Assignment| #[trigger]
                    next@.contains(x) ==> exists|j: int|
                        0 <= j < i && kept(#[trigger] list@[j]) == Some(x),
                forall|j: int|
                    0 <= j < i && kept(#[trigger] list@[j]) is Some ==> next@.contains(
                        kept(list@[j])->0,
                    ),
            decreases list.len() - i,
        {
            let entry = self.remapped_entry(&list, list[i], from, to);
            assert(entry == kept(list@[i as int]));
            if let Some(a) = entry {
                next.insert(a);
            }
            i += 1;
        }
        proof {
            let goal = old(self)@.assigned_remapped(from, to);
            assert forall|x: Assignment| next@.contains(x) == goal.contains(x) by {
                if next@.contains(x) {
                    let j = choose|j: int| 0 <= j < i && kept(#[trigger] list@[j]) == Some(x);
                    let a = list@[j];
                    assert(list@.to_set().contains(a));
                    if a.workspace.space == from {
                        let w = WindowWorkspaceInfo { space: from, ..x.workspace };
                        assert(w == a.workspace);
                        assert(a == (Assignment { window: a.window, workspace: w }));
                        assert(old(self)@.occupied(w));
                        assert(a == (Assignment { workspace: w, ..x }));
                    }
                }
                if goal.contains(x) {
                    let w = WindowWorkspaceInfo { space: from, ..x.workspace };
                    let a = if x.workspace.space == to && old(self)@.occupied(w) {
                        Assignment { workspace: w, ..x }
                    } else {
                        x
                    };
                    assert(old(self)@.assigned.contains(a));
                    assert(list@.to_set().contains(a));
                    let j = choose|j: int| 0 <= j < list@.len() && list@[j] == a;
                    assert(kept(list@[j]) == Some(x));
                }
            }
            assert(next@ =~= goal);
        }
        self.assigned = next;
    }

    /// A space goes by another name. Windows that come along take the place of
    /// those that the index listed there.
    pub fn remap_space(&mut self, old_space: SpaceId, new_space: SpaceId)
        requires
            old(self).wf(),
        ensures
            final(self).wf(),
            final(self)@ == old(self)@.remapped(old_space, new_space),
    {
        if old_space == new_space {
            return;
        }
        self.remap_assignments(old_space, new_space);
        self.remap_records(old_space, new_space);
        self.remap_servers(old_space, new_space);
        assert(self@ =~= old(self)@.remapped(old_space, new_space));
    }

    fn remap_records(&mut self, from: SpaceId, to: SpaceId)
        requires
            old(self).wf(),
        ensures
            final(self).wf(),
            final(self)@ == (StoreView {
                windows: old(self)@.windows.map_values(
                    |r: WindowRecord| StoreView::renamed_record(r, from, to),
                ),
                ..old(self)@
            }),
    {
        let keys = self.windows.keys();
        let ghost start = self@;
        let mut i: usize = 0;
        while i < keys.len()
            invariant
                i <= keys.len(),
                self.wf(),
                keys@.no_duplicates(),
                forall|w: WindowId| keys@.contains(w) <==> start.windows.contains_key(w),
                self@ == (StoreView { windows: self@.windows, ..start }),
                self@.windows.dom() =~= start.windows.dom(),
                forall|j: int|
                    0 <= j < keys@.len() ==> self@.windows[#[trigger] keys@[j]] == (if j < i {
                        StoreView::renamed_record(start.windows[keys@[j]], from, to)
                    } else {
                        start.windows[keys@[j]]
                    }),
            decreases keys.len() - i,
        {
            let w = keys[i];
            assert(keys@.contains(w));
            assert(start.windows.contains_key(w));
            let record = self.record_mut(w);
            if let Some(a) = record.workspace {
                if a.space == from {
                    record.workspace = Some(
                        WindowWorkspaceInfo { space: to, workspace_id: a.workspace_id },
                    );
                }
            }
            if record.native_space == Some(from) {
                record.native_space = Some(to);
            }
            i += 1;
        }
        proof {
            let goal = start.windows.map_values(
                |r: WindowRecord| StoreView::renamed_record(r, from, to),
            );
            assert forall|w: WindowId| #[trigger] goal.contains_key(w) implies self@.windows[w]
                == goal[w] by {
                assert(keys@.contains(w));
                let j = choose|j: int| 0 <= j < keys@.len() && keys@[j] == w;
                assert(self@.windows[keys@[j]] == self@.windows[w]);
            }
            assert(goal.dom() =~= start.windows.dom());
            assert(self@.windows =~= goal);
        }
    }

    fn remap_servers(&mut self, from: SpaceId, to: SpaceId)
        requires
            old(self).wf(),
        ensures
            final(self).wf(),
            final(self)@ == (StoreView {
                servers: old(self)@.servers.map_values(
                    |r: ServerRecord| StoreView::renamed_server(r, from, to),
                ),
                ..old(self)@
            }),
    {
        let keys = self.servers.keys();
        let ghost start = self@;
        let mut i: usize = 0;
        while i < keys.len()
            invariant
                i <= keys.len(),
                self.wf(),
                keys@.no_duplicates(),
                forall|k: WindowServerId| keys@.contains(k) <==> start.servers.contains_key(k),
                self@ == (StoreView { servers: self@.servers, ..start }),
                self@.servers.dom() =~= start.servers.dom(),
                forall|j: int|
                    0 <= j < keys@.len() ==> self@.servers[#[trigger] keys@[j]] == (if j < i {
                        StoreView::renamed_server(start.servers[keys@[j]], from, to)
                    } else {
                        start.servers[keys@[j]]
                    }),
            decreases keys.len() - i,
        {
            let k = keys[i];
            assert(keys@.contains(k));
            assert(start.servers.contains_key(k));
            let record = self.server_record_mut(k);
            if record.space == Some(from) {
                record.space = Some(to);
            }
            i += 1;
        }
        proof {
            let goal = start.servers.map_values(
                |r: ServerRecord| StoreView::renamed_server(r, from, to),
            );
            assert forall|k: WindowServerId| #[trigger] goal.contains_key(k) implies self@.servers[k]
                == goal[k] by {
                assert(keys@.contains(k));
                let j = choose|j: int| 0 <= j < keys@.len() && keys@[j] == k;
                assert(self@.servers[keys@[j]] == self@.servers[k]);
            }
            assert(goal.dom() =~= start.servers.dom());
            assert(self@.servers =~= goal);
        }
    }

    /// Whether all indexes agree with each other.
    pub fn debug_assert_invariants(&self) -> (r: bool)
        requires
            self.wf(),
        ensures
            r == self@.sound(),
    {
        self.windows_are_sound() && self.known_are_sound() && self.servers_are_sound()
            && self.assignments_are_sound()
    }

    fn windows_are_sound(&self) -> (r: bool)
        requires
            self.wf(),
        ensures
            r == forall|w: WindowId| #[trigger]
                self@.windows.contains_key(w) ==> self@.window_sound(w),
    {
        let keys = self.windows.keys();
        let mut i: usize = 0;
        while i < keys.len()
            invariant
                i <= keys.len(),
                self.wf(),
                forall|w: WindowId| keys@.contains(w) <==> self@.windows.contains_key(w),
                forall|j: int| 0 <= j < i ==> self@.window_sound(#[trigger] keys@[j]),
            decreases keys.len() - i,
        {
            let w = keys[i];
            assert(keys@.contains(w));
            let record = self.windows.get(w).unwrap();
            let numbered = match record.window_server_id {
                Some(k) => self.tracked_window_id(k) == Some(w),
                None => true,
            };
            let listed = match record.workspace {
                Some(workspace) => self.assigned.contains(Assignment { window: w, workspace })
                    == record.state.is_some(),
                None => true,
            };
            if !self.known.contains(w) || !numbered || !listed {
                assert(self@.windows.contains_key(w) && !self@.window_sound(w));
                return false;
            }
            i += 1;
        }
        assert forall|w: WindowId| #[trigger] self@.windows.contains_key(
            w,
        ) implies self@.window_sound(w) by {
            assert(keys@.contains(w));
            let j = choose|j: int| 0 <= j < keys@.len() && keys@[j] == w;
            assert(self@.window_sound(keys@[j]));
        }
        true
    }

    fn known_are_sound(&self) -> (r: bool)
        requires
            self.wf(),
        ensures
            r == forall|w: WindowId| #[trigger]
                self@.known.contains(w) ==> self@.windows.contains_key(w),
    {
        let list = self.known.to_vec();
        let mut i: usize = 0;
        while i < list.len()
            invariant
                i <= list.len(),
                list@.to_set() == self@.known,
                forall|j: int| 0 <= j < i ==> self@.windows.contains_key(#[trigger] list@[j]),
            decreases list.len() - i,
        {
            if !self.windows.contains_key(list[i]) {
                assert(list@.to_set().contains(list@[i as int]));
                return false;
            }
            i += 1;
        }
        assert forall|w: WindowId| #[trigger] self@.known.contains(
            w,
        ) implies self@.windows.contains_key(w) by {
            assert(list@.to_set().contains(w));
            let j = choose|j: int| 0 <= j < list@.len() && list@[j] == w;
            assert(self@.windows.contains_key(list@[j]));
        }
        true
    }

    fn servers_are_sound(&self) -> (r: bool)
        requires
            self.wf(),
        ensures
            r == forall|k: WindowServerId| #[trigger]
                self@.servers.contains_key(k) ==> self@.server_sound(k),
    {
        let keys = self.servers.keys();
        let mut i: usize = 0;
        while i < keys.len()
            invariant
                i <= keys.len(),
                self.wf(),
                forall|k: WindowServerId| keys@.contains(k) <==> self@.servers.contains_key(k),
                forall|j: int| 0 <= j < i ==> self@.server_sound(#[trigger] keys@[j]),
            decreases keys.len() - i,
        {
            let k = keys[i];
            assert(keys@.contains(k));
            if let Some(w) = self.server(k).window_id {
                let back = match self.windows.get(w) {
                    Some(record) => record.window_server_id == Some(k),
                    None => false,
                };
                if !back {
                    assert(self@.servers.contains_key(k) && !self@.server_sound(k));
                    return false;
                }
            }
            i += 1;
        }
        assert forall|k: WindowServerId| #[trigger] self@.servers.contains_key(
            k,
        ) implies self@.server_sound(k) by {
            assert(keys@.contains(k));
            let j = choose|j: int| 0 <= j < keys@.len() && keys@[j] == k;
            assert(self@.server_sound(keys@[j]));
        }
        true
    }

    fn assignments_are_sound(&self) -> (r: bool)
        requires
            self.wf(),
        ensures
            r == forall|a: Assignment| #[trigger]
                self@.assigned.contains(a) ==> self@.assignment_sound(a),
    {
        let list = self.assigned.to_vec();
        let mut i: usize = 0;
        while i < list.len()
            invariant
                i <= list.len(),
                self.wf(),
                list@.to_set() == self@.assigned,
                forall|j: int| 0 <= j < i ==> self@.assignment_sound(#[trigger] list@[j]),
            decreases list.len() - i,
        {
            let a = list[i];
            let sound = match self.windows.get(a.window) {
                Some(record) => record.state.is_some() && record.workspace == Some(a.workspace),
                None => false,
            };
            if !sound {
                assert(list@.to_set().contains(a));
                assert(self@.assigned.contains(a) && !self@.assignment_sound(a));
                return false;
            }
            i += 1;
        }
        assert forall|a: Assignment| #[trigger] self@.assigned.contains(
            a,
        ) implies self@.assignment_sound(a) by {
            assert(list@.to_set().contains(a));
            let j = choose|j: int| 0 <= j < list@.len() && list@[j] == a;
            assert(self@.assignment_sound(list@[j]));
        }
        true
    }

    // ----- operations -----

    pub fn set_visibility(&mut self, window_id: WindowId, visibility: WindowVisibility)
        requires
            old(self).wf(),
        ensures
            final(self).wf(),
            final(self)@ == old(self)@.with_record(
                window_id,
                (WindowRecord { visibility, ..old(self)@.record(window_id) }),
            ).with_known(window_id),
    {
        self.record_mut(window_id).visibility = visibility;
        self.known.insert(window_id);
    }

    pub fn set_placement(&mut self, window_id: WindowId, placement: WindowPlacement)
        requires
            old(self).wf(),
        ensures
            final(self).wf(),
            final(self)@ == old(self)@.with_record(
                window_id,
                (WindowRecord { placement, ..old(self)@.record(window_id) }),
            ).with_known(window_id),
    {
        self.record_mut(window_id).placement = placement;
        self.known.insert(window_id);
    }

    /// Notes a request, in place of one that has not been confirmed.
    pub fn begin_operation(
        &mut self,
        window_id: WindowId,
        requested_frame: Option<Frame>,
        requested_space: Option<SpaceId>,
    ) -> (r: PendingWindowOperation)
        requires
            old(self).wf(),
        ensures
            final(self).wf(),
            r == (PendingWindowOperation {
                generation: view::next_generation(
                    old(self)@.record(window_id).operation_generation,
                ),
                requested_frame,
                requested_space,
            }),
            final(self)@ == old(self)@.operation_begun(
                window_id,
                requested_frame,
                requested_space,
            ),
    {
        let record = self.record_mut(window_id);
        record.operation_generation = record.operation_generation.wrapping_add(1);
        let operation = PendingWindowOperation {
            generation: record.operation_generation,
            requested_frame,
            requested_space,
        };
        record.pending_operation = Some(operation);
        self.known.insert(window_id);
        operation
    }

    /// Confirms the request with a number, if it is the one that is waited for.
    pub fn confirm_operation(&mut self, window_id: WindowId, generation: u64) -> (r: bool)
        requires
            old(self).wf(),
        ensures
            final(self).wf(),
            r == (old(self)@.record(window_id).pending_operation is Some && old(self)@.record(
                window_id,
            ).pending_operation->0.generation == generation),
            final(self)@ == (if r {
                old(self)@.with_record(
                    window_id,
                    (WindowRecord { pending_operation: None, ..old(self)@.record(window_id) }),
                )
            } else {
                old(self)@
            }),
    {
        let waited = match self.windows.get(window_id) {
            Some(record) => match record.pending_operation {
                Some(operation) => operation.generation == generation,
                None => false,
            },
            None => false,
        };
        if waited {
            self.record_mut(window_id).pending_operation = None;
        }
        waited
    }
}

} // verus!
