//! What the store remembers of a window after each kind of news.

use vstd::prelude::*;

use crate::actor::{Pid, WindowId};
use crate::geometry::Frame;
use crate::model::reactor::WindowState;
use crate::model::window_store::view::{
    NativeFullscreenTransition, StoreView, WindowPlacement, WindowWorkspaceInfo,
};
use crate::sys::{SpaceId, WindowServerId};

verus! {

/// All windows but one have the records that they had.
pub open spec fn others_kept(s: StoreView, t: StoreView, w: WindowId) -> bool {
    forall|x: WindowId| x != w ==> #[trigger] t.record(x) == s.record(x)
}

/// A window that enters native fullscreen is found there under its number and under its
/// own name. The user space it came from is that of its workspace, else the one named
/// with the news, else the one known before. What was known of its number and its
/// workspace stays known.
pub proof fn law_enters_fullscreen(
    s: StoreView,
    w: WindowId,
    k: Option<WindowServerId>,
    fallback: Option<SpaceId>,
    space: SpaceId,
    transition: NativeFullscreenTransition,
)
    ensures
        ({
            let r = s.suspension(w, k, fallback, space, transition);
            let t = s.suspended(w, r);
            let before = s.fullscreen_of(w);
            &&& t.fullscreen_of(w) == Some(r)
            &&& t.record(w).placement is NativeFullscreen
            &&& others_kept(s, t, w)
            &&& r.current_window_id == w
            &&& r.fullscreen_space == space
            &&& r.transition == transition
            &&& !s.fullscreen.contains_key(w) && !s.by_current.contains_key(w)
                ==> r.original_window_id == w
            &&& !s.fullscreen.contains_key(w) && s.by_current.contains_key(w)
                ==> r.original_window_id == s.by_current[w]
            &&& k is Some ==> r.window_server_id == k && t.fullscreen_of_server(k->0) == Some(r)
            &&& k is None && before is Some ==> r.window_server_id == before->0.window_server_id
            &&& s.workspace_of(w) is Some ==> r.workspace == s.workspace_of(w)
                && r.last_known_user_space == Some(s.workspace_of(w)->0.space)
            &&& s.workspace_of(w) is None && before is Some ==> r.workspace == before->0.workspace
            &&& s.workspace_of(w) is None && fallback is Some ==> r.last_known_user_space
                == fallback
            &&& s.workspace_of(w) is None && fallback is None && before is Some
                ==> r.last_known_user_space == before->0.last_known_user_space
            &&& s.workspace_of(w) is None && fallback is None && before is None
                ==> r.last_known_user_space is None
        }),
{
}

/// News of a number that enters native fullscreen waits for its window. The space named
/// with the news counts before the one known before.
pub proof fn law_number_enters_fullscreen(
    s: StoreView,
    pid: Pid,
    k: WindowServerId,
    fallback: Option<SpaceId>,
    space: SpaceId,
    transition: NativeFullscreenTransition,
)
    ensures
        ({
            let p = s.server_suspension(pid, k, fallback, space, transition);
            &&& p.pid == pid
            &&& p.fullscreen_space == space
            &&& p.transition == transition
            &&& fallback is Some ==> p.last_known_user_space == fallback
            &&& fallback is None ==> p.last_known_user_space == (match s.pending_of(k) {
                Some(waiting) => waiting.last_known_user_space,
                None => None,
            })
        }),
{
}

/// A window that is back from native fullscreen floats if a rule says so and is tiled
/// else.
pub proof fn law_back_from_fullscreen(s: StoreView, w: WindowId, c: WindowId)
    requires
        s.fullscreen_of(w) is Some,
        s.fullscreen_of(w)->0.current_window_id == c,
        s.windows.contains_key(c),
    ensures
        ({
            let t = s.restored(w);
            &&& t.record(c).rule_floating == s.record(c).rule_floating
            &&& t.record(c).placement is Floating <==> s.record(c).rule_floating
            &&& t.record(c).placement is Tiled <==> !s.record(c).rule_floating
            &&& t.record(c).workspace == s.record(c).workspace
            &&& t.record(c).state == s.record(c).state
            &&& others_kept(s, t, c)
        }),
{
}

/// A window that is noted has the state that came with the news, and stays in its
/// workspace.
pub proof fn law_noted_state(s: StoreView, w: WindowId, state: WindowState)
    ensures
        s.window_inserted(w, state).record(w).state == Some(state),
        s.window_inserted(w, state).record(w).workspace == s.record(w).workspace,
        s.window_inserted(w, state).record(w).rule_floating == s.record(w).rule_floating,
{
}

/// What a rule says of floating is remembered, and the window is placed so.
pub proof fn law_told_to_float(s: StoreView, w: WindowId, value: bool)
    ensures
        ({
            let t = s.floating_replaced(w, value);
            &&& t.record(w).rule_floating == value
            &&& t.record(w).placement == (if value {
                WindowPlacement::Floating
            } else {
                WindowPlacement::Tiled
            })
            &&& t.record(w).state == s.record(w).state
            &&& t.record(w).workspace == s.record(w).workspace
            &&& others_kept(s, t, w)
        }),
        ({
            let t = s.floating_cleared(w);
            &&& !t.record(w).rule_floating
            &&& !(t.record(w).placement is Floating) || !s.windows.contains_key(w)
            &&& s.record(w).state is Some && !(s.record(w).placement is Floating) ==> t.record(
                w,
            ).placement == s.record(w).placement
            &&& t.record(w).workspace == s.record(w).workspace
            &&& others_kept(s, t, w)
        }),
        ({
            let t = s.rules_cleared(w);
            &&& !t.record(w).rule_floating
            &&& s.record(w).state is Some ==> t.record(w).placement == s.record(w).placement
            &&& others_kept(s, t, w)
        }),
{
}

/// A window under a new identity is placed and seen as before, floats if a rule said so
/// of either identity, and its requests are numbered on. The new identity keeps its own
/// state and number.
pub proof fn law_new_identity(s: StoreView, from: WindowId, to: WindowId)
    requires
        from != to,
        s.windows.contains_key(from),
    ensures
        ({
            let t = s.transferred(from, to);
            let a = s.record(from);
            let b = s.record(to);
            let c = t.record(to);
            &&& c.placement == a.placement
            &&& c.visibility == a.visibility
            &&& c.rule_floating == (a.rule_floating || b.rule_floating)
            &&& c.operation_generation >= a.operation_generation
            &&& c.operation_generation >= b.operation_generation
            &&& c.operation_generation == a.operation_generation || c.operation_generation
                == b.operation_generation
            &&& c.state == b.state
            &&& c.window_server_id == b.window_server_id
            &&& a.workspace is None ==> c.workspace == b.workspace
            &&& !t.record(from).rule_floating
            &&& forall|x: WindowId|
                x != from && x != to ==> #[trigger] t.record(x) == s.record(x)
        }),
{
}

/// A request is remembered with what it asked for, under a number of its own.
pub proof fn law_request(
    s: StoreView,
    w: WindowId,
    frame: Option<Frame>,
    space: Option<SpaceId>,
)
    ensures
        ({
            let t = s.operation_begun(w, frame, space);
            let p = t.record(w).pending_operation;
            &&& p is Some
            &&& p->0.requested_frame == frame
            &&& p->0.requested_space == space
            &&& p->0.generation == t.record(w).operation_generation
            &&& p->0.generation != s.record(w).operation_generation
            &&& s.record(w).operation_generation < u64::MAX ==> p->0.generation == s.record(
                w,
            ).operation_generation + 1
            &&& t.record(w).placement == s.record(w).placement
            &&& others_kept(s, t, w)
        }),
{
}

/// The space of a number is that of its window too.
pub proof fn law_space_of_number(s: StoreView, k: WindowServerId, space: Option<SpaceId>)
    ensures
        s.server(k).window_id matches Some(w) ==> {
            let t = s.server_space_set(k, space);
            &&& t.record(w).native_space == space
            &&& t.record(w).workspace == s.record(w).workspace
            &&& others_kept(s, t, w)
        },
        s.server(k).window_id is None ==> s.server_space_set(k, space).windows == s.windows,
        forall|j: WindowServerId|
            j != k ==> #[trigger] s.server_space_set(k, space).server(j) == s.server(j),
{
}

/// A space that goes by another name does so for every window on it, and for no other.
pub proof fn law_space_renamed(s: StoreView, from: SpaceId, to: SpaceId, w: WindowId)
    requires
        from != to,
    ensures
        ({
            let t = s.remapped(from, to);
            let a = s.record(w).workspace;
            &&& a is Some && a->0.space == from ==> t.record(w).workspace == Some(
                (WindowWorkspaceInfo { space: to, workspace_id: a->0.workspace_id }),
            )
            &&& a is None || a->0.space != from ==> t.record(w).workspace == a
            &&& t.record(w).native_space == (if s.record(w).native_space == Some(from) {
                Some(to)
            } else {
                s.record(w).native_space
            })
            &&& t.record(w).state == s.record(w).state
            &&& t.record(w).placement == s.record(w).placement
        }),
        forall|k: WindowServerId|
            (#[trigger] s.remapped(from, to).server(k)).space == (if s.server(k).space == Some(
                from,
            ) {
                Some(to)
            } else {
                s.server(k).space
            }),
{
}

/// Giving up a number, and forgetting or taking a window out of its workspace, leaves the
/// other windows alone. A fullscreen that waits for a number goes on waiting.
pub proof fn law_leaves_others(s: StoreView, k: WindowServerId, w: WindowId)
    ensures
        others_kept(s, s.window_removed(w), w),
        others_kept(s, s.assignment_removed(w), w),
        s.server(k).window_id == Some(w) ==> others_kept(s, s.server_cleared(k), w),
        s.server_cleared(k).pending_of(k) == s.pending_of(k),
        !s.server_cleared(k).server(k).visible,
        s.server_cleared(k).server(k).info is None,
        s.record(w).state is Some ==> s.assignment_removed(w).record(w).state == s.record(w).state,
{
}

/// Showing and hiding a number is noted for it and for its window, and for no other.
pub proof fn law_seen(s: StoreView, k: WindowServerId)
    ensures
        s.server(k).window_id matches Some(w) ==> {
            &&& s.marked_visible(k).record(w).visibility is Visible
            &&& others_kept(s, s.marked_visible(k), w)
            &&& s.servers.contains_key(k) ==> s.marked_hidden(k).record(w).visibility is Hidden
            &&& others_kept(s, s.marked_hidden(k), w)
        },
        forall|j: WindowServerId|
            j != k ==> #[trigger] s.marked_visible(k).server(j) == s.server(j),
        forall|j: WindowServerId|
            j != k ==> #[trigger] s.marked_hidden(k).server(j) == s.server(j),
{
}

/// Of a list of numbers that are shown, or hidden, each is; the others stay as they were.
pub proof fn law_all_seen(s: StoreView, ks: Seq<WindowServerId>, k: WindowServerId)
    ensures
        ks.contains(k) ==> s.all_marked_visible(ks).server(k).visible,
        ks.contains(k) ==> !s.all_marked_hidden(ks).server(k).visible,
        !ks.contains(k) ==> s.all_marked_visible(ks).server(k) == s.server(k),
        !ks.contains(k) ==> s.all_marked_hidden(ks).server(k) == s.server(k),
    decreases ks.len(),
{
    if ks.len() > 0 {
        let front = ks.drop_last();
        let last = ks.last();
        law_all_seen(s, front, k);
        law_seen(s.all_marked_visible(front), last);
        law_seen(s.all_marked_hidden(front), last);
        assert(ks.contains(k) <==> front.contains(k) || k == last) by {
            assert(ks[ks.len() - 1] == last);
            if front.contains(k) {
                let i = choose|i: int| 0 <= i < front.len() && front[i] == k;
                assert(ks[i] == k);
            }
            if ks.contains(k) && k != last {
                let i = choose|i: int| 0 <= i < ks.len() && ks[i] == k;
                assert(front[i] == k);
            }
        }
    }
}

} // verus!
