//! What holds of the store whatever happens to it.

use vstd::prelude::*;

use crate::actor::{Pid, WindowId};
use crate::geometry::Frame;
use crate::model::reactor::WindowState;
use crate::model::window_store::view;
use crate::model::window_store::view::{
    Assignment, NativeFullscreenRecord, ServerRecord, StoreView, WindowRecord, WindowVisibility,
    WindowWorkspaceInfo,
};
use crate::sys::{SpaceId, WindowServerId};

verus! {

/// Windows and the identities that processes own are the same.
pub open spec fn owned(s: StoreView) -> bool {
    forall|w: WindowId| #[trigger] s.windows.contains_key(w) <==> #[trigger] s.known.contains(w)
}

/// Windows and their numbers at the window server lead to each other.
pub open spec fn numbered(s: StoreView) -> bool {
    &&& forall|w: WindowId| #[trigger]
        s.windows.contains_key(w) ==> (s.windows[w].window_server_id matches Some(k)
            ==> s.servers.contains_key(k) && s.servers[k].window_id == Some(w))
    &&& forall|k: WindowServerId| #[trigger]
        s.servers.contains_key(k) ==> (s.servers[k].window_id matches Some(w)
            ==> s.windows.contains_key(w) && s.windows[w].window_server_id == Some(k))
}

/// The index of workspaces lists a window exactly where its record says it is.
pub open spec fn listed(s: StoreView) -> bool {
    forall|a: Assignment| #[trigger]
        s.assigned.contains(a) <==> s.windows.contains_key(a.window)
            && s.windows[a.window].workspace == Some(a.workspace)
}

/// A fullscreen record that a window or a number leads to exists and names it.
pub open spec fn traceable(s: StoreView) -> bool {
    &&& forall|o: WindowId| #[trigger]
        s.fullscreen.contains_key(o) ==> s.fullscreen[o].original_window_id == o
    &&& forall|w: WindowId| #[trigger]
        s.by_current.contains_key(w) ==> s.fullscreen.contains_key(s.by_current[w])
            && s.fullscreen[s.by_current[w]].current_window_id == w
    &&& forall|k: WindowServerId| #[trigger]
        s.by_server.contains_key(k) ==> s.fullscreen.contains_key(s.by_server[k])
            && s.fullscreen[s.by_server[k]].window_server_id == Some(k)
}

/// The indexes of the store agree.
pub open spec fn linked(s: StoreView) -> bool {
    owned(s) && numbered(s) && listed(s) && traceable(s)
}

/// A new store is linked.
pub proof fn law_empty()
    ensures
        linked(StoreView::empty()),
{
}

/// Fullscreen records stay traceable when one is stored or removed.
pub proof fn law_fullscreen(s: StoreView, record: NativeFullscreenRecord, original: WindowId)
    requires
        linked(s),
    ensures
        linked(s.upserted(record)),
        linked(s.fullscreen_removed(original)),
        original == record.original_window_id ==> linked(
            s.fullscreen_removed(original).upserted(record),
        ),
{
    let t = s.fullscreen_removed(original);
    assert(linked(t));
}

/// A change of a fullscreen record that keeps the window it started with leaves
/// the indexes in agreement.
proof fn lemma_changed(
    s: StoreView,
    w: WindowId,
    change: spec_fn(NativeFullscreenRecord) -> NativeFullscreenRecord,
)
    requires
        linked(s),
        forall|r: NativeFullscreenRecord|
            (#[trigger] change(r)).original_window_id == r.original_window_id,
    ensures
        linked(s.fullscreen_changed(w, change)),
{
    match s.original_of(w) {
        Some(o) => {
            if s.fullscreen.contains_key(o) {
                law_fullscreen(s, change(s.fullscreen[o]), o);
            }
        },
        None => {},
    }
}

/// A record of a window can change in all but its number and its workspace.
proof fn lemma_record(s: StoreView, w: WindowId, record: WindowRecord)
    requires
        linked(s),
        record.window_server_id == s.record(w).window_server_id,
        record.workspace == s.record(w).workspace,
    ensures
        linked(s.with_record(w, record).with_known(w)),
        s.windows.contains_key(w) ==> linked(s.with_record(w, record)),
{
    let t = s.with_record(w, record).with_known(w);
    assert(numbered(t)) by {
        assert forall|k: WindowServerId| #[trigger] t.servers.contains_key(k) implies (
        t.servers[k].window_id matches Some(x) ==> t.windows.contains_key(x)
            && t.windows[x].window_server_id == Some(k)) by {
            assert(s.servers.contains_key(k));
        }
    }
    assert(listed(t));
    if s.windows.contains_key(w) {
        assert(s.known.insert(w) =~= s.known);
        assert(s.with_record(w, record) =~= t);
    }
}

/// A record of the window server can change in all but its window.
proof fn lemma_server(s: StoreView, k: WindowServerId, record: ServerRecord)
    requires
        linked(s),
        record.window_id == s.server(k).window_id,
    ensures
        linked(s.with_server(k, record)),
        linked(s.with_server(k, record).server_pruned(k)),
{
    let t = s.with_server(k, record);
    assert(numbered(t));
    assert(linked(t));
    let u = t.server_pruned(k);
    assert(numbered(u)) by {
        assert forall|w: WindowId| #[trigger] u.windows.contains_key(w) implies (
        u.windows[w].window_server_id matches Some(j) ==> u.servers.contains_key(j)
            && u.servers[j].window_id == Some(w)) by {
            assert(t.windows.contains_key(w));
        }
    }
}

proof fn lemma_server_pruned(s: StoreView, k: WindowServerId)
    requires
        linked(s),
    ensures
        linked(s.server_pruned(k)),
{
    if s.servers.contains_key(k) {
        lemma_server(s, k, s.servers[k]);
        assert(s.with_server(k, s.servers[k]) =~= s);
    }
}

proof fn lemma_window_pruned(s: StoreView, w: WindowId)
    requires
        linked(s),
    ensures
        linked(s.window_pruned(w)),
{
    let t = s.window_pruned(w);
    assert(numbered(t)) by {
        assert forall|k: WindowServerId| #[trigger] t.servers.contains_key(k) implies (
        t.servers[k].window_id matches Some(x) ==> t.windows.contains_key(x)
            && t.windows[x].window_server_id == Some(k)) by {
            assert(s.servers.contains_key(k));
        }
    }
    assert(listed(t)) by {
        assert forall|a: Assignment| #[trigger] t.assigned.contains(a) <==> t.windows.contains_key(
            a.window,
        ) && t.windows[a.window].workspace == Some(a.workspace) by {
            assert(s.assigned.contains(a) == t.assigned.contains(a));
        }
    }
}

/// A window that gets a number at the window server leaves the indexes in
/// agreement: no number leads to two windows, and no window keeps two numbers.
pub proof fn law_bound(s: StoreView, k: WindowServerId, w: WindowId)
    requires
        linked(s),
    ensures
        linked(s.bound(k, w)),
        s.bound(k, w).server(k).window_id == Some(w),
        s.bound(k, w).record(w).window_server_id == Some(k),
        forall|x: WindowId|
            x != w ==> (#[trigger] s.bound(k, w).record(x)).window_server_id != Some(k),
        forall|j: WindowServerId|
            j != k ==> (#[trigger] s.bound(k, w).server(j)).window_id != Some(w),
{
    let t = s.bound(k, w);
    assert forall|x: WindowId| x != w implies (#[trigger] t.record(x)).window_server_id != Some(
        k,
    ) by {
        assert(s.windows.contains_key(x) == t.windows.contains_key(x));
    }
    assert forall|j: WindowServerId| j != k implies (#[trigger] t.server(j)).window_id != Some(
        w,
    ) by {
        if t.servers.contains_key(j) {
            assert(s.servers.contains_key(j));
        }
    }
    assert(owned(t));
    assert(numbered(t)) by {
        assert forall|x: WindowId| #[trigger] t.windows.contains_key(x) implies (
        t.windows[x].window_server_id matches Some(j) ==> t.servers.contains_key(j)
            && t.servers[j].window_id == Some(x)) by {
            if x != w {
                assert(s.windows.contains_key(x));
                assert(t.record(x).window_server_id != Some(k));
            }
        }
        assert forall|j: WindowServerId| #[trigger] t.servers.contains_key(j) implies (
        t.servers[j].window_id matches Some(x) ==> t.windows.contains_key(x)
            && t.windows[x].window_server_id == Some(j)) by {
            if j != k {
                assert(s.servers.contains_key(j));
                assert(t.server(j).window_id != Some(w));
            }
        }
    }
    assert(listed(t)) by {
        assert forall|a: Assignment| #[trigger] t.assigned.contains(a) <==> t.windows.contains_key(
            a.window,
        ) && t.windows[a.window].workspace == Some(a.workspace) by {
            assert(s.assigned.contains(a) == t.assigned.contains(a));
        }
    }
}

/// Entering native fullscreen leaves the indexes in agreement.
pub proof fn law_suspended(s: StoreView, w: WindowId, record: NativeFullscreenRecord)
    requires
        linked(s),
    ensures
        linked(s.suspended(w, record)),
{
    let r = WindowRecord { placement: view::WindowPlacement::NativeFullscreen, ..s.record(w) };
    lemma_record(s, w, r);
    law_fullscreen(s.with_record(w, r).with_known(w), record, w);
}

/// Noting a number leaves the indexes in agreement, whatever waited for it.
pub proof fn law_numbered(s: StoreView, k: WindowServerId, w: WindowId)
    requires
        linked(s),
    ensures
        linked(s.numbered(k, w)),
        s.numbered(k, w).server(k).window_id == Some(w),
{
    law_bound(s, k, w);
    let t = s.bound(k, w);
    match s.server(k).pending_native_fullscreen {
        Some(p) => {
            if p.pid == w.pid {
                let record = t.suspension(
                    w,
                    Some(k),
                    p.last_known_user_space,
                    p.fullscreen_space,
                    p.transition,
                );
                law_suspended(t, w, record);
                lemma_server_pruned(t.suspended(w, record), k);
            } else {
                lemma_server_pruned(t, k);
            }
        },
        None => {
            let change = |r: NativeFullscreenRecord|
                NativeFullscreenRecord { window_server_id: Some(k), ..r };
            lemma_changed(t, w, change);
            lemma_server_pruned(t.fullscreen_changed(w, change), k);
        },
    }
}

/// A fullscreen that waited for a number goes to the window that gets it, if the
/// process is the same, and to no other.
pub proof fn law_pending_is_used_up(s: StoreView, k: WindowServerId, w: WindowId)
    requires
        linked(s),
    ensures
        s.numbered(k, w).pending_of(k) is None,
        s.server(k).pending_native_fullscreen matches Some(p) ==> p.pid == w.pid ==> s.numbered(
            k,
            w,
        ).fullscreen_of_server(k) is Some && s.numbered(k, w).fullscreen_of_server(
            k,
        )->0.current_window_id == w,
        s.server(k).pending_native_fullscreen matches Some(p) ==> p.pid != w.pid ==> s.numbered(
            k,
            w,
        ).fullscreen == s.fullscreen,
{
}

/// The visibility of windows can be noted one after the other.
pub proof fn law_visibility(s: StoreView, k: WindowServerId)
    requires
        linked(s),
    ensures
        linked(s.marked_visible(k)),
        linked(s.marked_hidden(k)),
        s.marked_visible(k).server(k).visible,
        !s.marked_hidden(k).server(k).visible,
{
    let a = s.with_server(k, ServerRecord { visible: true, ..s.server(k) });
    lemma_server(s, k, ServerRecord { visible: true, ..s.server(k) });
    match a.server(k).window_id {
        Some(w) => {
            lemma_record(
                a,
                w,
                WindowRecord { visibility: WindowVisibility::Visible, ..a.record(w) },
            );
        },
        None => {},
    }
    if s.servers.contains_key(k) {
        let b = s.with_server(k, s.servers[k].hidden());
        lemma_server(s, k, s.servers[k].hidden());
        match b.server(k).window_id {
            Some(w) => {
                lemma_record(
                    b,
                    w,
                    WindowRecord { visibility: WindowVisibility::Hidden, ..b.record(w) },
                );
            },
            None => {},
        }
        lemma_server_pruned(b.shown(k, WindowVisibility::Hidden), k);
    }
}

/// All windows can be hidden, or a list of them shown.
pub proof fn law_visibilities(s: StoreView, ks: Seq<WindowServerId>)
    requires
        linked(s),
    ensures
        linked(s.all_marked_visible(ks)),
        linked(s.all_marked_hidden(ks)),
    decreases ks.len(),
{
    if ks.len() > 0 {
        law_visibilities(s, ks.drop_last());
        law_visibility(s.all_marked_visible(ks.drop_last()), ks.last());
        law_visibility(s.all_marked_hidden(ks.drop_last()), ks.last());
    }
}

/// The space of a number can be noted. A record that holds nothing else lasts as
/// long as the space does.
pub proof fn law_server_space(s: StoreView, k: WindowServerId, space: Option<SpaceId>)
    requires
        linked(s),
    ensures
        linked(s.server_space_set(k, space)),
        s.server_space_set(k, space).server(k).space == space,
        space is Some ==> s.server_space_set(k, space).servers.contains_key(k),
        !s.servers.contains_key(k) ==> !s.server_space_set(k, None).servers.contains_key(k),
{
    let r = ServerRecord { space, ..s.server(k) };
    let t = s.with_server(k, r);
    lemma_server(s, k, r);
    match t.server(k).window_id {
        Some(w) => {
            lemma_record(t, w, WindowRecord { native_space: space, ..t.record(w) });
            lemma_server_pruned(
                t.with_record(w, WindowRecord { native_space: space, ..t.record(w) }),
                k,
            );
        },
        None => {
            lemma_server_pruned(t, k);
        },
    }
}

/// A number can be given up; no window has it then.
pub proof fn law_server_cleared(s: StoreView, k: WindowServerId)
    requires
        linked(s),
    ensures
        linked(s.server_cleared(k)),
        s.server_cleared(k).server(k).window_id is None,
        forall|w: WindowId| (#[trigger] s.server_cleared(k).record(w)).window_server_id != Some(k),
{
    let t = s.server_cleared(k);
    assert forall|w: WindowId| (#[trigger] t.record(w)).window_server_id != Some(k) by {
        assert(s.windows.contains_key(w) == t.windows.contains_key(w));
    }
    assert(numbered(t)) by {
        assert forall|x: WindowId| #[trigger] t.windows.contains_key(x) implies (
        t.windows[x].window_server_id matches Some(j) ==> t.servers.contains_key(j)
            && t.servers[j].window_id == Some(x)) by {
            assert(s.windows.contains_key(x));
            assert(t.record(x).window_server_id != Some(k));
        }
        assert forall|j: WindowServerId| #[trigger] t.servers.contains_key(j) implies (
        t.servers[j].window_id matches Some(x) ==> t.windows.contains_key(x)
            && t.windows[x].window_server_id == Some(j)) by {
            assert(s.servers.contains_key(j));
        }
    }
    assert(listed(t)) by {
        assert forall|a: Assignment| #[trigger] t.assigned.contains(a) <==> t.windows.contains_key(
            a.window,
        ) && t.windows[a.window].workspace == Some(a.workspace) by {
            assert(s.assigned.contains(a) == t.assigned.contains(a));
        }
    }
}

/// A window can be put in a workspace: it is listed there, and nowhere else.
pub proof fn law_assigned(s: StoreView, w: WindowId, workspace: WindowWorkspaceInfo)
    requires
        linked(s),
    ensures
        linked(s.assigned_to(w, workspace)),
        s.assigned_to(w, workspace).workspace_of(w) == Some(workspace),
        forall|b: WindowWorkspaceInfo| #[trigger]
            s.assigned_to(w, workspace).in_workspace(b).contains(w) <==> b == workspace,
        forall|x: WindowId|
            x != w ==> #[trigger] s.assigned_to(w, workspace).workspace_of(x) == s.workspace_of(x),
{
    let u = match s.workspace_of(w) {
        Some(a) => s.unindexed(w, a),
        None => s,
    };
    let t = u.with_record(
        w,
        WindowRecord { workspace: Some(workspace), ..u.record(w) },
    ).with_known(w).indexed(w, workspace);
    assert(numbered(t)) by {
        assert forall|k: WindowServerId| #[trigger] t.servers.contains_key(k) implies (
        t.servers[k].window_id matches Some(x) ==> t.windows.contains_key(x)
            && t.windows[x].window_server_id == Some(k)) by {
            assert(s.servers.contains_key(k));
        }
    }
    assert(listed(t)) by {
        assert forall|a: Assignment| #[trigger] t.assigned.contains(a) <==> t.windows.contains_key(
            a.window,
        ) && t.windows[a.window].workspace == Some(a.workspace) by {
            if a.window == w {
                if s.assigned.contains(a) {
                    assert(s.workspace_of(w) == Some(a.workspace));
                }
                assert(a == (Assignment { window: w, workspace: a.workspace }));
            } else {
                assert(s.assigned.contains(a) == t.assigned.contains(a));
            }
        }
    }
    let change = |r: NativeFullscreenRecord|
        NativeFullscreenRecord {
            workspace: Some(workspace),
            last_known_user_space: Some(workspace.space),
            ..r
        };
    lemma_changed(t, w, change);
    let end = s.assigned_to(w, workspace);
    assert(end == t.fullscreen_changed(w, change));
    assert forall|b: WindowWorkspaceInfo| #[trigger] end.in_workspace(b).contains(w) <==> b
        == workspace by {
        assert(end.assigned.contains(Assignment { window: w, workspace: b }) <==> end.windows[w].workspace
            == Some(b));
    }
}

/// A window can be taken out of its workspace.
pub proof fn law_unassigned(s: StoreView, w: WindowId)
    requires
        linked(s),
    ensures
        linked(s.assignment_removed(w)),
        s.assignment_removed(w).workspace_of(w) is None,
{
    match s.workspace_of(w) {
        Some(b) => {
            let t = s.with_record(w, WindowRecord { workspace: None, ..s.record(w) }).unindexed(
                w,
                b,
            );
            assert(numbered(t)) by {
                assert forall|k: WindowServerId| #[trigger] t.servers.contains_key(k) implies (
                t.servers[k].window_id matches Some(x) ==> t.windows.contains_key(x)
                    && t.windows[x].window_server_id == Some(k)) by {
                    assert(s.servers.contains_key(k));
                }
            }
            assert(listed(t)) by {
                assert forall|a: Assignment| #[trigger] t.assigned.contains(a)
                    <==> t.windows.contains_key(a.window) && t.windows[a.window].workspace == Some(
                    a.workspace,
                ) by {
                    if a.window == w {
                        if s.assigned.contains(a) {
                            assert(s.workspace_of(w) == Some(a.workspace));
                        }
                    } else {
                        assert(s.assigned.contains(a) == t.assigned.contains(a));
                    }
                }
            }
            assert(owned(t));
            lemma_window_pruned(t, w);
        },
        None => {
            lemma_window_pruned(s, w);
        },
    }
}

/// A window can be noted; one that was in a workspace stays in it.
pub proof fn law_inserted(s: StoreView, w: WindowId, state: WindowState)
    requires
        linked(s),
    ensures
        linked(s.window_inserted(w, state)),
{
    let r = WindowRecord { state: Some(state), ..s.record(w) };
    lemma_record(s, w, r);
    let t = s.with_record(w, r).with_known(w);
    let u = match s.record(w).workspace {
        Some(a) => t.indexed(w, a),
        None => t,
    };
    if s.record(w).workspace is Some {
        let a = s.record(w).workspace->0;
        assert(t.assigned.contains(Assignment { window: w, workspace: a }));
        assert(t.assigned.insert(Assignment { window: w, workspace: a }) =~= t.assigned);
        assert(u =~= t);
    }
    match state.info.sys_id {
        Some(k) => {
            law_numbered(u, k, w);
        },
        None => {},
    }
}

/// A window can be forgotten: no index names it then, and its fullscreen record
/// stays.
pub proof fn law_removed(s: StoreView, w: WindowId)
    requires
        linked(s),
    ensures
        linked(s.window_removed(w)),
        !s.window_removed(w).windows.contains_key(w),
        !s.window_removed(w).known.contains(w),
        forall|k: WindowServerId| (#[trigger] s.window_removed(w).server(k)).window_id != Some(w),
        forall|b: WindowWorkspaceInfo|
            !(#[trigger] s.window_removed(w).in_workspace(b)).contains(w),
        s.window_removed(w).fullscreen_of(w) == s.fullscreen_of(w),
{
    let t = s.window_removed(w);
    assert(numbered(t)) by {
        assert forall|x: WindowId| #[trigger] t.windows.contains_key(x) implies (
        t.windows[x].window_server_id matches Some(j) ==> t.servers.contains_key(j)
            && t.servers[j].window_id == Some(x)) by {
            assert(s.windows.contains_key(x));
        }
        assert forall|j: WindowServerId| #[trigger] t.servers.contains_key(j) implies (
        t.servers[j].window_id matches Some(x) ==> t.windows.contains_key(x)
            && t.windows[x].window_server_id == Some(j)) by {
            assert(s.servers.contains_key(j));
        }
    }
    assert(listed(t)) by {
        assert forall|a: Assignment| #[trigger] t.assigned.contains(a) <==> t.windows.contains_key(
            a.window,
        ) && t.windows[a.window].workspace == Some(a.workspace) by {
            if a.window == w {
                if s.assigned.contains(a) {
                    assert(s.workspace_of(w) == Some(a.workspace));
                }
            } else {
                assert(s.assigned.contains(a) == t.assigned.contains(a));
            }
        }
    }
    assert forall|b: WindowWorkspaceInfo| !(#[trigger] t.in_workspace(b)).contains(w) by {
        assert(!t.assigned.contains(Assignment { window: w, workspace: b }));
    }
}

/// What a window leaves behind goes to its new identity.
pub proof fn law_transferred(s: StoreView, from: WindowId, to: WindowId)
    requires
        linked(s),
    ensures
        linked(s.transferred(from, to)),
        from != to && s.workspace_of(from) is Some ==> {
            &&& s.transferred(from, to).workspace_of(to) == s.workspace_of(from)
            &&& s.transferred(from, to).workspace_of(from) is None
        },
        from != to && s.windows.contains_key(from) ==> s.transferred(from, to).record(
            to,
        ).pending_operation == s.windows[from].pending_operation,
        from != to && s.windows.contains_key(from) ==> s.transferred(from, to).record(
            from,
        ).pending_operation is None,
{
    if from != to && s.windows.contains_key(from) {
        let source = s.windows[from];
        let s1 = match source.workspace {
            Some(a) => {
                let u = s.unindexed(from, a);
                let v = match s.workspace_of(to) {
                    Some(b) => u.unindexed(to, b),
                    None => u,
                };
                v.indexed(to, a)
            },
            None => s,
        };
        let s2 = s1.with_record(to, StoreView::inherited(s1.record(to), source)).with_known(to);
        let s3 = s2.with_record(
            from,
            WindowRecord {
                workspace: None,
                rule_floating: false,
                pending_operation: None,
                ..s2.windows[from]
            },
        );
        assert(owned(s3));
        assert(numbered(s3)) by {
            assert forall|k: WindowServerId| #[trigger] s3.servers.contains_key(k) implies (
            s3.servers[k].window_id matches Some(x) ==> s3.windows.contains_key(x)
                && s3.windows[x].window_server_id == Some(k)) by {
                assert(s.servers.contains_key(k));
            }
        }
        assert(listed(s3)) by {
            assert forall|a: Assignment| #[trigger] s3.assigned.contains(a)
                <==> s3.windows.contains_key(a.window) && s3.windows[a.window].workspace == Some(
                a.workspace,
            ) by {
                assert(s.assigned.contains(a) <==> s.windows.contains_key(a.window)
                    && s.windows[a.window].workspace == Some(a.workspace));
                assert(a == (Assignment { window: a.window, workspace: a.workspace }));
            }
        }
        let change = |r: NativeFullscreenRecord|
            NativeFullscreenRecord {
                current_window_id: if r.current_window_id == from {
                    to
                } else {
                    r.current_window_id
                },
                workspace: view::either(r.workspace, source.workspace),
                last_known_user_space: view::either(
                    r.last_known_user_space,
                    match source.workspace {
                        Some(a) => Some(a.space),
                        None => None,
                    },
                ),
                ..r
            };
        lemma_changed(s3, from, change);
        lemma_window_pruned(s3.fullscreen_changed(from, change), from);
    }
}

/// What rules say can be noted and cleared. A window that is not known yet can
/// only be told not to float.
pub proof fn law_rules(s: StoreView, w: WindowId, value: bool)
    requires
        linked(s),
        s.windows.contains_key(w) || !value,
    ensures
        linked(s.floating_replaced(w, value)),
        linked(s.floating_cleared(w)),
        linked(s.rules_cleared(w)),
{
    let r = WindowRecord {
        rule_floating: value,
        placement: if value {
            view::WindowPlacement::Floating
        } else {
            view::WindowPlacement::Tiled
        },
        ..s.record(w)
    };
    if s.windows.contains_key(w) {
        lemma_record(s, w, r);
        lemma_window_pruned(s.with_record(w, r), w);
        let c = WindowRecord {
            rule_floating: false,
            placement: if s.windows[w].placement is Floating {
                view::WindowPlacement::Tiled
            } else {
                s.windows[w].placement
            },
            ..s.windows[w]
        };
        lemma_record(s, w, c);
        lemma_window_pruned(s.with_record(w, c), w);
        let d = WindowRecord { rule_floating: false, ..s.windows[w] };
        lemma_record(s, w, d);
        lemma_window_pruned(s.with_record(w, d), w);
    } else {
        let t = s.floating_replaced(w, value);
        assert(t.windows =~= s.windows);
        assert(t.known =~= s.known) by {
            assert(!s.known.contains(w));
        }
        assert(t =~= s);
    }
}

/// Requests, placements and visibilities can be noted.
pub proof fn law_noted(s: StoreView, w: WindowId, record: WindowRecord)
    requires
        linked(s),
        record.window_server_id == s.record(w).window_server_id,
        record.workspace == s.record(w).workspace,
    ensures
        linked(s.with_record(w, record).with_known(w)),
{
    lemma_record(s, w, record);
}

/// A confirmation of an older request does not end a newer one.
pub proof fn law_stale_confirmation(
    s: StoreView,
    w: WindowId,
    first: (Option<Frame>, Option<SpaceId>),
    second: (Option<Frame>, Option<SpaceId>),
)
    ensures
        ({
            let one = s.operation_begun(w, first.0, first.1);
            let two = one.operation_begun(w, second.0, second.1);
            two.record(w).pending_operation->0.generation != one.record(
                w,
            ).pending_operation->0.generation
        }),
{
}

/// A window comes back from native fullscreen.
pub proof fn law_restored(s: StoreView, w: WindowId)
    requires
        linked(s),
    ensures
        linked(s.restored(w)),
{
    match s.fullscreen_of(w) {
        Some(record) => {
            let o = s.original_of(w)->0;
            law_fullscreen(s, record, o);
            let t = s.fullscreen_removed(o);
            let c = record.current_window_id;
            if t.windows.contains_key(c) {
                lemma_record(
                    t,
                    c,
                    WindowRecord {
                        placement: if t.windows[c].rule_floating {
                            view::WindowPlacement::Floating
                        } else {
                            view::WindowPlacement::Tiled
                        },
                        ..t.windows[c]
                    },
                );
            }
        },
        None => {},
    }
}

/// A list of windows can be forgotten.
pub proof fn law_windows_removed(s: StoreView, ws: Seq<WindowId>)
    requires
        linked(s),
    ensures
        linked(s.windows_removed(ws)),
        forall|w: WindowId| #[trigger]
            s.windows_removed(ws).known.contains(w) <==> s.known.contains(w) && !ws.contains(w),
        s.windows_removed(ws).fullscreen == s.fullscreen,
    decreases ws.len(),
{
    if ws.len() > 0 {
        let rest = ws.drop_last();
        law_windows_removed(s, rest);
        law_removed(s.windows_removed(rest), ws.last());
        assert forall|w: WindowId| ws.contains(w) == (rest.contains(w) || w == ws.last()) by {
            if ws.contains(w) {
                let j = choose|j: int| 0 <= j < ws.len() && ws[j] == w;
                if j < rest.len() {
                    assert(rest[j] == w);
                }
            }
            if rest.contains(w) {
                let j = choose|j: int| 0 <= j < rest.len() && rest[j] == w;
                assert(ws[j] == w);
            }
            assert(ws[ws.len() - 1] == ws.last());
        }
    }
}

/// A list of fullscreen records can be removed.
proof fn lemma_fullscreens_removed(s: StoreView, ws: Seq<WindowId>)
    requires
        linked(s),
    ensures
        linked(s.fullscreens_removed(ws)),
        s.fullscreens_removed(ws).windows == s.windows,
        s.fullscreens_removed(ws).known == s.known,
        s.fullscreens_removed(ws).servers == s.servers,
        forall|w: WindowId| #[trigger]
            s.fullscreens_removed(ws).fullscreen.contains_key(w) <==> s.fullscreen.contains_key(w)
                && !ws.contains(w),
    decreases ws.len(),
{
    if ws.len() > 0 {
        let rest = ws.drop_last();
        lemma_fullscreens_removed(s, rest);
        let t = s.fullscreens_removed(rest);
        if t.fullscreen.contains_key(ws.last()) {
            law_fullscreen(t, t.fullscreen[ws.last()], ws.last());
        }
        assert forall|w: WindowId| ws.contains(w) == (rest.contains(w) || w == ws.last()) by {
            if ws.contains(w) {
                let j = choose|j: int| 0 <= j < ws.len() && ws[j] == w;
                if j < rest.len() {
                    assert(rest[j] == w);
                }
            }
            if rest.contains(w) {
                let j = choose|j: int| 0 <= j < rest.len() && rest[j] == w;
                assert(ws[j] == w);
            }
            assert(ws[ws.len() - 1] == ws.last());
        }
    }
}

/// A process can be forgotten: none of its windows, fullscreen records or
/// pending fullscreens is left, in whichever order they go.
pub proof fn law_process_removed(
    s: StoreView,
    pid: Pid,
    windows: Seq<WindowId>,
    records: Seq<WindowId>,
)
    requires
        linked(s),
        s.lists_process(pid, windows),
        s.lists_fullscreens(pid, records),
    ensures
        ({
            let t = s.windows_removed(windows).fullscreens_removed(records).pendings_dropped(pid);
            &&& linked(t)
            &&& forall|w: WindowId| #[trigger] t.windows.contains_key(w) ==> w.pid != pid
            &&& forall|w: WindowId| #[trigger] t.known.contains(w) ==> w.pid != pid
            &&& forall|w: WindowId| #[trigger] t.fullscreen.contains_key(w) ==> w.pid != pid
            &&& forall|k: WindowServerId|
                (#[trigger] t.server(k)).window_id matches Some(w) ==> w.pid != pid
            &&& forall|k: WindowServerId|
                (#[trigger] t.server(k)).pending_native_fullscreen matches Some(p) ==> p.pid != pid
        }),
{
    law_windows_removed(s, windows);
    let a = s.windows_removed(windows);
    lemma_fullscreens_removed(a, records);
    let b = a.fullscreens_removed(records);
    let t = b.pendings_dropped(pid);
    assert(numbered(t)) by {
        assert forall|x: WindowId| #[trigger] t.windows.contains_key(x) implies (
        t.windows[x].window_server_id matches Some(j) ==> t.servers.contains_key(j)
            && t.servers[j].window_id == Some(x)) by {
            assert(b.windows.contains_key(x));
        }
        assert forall|j: WindowServerId| #[trigger] t.servers.contains_key(j) implies (
        t.servers[j].window_id matches Some(x) ==> t.windows.contains_key(x)
            && t.windows[x].window_server_id == Some(j)) by {
            assert(b.servers.contains_key(j));
        }
    }
    assert(linked(t));
    assert forall|w: WindowId| #[trigger] t.windows.contains_key(w) implies w.pid != pid by {
        assert(t.known.contains(w));
    }
    assert forall|k: WindowServerId|
        (#[trigger] t.server(k)).window_id matches Some(w) implies t.server(
        k,
    ).window_id->0.pid != pid by {
        if t.servers.contains_key(k) {
            assert(t.windows.contains_key(t.servers[k].window_id->0));
        }
    }
}

/// A space can go by another name, unless windows are listed under both names in
/// one workspace.
pub proof fn law_remapped(s: StoreView, from: SpaceId, to: SpaceId)
    requires
        linked(s),
        forall|b: WindowWorkspaceInfo|
            b.space == from && s.occupied(b) ==> !#[trigger] s.occupied(
                WindowWorkspaceInfo { space: to, ..b },
            ),
    ensures
        linked(s.remapped(from, to)),
        from != to ==> forall|w: WindowId|
            (#[trigger] s.remapped(from, to).workspace_of(w)) matches Some(a) ==> a.space != from,
{
    if from != to {
        let t = s.remapped(from, to);
        assert(t.windows.dom() =~= s.windows.dom());
        assert(t.servers.dom() =~= s.servers.dom());
        assert(owned(t));
        assert(numbered(t)) by {
            assert forall|x: WindowId| #[trigger] t.windows.contains_key(x) implies (
            t.windows[x].window_server_id matches Some(j) ==> t.servers.contains_key(j)
                && t.servers[j].window_id == Some(x)) by {
                assert(s.windows.contains_key(x));
            }
            assert forall|j: WindowServerId| #[trigger] t.servers.contains_key(j) implies (
            t.servers[j].window_id matches Some(x) ==> t.windows.contains_key(x)
                && t.windows[x].window_server_id == Some(j)) by {
                assert(s.servers.contains_key(j));
            }
        }
        assert(listed(t)) by {
            assert forall|a: Assignment| #[trigger] t.assigned.contains(a)
                <==> t.windows.contains_key(a.window) && t.windows[a.window].workspace == Some(
                a.workspace,
            ) by {
                let b = WindowWorkspaceInfo { space: from, ..a.workspace };
                let origin = Assignment { window: a.window, workspace: b };
                assert(a == (Assignment { window: a.window, workspace: a.workspace }));
                assert(s.assigned.contains(a) <==> s.windows.contains_key(a.window)
                    && s.windows[a.window].workspace == Some(a.workspace));
                assert(s.assigned.contains(origin) <==> s.windows.contains_key(a.window)
                    && s.windows[a.window].workspace == Some(b));
                if a.workspace.space == to {
                    assert(a.workspace == (WindowWorkspaceInfo { space: to, ..b }));
                    if s.assigned.contains(a) {
                        assert(s.occupied(a.workspace));
                    }
                    if s.assigned.contains(origin) {
                        assert(s.occupied(b));
                    }
                }
            }
        }
    }
}

} // verus!
