//! What holds of the layouts of workspaces across operations.

use vstd::prelude::*;

use crate::actor::LayoutId;
use crate::layout_engine::workspaces::view;
use crate::layout_engine::workspaces::view::{
    InfoView, LayoutSource, LayoutStateError, LayoutsView, Size, WorkspaceRecord,
};
use crate::model::window_store::view::{VirtualWorkspaceId, WindowWorkspaceInfo};
use crate::sys::SpaceId;

verus! {

/// What was taken from a workspace can be put back: nothing changes if nothing
/// happened in between, and whatever happened to that workspace is undone.
pub proof fn law_restored(m: LayoutsView, at: WindowWorkspaceInfo, between: InfoView)
    requires
        m.contains_key(at),
    ensures
        m.insert(at, m[at]) == m,
        m.insert(at, between).insert(at, m[at]) == m,
{
    assert(m.insert(at, m[at]) =~= m);
    assert(m.insert(at, between).insert(at, m[at]) =~= m);
}

/// After layouts were replaced the new one is in use and saved, and no other is
/// kept.
pub proof fn law_replaced(size: Size, layout: LayoutId, other: LayoutId)
    ensures
        InfoView::replaced(size, layout).active() == Some(layout),
        InfoView::replaced(size, layout).active_size == size,
        InfoView::replaced(size, layout).keeps(other) ==> other == layout,
{
}

/// A workspace that got its display uses the layout it was given, and keeps the
/// layouts for other displays.
pub proof fn law_settled(info: InfoView, size: Size, layout: LayoutId, other: Size)
    ensures
        info.settled(size, layout).active() == Some(layout),
        info.settled(size, layout).active_size == size,
        other != size ==> (info.settled(size, layout).configurations.contains_key(other)
            <==> info.configurations.contains_key(other)),
        other != size && info.configurations.contains_key(other) ==> info.settled(
            size,
            layout,
        ).configurations[other] == info.configurations[other],
{
}

/// A workspace that comes back to a display gets the layout it had there.
pub proof fn law_back_on_display(
    info: InfoView,
    size: Size,
    layout: LayoutId,
    other: Size,
    between: LayoutId,
)
    requires
        other != size,
    ensures
        info.settled(size, layout).settled(other, between).source(size) == LayoutSource::Kept(
            layout,
        ),
        info.settled(size, layout).source(size) == LayoutSource::Kept(layout),
{
}

/// Every workspace that was listed is on the display and uses a layout for it. No
/// other one is touched.
pub proof fn law_all_settled(
    m: LayoutsView,
    space: SpaceId,
    size: Size,
    workspaces: Seq<VirtualWorkspaceId>,
    used: Seq<LayoutId>,
)
    requires
        used.len() == workspaces.len(),
    ensures
        forall|w: VirtualWorkspaceId|
            workspaces.contains(w) ==> {
                let after = view::all_settled(m, space, size, workspaces, used);
                let at = #[trigger] view::place(space, w);
                after.contains_key(at) && after[at].active_size == size && after[at].active() is Some
            },
        forall|at: WindowWorkspaceInfo|
            !(at.space == space && workspaces.contains(at.workspace_id)) ==> {
                let after = view::all_settled(m, space, size, workspaces, used);
                (after.contains_key(at) <==> #[trigger] m.contains_key(at)) && (m.contains_key(at)
                    ==> after[at] == m[at])
            },
    decreases workspaces.len(),
{
    if workspaces.len() > 0 {
        let rest = workspaces.drop_last();
        let last = workspaces.last();
        law_all_settled(m, space, size, rest, used.drop_last());
        let before = view::all_settled(m, space, size, rest, used.drop_last());
        let after = view::all_settled(m, space, size, workspaces, used);
        assert forall|w: VirtualWorkspaceId| workspaces.contains(w) implies ({
            let at = #[trigger] view::place(space, w);
            after.contains_key(at) && after[at].active_size == size && after[at].active() is Some
        }) by {
            if w != last {
                let k = choose|k: int| 0 <= k < workspaces.len() && workspaces[k] == w;
                assert(rest[k] == w);
                assert(rest.contains(w));
            }
        }
        assert forall|at: WindowWorkspaceInfo|
            !(at.space == space && workspaces.contains(at.workspace_id)) implies (
        after.contains_key(at) <==> #[trigger] m.contains_key(at)) && (m.contains_key(at)
            ==> after[at] == m[at]) by {
            assert(workspaces[workspaces.len() - 1] == last);
            if rest.contains(at.workspace_id) {
                let k = choose|k: int| 0 <= k < rest.len() && rest[k] == at.workspace_id;
                assert(workspaces[k] == at.workspace_id);
            }
            assert(before.contains_key(at) <==> m.contains_key(at));
        }
    }
}

/// A space that got a new name keeps its layouts; nothing is left under the old
/// name, and other spaces keep theirs.
pub proof fn law_remapped(m: LayoutsView, from: SpaceId, to: SpaceId, w: VirtualWorkspaceId)
    requires
        from != to,
    ensures
        m.contains_key(view::place(from, w)) ==> {
            let after = view::remapped(m, from, to);
            after.contains_key(view::place(to, w)) && after[view::place(to, w)] == m[view::place(
                from,
                w,
            )]
        },
        !view::remapped(m, from, to).contains_key(view::place(from, w)),
        forall|at: WindowWorkspaceInfo|
            at.space != from && at.space != to ==> {
                let after = view::remapped(m, from, to);
                (after.contains_key(at) <==> #[trigger] m.contains_key(at)) && (m.contains_key(at)
                    ==> after[at] == m[at])
            },
{
}

/// A name that was given to a space can be taken back, unless something was
/// recorded under it before.
pub proof fn law_remapped_back(m: LayoutsView, from: SpaceId, to: SpaceId)
    requires
        forall|at: WindowWorkspaceInfo| #[trigger] m.contains_key(at) ==> at.space != to,
    ensures
        view::remapped(view::remapped(m, from, to), to, from) == m,
{
    let there = view::remapped(m, from, to);
    let back = view::remapped(there, to, from);
    if from != to && !(forall|at: WindowWorkspaceInfo| #[trigger]
        m.contains_key(at) ==> at.space != from) {
        let at = choose|at: WindowWorkspaceInfo| #[trigger]
            m.contains_key(at) && at.space == from;
        assert(view::place(from, at.workspace_id) == at);
        assert(there.contains_key(view::place(to, at.workspace_id)));
        assert forall|x: WindowWorkspaceInfo| #[trigger]
            back.contains_key(x) <==> m.contains_key(x) by {
            assert(x.space == from ==> view::place(from, x.workspace_id) == x);
        }
        assert forall|x: WindowWorkspaceInfo| #[trigger] back.contains_key(x) implies back[x]
            == m[x] by {
            assert(x.space == from ==> view::place(from, x.workspace_id) == x);
        }
        assert(back =~= m);
    }
}

/// Layouts that passed the check serve every workspace: each one that exists has
/// an active layout that its system has.
pub proof fn law_checked(
    m: LayoutsView,
    known: Seq<WorkspaceRecord>,
    existing: Seq<WindowWorkspaceInfo>,
    i: int,
)
    requires
        view::is_outcome(m, known, existing, Ok::<(), LayoutStateError>(())),
        0 <= i < existing.len(),
    ensures
        m.contains_key(existing[i]),
        view::record_of(known, existing[i].workspace_id) matches Some(record)
            && m[existing[i]].active() matches Some(layout) && record.layouts@.contains(layout),
{
    lemma_none_bare(m, existing, i);
    let info = m[existing[i]];
    assert(view::is_sound(m, known, existing[i]));
    let layout = info.configurations[info.active_size];
    assert(info.configurations.dom().contains(info.active_size));
    assert(info.keeps(layout));
}

proof fn lemma_none_bare(m: LayoutsView, existing: Seq<WindowWorkspaceInfo>, i: int)
    requires
        view::first_bare(m, existing) is None,
        0 <= i < existing.len(),
    ensures
        m.contains_key(existing[i]),
    decreases existing.len(),
{
    if i > 0 {
        lemma_none_bare(m, existing.skip(1), i - 1);
    }
}

} // verus!
