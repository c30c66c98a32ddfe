//! A layout that is one stack holds the same windows in the same order.

use vstd::prelude::*;

use crate::actor::{LayoutId, Pid, WindowId};
use crate::layout_engine::systems::stack;
use crate::layout_engine::systems::stack::StackView;
use crate::layout_engine::systems::traditional::arrivals;
use crate::layout_engine::systems::traditional::filed;
use crate::layout_engine::systems::traditional::laws;
use crate::layout_engine::systems::traditional::membership;
use crate::layout_engine::systems::traditional::view::TraditionalView;
use crate::layout_engine::LayoutKind;
use crate::model::tree::homes;
use crate::model::tree::proofs;
use crate::model::tree::pruned;
use crate::model::tree::rows;
use crate::model::tree::view::{NodeId, Place};

verus! {

/// A window put at the end of a row of windows at the root.
proof fn lemma_put(s: TraditionalView, layout: LayoutId, row: Seq<WindowId>, window: WindowId)
    requires
        s.wf(),
        s.has(layout),
        s.forest.minted <= u64::MAX,
        rows::in_one_row(s.forest, s.root(layout), row),
    ensures
        ({
            let root = s.root(layout);
            let t = s.window_put(layout, Place::Last(root), window);
            let n = s.forest.next_id();
            &&& arrivals::arrived(s, t, layout, window)
            &&& rows::in_one_row(t.forest, root, row.push(window))
            &&& t.forest.children(root) == s.forest.children(root).push(n)
            &&& t.forest.minted == s.forest.minted + 1
            &&& t.forest.kind(root) == s.forest.kind(root)
        }),
{
    let root = s.root(layout);
    assert(s.roots.contains_key(layout));
    homes::lemma_home(s.forest, root);
    arrivals::lemma_put_in(s, layout, root, row, window);
    assert(s.window_put(layout, Place::Last(root), window).forest.live(root));
}

/// Windows are lined up below a root without children.
proof fn lemma_lined_up(s: TraditionalView, layout: LayoutId, windows: Seq<WindowId>)
    requires
        s.wf(),
        s.has(layout),
        s.forest.children(s.root(layout)).len() == 0,
        s.forest.minted + windows.len() <= u64::MAX,
    ensures
        ({
            let root = s.root(layout);
            let t = stack::lined_up(s, layout, root, windows);
            &&& t.wf()
            &&& t.roots == s.roots
            &&& filed::filed(s) ==> filed::filed(t)
            &&& rows::in_one_row(t.forest, root, windows)
            &&& t.forest.minted == s.forest.minted + windows.len()
            &&& t.forest.kind(root) == s.forest.kind(root)
            &&& forall|i: int|
                0 <= i < windows.len() ==> #[trigger] t.forest.children(root)[i]
                    == s.forest.minted + i
            &&& forall|l: LayoutId|
                s.has(l) && l != layout ==> #[trigger] t.all_windows(l).to_multiset()
                    == s.all_windows(l).to_multiset()
        }),
    decreases windows.len(),
{
    let root = s.root(layout);
    if windows.len() > 0 {
        let front = windows.drop_last();
        let w = windows.last();
        lemma_lined_up(s, layout, front);
        let u = stack::lined_up(s, layout, root, front);
        lemma_put(u, layout, front, w);
        assert(front.push(w) =~= windows);
        let t = u.window_put(layout, Place::Last(root), w);
        assert(stack::lined_up(s, layout, root, windows) == t);
        assert forall|i: int| 0 <= i < windows.len() implies #[trigger] t.forest.children(root)[i]
            == s.forest.minted + i by {
            if i < front.len() {
                assert(t.forest.children(root)[i] == u.forest.children(root)[i]);
            }
        }
        assert forall|l: LayoutId| s.has(l) && l != layout implies #[trigger] t.all_windows(
            l,
        ).to_multiset() == s.all_windows(l).to_multiset() by {
            assert(u.has(l));
            assert(u.all_windows(l).to_multiset() == s.all_windows(l).to_multiset());
        }
    }
}

/// The node that a window to be selected gets.
proof fn lemma_chosen(
    s: TraditionalView,
    layout: LayoutId,
    windows: Seq<WindowId>,
    selected: Option<WindowId>,
)
    requires
        s.wf(),
        s.has(layout),
        s.forest.children(s.root(layout)).len() == 0,
        s.forest.minted + windows.len() <= u64::MAX,
    ensures
        ({
            let pick = stack::chosen(s, layout, s.root(layout), windows, selected);
            &&& pick is Some <==> selected is Some && windows.contains(selected->0)
            &&& pick is Some ==> exists|i: int|
                0 <= i < windows.len() && Some(#[trigger] windows[i]) == selected && pick->0
                    == s.forest.minted + i
        }),
    decreases windows.len(),
{
    if windows.len() > 0 {
        let front = windows.drop_last();
        let root = s.root(layout);
        lemma_chosen(s, layout, front, selected);
        lemma_lined_up(s, layout, front);
        assert(windows[windows.len() - 1] == windows.last());
        if Some(windows.last()) == selected {
            assert(stack::chosen(s, layout, root, windows, selected)->0 == s.forest.minted + (
            windows.len() - 1));
        } else {
            if selected is Some && windows.contains(selected->0) {
                let i = choose|i: int| 0 <= i < windows.len() && windows[i] == selected->0;
                assert(front[i] == selected->0);
            }
            if stack::chosen(s, layout, root, front, selected) is Some {
                let i = choose|i: int|
                    0 <= i < front.len() && Some(#[trigger] front[i]) == selected && stack::chosen(
                        s,
                        layout,
                        root,
                        front,
                        selected,
                    )->0 == s.forest.minted + i;
                assert(windows[i] == front[i]);
            }
        }
    }
}

/// A layout is one stack with its windows in a row.
pub open spec fn one_stack(s: StackView, layout: LayoutId) -> bool {
    &&& s.inner.forest.kind(s.inner.root(layout)).stacks()
    &&& rows::in_one_row(s.inner.forest, s.inner.root(layout), s.inner.all_windows(layout))
}

/// The stack that lies as a kind does, or across it.
pub open spec fn flat_or_upright(kind: LayoutKind, same: bool) -> LayoutKind {
    if (kind is Horizontal || kind is HorizontalStack) == same {
        LayoutKind::HorizontalStack
    } else {
        LayoutKind::VerticalStack
    }
}

/// Making a layout one stack keeps its windows in their order, its selected
/// window and the way it lies. Other layouts keep their windows, and the index still agrees with
/// the trees.
pub proof fn law_normalized(s: StackView, layout: LayoutId)
    requires
        s.inner.wf(),
        s.inner.has(layout),
        s.inner.forest.minted + s.inner.all_windows(layout).len() <= u64::MAX,
    ensures
        ({
            let t = s.normalized(layout);
            &&& t.inner.wf()
            &&& t.inner.roots == s.inner.roots
            &&& one_stack(t, layout)
            &&& t.inner.forest.kind(t.inner.root(layout)) == flat_or_upright(
                s.inner.forest.kind(s.inner.root(layout)),
                true,
            )
            &&& t.inner.all_windows(layout) == s.inner.all_windows(layout)
            &&& t.inner.selected_window(layout) == (if s.inner.selected_window(layout) is Some {
                s.inner.selected_window(layout)
            } else if s.inner.all_windows(layout).len() > 0 {
                Some(s.inner.all_windows(layout)[0])
            } else {
                None
            })
            &&& filed::filed(s.inner) ==> filed::filed(t.inner)
            &&& forall|l: LayoutId|
                s.inner.has(l) && l != layout ==> #[trigger] t.inner.all_windows(l).to_multiset()
                    == s.inner.all_windows(l).to_multiset()
        }),
{
    reveal(StackView::normalized);
    let v = s.inner;
    let f = v.forest;
    let root = v.root(layout);
    let windows = v.all_windows(layout);
    let selected = v.selected_window(layout);
    assert(v.roots.contains_key(layout));
    let kids = f.children(root);
    rows::lemma_cleared(f, root, kids, kids.len() as int);
    assert(kids.take(kids.len() as int) =~= kids);
    assert(kids.skip(kids.len() as int) =~= Seq::empty());
    let g = f.all_removed(kids);
    let kind = stack::stack_along(f.kind(root));
    let h = g.with_kind(root, kind);
    homes::lemma_with_kind(g, root, kind);
    pruned::lemma_settled(g, h);
    pruned::lemma_trans(f, g, h);
    filed::lemma_pruned(v, h);
    let bare = v.with_forest(h);
    assert(h.children(root).len() == 0);
    arrivals::lemma_others_kept(v, layout, h);
    lemma_lined_up(bare, layout, windows);
    let full = stack::lined_up(bare, layout, root, windows);
    assert(full.roots.contains_key(layout));
    rows::lemma_row_windows(full.forest, root, windows);
    lemma_chosen(bare, layout, windows, selected);
    arrivals::lemma_selected_listed(v, layout);
    let t = s.normalized(layout);
    let pick = stack::chosen(bare, layout, root, windows, selected);
    if windows.len() > 0 {
        let i = if pick is Some {
            choose|i: int|
                0 <= i < windows.len() && Some(#[trigger] windows[i]) == selected && pick->0
                    == bare.forest.minted + i
        } else {
            0
        };
        let n = full.forest.children(root)[i];
        assert(full.forest.window(n) == Some(windows[i]));
        proofs::lemma_node(full.forest, root);
        assert(full.forest.nodes[root].children[i] == n);
        homes::lemma_home(full.forest, n);
        homes::lemma_home(full.forest, root);
        assert(t.inner == full.with_forest(full.forest.selected(n)));
        lemma_selected_row(full, layout, windows, n);
        rows::lemma_row_windows(t.inner.forest, root, windows);
    } else {
        assert(t.inner == full);
        arrivals::lemma_bare_selection(full, layout);
    }
    assert forall|l: LayoutId| v.has(l) && l != layout implies #[trigger] t.inner.all_windows(
        l,
    ).to_multiset() == v.all_windows(l).to_multiset() by {
        assert(bare.has(l) && full.has(l));
        assert(bare.all_windows(l).to_multiset() == v.all_windows(l).to_multiset());
        assert(full.all_windows(l).to_multiset() == bare.all_windows(l).to_multiset());
    }
}

/// Selecting a node of a row leaves the row as it is.
proof fn lemma_selected_row(
    v: TraditionalView,
    layout: LayoutId,
    windows: Seq<WindowId>,
    n: NodeId,
)
    requires
        v.wf(),
        v.has(layout),
        v.forest.live(n),
        v.forest.home(n) == v.root(layout),
        rows::in_one_row(v.forest, v.root(layout), windows),
    ensures
        ({
            let t = v.with_forest(v.forest.selected(n));
            let root = v.root(layout);
            &&& laws::keeps_windows(v, t)
            &&& rows::in_one_row(t.forest, root, windows)
            &&& t.forest.kind(root) == v.forest.kind(root)
            &&& t.selected_window(layout) == v.forest.window(n)
        }),
{
    let f = v.forest;
    let g = f.selected(n);
    let root = v.root(layout);
    assert(v.roots.contains_key(layout));
    arrivals::law_selected(v, layout, n);
    homes::lemma_selected(f, n);
    laws::lemma_settled(v, g);
    proofs::lemma_selected(f, n);
    assert forall|x: NodeId| g.children(x) == f.children(x) && g.kind(x) == f.kind(x)
        && #[trigger] g.window(x) == f.window(x) by {}
    assert forall|i: int| 0 <= i < windows.len() implies g.window(#[trigger] g.children(root)[i])
        == Some(windows[i]) && g.children(g.children(root)[i]).len() == 0 by {
        let c = f.children(root)[i];
        assert(f.window(c) == Some(windows[i]));
        assert(g.window(c) == f.window(c));
    }
}

/// Turning a stack keeps its windows in their order and lays it across.
pub proof fn law_turned(s: StackView, layout: LayoutId)
    requires
        s.inner.wf(),
        s.inner.has(layout),
        s.inner.forest.minted + s.inner.all_windows(layout).len() <= u64::MAX,
    ensures
        ({
            let t = s.turned(layout);
            &&& t.inner.wf()
            &&& one_stack(t, layout)
            &&& t.inner.all_windows(layout) == s.inner.all_windows(layout)
            &&& t.inner.forest.kind(t.inner.root(layout)) == stack::stack_across(
                s.normalized(layout).inner.forest.kind(s.inner.root(layout)),
            )
            &&& t.inner.forest.kind(t.inner.root(layout)) == flat_or_upright(
                s.inner.forest.kind(s.inner.root(layout)),
                false,
            )
        }),
{
    law_normalized(s, layout);
    let v = s.normalized(layout).inner;
    let root = v.root(layout);
    let windows = v.all_windows(layout);
    assert(v.roots.contains_key(layout));
    let kind = stack::stack_across(v.forest.kind(root));
    homes::lemma_with_kind(v.forest, root, kind);
    let g = v.forest.with_kind(root, kind);
    laws::lemma_settled(v, g);
    assert forall|i: int| 0 <= i < windows.len() implies g.window(#[trigger] g.children(root)[i])
        == Some(windows[i]) && g.children(g.children(root)[i]).len() == 0 by {
        let c = v.forest.children(root)[i];
        assert(v.forest.window(c) == Some(windows[i]));
    }
    rows::lemma_row_windows(g, root, windows);
}

/// Adding a window to a stack adds it once, to that layout only, and selects it.
pub proof fn law_window_added(s: StackView, layout: LayoutId, window: WindowId)
    requires
        s.inner.wf(),
        s.inner.has(layout),
        s.inner.forest.minted + s.inner.all_windows(layout).len() < u64::MAX,
    ensures
        ({
            let t = s.window_added(layout, window);
            &&& arrivals::arrived(s.inner, t.inner, layout, window)
            &&& t.inner.selected_window(layout) == Some(window)
        }),
{
    law_normalized(s, layout);
    let v = s.normalized(layout).inner;
    lemma_normalized_minted(s, layout);
    assert(laws::keeps_windows(s.inner, v)) by {
        assert forall|l: LayoutId| s.inner.has(l) implies #[trigger] v.all_windows(l).to_multiset()
            == s.inner.all_windows(l).to_multiset() by {
            if l != layout {
                assert(v.all_windows(l).to_multiset() == s.inner.all_windows(l).to_multiset());
            }
        }
    }
    let t = s.window_added(layout, window).inner;
    if s.point is NextToSelection {
        arrivals::law_window_added(v, layout, window);
        arrivals::lemma_arrived_after(s.inner, v, t, layout, window);
    } else {
        let root = v.root(layout);
        let row = v.all_windows(layout);
        lemma_put(v, layout, row, window);
        let u = v.window_put(layout, Place::Last(root), window);
        let n = v.forest.next_id();
        let last = row.len() as int;
        assert(u.forest.children(root)[last] == n);
        assert(u.forest.window(u.forest.children(root)[last]) == Some(row.push(window)[last]));
        assert(u.roots.contains_key(layout));
        proofs::lemma_node(u.forest, root);
        assert(u.forest.nodes[root].children[last] == n);
        homes::lemma_home(u.forest, n);
        homes::lemma_home(u.forest, root);
        lemma_selected_row(u, layout, row.push(window), n);
        arrivals::lemma_arrived_before(v, u, t, layout, window);
        arrivals::lemma_arrived_after(s.inner, v, t, layout, window);
    }
}

/// How many nodes a layout costs to be made one stack.
pub proof fn lemma_normalized_minted(s: StackView, layout: LayoutId)
    requires
        s.inner.wf(),
        s.inner.has(layout),
        s.inner.forest.minted + s.inner.all_windows(layout).len() <= u64::MAX,
    ensures
        s.normalized(layout).inner.forest.minted == s.inner.forest.minted + s.inner.all_windows(
            layout,
        ).len(),
{
    reveal(StackView::normalized);
    let v = s.inner;
    let f = v.forest;
    let root = v.root(layout);
    let windows = v.all_windows(layout);
    assert(v.roots.contains_key(layout));
    let kids = f.children(root);
    rows::lemma_cleared(f, root, kids, kids.len() as int);
    assert(kids.take(kids.len() as int) =~= kids);
    assert(kids.skip(kids.len() as int) =~= Seq::empty());
    let g = f.all_removed(kids);
    let kind = stack::stack_along(f.kind(root));
    let h = g.with_kind(root, kind);
    homes::lemma_with_kind(g, root, kind);
    pruned::lemma_settled(g, h);
    pruned::lemma_trans(f, g, h);
    filed::lemma_pruned(v, h);
    let bare = v.with_forest(h);
    lemma_lined_up(bare, layout, windows);
}

/// After the windows of a process were set, a stack holds exactly the wanted
/// windows of the process. Other windows and other layouts keep what they had.
/// A window that covers the screen is not dismissed, so none that does may be
/// unwanted.
pub proof fn law_windows_set(s: StackView, layout: LayoutId, pid: Pid, desired: Seq<WindowId>)
    requires
        s.inner.wf(),
        filed::filed(s.inner),
        s.inner.has(layout),
        forall|w: WindowId| #[trigger]
            membership::covering(s.inner, layout, w) && w.pid == pid ==> desired.contains(w),
        s.inner.forest.minted + 2 * desired.len() + s.inner.app_set(
            layout,
            pid,
            desired,
        ).all_windows(layout).len() <= u64::MAX,
    ensures
        membership::reconciled(
            s.inner,
            s.app_set(layout, pid, desired).inner,
            layout,
            pid,
            desired,
        ),
{
    membership::law_windows_set(s.inner, layout, pid, desired);
    let v = StackView { inner: s.inner.app_set(layout, pid, desired), ..s };
    assert(v.inner.roots.dom().contains(layout));
    law_normalized(v, layout);
    let t = v.normalized(layout);
    assert(laws::keeps_windows(v.inner, t.inner)) by {
        assert forall|l: LayoutId| v.inner.has(l) implies #[trigger] t.inner.all_windows(
            l,
        ).to_multiset() == v.inner.all_windows(l).to_multiset() by {
            if l != layout {
                assert(t.inner.all_windows(l).to_multiset() == v.inner.all_windows(
                    l,
                ).to_multiset());
            }
        }
    }
    homes::lemma_refl(s.inner.forest);
    laws::lemma_settled(s.inner, s.inner.forest);
    assert(s.inner.with_forest(s.inner.forest) == s.inner);
    membership::lemma_reconciled_between(
        s.inner,
        s.inner,
        v.inner,
        t.inner,
        layout,
        pid,
        desired,
    );
}

} // verus!
