//! A layout can be made to hold the windows that a process has.

use vstd::multiset::Multiset;
use vstd::prelude::*;

use crate::actor::{LayoutId, Pid, WindowId};
use crate::layout_engine::systems;
use crate::layout_engine::systems::traditional::arrivals;
use crate::layout_engine::systems::traditional::filed;
use crate::layout_engine::systems::traditional::laws;
use crate::layout_engine::systems::traditional::view::TraditionalView;
use crate::model::tree::culled;
use crate::model::tree::homes;
use crate::model::tree::proofs;
use crate::model::tree::view;
use crate::model::tree::view::{ForestView, NodeId, WindowEntry};

verus! {

/// The nodes of `t` cover the screen as they did in `s`.
pub open spec fn same_cover(s: ForestView, t: ForestView) -> bool {
    forall|x: NodeId| #[trigger]
        t.live(x) ==> s.live(x) && t.info(x).is_fullscreen == s.info(x).is_fullscreen
}

proof fn lemma_collapsed_cover(s: ForestView, p: NodeId)
    requires
        s.wf(),
    ensures
        same_cover(s, s.collapsed(p)),
    decreases s.nodes.dom().len(),
{
    if s.parent(p) is None || s.children(p).len() > 1 {
    } else {
        let above = s.parent(p)->0;
        let ready = if s.children(p).len() == 1 {
            s.hoisted(s.children(p)[0], p)
        } else {
            s
        };
        if s.children(p).len() == 1 {
            proofs::lemma_hoisted(s, p);
            proofs::lemma_detached(s, s.children(p)[0]);
        }
        proofs::lemma_detached(ready, p);
        proofs::lemma_dropped(ready.detached(p), p);
        let next = ready.detached(p).dropped(p);
        assert(same_cover(s, ready)) by {
            assert forall|x: NodeId| #[trigger] ready.live(x) implies s.live(x) && ready.info(
                x,
            ).is_fullscreen == s.info(x).is_fullscreen by {
                assert(ready.nodes.dom().contains(x));
            }
        }
        assert(same_cover(s, next)) by {
            assert forall|x: NodeId| #[trigger] next.live(x) implies s.live(x) && next.info(
                x,
            ).is_fullscreen == s.info(x).is_fullscreen by {
                assert(ready.live(x));
            }
        }
        lemma_collapsed_cover(next, above);
    }
}

/// Removing a window changes no other node's cover.
proof fn lemma_removed_cover(s: ForestView, n: NodeId)
    requires
        s.wf(),
        s.parent(n) is Some,
        s.window(n) is Some,
    ensures
        same_cover(s, s.removed(n)),
{
    let loose = s.detached(n);
    let p = s.parent(n)->0;
    proofs::lemma_node(s, n);
    proofs::lemma_detached(s, n);
    proofs::lemma_discarded(loose, n);
    let ns = loose.preorder(n).reverse();
    proofs::lemma_discarded_nodes(loose, ns);
    let t = loose.discarded(ns);
    assert(same_cover(s, t)) by {
        assert forall|x: NodeId| #[trigger] t.live(x) implies s.live(x) && t.info(x).is_fullscreen
            == s.info(x).is_fullscreen by {
            assert(loose.nodes.contains_key(x));
            assert(loose.nodes.dom().contains(x));
        }
    }
    lemma_collapsed_cover(t, p);
    assert forall|x: NodeId| #[trigger] s.removed(n).live(x) implies s.live(x) && s.removed(n).info(
        x,
    ).is_fullscreen == s.info(x).is_fullscreen by {
        assert(t.live(x));
    }
}

/// A node of the layout shows the window and covers the screen.
pub open spec fn covering(s: TraditionalView, layout: LayoutId, window: WindowId) -> bool {
    exists|x: NodeId| #[trigger]
        homes::shown_in(s.forest, s.root(layout), x) && s.forest.window(x) == Some(window)
            && s.forest.info(x).is_fullscreen
}

/// Windows leave a layout; nothing else changes, and no window starts to cover
/// the screen.
pub open spec fn departed(
    s: TraditionalView,
    t: TraditionalView,
    layout: LayoutId,
    gone: Multiset<WindowId>,
) -> bool {
    &&& t.wf()
    &&& filed::filed(t)
    &&& t.roots == s.roots
    &&& t.forest.minted == s.forest.minted
    &&& t.all_windows(layout).to_multiset().add(gone) == s.all_windows(layout).to_multiset()
    &&& forall|l: LayoutId|
        s.has(l) && l != layout ==> #[trigger] t.all_windows(l).to_multiset() == s.all_windows(
            l,
        ).to_multiset()
    &&& forall|w: WindowId| #[trigger] covering(t, layout, w) ==> covering(s, layout, w)
}

/// The index stays in step when one node goes.
proof fn lemma_filed_without(s: TraditionalView, g: ForestView, n: NodeId)
    requires
        s.wf(),
        filed::filed(s),
        culled::culled(s.forest, g, seq![n]),
        g.index == ForestView::index_without(s.forest.index, n),
    ensures
        filed::filed(s.with_forest(g)),
{
    let f = s.forest;
    let t = s.with_forest(g);
    let keep = |e: WindowEntry| e.node != n;
    culled::lemma_filtered_ok(f.index, keep);
    filed::lemma_filter_distinct(f.index, keep);
    assert(seq![n].contains(n)) by {
        assert(seq![n][0] == n);
    }
    assert forall|i: int| 0 <= i < g.index.len() implies g.window((#[trigger] g.index[i]).node)
        == Some(g.index[i].window) && filed::in_its_layout(t, g.index[i]) by {
        let j = choose|j: int| 0 <= j < f.index.len() && f.index[j] == g.index[i];
        let x = f.index[j].node;
        assert(keep(g.index[i]));
        assert(f.window(f.index[j].node) == Some(f.index[j].window));
        assert(filed::in_its_layout(s, f.index[j]));
        assert(!seq![n].contains(x));
        assert(g.window(x) == f.window(x));
        assert(f.live(x) && g.live(x));
        assert(g.home(x) == f.home(x));
    }
    assert forall|x: NodeId| (#[trigger] g.window(x)) is Some implies filed::listed(g, x) by {
        assert(!seq![n].contains(x));
        assert(f.window(x) == g.window(x));
        assert(filed::listed(f, x));
        let j = choose|j: int| 0 <= j < f.index.len() && (#[trigger] f.index[j]).node == x;
        assert(x != n);
        assert(keep(f.index[j]));
        assert(g.index.contains(f.index[j]));
        let i = choose|i: int| 0 <= i < g.index.len() && g.index[i] == f.index[j];
        assert(g.index[i].node == x);
    }
}

/// A window that does not cover the screen can be dismissed.
pub proof fn lemma_dismissed(s: TraditionalView, layout: LayoutId, window: WindowId)
    requires
        s.wf(),
        filed::filed(s),
        s.has(layout),
        s.all_windows(layout).contains(window),
        !covering(s, layout, window),
    ensures
        departed(
            s,
            s.window_dismissed(layout, window),
            layout,
            Multiset::singleton(window),
        ),
{
    let f = s.forest;
    let r = s.root(layout);
    filed::law_contains(s, layout, window);
    let n = f.node_for(layout, window)->0;
    assert(s.roots.contains_key(layout));
    assert(homes::shown_in(f, r, n));
    assert(!f.info(n).is_fullscreen);
    homes::lemma_home(f, n);
    assert(n != r);
    assert(f.parent(n) is Some);
    culled::lemma_window_node_removed(f, n);
    lemma_removed_cover(f, n);
    proofs::lemma_removed(f, n);
    let g = f.removed(n);
    let t = s.with_forest(g);
    lemma_filed_without(s, g, n);
    assert(seq![n].contains(n)) by {
        assert(seq![n][0] == n);
    }
    assert forall|l: LayoutId| #[trigger] t.roots.contains_key(l) implies {
        &&& l.issued()
        &&& g.live(t.roots[l])
        &&& g.parent(t.roots[l]) is None
        &&& g.window(t.roots[l]) is None
    } by {
        assert(s.roots.contains_key(l));
        assert(f.live(s.roots[l]));
    }
    assert forall|q: NodeId, x: NodeId| x != n implies #[trigger] homes::shown_in(g, q, x)
        == homes::shown_in(f, q, x) by {
        assert(!seq![n].contains(x));
        assert(g.window(x) == f.window(x));
        if f.window(x) is Some {
            assert(f.live(x) && g.live(x));
            assert(g.home(x) == f.home(x));
        }
    }
    assert(g.window(n) is None);
    assert(t.roots.contains_key(layout));
    homes::lemma_one_more(g, r, f, r, n);
    assert(t.all_windows(layout).to_multiset().add(Multiset::singleton(window))
        =~= s.all_windows(layout).to_multiset());
    assert forall|l: LayoutId| s.has(l) && l != layout implies #[trigger] t.all_windows(
        l,
    ).to_multiset() == s.all_windows(l).to_multiset() by {
        let q = s.root(l);
        assert(s.roots.contains_key(l) && t.roots.contains_key(l));
        assert(s.roots[l] != s.roots[layout]);
        assert(!homes::shown_in(f, q, n) && !homes::shown_in(g, q, n));
        assert forall|x: NodeId| #[trigger] homes::shown_in(f, q, x) == homes::shown_in(
            g,
            q,
            x,
        ) by {
            if x != n {
                assert(homes::shown_in(g, q, x) == homes::shown_in(f, q, x));
            }
        }
        assert forall|x: NodeId| #[trigger] homes::shown_in(f, q, x) implies g.window(x)
            == f.window(x) by {
            assert(x != n);
            assert(!seq![n].contains(x));
        }
        homes::lemma_same_windows(f, q, g, q);
    }
    assert forall|w: WindowId| #[trigger] covering(t, layout, w) implies covering(
        s,
        layout,
        w,
    ) by {
        let x = choose|x: NodeId| #[trigger]
            homes::shown_in(g, r, x) && g.window(x) == Some(w) && g.info(x).is_fullscreen;
        assert(x != n);
        assert(homes::shown_in(f, r, x));
        assert(!seq![n].contains(x));
        assert(g.live(x));
    }
}

/// Windows that do not cover the screen can be dismissed one after the other.
pub proof fn lemma_all_dismissed(s: TraditionalView, layout: LayoutId, ws: Seq<WindowId>)
    requires
        s.wf(),
        filed::filed(s),
        s.has(layout),
        forall|w: WindowId| #[trigger]
            ws.to_multiset().count(w) <= s.all_windows(layout).to_multiset().count(w),
        forall|w: WindowId| ws.contains(w) ==> !#[trigger] covering(s, layout, w),
    ensures
        departed(s, s.windows_dismissed(layout, ws), layout, ws.to_multiset()),
    decreases ws.len(),
{
    broadcast use vstd::seq_lib::group_to_multiset_ensures;

    if ws.len() == 0 {
        assert(s.all_windows(layout).to_multiset().add(ws.to_multiset()) =~= s.all_windows(
            layout,
        ).to_multiset());
    } else {
        let front = ws.drop_last();
        let w = ws.last();
        assert(front.push(w) =~= ws);
        assert forall|v: WindowId| #[trigger]
            front.to_multiset().count(v) <= s.all_windows(layout).to_multiset().count(v) by {
            assert(ws.to_multiset().count(v) <= s.all_windows(layout).to_multiset().count(v));
        }
        assert forall|v: WindowId| front.contains(v) implies !#[trigger] covering(
            s,
            layout,
            v,
        ) by {
            let i = choose|i: int| 0 <= i < front.len() && front[i] == v;
            assert(ws[i] == v);
        }
        lemma_all_dismissed(s, layout, front);
        let t = s.windows_dismissed(layout, front);
        assert(ws[ws.len() - 1] == w);
        assert(ws.contains(w));
        assert(!covering(s, layout, w));
        assert(t.all_windows(layout).to_multiset().count(w) > 0) by {
            assert(ws.to_multiset().count(w) <= s.all_windows(layout).to_multiset().count(w));
            assert(t.all_windows(layout).to_multiset().add(front.to_multiset()).count(w)
                == s.all_windows(layout).to_multiset().count(w));
        }
        lemma_dismissed(t, layout, w);
        let u = t.window_dismissed(layout, w);
        assert(u.all_windows(layout).to_multiset().add(ws.to_multiset()) =~= u.all_windows(
            layout,
        ).to_multiset().add(Multiset::singleton(w)).add(front.to_multiset()));
        assert forall|l: LayoutId| s.has(l) && l != layout implies #[trigger] u.all_windows(
            l,
        ).to_multiset() == s.all_windows(l).to_multiset() by {
            assert(t.has(l));
            assert(t.all_windows(l).to_multiset() == s.all_windows(l).to_multiset());
        }
        assert forall|v: WindowId| #[trigger] covering(u, layout, v) implies covering(
            s,
            layout,
            v,
        ) by {
            assert(covering(t, layout, v));
        }
    }
}

/// Windows come to a layout; nothing else changes.
pub open spec fn all_arrived(
    s: TraditionalView,
    t: TraditionalView,
    layout: LayoutId,
    added: Multiset<WindowId>,
) -> bool {
    &&& t.wf()
    &&& filed::filed(t)
    &&& t.roots == s.roots
    &&& t.all_windows(layout).to_multiset() == s.all_windows(layout).to_multiset().add(added)
    &&& forall|l: LayoutId|
        s.has(l) && l != layout ==> #[trigger] t.all_windows(l).to_multiset() == s.all_windows(
            l,
        ).to_multiset()
}

/// Windows can be added one after the other.
pub proof fn lemma_all_added(s: TraditionalView, layout: LayoutId, ws: Seq<WindowId>)
    requires
        s.wf(),
        filed::filed(s),
        s.has(layout),
        s.forest.minted + 2 * ws.len() <= u64::MAX,
    ensures
        all_arrived(s, s.windows_added(layout, ws), layout, ws.to_multiset()),
        s.windows_added(layout, ws).forest.minted <= s.forest.minted + 2 * ws.len(),
    decreases ws.len(),
{
    broadcast use vstd::seq_lib::group_to_multiset_ensures;

    if ws.len() == 0 {
        assert(s.all_windows(layout).to_multiset().add(ws.to_multiset()) =~= s.all_windows(
            layout,
        ).to_multiset());
    } else {
        let front = ws.drop_last();
        let w = ws.last();
        assert(front.push(w) =~= ws);
        lemma_all_added(s, layout, front);
        let t = s.windows_added(layout, front);
        arrivals::law_window_added(t, layout, w);
        let u = t.window_added(layout, w);
        assert(t.has(layout));
        assert(u.all_windows(layout).to_multiset() == t.all_windows(layout).to_multiset().insert(
            w,
        ));
        assert(u.all_windows(layout).to_multiset() =~= s.all_windows(layout).to_multiset().add(
            ws.to_multiset(),
        ));
        assert forall|l: LayoutId| s.has(l) && l != layout implies #[trigger] u.all_windows(
            l,
        ).to_multiset() == s.all_windows(l).to_multiset() by {
            assert(t.has(l));
            assert(t.all_windows(l).to_multiset() == s.all_windows(l).to_multiset());
        }
    }
}

/// A layout holds exactly the wanted windows of a process. Its other windows and
/// the other layouts are as they were.
pub open spec fn reconciled(
    s: TraditionalView,
    t: TraditionalView,
    layout: LayoutId,
    pid: Pid,
    desired: Seq<WindowId>,
) -> bool {
    &&& t.wf()
    &&& filed::filed(t)
    &&& t.roots.dom() == s.roots.dom()
    &&& forall|w: WindowId|
        w.pid == pid ==> (#[trigger] t.all_windows(layout).contains(w) <==> desired.contains(w))
    &&& forall|w: WindowId|
        w.pid != pid ==> #[trigger] t.all_windows(layout).to_multiset().count(w) == s.all_windows(
            layout,
        ).to_multiset().count(w)
    &&& forall|l: LayoutId|
        s.has(l) && l != layout ==> #[trigger] t.all_windows(l).to_multiset() == s.all_windows(
            l,
        ).to_multiset()
}

/// Rearranging windows before and after does not matter.
pub proof fn lemma_reconciled_between(
    s: TraditionalView,
    a: TraditionalView,
    b: TraditionalView,
    t: TraditionalView,
    layout: LayoutId,
    pid: Pid,
    desired: Seq<WindowId>,
)
    requires
        s.has(layout),
        laws::keeps_windows(s, a),
        reconciled(a, b, layout, pid, desired),
        laws::keeps_windows(b, t),
    ensures
        reconciled(s, t, layout, pid, desired),
{
    broadcast use vstd::seq_lib::group_to_multiset_ensures;

    assert(a.roots.dom().contains(layout) && b.roots.dom().contains(layout));
    assert(a.all_windows(layout).to_multiset() == s.all_windows(layout).to_multiset());
    assert(t.all_windows(layout).to_multiset() == b.all_windows(layout).to_multiset());
    assert forall|w: WindowId| w.pid == pid implies (#[trigger] t.all_windows(layout).contains(w)
        <==> desired.contains(w)) by {
        assert(b.all_windows(layout).contains(w) <==> b.all_windows(layout).to_multiset().count(w)
            > 0);
        assert(t.all_windows(layout).contains(w) <==> t.all_windows(layout).to_multiset().count(w)
            > 0);
    }
    assert forall|w: WindowId| w.pid != pid implies #[trigger] t.all_windows(
        layout,
    ).to_multiset().count(w) == s.all_windows(layout).to_multiset().count(w) by {
        assert(b.all_windows(layout).to_multiset().count(w) == a.all_windows(
            layout,
        ).to_multiset().count(w));
    }
    assert forall|l: LayoutId| s.has(l) && l != layout implies #[trigger] t.all_windows(
        l,
    ).to_multiset() == s.all_windows(l).to_multiset() by {
        assert(a.roots.dom().contains(l) && b.roots.dom().contains(l));
        assert(a.all_windows(l).to_multiset() == s.all_windows(l).to_multiset());
        assert(b.all_windows(l).to_multiset() == a.all_windows(l).to_multiset());
    }
}

/// How often the windows that have to go occur.
pub proof fn lemma_gone_count(
    all: Seq<WindowId>,
    pid: Pid,
    desired: Seq<WindowId>,
    w: WindowId,
)
    ensures
        systems::missing_from(all.filter(|v: WindowId| v.pid == pid), desired).to_multiset().count(
            w,
        ) == (if w.pid == pid && !desired.contains(w) {
            all.to_multiset().count(w)
        } else {
            0
        }),
{
    let own = |v: WindowId| v.pid == pid;
    let unwanted = |v: WindowId| !desired.contains(v);
    systems::lemma_filter_count(all, own, w);
    systems::lemma_filter_count(all.filter(own), unwanted, w);
}

/// Counting what stayed, went and came.
pub proof fn lemma_reconciled(
    s: TraditionalView,
    t: TraditionalView,
    layout: LayoutId,
    pid: Pid,
    desired: Seq<WindowId>,
)
    requires
        t.wf(),
        filed::filed(t),
        t.roots.dom() == s.roots.dom(),
        ({
            let current = s.app_windows(layout, pid);
            let gone = systems::missing_from(current, desired);
            let added = systems::newcomers(pid, current, desired);
            forall|w: WindowId| #[trigger]
                t.all_windows(layout).to_multiset().count(w) + gone.to_multiset().count(w)
                    == s.all_windows(layout).to_multiset().count(w) + added.to_multiset().count(w)
        }),
        forall|l: LayoutId|
            s.has(l) && l != layout ==> #[trigger] t.all_windows(l).to_multiset() == s.all_windows(
                l,
            ).to_multiset(),
    ensures
        reconciled(s, t, layout, pid, desired),
{
    broadcast use vstd::seq_lib::group_to_multiset_ensures;

    let all = s.all_windows(layout);
    let own = |w: WindowId| w.pid == pid;
    let current = s.app_windows(layout, pid);
    let gone = systems::missing_from(current, desired);
    let added = systems::newcomers(pid, current, desired);
    assert forall|w: WindowId| w.pid == pid implies (#[trigger] t.all_windows(layout).contains(w)
        <==> desired.contains(w)) by {
        lemma_gone_count(all, pid, desired, w);
        systems::lemma_newcomers(pid, current, desired, w);
        systems::lemma_filter_count(all, own, w);
        assert(t.all_windows(layout).to_multiset().count(w) + gone.to_multiset().count(w)
            == all.to_multiset().count(w) + added.to_multiset().count(w));
    }
    assert forall|w: WindowId| w.pid != pid implies #[trigger] t.all_windows(
        layout,
    ).to_multiset().count(w) == all.to_multiset().count(w) by {
        lemma_gone_count(all, pid, desired, w);
        systems::lemma_newcomers(pid, current, desired, w);
        assert(t.all_windows(layout).to_multiset().count(w) + gone.to_multiset().count(w)
            == all.to_multiset().count(w) + added.to_multiset().count(w));
    }
}

/// Windows that went and windows that came.
pub proof fn lemma_gone_and_come(
    s: TraditionalView,
    m: TraditionalView,
    t: TraditionalView,
    layout: LayoutId,
    pid: Pid,
    desired: Seq<WindowId>,
)
    requires
        s.has(layout),
        departed(
            s,
            m,
            layout,
            systems::missing_from(s.app_windows(layout, pid), desired).to_multiset(),
        ),
        all_arrived(
            m,
            t,
            layout,
            systems::newcomers(pid, s.app_windows(layout, pid), desired).to_multiset(),
        ),
    ensures
        reconciled(s, t, layout, pid, desired),
{
    let current = s.app_windows(layout, pid);
    let gone = systems::missing_from(current, desired);
    let added = systems::newcomers(pid, current, desired);
    assert forall|w: WindowId| #[trigger]
        t.all_windows(layout).to_multiset().count(w) + gone.to_multiset().count(w)
            == s.all_windows(layout).to_multiset().count(w) + added.to_multiset().count(w) by {
        assert(m.all_windows(layout).to_multiset().add(gone.to_multiset()).count(w)
            == s.all_windows(layout).to_multiset().count(w));
        assert(t.all_windows(layout).to_multiset().count(w) == m.all_windows(
            layout,
        ).to_multiset().add(added.to_multiset()).count(w));
    }
    assert forall|l: LayoutId| s.has(l) && l != layout implies #[trigger] t.all_windows(
        l,
    ).to_multiset() == s.all_windows(l).to_multiset() by {
        assert(m.has(l));
        assert(m.all_windows(l).to_multiset() == s.all_windows(l).to_multiset());
    }
    lemma_reconciled(s, t, layout, pid, desired);
}

/// Unwanted windows can be dismissed if none of them covers the screen.
pub proof fn lemma_unwanted_dismissed(
    s: TraditionalView,
    layout: LayoutId,
    pid: Pid,
    desired: Seq<WindowId>,
)
    requires
        s.wf(),
        filed::filed(s),
        s.has(layout),
        forall|w: WindowId| #[trigger]
            covering(s, layout, w) && w.pid == pid ==> desired.contains(w),
    ensures
        ({
            let gone = systems::missing_from(s.app_windows(layout, pid), desired);
            departed(s, s.windows_dismissed(layout, gone), layout, gone.to_multiset())
        }),
{
    broadcast use vstd::seq_lib::group_to_multiset_ensures;

    let all = s.all_windows(layout);
    let gone = systems::missing_from(s.app_windows(layout, pid), desired);
    assert forall|w: WindowId| #[trigger]
        gone.to_multiset().count(w) <= all.to_multiset().count(w) by {
        lemma_gone_count(all, pid, desired, w);
    }
    assert forall|w: WindowId| gone.contains(w) implies !#[trigger] covering(s, layout, w) by {
        lemma_gone_count(all, pid, desired, w);
        assert(gone.to_multiset().count(w) > 0);
    }
    lemma_all_dismissed(s, layout, gone);
}

/// After the windows of a process were set, a layout holds exactly the wanted
/// windows of the process. Other windows and other layouts keep what they had.
/// A window that covers the screen is not dismissed, so none that does may be
/// unwanted.
pub proof fn law_windows_set(
    s: TraditionalView,
    layout: LayoutId,
    pid: Pid,
    desired: Seq<WindowId>,
)
    requires
        s.wf(),
        filed::filed(s),
        s.has(layout),
        forall|w: WindowId| #[trigger]
            covering(s, layout, w) && w.pid == pid ==> desired.contains(w),
        s.forest.minted + 2 * desired.len() <= u64::MAX,
    ensures
        reconciled(s, s.app_set(layout, pid, desired), layout, pid, desired),
        s.app_set(layout, pid, desired).forest.minted <= s.forest.minted + 2 * desired.len(),
{
    let current = s.app_windows(layout, pid);
    let gone = systems::missing_from(current, desired);
    let added = systems::newcomers(pid, current, desired);
    lemma_unwanted_dismissed(s, layout, pid, desired);
    let m = s.windows_dismissed(layout, gone);
    systems::lemma_newcomers(pid, current, desired, WindowId { pid, idx: 0 });
    lemma_all_added(m, layout, added);
    lemma_gone_and_come(s, m, m.windows_added(layout, added), layout, pid, desired);
}

} // verus!
