//! Windows that take each other's places.

use vstd::prelude::*;

use crate::actor::{LayoutId, WindowId};
use crate::layout_engine::systems::traditional::arrivals;
use crate::layout_engine::systems::traditional::filed;
use crate::layout_engine::systems::traditional::view::TraditionalView;
use crate::model::tree::culled;
use crate::model::tree::homes;
use crate::model::tree::proofs;
use crate::model::tree::view;
use crate::model::tree::view::{ForestView, NodeId, NodeInfo, WindowEntry};

verus! {

/// The forests have the same nodes with the same links.
pub open spec fn same_links(s: ForestView, t: ForestView) -> bool {
    &&& t.wf()
    &&& t.minted == s.minted
    &&& t.nodes.dom() == s.nodes.dom()
    &&& forall|x: NodeId| #[trigger] t.parent(x) == s.parent(x)
    &&& forall|x: NodeId| #[trigger] t.children(x) == s.children(x)
}

proof fn lemma_links_trans(s: ForestView, t: ForestView, u: ForestView)
    requires
        same_links(s, t),
        same_links(t, u),
    ensures
        same_links(s, u),
{
    assert forall|x: NodeId| #[trigger] u.parent(x) == s.parent(x) by {
        assert(t.parent(x) == s.parent(x));
    }
    assert forall|x: NodeId| #[trigger] u.children(x) == s.children(x) by {
        assert(t.children(x) == s.children(x));
    }
}

/// Nodes with the same links belong to the same trees and are traversed alike.
pub proof fn lemma_links(s: ForestView, t: ForestView)
    requires
        s.wf(),
        same_links(s, t),
    ensures
        forall|x: NodeId| s.live(x) ==> #[trigger] t.home(x) == s.home(x),
        forall|r: NodeId| s.live(r) ==> #[trigger] t.preorder(r) == s.preorder(r),
{
    assert forall|x: NodeId| #[trigger] t.live(x) == s.live(x) by {
        assert(t.nodes.dom().contains(x) == s.nodes.dom().contains(x));
    }
    assert(homes::hung_at_home(s, t)) by {
        assert forall|x: NodeId| #[trigger] t.live(x) && s.live(x) implies {
            &&& t.parent(x) is None ==> s.parent(x) is None
            &&& t.parent(x) is Some ==> s.live(t.parent(x)->0) && s.home(t.parent(x)->0) == s.home(
                x,
            )
        } by {
            assert(t.parent(x) == s.parent(x));
            homes::lemma_home(s, x);
            proofs::lemma_node(s, x);
        }
    }
    homes::lemma_homes(s, t);
    assert forall|x: NodeId| s.live(x) implies #[trigger] t.home(x) == s.home(x) by {
        assert(t.live(x));
    }
    assert forall|r: NodeId| s.live(r) implies #[trigger] t.preorder(r) == s.preorder(r) by {
        assert forall|x: NodeId| s.live(x) implies #[trigger] t.live(x) && t.children(x)
            == s.children(x) by {}
        homes::lemma_same_preorder(s, t, r);
    }
}

/// A node that shows a window shows another one; the links stay.
proof fn lemma_renamed(s: ForestView, n: NodeId, window: WindowId)
    requires
        s.wf(),
    ensures
        same_links(s, s.renamed(n, window)),
        s.renamed(n, window).index == s.index,
        forall|x: NodeId| #[trigger]
            s.renamed(n, window).window(x) == (if x == n && s.window(n) is Some {
                Some(window)
            } else {
                s.window(x)
            }),
{
    let t = s.renamed(n, window);
    if s.window(n) is Some {
        proofs::lemma_node(s, n);
        proofs::lemma_with_info(s, n, NodeInfo { window: Some(window), ..s.info(n) });
        assert(t.nodes.dom() =~= s.nodes.dom());
    }
}

/// The entry under which a node is entered again.
pub open spec fn reentry(e: WindowEntry, to: WindowId) -> WindowEntry {
    WindowEntry { window: to, layout: e.layout, node: e.node }
}

spec fn entered_inv(
    s: ForestView,
    entries: Seq<WindowEntry>,
    to: WindowId,
    t: ForestView,
) -> bool {
    &&& same_links(s, t)
    &&& forall|x: NodeId| #[trigger]
        t.window(x) == (if view::entry_nodes(entries).contains(x) {
            Some(to)
        } else {
            s.window(x)
        })
    &&& filed::distinct_nodes(t.index)
    &&& forall|i: int|
        0 <= i < t.index.len() ==> {
            ||| s.index.contains(#[trigger] t.index[i])
            ||| exists|k: int|
                0 <= k < entries.len() && t.index[i] == reentry(#[trigger] entries[k], to)
        }
    &&& forall|j: int| 0 <= j < s.index.len() ==> t.index.contains(#[trigger] s.index[j])
    &&& forall|k: int|
        0 <= k < entries.len() ==> t.index.contains(reentry(#[trigger] entries[k], to))
}

/// Entering nodes under another window.
proof fn lemma_entered(s: ForestView, entries: Seq<WindowEntry>, to: WindowId)
    requires
        s.wf(),
        filed::distinct_nodes(s.index),
        filed::distinct_nodes(entries),
        forall|k: int| 0 <= k < entries.len() ==> s.window((#[trigger] entries[k]).node) is Some,
        forall|k: int, j: int|
            0 <= k < entries.len() && 0 <= j < s.index.len() ==> (#[trigger] entries[k]).node != (
            #[trigger] s.index[j]).node,
    ensures
        entered_inv(s, entries, to, s.entered(entries, to)),
    decreases entries.len(),
{
    if entries.len() == 0 {
        assert forall|i: int| 0 <= i < s.index.len() implies s.index.contains(
            #[trigger] s.index[i],
        ) by {}
        assert(view::entry_nodes(entries).len() == 0);
    } else {
        let front = entries.drop_last();
        let e = entries.last();
        let last = entries.len() - 1;
        assert(entries[last] == e);
        assert forall|k: int| 0 <= k < front.len() implies #[trigger] front[k] == entries[k] by {}
        assert(filed::distinct_nodes(front)) by {
            assert forall|i: int, j: int| 0 <= i < j < front.len() implies (
            #[trigger] front[i]).node != (#[trigger] front[j]).node by {
                assert(entries[i].node != entries[j].node);
            }
        }
        assert forall|k: int| 0 <= k < front.len() implies s.window((#[trigger] front[k]).node)
            is Some by {
            assert(s.window(entries[k].node) is Some);
        }
        assert forall|k: int, j: int| 0 <= k < front.len() && 0 <= j < s.index.len() implies (
        #[trigger] front[k]).node != (#[trigger] s.index[j]).node by {
            assert(entries[k].node != s.index[j].node);
        }
        lemma_entered(s, front, to);
        let u = s.entered(front, to);
        let v = u.renamed(e.node, to);
        lemma_renamed(u, e.node, to);
        lemma_links_trans(s, u, v);
        let entry = reentry(e, to);
        let t = s.entered(entries, to);
        assert(t == (ForestView { index: view::index_with(v.index, entry), ..v }));
        assert(same_links(v, t)) by {
            assert(t.nodes == v.nodes);
        }
        lemma_links_trans(s, v, t);
        assert(s.window(entries[last].node) is Some);
        let ns = view::entry_nodes(entries);
        let fs = view::entry_nodes(front);
        assert forall|x: NodeId| ns.contains(x) <==> fs.contains(x) || x == e.node by {
            if ns.contains(x) {
                let i = choose|i: int| 0 <= i < ns.len() && ns[i] == x;
                if i < fs.len() {
                    assert(fs[i] == x);
                }
            }
            if fs.contains(x) {
                let i = choose|i: int| 0 <= i < fs.len() && fs[i] == x;
                assert(ns[i] == x);
            }
            assert(ns[last] == e.node);
        }
        assert forall|x: NodeId| #[trigger]
            t.window(x) == (if ns.contains(x) {
                Some(to)
            } else {
                s.window(x)
            }) by {
            assert(v.window(x) == t.window(x));
            assert(u.window(x) == (if fs.contains(x) {
                Some(to)
            } else {
                s.window(x)
            }));
            assert(u.window(e.node) is Some);
        }
        lemma_entered_index(s, entries, to, u.index);
    }
}

/// One more entry.
proof fn lemma_entered_index(
    s: ForestView,
    entries: Seq<WindowEntry>,
    to: WindowId,
    before: Seq<WindowEntry>,
)
    requires
        entries.len() > 0,
        filed::distinct_nodes(before),
        filed::distinct_nodes(entries),
        forall|k: int, j: int|
            0 <= k < entries.len() && 0 <= j < s.index.len() ==> (#[trigger] entries[k]).node != (
            #[trigger] s.index[j]).node,
        forall|i: int|
            0 <= i < before.len() ==> {
                ||| s.index.contains(#[trigger] before[i])
                ||| exists|k: int|
                    0 <= k < entries.drop_last().len() && before[i] == reentry(
                        #[trigger] entries.drop_last()[k],
                        to,
                    )
            },
        forall|j: int| 0 <= j < s.index.len() ==> before.contains(#[trigger] s.index[j]),
        forall|k: int|
            0 <= k < entries.drop_last().len() ==> before.contains(
                reentry(#[trigger] entries.drop_last()[k], to),
            ),
    ensures
        ({
            let after = view::index_with(before, reentry(entries.last(), to));
            &&& filed::distinct_nodes(after)
            &&& forall|i: int|
                0 <= i < after.len() ==> {
                    ||| s.index.contains(#[trigger] after[i])
                    ||| exists|k: int|
                        0 <= k < entries.len() && after[i] == reentry(#[trigger] entries[k], to)
                }
            &&& forall|j: int| 0 <= j < s.index.len() ==> after.contains(#[trigger] s.index[j])
            &&& forall|k: int|
                0 <= k < entries.len() ==> after.contains(reentry(#[trigger] entries[k], to))
        }),
{
    let front = entries.drop_last();
    let last = entries.len() - 1;
    let entry = reentry(entries.last(), to);
    let after = view::index_with(before, entry);
    arrivals::lemma_index_with(before, entry);
    let slot = view::entry_slot(before, entry.window, 0);
    assert(entries[last] == entries.last());
    assert forall|i: int| 0 <= i < before.len() implies (#[trigger] before[i]).node
        != entry.node by {
        if s.index.contains(before[i]) {
            let j = choose|j: int| 0 <= j < s.index.len() && s.index[j] == before[i];
            assert(entries[last].node != s.index[j].node);
        } else {
            let k = choose|k: int|
                0 <= k < front.len() && before[i] == reentry(#[trigger] front[k], to);
            assert(entries[k].node != entries[last].node);
        }
    }
    assert(filed::distinct_nodes(after)) by {
        assert forall|i: int, j: int| 0 <= i < j < after.len() implies (#[trigger] after[i]).node
            != (#[trigger] after[j]).node by {
            if i != slot && j != slot {
                let a = if i < slot { i } else { i - 1 };
                let b = if j < slot { j } else { j - 1 };
                assert(after[i] == before[a] && after[j] == before[b]);
            } else if i == slot {
                assert(after[j] == before[j - 1]);
            } else {
                assert(after[i] == before[i]);
            }
        }
    }
    assert forall|i: int| 0 <= i < after.len() implies {
        ||| s.index.contains(#[trigger] after[i])
        ||| exists|k: int|
            0 <= k < entries.len() && after[i] == reentry(#[trigger] entries[k], to)
    } by {
        if i != slot {
            let a = if i < slot { i } else { i - 1 };
            assert(after[i] == before[a]);
            if !s.index.contains(before[a]) {
                let k = choose|k: int|
                    0 <= k < front.len() && before[a] == reentry(#[trigger] front[k], to);
                assert(after[i] == reentry(entries[k], to));
            }
        } else {
            assert(after[i] == reentry(entries[last], to));
        }
    }
    assert forall|e: WindowEntry| before.contains(e) implies #[trigger] after.contains(e) by {
        let i = choose|i: int| 0 <= i < before.len() && before[i] == e;
        assert(after[if i < slot { i } else { i + 1 }] == before[i]);
    }
    assert(after.contains(entry)) by {
        assert(after[slot] == entry);
    }
    assert forall|k: int| 0 <= k < entries.len() implies after.contains(
        reentry(#[trigger] entries[k], to),
    ) by {
        if k < last {
            assert(front[k] == entries[k]);
            assert(before.contains(reentry(front[k], to)));
        }
    }
}

/// The window that takes the place of `w` when `to` replaces `from`.
pub open spec fn replaced(from: WindowId, to: WindowId, w: WindowId) -> WindowId {
    if w == from {
        to
    } else {
        w
    }
}

/// Replacing a window puts the new one wherever the old one was, in every layout,
/// and moves no window. The index still agrees with the trees.
pub proof fn law_replaced(s: TraditionalView, from: WindowId, to: WindowId)
    requires
        s.wf(),
        filed::filed(s),
    ensures
        ({
            let t = s.with_forest(s.forest.with_replaced(from, to));
            &&& t.wf()
            &&& filed::filed(t)
            &&& forall|l: LayoutId|
                s.has(l) ==> #[trigger] t.all_windows(l) == s.all_windows(l).map_values(
                    |w: WindowId| replaced(from, to, w),
                )
        }),
{
    let f = s.forest;
    let change = |w: WindowId| replaced(from, to, w);
    if from == to {
        assert forall|l: LayoutId| s.has(l) implies #[trigger] s.all_windows(l)
            == s.all_windows(l).map_values(change) by {
            assert(s.all_windows(l) =~= s.all_windows(l).map_values(change));
        }
        assert(s.with_forest(f) == s);
    } else {
        let start = f.forgetting(from);
        let stay = |e: WindowEntry| e.window != from;
        let go = |e: WindowEntry| e.window == from;
        let entries = f.entries_for(from);
        culled::lemma_filtered_ok(f.index, stay);
        culled::lemma_filtered_ok(f.index, go);
        filed::lemma_filter_distinct(f.index, stay);
        filed::lemma_filter_distinct(f.index, go);
        assert forall|k: int| 0 <= k < entries.len() implies f.window(
            (#[trigger] entries[k]).node,
        ) == Some(from) && f.index.contains(entries[k]) by {
            let j = choose|j: int| 0 <= j < f.index.len() && f.index[j] == entries[k];
            assert(go(entries[k]));
            assert(f.window(f.index[j].node) == Some(f.index[j].window));
        }
        assert forall|j: int| 0 <= j < start.index.len() implies f.window(
            (#[trigger] start.index[j]).node,
        ) == Some(start.index[j].window) && start.index[j].window != from && f.index.contains(
            start.index[j],
        ) by {
            let i = choose|i: int| 0 <= i < f.index.len() && f.index[i] == start.index[j];
            assert(stay(start.index[j]));
            assert(f.window(f.index[i].node) == Some(f.index[i].window));
        }
        assert forall|k: int| 0 <= k < entries.len() implies start.window(
            (#[trigger] entries[k]).node,
        ) is Some by {
            assert(f.window(entries[k].node) is Some);
        }
        lemma_entered(start, entries, to);
        let g = f.with_replaced(from, to);
        lemma_replaced_filed(s, from, to, start, entries, g);
    }
}

proof fn lemma_replaced_filed(
    s: TraditionalView,
    from: WindowId,
    to: WindowId,
    start: ForestView,
    entries: Seq<WindowEntry>,
    g: ForestView,
)
    requires
        s.wf(),
        filed::filed(s),
        from != to,
        start.nodes == s.forest.nodes,
        start.minted == s.forest.minted,
        entered_inv(start, entries, to, g),
        forall|k: int|
            0 <= k < entries.len() ==> s.forest.window((#[trigger] entries[k]).node) == Some(from)
                && s.forest.index.contains(entries[k]),
        forall|j: int|
            0 <= j < start.index.len() ==> s.forest.window((#[trigger] start.index[j]).node)
                == Some(start.index[j].window) && start.index[j].window != from
                && s.forest.index.contains(start.index[j]),
        forall|i: int|
            0 <= i < s.forest.index.len() && (#[trigger] s.forest.index[i]).window != from
                ==> start.index.contains(s.forest.index[i]),
        forall|i: int|
            0 <= i < s.forest.index.len() && (#[trigger] s.forest.index[i]).window == from
                ==> entries.contains(s.forest.index[i]),
    ensures
        s.with_forest(g).wf(),
        filed::filed(s.with_forest(g)),
        forall|l: LayoutId|
            s.has(l) ==> #[trigger] s.with_forest(g).all_windows(l) == s.all_windows(
                l,
            ).map_values(|w: WindowId| replaced(from, to, w)),
{
    let f = s.forest;
    let t = s.with_forest(g);
    let change = |w: WindowId| replaced(from, to, w);
    let ns = view::entry_nodes(entries);
    assert(same_links(f, g)) by {
        assert forall|x: NodeId| #[trigger] g.parent(x) == f.parent(x) by {
            assert(g.parent(x) == start.parent(x));
        }
        assert forall|x: NodeId| #[trigger] g.children(x) == f.children(x) by {
            assert(g.children(x) == start.children(x));
        }
    }
    lemma_links(f, g);
    assert forall|x: NodeId| #[trigger] g.live(x) == f.live(x) by {
        assert(g.nodes.dom().contains(x) == f.nodes.dom().contains(x));
    }
    assert forall|x: NodeId| ns.contains(x) <==> f.window(x) == Some(from) by {
        if ns.contains(x) {
            let k = choose|k: int| 0 <= k < ns.len() && ns[k] == x;
            assert(f.window(entries[k].node) == Some(from));
        }
        if f.window(x) == Some(from) {
            assert(filed::listed(f, x));
            let i = choose|i: int| 0 <= i < f.index.len() && (#[trigger] f.index[i]).node == x;
            assert(f.window(f.index[i].node) == Some(f.index[i].window));
            assert(entries.contains(f.index[i]));
            let k = choose|k: int| 0 <= k < entries.len() && entries[k] == f.index[i];
            assert(ns[k] == x);
        }
    }
    assert forall|x: NodeId| #[trigger]
        g.window(x) == (match f.window(x) {
            Some(w) => Some(change(w)),
            None => None,
        }) by {
        assert(start.window(x) == f.window(x));
        assert(g.window(x) == (if ns.contains(x) {
            Some(to)
        } else {
            start.window(x)
        }));
    }
    assert forall|l: LayoutId| #[trigger] t.roots.contains_key(l) implies {
        &&& l.issued()
        &&& g.live(t.roots[l])
        &&& g.parent(t.roots[l]) is None
        &&& g.window(t.roots[l]) is None
    } by {
        assert(s.roots.contains_key(l));
        assert(g.live(s.roots[l]) == f.live(s.roots[l]));
        assert(g.parent(s.roots[l]) == f.parent(s.roots[l]));
        assert(g.window(s.roots[l]) is None);
    }
    assert forall|l: LayoutId| s.has(l) implies #[trigger] t.all_windows(l) == s.all_windows(
        l,
    ).map_values(change) by {
        let r = s.root(l);
        assert(s.roots.contains_key(l));
        assert(g.preorder(r) == f.preorder(r));
        homes::lemma_windows_mapped(f, g, f.preorder(r), change);
    }
    assert forall|i: int| 0 <= i < g.index.len() implies g.window((#[trigger] g.index[i]).node)
        == Some(g.index[i].window) && filed::in_its_layout(t, g.index[i]) by {
        let e = g.index[i];
        if start.index.contains(e) {
            let j = choose|j: int| 0 <= j < start.index.len() && start.index[j] == e;
            assert(f.window(start.index[j].node) == Some(start.index[j].window));
            let m = choose|m: int| 0 <= m < f.index.len() && f.index[m] == start.index[j];
            assert(filed::in_its_layout(s, f.index[m]));
        } else {
            let k = choose|k: int| 0 <= k < entries.len() && e == reentry(#[trigger] entries[k], to);
            assert(f.window(entries[k].node) == Some(from));
            let m = choose|m: int| 0 <= m < f.index.len() && f.index[m] == entries[k];
            assert(filed::in_its_layout(s, f.index[m]));
        }
        assert(f.live(e.node));
        assert(g.home(e.node) == f.home(e.node));
    }
    assert forall|x: NodeId| (#[trigger] g.window(x)) is Some implies filed::listed(g, x) by {
        assert(f.window(x) is Some);
        assert(filed::listed(f, x));
        let i = choose|i: int| 0 <= i < f.index.len() && (#[trigger] f.index[i]).node == x;
        if f.index[i].window == from {
            assert(entries.contains(f.index[i]));
            let k = choose|k: int| 0 <= k < entries.len() && entries[k] == f.index[i];
            assert(g.index.contains(reentry(entries[k], to)));
            let m = choose|m: int|
                0 <= m < g.index.len() && g.index[m] == reentry(entries[k], to);
            assert(g.index[m].node == x);
        } else {
            assert(start.index.contains(f.index[i]));
            let j = choose|j: int| 0 <= j < start.index.len() && start.index[j] == f.index[i];
            assert(g.index.contains(start.index[j]));
            let m = choose|m: int| 0 <= m < g.index.len() && g.index[m] == start.index[j];
            assert(g.index[m].node == x);
        }
    }
}

/// A window is shown by one node of a layout at most.
pub open spec fn once(s: TraditionalView, layout: LayoutId, w: WindowId) -> bool {
    forall|x: NodeId, y: NodeId|
        #[trigger] homes::shown_in(s.forest, s.root(layout), x) && #[trigger] homes::shown_in(
            s.forest,
            s.root(layout),
            y,
        ) && s.forest.window(x) == Some(w) && s.forest.window(y) == Some(w) ==> x == y
}

/// The window that takes the place of `w` when `a` and `b` are exchanged.
pub open spec fn exchanged(a: WindowId, b: WindowId, w: WindowId) -> WindowId {
    if w == a {
        b
    } else if w == b {
        a
    } else {
        w
    }
}

/// What an exchange of two windows makes of the forest.
spec fn swapped_facts(
    s: TraditionalView,
    layout: LayoutId,
    a: WindowId,
    b: WindowId,
    na: NodeId,
    nb: NodeId,
) -> bool {
    let f = s.forest;
    let g = f.with_swapped(layout, a, b);
    &&& same_links(f, g)
    &&& g.changes == f.changes
    &&& g.index.len() == f.index.len()
    &&& forall|x: NodeId| #[trigger]
        g.window(x) == (if x == na {
            Some(b)
        } else if x == nb {
            Some(a)
        } else {
            f.window(x)
        })
    &&& forall|i: int|
        0 <= i < f.index.len() ==> {
            let e = f.index[i];
            #[trigger] g.index[i] == (if e.layout == layout && e.window == a {
                WindowEntry { node: nb, ..e }
            } else if e.layout == layout && e.window == b {
                WindowEntry { node: na, ..e }
            } else {
                e
            })
        }
}

/// Two windows that a layout shows once each can be exchanged.
proof fn lemma_can_swap(s: TraditionalView, layout: LayoutId, a: WindowId, b: WindowId)
    requires
        s.wf(),
        filed::filed(s),
        s.has(layout),
        a != b,
        s.all_windows(layout).contains(a),
        s.all_windows(layout).contains(b),
        once(s, layout, a),
        once(s, layout, b),
    ensures
        ({
            let f = s.forest;
            let na = f.node_for(layout, a)->0;
            let nb = f.node_for(layout, b)->0;
            &&& f.can_swap(layout, a, b)
            &&& f.node_for(layout, a) == Some(na)
            &&& f.node_for(layout, b) == Some(nb)
            &&& na != nb
            &&& f.window(na) == Some(a)
            &&& f.window(nb) == Some(b)
            &&& f.home(na) == s.root(layout)
            &&& f.home(nb) == s.root(layout)
            &&& swapped_facts(s, layout, a, b, na, nb)
            &&& forall|i: int|
                0 <= i < f.index.len() ==> {
                    &&& (#[trigger] f.index[i]).layout == layout && f.index[i].window == a
                        <==> f.index[i].node == na
                    &&& f.index[i].layout == layout && f.index[i].window == b <==> f.index[i].node
                        == nb
                }
        }),
{
    let f = s.forest;
    let r = s.root(layout);
    assert(s.roots.contains_key(layout));
    filed::law_contains(s, layout, a);
    filed::law_contains(s, layout, b);
    let na = f.node_for(layout, a)->0;
    let nb = f.node_for(layout, b)->0;
    assert(homes::shown_in(f, r, na) && homes::shown_in(f, r, nb));
    let f1 = f.renamed(nb, a);
    lemma_renamed(f, nb, a);
    let f2 = f1.renamed(na, b);
    lemma_renamed(f1, na, b);
    lemma_links_trans(f, f1, f2);
    let g = f.with_swapped(layout, a, b);
    assert(g.nodes == f2.nodes);
    assert(same_links(f2, g));
    lemma_links_trans(f, f2, g);
    assert forall|x: NodeId| #[trigger]
        g.window(x) == (if x == na {
            Some(b)
        } else if x == nb {
            Some(a)
        } else {
            f.window(x)
        }) by {
        assert(g.window(x) == f2.window(x));
        assert(f2.window(x) == (if x == na && f1.window(na) is Some {
            Some(b)
        } else {
            f1.window(x)
        }));
        assert(f1.window(x) == (if x == nb && f.window(nb) is Some {
            Some(a)
        } else {
            f.window(x)
        }));
        assert(f1.window(na) == f.window(na));
    }
    assert forall|i: int| 0 <= i < f.index.len() implies {
        &&& (#[trigger] f.index[i]).layout == layout && f.index[i].window == a
            <==> f.index[i].node == na
        &&& f.index[i].layout == layout && f.index[i].window == b <==> f.index[i].node == nb
    } by {
        let e = f.index[i];
        assert(f.window(f.index[i].node) == Some(f.index[i].window));
        assert(filed::in_its_layout(s, e));
        if e.layout == layout {
            assert(homes::shown_in(f, r, e.node));
        } else {
            assert(s.roots.contains_key(e.layout));
            assert(s.roots[e.layout] != s.roots[layout]);
        }
    }
}

/// Exchanging two windows of a layout that shows each of them once puts each of
/// them where the other was. No other window moves, and the index still agrees
/// with the trees.
pub proof fn law_swapped(s: TraditionalView, layout: LayoutId, a: WindowId, b: WindowId)
    requires
        s.wf(),
        filed::filed(s),
        s.has(layout),
        a != b,
        s.all_windows(layout).contains(a),
        s.all_windows(layout).contains(b),
        once(s, layout, a),
        once(s, layout, b),
    ensures
        ({
            let t = s.with_forest(s.forest.with_swapped(layout, a, b));
            &&& t.wf()
            &&& filed::filed(t)
            &&& t.all_windows(layout) == s.all_windows(layout).map_values(
                |w: WindowId| exchanged(a, b, w),
            )
            &&& forall|l: LayoutId|
                s.has(l) && l != layout ==> #[trigger] t.all_windows(l) == s.all_windows(l)
        }),
{
    lemma_can_swap(s, layout, a, b);
    let f = s.forest;
    let g = f.with_swapped(layout, a, b);
    let t = s.with_forest(g);
    let na = f.node_for(layout, a)->0;
    let nb = f.node_for(layout, b)->0;
    let root = s.root(layout);
    let change = |w: WindowId| exchanged(a, b, w);
    let same = |w: WindowId| w;
    lemma_links(f, g);
    assert forall|x: NodeId| #[trigger] g.live(x) == f.live(x) by {
        assert(g.nodes.dom().contains(x) == f.nodes.dom().contains(x));
    }
    assert forall|l: LayoutId| #[trigger] t.roots.contains_key(l) implies {
        &&& l.issued()
        &&& g.live(t.roots[l])
        &&& g.parent(t.roots[l]) is None
        &&& g.window(t.roots[l]) is None
    } by {
        assert(s.roots.contains_key(l));
        assert(g.live(s.roots[l]) == f.live(s.roots[l]));
        assert(g.parent(s.roots[l]) == f.parent(s.roots[l]));
        assert(s.roots[l] != na && s.roots[l] != nb);
        assert(g.window(s.roots[l]) is None);
    }
    assert forall|l: LayoutId| s.has(l) implies #[trigger] t.all_windows(l) == (if l == layout {
        s.all_windows(l).map_values(change)
    } else {
        s.all_windows(l)
    }) by {
        let r = s.root(l);
        assert(s.roots.contains_key(l));
        let nodes = f.preorder(r);
        assert(g.preorder(r) == nodes);
        if l == layout {
            assert forall|i: int| 0 <= i < nodes.len() implies g.window(#[trigger] nodes[i]) == (
            match f.window(nodes[i]) {
                Some(w) => Some(change(w)),
                None => None,
            }) by {
                let x = nodes[i];
                assert(nodes.contains(x));
                homes::lemma_shown_in(f, r, x);
                homes::lemma_shown_in(f, r, na);
                homes::lemma_shown_in(f, r, nb);
                if f.window(x) is Some {
                    assert(homes::shown_in(f, r, x));
                }
            }
            homes::lemma_windows_mapped(f, g, nodes, change);
        } else {
            assert(s.roots.contains_key(layout));
            assert(s.roots[l] != s.roots[layout]);
            assert forall|i: int| 0 <= i < nodes.len() implies g.window(#[trigger] nodes[i]) == (
            match f.window(nodes[i]) {
                Some(w) => Some(same(w)),
                None => None,
            }) by {
                let x = nodes[i];
                assert(nodes.contains(x));
                homes::lemma_shown_in(f, r, x);
                assert(x != na && x != nb);
            }
            homes::lemma_windows_mapped(f, g, nodes, same);
            assert(f.windows_of(nodes).map_values(same) =~= f.windows_of(nodes));
        }
    }
    assert forall|i: int| 0 <= i < g.index.len() implies g.window((#[trigger] g.index[i]).node)
        == Some(g.index[i].window) && filed::in_its_layout(t, g.index[i]) by {
        let e = f.index[i];
        assert(f.window(f.index[i].node) == Some(f.index[i].window));
        assert(filed::in_its_layout(s, e));
        assert(g.home(na) == f.home(na) && g.home(nb) == f.home(nb));
        assert(g.home(e.node) == f.home(e.node));
    }
    assert(filed::distinct_nodes(g.index)) by {
        assert forall|i: int, j: int| 0 <= i < j < g.index.len() implies (#[trigger] g.index[i]).node
            != (#[trigger] g.index[j]).node by {
            assert(f.index[i].node != f.index[j].node);
        }
    }
    assert forall|x: NodeId| (#[trigger] g.window(x)) is Some implies filed::listed(g, x) by {
        let y = if x == na {
            nb
        } else if x == nb {
            na
        } else {
            x
        };
        assert(f.window(y) is Some);
        assert(filed::listed(f, y));
        let i = choose|i: int| 0 <= i < f.index.len() && (#[trigger] f.index[i]).node == y;
        assert(g.index[i].node == x);
    }
}

/// Exchanging two windows twice leaves the forest as it was.
pub proof fn law_swapped_back(s: TraditionalView, layout: LayoutId, a: WindowId, b: WindowId)
    requires
        s.wf(),
        filed::filed(s),
        s.has(layout),
        a != b,
        s.all_windows(layout).contains(a),
        s.all_windows(layout).contains(b),
        once(s, layout, a),
        once(s, layout, b),
    ensures
        s.forest.with_swapped(layout, a, b).with_swapped(layout, a, b) == s.forest,
{
    lemma_can_swap(s, layout, a, b);
    let f = s.forest;
    let g = f.with_swapped(layout, a, b);
    let na = f.node_for(layout, a)->0;
    let nb = f.node_for(layout, b)->0;
    filed::lemma_entry_node(f.index, layout, a);
    filed::lemma_entry_node(f.index, layout, b);
    filed::lemma_entry_node(g.index, layout, a);
    filed::lemma_entry_node(g.index, layout, b);
    let i = choose|i: int|
        0 <= i < f.index.len() && (#[trigger] f.index[i]).window == a && f.index[i].layout
            == layout;
    assert(g.index[i].window == a && g.index[i].layout == layout);
    let j = choose|j: int|
        0 <= j < f.index.len() && (#[trigger] f.index[j]).window == b && f.index[j].layout
            == layout;
    assert(g.index[j].window == b && g.index[j].layout == layout);
    assert(g.node_for(layout, a) == Some(nb)) by {
        let k = choose|k: int|
            0 <= k < g.index.len() && (#[trigger] g.index[k]).window == a && g.index[k].layout
                == layout && Some(g.index[k].node) == g.node_for(layout, a);
        assert(f.index[k].window == a && f.index[k].layout == layout);
    }
    assert(g.node_for(layout, b) == Some(na)) by {
        let k = choose|k: int|
            0 <= k < g.index.len() && (#[trigger] g.index[k]).window == b && g.index[k].layout
                == layout && Some(g.index[k].node) == g.node_for(layout, b);
        assert(f.index[k].window == b && f.index[k].layout == layout);
    }
    assert(g.window(na) == Some(b) && g.window(nb) == Some(a));
    assert(g.can_swap(layout, a, b));
    let h = g.with_swapped(layout, a, b);
    assert(h.index =~= f.index) by {
        assert forall|k: int| 0 <= k < f.index.len() implies h.index[k] == f.index[k] by {
            let e = g.index[k];
            assert(f.index[k].node == na || f.index[k].node == nb || e == f.index[k]);
        }
    }
    assert(h.nodes =~= f.nodes) by {
        assert(f.live(na) && f.live(nb));
    }
}

} // verus!
