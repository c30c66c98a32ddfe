//! What the removal of windows leaves behind.

use vstd::prelude::*;

use crate::model::tree::homes;
use crate::model::tree::kept;
use crate::model::tree::proofs;
use crate::model::tree::view;
use crate::model::tree::view::{ForestView, NodeId, SizeChange, WindowEntry};

verus! {

/// From `s` to `t` the nodes `ns` lose their windows. All other windows stay at
/// their nodes, nodes stay in their trees and empty roots stay roots.
pub open spec fn culled(s: ForestView, t: ForestView, ns: Seq<NodeId>) -> bool {
    &&& t.wf()
    &&& homes::no_revival(s, t)
    &&& kept::roots_kept(s, t)
    &&& forall|x: NodeId| #[trigger]
        t.window(x) == (if ns.contains(x) {
            None
        } else {
            s.window(x)
        })
    &&& forall|x: NodeId| s.live(x) && t.live(x) ==> #[trigger] t.home(x) == s.home(x)
}

/// Taking a childless node out of the forest.
proof fn lemma_leaf_out(s: ForestView, n: NodeId)
    requires
        s.wf(),
        s.parent(n) is Some,
        s.children(n).len() == 0,
    ensures
        culled(s, s.detached(n).dropped(n), seq![n]),
{
    let t = s.detached(n).dropped(n);
    let loose = s.detached(n);
    proofs::lemma_detached(s, n);
    proofs::lemma_dropped(loose, n);
    assert forall|x: NodeId| #[trigger]
        t.window(x) == (if seq![n].contains(x) {
            None
        } else {
            s.window(x)
        }) by {
        assert(seq![n].contains(n)) by {
            assert(seq![n][0] == n);
        }
        assert(seq![n].contains(x) ==> x == n);
    }
    assert(homes::hung_at_home(s, t)) by {
        assert forall|x: NodeId| #[trigger] t.live(x) && s.live(x) implies {
            &&& t.parent(x) is None ==> s.parent(x) is None
            &&& t.parent(x) is Some ==> s.live(t.parent(x)->0) && s.home(t.parent(x)->0) == s.home(
                x,
            )
        } by {
            assert(x != n);
            assert(loose.parent(x) == s.parent(x));
            homes::lemma_home(s, x);
            proofs::lemma_node(s, x);
        }
    }
    homes::lemma_homes(s, t);
    assert forall|x: NodeId| #[trigger]
        s.live(x) && s.parent(x) is None && s.window(x) is None implies t.live(x) && t.parent(x)
        is None && t.window(x) is None by {
        assert(loose.parent(x) == s.parent(x));
    }
}

/// A removal followed by edits that lose nothing.
proof fn lemma_culled_settled(s: ForestView, t: ForestView, u: ForestView, ns: Seq<NodeId>)
    requires
        s.wf(),
        culled(s, t, ns),
        homes::settled(t, u),
    ensures
        culled(s, u, ns),
{
    kept::lemma_roots(t, u);
    assert forall|x: NodeId| #[trigger] u.live(x) && x < s.minted implies s.live(x) by {
        assert(t.live(x));
    }
    assert forall|x: NodeId| s.live(x) && u.live(x) implies #[trigger] u.home(x) == s.home(x) by {
        assert(x < s.minted);
        assert(t.live(x));
        assert(t.home(x) == s.home(x));
    }
    assert forall|x: NodeId| #[trigger]
        u.window(x) == (if ns.contains(x) {
            None
        } else {
            s.window(x)
        }) by {
        assert(t.window(x) is Some ==> u.window(x) == t.window(x));
        assert(u.window(x) is Some ==> t.window(x) == u.window(x));
    }
    assert forall|x: NodeId| #[trigger]
        s.live(x) && s.parent(x) is None && s.window(x) is None implies u.live(x) && u.parent(x)
        is None && u.window(x) is None by {
        assert(t.live(x));
    }
}

/// Removing a node that shows a window.
pub proof fn lemma_window_node_removed(s: ForestView, n: NodeId)
    requires
        s.wf(),
        s.parent(n) is Some,
        s.window(n) is Some,
    ensures
        culled(s, s.removed(n), seq![n]),
        kept::index_ok(s) ==> s.removed(n).index == ForestView::index_without(s.index, n),
        kept::index_ok(s) ==> kept::index_ok(s.removed(n)),
{
    let loose = s.detached(n);
    let p = s.parent(n)->0;
    proofs::lemma_node(s, n);
    proofs::lemma_detached(s, n);
    assert(loose.preorder_below(n, 0) =~= Seq::empty());
    assert(loose.preorder(n) =~= seq![n]);
    assert(seq![n].reverse() =~= seq![n]);
    assert(seq![n].drop_last() =~= Seq::empty());
    assert(loose.discarded(Seq::empty()) == loose);
    let t = loose.discarded(seq![n]);
    assert(t == loose.dropped(n));
    lemma_leaf_out(s, n);
    assert(t.window(p) is None);
    homes::lemma_collapsed(t, p);
    lemma_culled_settled(s, t, s.removed(n), seq![n]);
    if kept::index_ok(s) {
        lemma_filtered_ok(s.index, |e: WindowEntry| e.node != n);
        assert forall|i: int| 0 <= i < t.index.len() implies t.window((#[trigger] t.index[i]).node)
            == Some(t.index[i].window) by {
            let e = t.index[i];
            let j = choose|j: int| 0 <= j < s.index.len() && s.index[j] == e;
            assert(s.window(s.index[j].node) == Some(s.index[j].window));
        }
        kept::lemma_index_ok(t, s.removed(n));
    }
}

/// A filter keeps members that pass it, and only those.
pub proof fn lemma_filtered_ok(index: Seq<WindowEntry>, keep: spec_fn(WindowEntry) -> bool)
    ensures
        forall|i: int|
            0 <= i < index.filter(keep).len() ==> keep(#[trigger] index.filter(keep)[i])
                && exists|j: int| 0 <= j < index.len() && index[j] == index.filter(keep)[i],
        forall|j: int|
            0 <= j < index.len() && keep(#[trigger] index[j]) ==> index.filter(keep).contains(
                index[j],
            ),
{
    broadcast use vstd::seq_lib::group_filter_ensures;

    assert forall|i: int| 0 <= i < index.filter(keep).len() implies keep(
        #[trigger] index.filter(keep)[i],
    ) && exists|j: int| 0 <= j < index.len() && index[j] == index.filter(keep)[i] by {
        assert(index.filter(keep).contains(index.filter(keep)[i]));
        index.lemma_filter_contains_rev(keep, index.filter(keep)[i]);
    }
    assert forall|j: int| 0 <= j < index.len() && keep(#[trigger] index[j]) implies index.filter(
        keep,
    ).contains(index[j]) by {
        assert(index.contains(index[j]));
    }
}

/// No entry of the index points at a node of the list.
pub open spec fn unlisted(s: ForestView, ns: Seq<NodeId>) -> bool {
    forall|i: int| 0 <= i < s.index.len() ==> !ns.contains((#[trigger] s.index[i]).node)
}

/// Each node of the list shows a window and is no root, and no node occurs twice.
pub open spec fn window_nodes(s: ForestView, ns: Seq<NodeId>) -> bool {
    &&& ns.no_duplicates()
    &&& forall|i: int|
        0 <= i < ns.len() ==> s.window(#[trigger] ns[i]) is Some && s.parent(ns[i]) is Some
}

/// One more removal after those of `front`.
proof fn lemma_culled_step(
    s: ForestView,
    t: ForestView,
    u: ForestView,
    front: Seq<NodeId>,
    n: NodeId,
)
    requires
        s.wf(),
        culled(s, t, front),
        culled(t, u, seq![n]),
    ensures
        culled(s, u, front.push(n)),
{
    assert forall|x: NodeId| #[trigger] u.live(x) && x < s.minted implies s.live(x) by {
        assert(t.live(x));
    }
    assert forall|x: NodeId| s.live(x) && u.live(x) implies #[trigger] u.home(x) == s.home(x) by {
        assert(x < s.minted);
        assert(t.live(x));
        assert(t.home(x) == s.home(x));
    }
    assert forall|x: NodeId| #[trigger]
        u.window(x) == (if front.push(n).contains(x) {
            None
        } else {
            s.window(x)
        }) by {
        assert(t.window(x) == (if front.contains(x) {
            None
        } else {
            s.window(x)
        }));
        assert(seq![n].contains(x) <==> x == n) by {
            assert(seq![n][0] == n);
        }
        lemma_push_contains(front, n, x);
    }
    assert forall|x: NodeId| #[trigger]
        s.live(x) && s.parent(x) is None && s.window(x) is None implies u.live(x) && u.parent(x)
        is None && u.window(x) is None by {
        assert(t.live(x));
    }
}

proof fn lemma_push_contains(front: Seq<NodeId>, n: NodeId, x: NodeId)
    ensures
        front.push(n).contains(x) <==> front.contains(x) || x == n,
{
    let all = front.push(n);
    if all.contains(x) {
        let i = choose|i: int| 0 <= i < all.len() && all[i] == x;
        if i < front.len() {
            assert(front[i] == x);
        }
    }
    if front.contains(x) {
        let i = choose|i: int| 0 <= i < front.len() && front[i] == x;
        assert(all[i] == x);
    }
    assert(all[front.len() as int] == n);
}

/// A node of the list that is still to be removed.
proof fn lemma_next_of_list(s: ForestView, t: ForestView, ns: Seq<NodeId>)
    requires
        s.wf(),
        ns.len() > 0,
        window_nodes(s, ns),
        culled(s, t, ns.drop_last()),
    ensures
        t.window(ns.last()) is Some,
        t.parent(ns.last()) is Some,
        window_nodes(s, ns.drop_last()),
        ns.drop_last().push(ns.last()) == ns,
{
    let n = ns.last();
    let front = ns.drop_last();
    assert(front.push(n) =~= ns);
    assert(ns[ns.len() - 1] == n);
    assert(s.window(n) is Some && s.parent(n) is Some);
    assert(!front.contains(n)) by {
        if front.contains(n) {
            let i = choose|i: int| 0 <= i < front.len() && front[i] == n;
            assert(ns[i] == n);
        }
    }
    assert(t.window(n) == s.window(n));
    assert(t.live(n));
    homes::lemma_home(s, n);
    homes::lemma_home(t, n);
    assert(s.home(n) != n);
    assert forall|i: int| 0 <= i < front.len() implies s.window(#[trigger] front[i]) is Some
        && s.parent(front[i]) is Some by {
        assert(ns[i] == front[i]);
    }
}

proof fn lemma_front_of_list(s: ForestView, ns: Seq<NodeId>)
    requires
        ns.len() > 0,
        window_nodes(s, ns),
    ensures
        window_nodes(s, ns.drop_last()),
        unlisted(s, ns) ==> unlisted(s, ns.drop_last()),
{
    let front = ns.drop_last();
    assert forall|i: int| 0 <= i < front.len() implies s.window(#[trigger] front[i]) is Some
        && s.parent(front[i]) is Some by {
        assert(ns[i] == front[i]);
    }
    if unlisted(s, ns) {
        assert forall|i: int| 0 <= i < s.index.len() implies !front.contains(
            (#[trigger] s.index[i]).node,
        ) by {
            if front.contains(s.index[i].node) {
                let k = choose|k: int| 0 <= k < front.len() && front[k] == s.index[i].node;
                assert(ns[k] == s.index[i].node);
            }
        }
    }
}

/// Removing the nodes of a list, whose entries are gone already.
pub proof fn lemma_all_removed(s: ForestView, ns: Seq<NodeId>)
    requires
        s.wf(),
        kept::index_ok(s),
        window_nodes(s, ns),
        unlisted(s, ns),
    ensures
        culled(s, s.all_removed(ns), ns),
        s.all_removed(ns).index == s.index,
        kept::index_ok(s.all_removed(ns)),
    decreases ns.len(),
{
    if ns.len() == 0 {
        homes::lemma_refl(s);
        kept::lemma_roots(s, s);
        assert forall|x: NodeId| #[trigger]
            s.window(x) == (if ns.contains(x) {
                None
            } else {
                s.window(x)
            }) by {}
    } else {
        let front = ns.drop_last();
        let n = ns.last();
        lemma_front_of_list(s, ns);
        lemma_all_removed(s, front);
        let t = s.all_removed(front);
        lemma_next_of_list(s, t, ns);
        lemma_window_node_removed(t, n);
        lemma_culled_step(s, t, t.removed(n), front, n);
        lemma_no_entry(s, ns, n);
    }
}

/// Removing an entry that is not there.
proof fn lemma_no_entry(s: ForestView, ns: Seq<NodeId>, n: NodeId)
    requires
        unlisted(s, ns),
        ns.contains(n),
    ensures
        ForestView::index_without(s.index, n) == s.index,
{
    assert forall|i: int| 0 <= i < s.index.len() implies (#[trigger] s.index[i]).node != n by {
        assert(!ns.contains(s.index[i].node));
    }
    kept::lemma_filter_all(s.index, |e: WindowEntry| e.node != n);
}

/// As `lemma_all_removed`, with even weights where the nodes were.
pub proof fn lemma_all_removed_evenly(s: ForestView, ns: Seq<NodeId>)
    requires
        s.wf(),
        kept::index_ok(s),
        window_nodes(s, ns),
        unlisted(s, ns),
    ensures
        culled(s, s.all_removed_evenly(ns), ns),
        s.all_removed_evenly(ns).index == s.index,
        kept::index_ok(s.all_removed_evenly(ns)),
    decreases ns.len(),
{
    if ns.len() == 0 {
        lemma_all_removed(s, ns);
    } else {
        let front = ns.drop_last();
        let n = ns.last();
        lemma_front_of_list(s, ns);
        lemma_all_removed_evenly(s, front);
        let t = s.all_removed_evenly(front);
        lemma_next_of_list(s, t, ns);
        lemma_window_node_removed(t, n);
        let u = t.removed(n);
        lemma_culled_step(s, t, u, front, n);
        lemma_no_entry(s, ns, n);
        let p = t.parent(n)->0;
        let change = SizeChange::Evened { node: p };
        homes::lemma_noting(u, change);
        lemma_culled_settled(s, u, u.noting(change), ns);
        kept::lemma_index_ok(u, u.noting(change));
    }
}

} // verus!
