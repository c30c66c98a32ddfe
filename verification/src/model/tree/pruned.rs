//! What the removal of whole subtrees leaves behind.

use vstd::prelude::*;

use crate::model::tree::homes;
use crate::model::tree::kept;
use crate::model::tree::proofs;
use crate::model::tree::view;
use crate::model::tree::view::{ForestView, NodeId, WindowEntry};

verus! {

/// The index keeps exactly the entries whose nodes still show a window.
pub open spec fn trimmed(s: ForestView, t: ForestView) -> bool {
    t.index == s.index.filter(|e: WindowEntry| t.window(e.node) is Some)
}

/// From `s` to `t` nodes and windows may go, but none come or change. Nodes stay
/// in their trees and empty roots stay roots.
pub open spec fn pruned(s: ForestView, t: ForestView) -> bool {
    &&& t.wf()
    &&& t.minted == s.minted
    &&& homes::no_revival(s, t)
    &&& kept::roots_kept(s, t)
    &&& forall|x: NodeId| (#[trigger] t.window(x)) is Some ==> t.window(x) == s.window(x)
    &&& forall|x: NodeId| s.live(x) && t.live(x) ==> #[trigger] t.home(x) == s.home(x)
    &&& kept::index_ok(s) ==> trimmed(s, t)
}

/// Filtering twice is filtering by both tests.
pub proof fn lemma_filter_twice(
    list: Seq<WindowEntry>,
    a: spec_fn(WindowEntry) -> bool,
    b: spec_fn(WindowEntry) -> bool,
    both: spec_fn(WindowEntry) -> bool,
)
    requires
        forall|e: WindowEntry| #[trigger] both(e) == (a(e) && b(e)),
    ensures
        list.filter(a).filter(b) == list.filter(both),
    decreases list.len(),
{
    reveal(Seq::filter);
    if list.len() > 0 {
        let front = list.drop_last();
        lemma_filter_twice(front, a, b, both);
        let e = list.last();
        assert(both(e) == (a(e) && b(e)));
        if a(e) {
            assert(list.filter(a) == front.filter(a).push(e));
            assert(front.filter(a).push(e).drop_last() =~= front.filter(a));
        }
    } else {
        assert(list.filter(a) =~= list);
        assert(list.filter(a).filter(b) =~= list.filter(both));
    }
}

/// Filters that agree on a list give the same list.
pub proof fn lemma_filter_alike(
    list: Seq<WindowEntry>,
    a: spec_fn(WindowEntry) -> bool,
    b: spec_fn(WindowEntry) -> bool,
)
    requires
        forall|i: int| 0 <= i < list.len() ==> a(#[trigger] list[i]) == b(list[i]),
    ensures
        list.filter(a) == list.filter(b),
    decreases list.len(),
{
    reveal(Seq::filter);
    if list.len() > 0 {
        let front = list.drop_last();
        assert forall|i: int| 0 <= i < front.len() implies a(#[trigger] front[i]) == b(
            front[i],
        ) by {
            assert(list[i] == front[i]);
        }
        lemma_filter_alike(front, a, b);
        assert(list[list.len() - 1] == list.last());
    }
}

/// The index of a pruned forest points at windows.
pub proof fn lemma_pruned_index_ok(s: ForestView, t: ForestView)
    requires
        pruned(s, t),
        kept::index_ok(s),
    ensures
        kept::index_ok(t),
{
    let test = |e: WindowEntry| t.window(e.node) is Some;
    assert forall|i: int| 0 <= i < t.index.len() implies t.window((#[trigger] t.index[i]).node)
        == Some(t.index[i].window) by {
        crate::model::tree::culled::lemma_filtered_ok(s.index, test);
        let j = choose|j: int| 0 <= j < s.index.len() && s.index[j] == t.index[i];
        assert(test(t.index[i]));
        assert(s.window(s.index[j].node) == Some(s.index[j].window));
    }
}

pub proof fn lemma_trans(s: ForestView, t: ForestView, u: ForestView)
    requires
        s.wf(),
        pruned(s, t),
        pruned(t, u),
    ensures
        pruned(s, u),
{
    assert forall|x: NodeId| #[trigger] u.live(x) && x < s.minted implies s.live(x) by {
        assert(t.live(x));
    }
    assert forall|x: NodeId| (#[trigger] u.window(x)) is Some implies u.window(x) == s.window(
        x,
    ) by {
        assert(t.window(x) == u.window(x));
    }
    assert forall|x: NodeId| s.live(x) && u.live(x) implies #[trigger] u.home(x) == s.home(x) by {
        assert(x < s.minted);
        assert(t.live(x));
        assert(t.home(x) == s.home(x));
    }
    assert forall|x: NodeId| #[trigger]
        s.live(x) && s.parent(x) is None && s.window(x) is None implies u.live(x) && u.parent(x)
        is None && u.window(x) is None by {
        assert(t.live(x));
    }
    if kept::index_ok(s) {
        lemma_pruned_index_ok(s, t);
        let a = |e: WindowEntry| t.window(e.node) is Some;
        let b = |e: WindowEntry| u.window(e.node) is Some;
        assert forall|e: WindowEntry| #[trigger] b(e) == (a(e) && b(e)) by {
            if b(e) {
                assert(t.window(e.node) == u.window(e.node));
            }
        }
        lemma_filter_twice(s.index, a, b, b);
    }
}

/// Edits that lose nothing prune nothing.
pub proof fn lemma_settled(s: ForestView, t: ForestView)
    requires
        s.wf(),
        homes::settled(s, t),
        t.minted == s.minted,
    ensures
        pruned(s, t),
{
    kept::lemma_roots(s, t);
    if kept::index_ok(s) {
        let test = |e: WindowEntry| t.window(e.node) is Some;
        assert forall|i: int| 0 <= i < s.index.len() implies test(#[trigger] s.index[i]) by {
            assert(s.window(s.index[i].node) is Some);
        }
        kept::lemma_filter_all(s.index, test);
    }
}

/// Discarding nodes takes their entries away.
pub proof fn lemma_discarded_index(s: ForestView, ns: Seq<NodeId>)
    ensures
        s.discarded(ns).index == s.index.filter(|e: WindowEntry| !ns.contains(e.node)),
    decreases ns.len(),
{
    let all = |e: WindowEntry| !ns.contains(e.node);
    if ns.len() == 0 {
        assert forall|i: int| 0 <= i < s.index.len() implies all(#[trigger] s.index[i]) by {}
        kept::lemma_filter_all(s.index, all);
    } else {
        let front = ns.drop_last();
        let n = ns.last();
        lemma_discarded_index(s, front);
        let a = |e: WindowEntry| !front.contains(e.node);
        let b = |e: WindowEntry| e.node != n;
        assert forall|e: WindowEntry| #[trigger] all(e) == (a(e) && b(e)) by {
            let x = e.node;
            if ns.contains(x) {
                let i = choose|i: int| 0 <= i < ns.len() && ns[i] == x;
                if i < front.len() {
                    assert(front[i] == x);
                }
            }
            if front.contains(x) {
                let i = choose|i: int| 0 <= i < front.len() && front[i] == x;
                assert(ns[i] == x);
            }
            assert(ns[ns.len() - 1] == n);
        }
        lemma_filter_twice(s.index, a, b, all);
    }
}

/// Removing a child with its descendants, whatever becomes of its parent.
pub proof fn lemma_removed(s: ForestView, n: NodeId)
    requires
        s.wf(),
    ensures
        pruned(s, s.removed(n)),
        forall|x: NodeId|
            (#[trigger] s.window(x)) is Some && !s.above(n, x) ==> s.removed(n).window(x)
                == s.window(x),
        s.parent(n) is Some ==> forall|x: NodeId|
            s.live(x) && s.above(n, x) ==> !#[trigger] s.removed(n).live(x),
{
    homes::lemma_refl(s);
    lemma_settled(s, s);
    if s.parent(n) is Some {
        let loose = s.detached(n);
        let p = s.parent(n)->0;
        proofs::lemma_detached(s, n);
        proofs::lemma_node(s, n);
        let ns = loose.preorder(n).reverse();
        let u = loose.discarded(ns);
        proofs::lemma_discarded(loose, n);
        proofs::lemma_discarded_nodes(loose, ns);
        lemma_discarded_index(loose, ns);
        assert forall|x: NodeId| s.live(x) implies (#[trigger] u.live(x) <==> !s.above(n, x)) by {
            lemma_detached_above(s, n, x);
            assert(loose.nodes.dom().contains(x));
        }
        assert forall|x: NodeId| #[trigger] u.live(x) implies s.live(x) && u.window(x) == s.window(
            x,
        ) && u.parent(x) == s.parent(x) && x != n by {
            assert(loose.nodes.contains_key(x));
            assert(loose.nodes.dom().contains(x));
            proofs::lemma_ancestors(loose, n);
            assert(loose.above(n, n)) by {
                assert(loose.ancestors(n)[0] == n);
            }
            assert(loose.parent(x) == s.parent(x));
        }
        assert(homes::hung_at_home(s, u)) by {
            assert forall|x: NodeId| #[trigger] u.live(x) && s.live(x) implies {
                &&& u.parent(x) is None ==> s.parent(x) is None
                &&& u.parent(x) is Some ==> s.live(u.parent(x)->0) && s.home(u.parent(x)->0)
                    == s.home(x)
            } by {
                homes::lemma_home(s, x);
                proofs::lemma_node(s, x);
            }
        }
        homes::lemma_homes(s, u);
        assert(kept::roots_kept(s, u)) by {
            assert forall|x: NodeId| #[trigger]
                s.live(x) && s.parent(x) is None && s.window(x) is None implies u.live(x)
                && u.parent(x) is None && u.window(x) is None by {
                proofs::lemma_above_step(s, n, x);
                assert(u.live(x));
            }
        }
        if kept::index_ok(s) {
            let a = |e: WindowEntry| !ns.contains(e.node);
            let b = |e: WindowEntry| u.window(e.node) is Some;
            assert forall|i: int| 0 <= i < s.index.len() implies a(#[trigger] s.index[i]) == b(
                s.index[i],
            ) by {
                let x = s.index[i].node;
                assert(s.window(x) is Some);
                assert(loose.nodes.contains_key(x)) by {
                    assert(loose.nodes.dom().contains(x));
                }
                assert(u.nodes.contains_key(x) <==> !ns.contains(x));
            }
            lemma_filter_alike(s.index, a, b);
        }
        assert(pruned(s, u));
        assert(u.window(p) is None) by {
            if u.window(p) is Some {
                assert(u.live(p));
            }
        }
        homes::lemma_collapsed(u, p);
        proofs::lemma_collapsed(u, p);
        lemma_settled(u, s.removed(n));
        lemma_trans(s, u, s.removed(n));
        assert forall|x: NodeId| (#[trigger] s.window(x)) is Some && !s.above(n, x) implies s.removed(
            n,
        ).window(x) == s.window(x) by {
            assert(u.live(x));
            assert(u.window(x) is Some);
        }
        assert forall|x: NodeId| s.live(x) && s.above(n, x) implies !#[trigger] s.removed(n).live(
            x,
        ) by {
            if s.removed(n).live(x) {
                assert(x < u.minted);
                assert(u.live(x));
            }
        }
    }
}

/// The paths that lead through a child still do after it was taken off.
proof fn lemma_detached_above(s: ForestView, n: NodeId, x: NodeId)
    requires
        s.wf(),
        s.parent(n) is Some,
        s.live(x),
    ensures
        s.detached(n).above(n, x) <==> s.above(n, x),
    decreases view::depth(s.nodes, x),
{
    let loose = s.detached(n);
    proofs::lemma_detached(s, n);
    assert(loose.nodes.dom().contains(x));
    proofs::lemma_above_step(s, n, x);
    proofs::lemma_above_step(loose, n, x);
    if x != n && s.parent(x) is Some {
        assert(loose.parent(x) == s.parent(x));
        proofs::lemma_node(s, x);
        lemma_detached_above(s, n, s.parent(x)->0);
    }
}

} // verus!
