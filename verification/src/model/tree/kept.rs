//! What edits leave alone: rearranging nodes neither adds nor loses windows.

use vstd::prelude::*;

use crate::layout_engine::LayoutKind;
use crate::model::tree::proofs;
use crate::model::tree::view;
use crate::model::tree::view::{ForestView, NodeId, NodeInfo, Place, SizeChange, WindowEntry};

verus! {

/// Every entry of the index points at a node that shows its window.
pub open spec fn index_ok(s: ForestView) -> bool {
    forall|i: int|
        0 <= i < s.index.len() ==> s.window((#[trigger] s.index[i]).node) == Some(
            s.index[i].window,
        )
}

/// From `s` to `t` the windows stay at their nodes and roots stay roots. The
/// index is unchanged if it pointed at windows only.
pub open spec fn rearranged(s: ForestView, t: ForestView) -> bool {
    &&& forall|x: NodeId| (#[trigger] s.window(x)) is Some ==> t.window(x) == s.window(x)
    &&& forall|x: NodeId| (#[trigger] t.window(x)) is Some ==> s.window(x) == t.window(x)
    &&& forall|x: NodeId| #[trigger]
        s.live(x) && s.parent(x) is None ==> t.live(x) && t.parent(x) is None
    &&& index_ok(s) ==> t.index == s.index
}

pub proof fn lemma_trans(s: ForestView, t: ForestView, u: ForestView)
    requires
        rearranged(s, t),
        rearranged(t, u),
    ensures
        rearranged(s, u),
{
    assert forall|x: NodeId| (#[trigger] s.window(x)) is Some implies u.window(x) == s.window(
        x,
    ) by {
        assert(t.window(x) is Some);
    }
    assert forall|x: NodeId| (#[trigger] u.window(x)) is Some implies s.window(x) == u.window(
        x,
    ) by {
        assert(t.window(x) is Some);
    }
    assert forall|x: NodeId| #[trigger] s.live(x) && s.parent(x) is None implies u.live(x)
        && u.parent(x) is None by {
        assert(t.live(x));
    }
    if index_ok(s) {
        assert forall|i: int| 0 <= i < t.index.len() implies t.window((#[trigger] t.index[i]).node)
            == Some(t.index[i].window) by {
            assert(s.window(s.index[i].node) is Some);
        }
    }
}

/// The index keeps pointing at windows.
pub proof fn lemma_index_ok(s: ForestView, t: ForestView)
    requires
        rearranged(s, t),
        index_ok(s),
    ensures
        index_ok(t),
{
    assert forall|i: int| 0 <= i < t.index.len() implies t.window((#[trigger] t.index[i]).node)
        == Some(t.index[i].window) by {
        assert(s.window(s.index[i].node) is Some);
    }
}

/// Changing a record without touching its window.
pub proof fn lemma_with_info(s: ForestView, n: NodeId, info: NodeInfo)
    requires
        s.live(n) ==> info.window == s.window(n),
    ensures
        rearranged(s, s.with_info(n, info)),
{
}

pub proof fn lemma_noting(s: ForestView, change: SizeChange)
    ensures
        rearranged(s, s.noting(change)),
{
    let t = s.noting(change);
    assert forall|x: NodeId| (#[trigger] t.window(x)) is Some implies s.window(x) == t.window(
        x,
    ) by {}
}

/// Taking a child off and hanging it up elsewhere.
pub proof fn lemma_reattached(s: ForestView, n: NodeId, p: NodeId, i: int)
    requires
        s.wf(),
        s.parent(n) is Some,
        s.live(p),
        p != n,
    ensures
        rearranged(s, s.detached(n).attached(n, p, i)),
{
    proofs::lemma_detached(s, n);
    let t = s.detached(n).attached(n, p, i);
    assert forall|x: NodeId| t.window(x) == s.window(x) by {}
}

/// A filter that keeps everything changes nothing.
pub proof fn lemma_filter_all(index: Seq<WindowEntry>, keep: spec_fn(WindowEntry) -> bool)
    requires
        forall|i: int| 0 <= i < index.len() ==> keep(#[trigger] index[i]),
    ensures
        index.filter(keep) == index,
    decreases index.len(),
{
    reveal(Seq::filter);
    if index.len() > 0 {
        let front = index.drop_last();
        assert forall|i: int| 0 <= i < front.len() implies keep(#[trigger] front[i]) by {
            assert(front[i] == index[i]);
        }
        lemma_filter_all(front, keep);
        assert(keep(index[index.len() - 1]));
        assert(front.push(index.last()) =~= index);
    } else {
        assert(index.filter(keep) =~= index);
    }
}

/// A node that shows no window and is no root can be dropped.
pub proof fn lemma_taken_out(s: ForestView, p: NodeId)
    requires
        s.wf(),
        s.parent(p) is Some,
        s.window(p) is None,
    ensures
        rearranged(s, s.detached(p).dropped(p)),
{
    proofs::lemma_detached(s, p);
    let t = s.detached(p).dropped(p);
    assert forall|x: NodeId| t.window(x) == s.window(x) by {}
    if index_ok(s) {
        assert forall|i: int| 0 <= i < s.index.len() implies (#[trigger] s.index[i]).node != p by {
            assert(s.window(s.index[i].node) is Some);
        }
        lemma_filter_all(s.index, |e: WindowEntry| e.node != p);
    }
}

/// Looking after a container that lost a child only rearranges.
pub proof fn lemma_collapsed(s: ForestView, p: NodeId)
    requires
        s.wf(),
        s.window(p) is None,
    ensures
        rearranged(s, s.collapsed(p)),
    decreases s.nodes.dom().len(),
{
    if s.parent(p) is None || s.children(p).len() > 1 {
    } else {
        let above = s.parent(p)->0;
        proofs::lemma_node(s, p);
        proofs::lemma_node(s, above);
        assert(s.window(above) is None) by {
            assert(s.nodes[above].children.contains(p));
        }
        let ready = if s.children(p).len() == 1 {
            s.hoisted(s.children(p)[0], p)
        } else {
            s
        };
        if s.children(p).len() == 1 {
            proofs::lemma_hoisted(s, p);
            let c = s.children(p)[0];
            let loose = s.detached(c);
            lemma_reattached(s, c, above, loose.rank(p) + 1);
            let a = loose.attached(c, above, loose.rank(p) + 1);
            lemma_noting(a, SizeChange::Inherited { node: c, from: p });
            lemma_trans(s, a, ready);
        }
        assert(ready.window(p) is None);
        lemma_taken_out(ready, p);
        proofs::lemma_detached(ready, p);
        proofs::lemma_dropped(ready.detached(p), p);
        let next = ready.detached(p).dropped(p);
        lemma_trans(s, ready, next);
        assert(next.window(above) is None);
        lemma_collapsed(next, above);
        lemma_trans(s, next, s.collapsed(p));
    }
}

/// Putting a node elsewhere only rearranges.
pub proof fn lemma_shifted(s: ForestView, n: NodeId, place: Place)
    requires
        s.wf(),
        s.can_move(n, place),
    ensures
        rearranged(s, s.shifted(n, place)),
{
    proofs::lemma_shifted(s, n, place);
    let loose = s.detached(n);
    lemma_reattached(s, n, loose.place_parent(place)->0, loose.place_rank(place));
}

/// Moving a node only rearranges.
pub proof fn lemma_moved(s: ForestView, n: NodeId, place: Place)
    requires
        s.wf(),
    ensures
        rearranged(s, s.moved(n, place)),
        rearranged(s, s.grafted(n, place)),
{
    if s.can_move(n, place) {
        proofs::lemma_shifted(s, n, place);
        lemma_shifted(s, n, place);
        let p = s.parent(n)->0;
        proofs::lemma_node(s, n);
        proofs::lemma_node(s, p);
        assert(s.window(p) is None) by {
            assert(s.nodes[p].children.contains(n));
        }
        let t = s.shifted(n, place);
        assert(t.window(p) is None);
        lemma_collapsed(t, p);
        lemma_trans(s, t, s.grafted(n, place));
    }
}

/// A new node shows no window.
pub proof fn lemma_with_new(s: ForestView, place: Place)
    requires
        s.wf(),
        s.minted <= u64::MAX,
    ensures
        rearranged(s, s.with_new(place)),
{
    proofs::lemma_with_new(s, place);
    let t = s.with_new(place);
    assert forall|x: NodeId| t.window(x) == s.window(x) by {}
}

pub proof fn lemma_path_picked(s: ForestView, path: Seq<NodeId>, upto: int)
    ensures
        rearranged(s, s.path_picked(path, upto)),
{
    let t = s.path_picked(path, upto);
    assert forall|x: NodeId| t.window(x) == s.window(x) && t.live(x) == s.live(x) && t.parent(x)
        == s.parent(x) by {}
    assert forall|x: NodeId| (#[trigger] t.window(x)) is Some implies s.window(x) == t.window(
        x,
    ) by {}
    assert forall|x: NodeId| (#[trigger] s.window(x)) is Some implies s.window(x) == t.window(
        x,
    ) by {}
    assert forall|x: NodeId| #[trigger] s.live(x) && s.parent(x) is None implies t.live(x)
        && t.parent(x) is None by {}
}

pub proof fn lemma_selected(s: ForestView, n: NodeId)
    ensures
        rearranged(s, s.selected(n)),
{
    if s.live(n) {
        let u = s.stopping_at(n);
        lemma_with_info(s, n, u.info(n));
        lemma_path_picked(u, s.ancestors(n), s.ancestors(n).len() - 1);
        lemma_trans(s, u, s.selected(n));
    }
}

pub proof fn lemma_path_selected(s: ForestView, n: NodeId, stop: NodeId)
    ensures
        rearranged(s, s.path_selected(n, stop)),
{
    if s.live(n) {
        lemma_path_picked(s, s.ancestors(n), view::stop_at(s.ancestors(n), stop, 0));
    }
}

pub proof fn lemma_selected_locally(s: ForestView, n: NodeId)
    ensures
        rearranged(s, s.selected_locally(n)),
{
    if s.parent(n) is Some {
        let p = s.parent(n)->0;
        lemma_with_info(s, p, s.selected_locally(n).info(p));
    }
}

pub proof fn lemma_with_kind(s: ForestView, n: NodeId, kind: LayoutKind)
    ensures
        rearranged(s, s.with_kind(n, kind)),
{
    lemma_with_info(s, n, s.with_kind(n, kind).info(n));
}

/// Roots that show no window survive the removal of other nodes.
pub open spec fn roots_kept(s: ForestView, t: ForestView) -> bool {
    forall|x: NodeId| #[trigger]
        s.live(x) && s.parent(x) is None && s.window(x) is None ==> t.live(x) && t.parent(x)
            is None && t.window(x) is None
}

pub proof fn lemma_roots(s: ForestView, t: ForestView)
    requires
        rearranged(s, t),
    ensures
        roots_kept(s, t),
{
    assert forall|x: NodeId| #[trigger]
        s.live(x) && s.parent(x) is None && s.window(x) is None implies t.live(x) && t.parent(x)
        is None && t.window(x) is None by {
        if t.window(x) is Some {
            assert(s.window(x) == t.window(x));
        }
    }
}

/// Removing a child keeps the roots.
pub proof fn lemma_removed_roots(s: ForestView, n: NodeId)
    requires
        s.wf(),
    ensures
        roots_kept(s, s.removed(n)),
{
    if s.parent(n) is Some {
        let loose = s.detached(n);
        let p = s.parent(n)->0;
        proofs::lemma_detached(s, n);
        proofs::lemma_discarded(loose, n);
        let ns = loose.preorder(n).reverse();
        let t = loose.discarded(ns);
        proofs::lemma_discarded_nodes(loose, ns);
        proofs::lemma_node(s, n);
        proofs::lemma_node(s, p);
        assert(s.window(p) is None) by {
            assert(s.nodes[p].children.contains(n));
        }
        assert(roots_kept(s, t)) by {
            assert forall|x: NodeId| #[trigger]
                s.live(x) && s.parent(x) is None && s.window(x) is None implies t.live(x)
                && t.parent(x) is None && t.window(x) is None by {
                assert(loose.live(x) && loose.parent(x) is None);
                proofs::lemma_ancestors(loose, x);
                assert(!loose.above(n, x));
            }
        }
        lemma_collapsed(t, p);
        lemma_roots(t, s.removed(n));
        assert forall|x: NodeId| #[trigger]
            s.live(x) && s.parent(x) is None && s.window(x) is None implies s.removed(n).live(x)
            && s.removed(n).parent(x) is None && s.removed(n).window(x) is None by {
            assert(t.live(x));
        }
    }
}

/// As `roots_kept`, but nothing is said of the root `n`.
pub open spec fn other_roots_kept(s: ForestView, t: ForestView, n: NodeId) -> bool {
    forall|x: NodeId| #[trigger]
        s.live(x) && x != n && s.parent(x) is None && s.window(x) is None ==> t.live(x)
            && t.parent(x) is None && t.window(x) is None
}

/// Felling a tree keeps the roots of the others.
pub proof fn lemma_felled_roots(s: ForestView, n: NodeId)
    requires
        s.wf(),
    ensures
        other_roots_kept(s, s.felled(n), n),
{
    if s.live(n) && s.parent(n) is None {
        let ns = s.preorder(n).reverse();
        let t = s.discarded(ns);
        proofs::lemma_discarded(s, n);
        proofs::lemma_discarded_nodes(s, ns);
        assert forall|x: NodeId| #[trigger]
            s.live(x) && x != n && s.parent(x) is None && s.window(x) is None implies t.live(x)
            && t.parent(x) is None && t.window(x) is None by {
            proofs::lemma_ancestors(s, x);
            assert(!s.above(n, x));
        }
    }
}

} // verus!
