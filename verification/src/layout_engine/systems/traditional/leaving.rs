//! What is left of containers when nodes leave them.

use vstd::prelude::*;

use crate::actor::LayoutId;
use crate::layout_engine::systems::traditional::steps;
use crate::layout_engine::systems::traditional::view::TraditionalView;
use crate::model::tree::led;
use crate::model::tree::proofs;
use crate::model::tree::view::{ForestView, NodeId, Place, SizeChange};

verus! {

/// A node is gone; the others are of the same kinds and show the same windows.
pub open spec fn one_less(f: ForestView, g: ForestView, n: NodeId) -> bool {
    &&& !g.live(n)
    &&& forall|x: NodeId| x != n ==> #[trigger] g.live(x) == f.live(x)
    &&& forall|x: NodeId| x != n ==> #[trigger] g.window(x) == f.window(x)
    &&& forall|x: NodeId| x != n ==> #[trigger] g.kind(x) == f.kind(x)
}

/// A childless node is taken out of its container.
proof fn lemma_taken_out(f: ForestView, n: NodeId, p: NodeId, i: int)
    requires
        f.wf(),
        steps::child_at(f, p, i, n),
        f.children(n).len() == 0,
    ensures
        ({
            let g = f.detached(n).dropped(n);
            &&& f.removed(n) == g.collapsed(p)
            &&& g.wf()
            &&& one_less(f, g, n)
            &&& g.children(p) == f.children(p).remove(i)
            &&& forall|x: NodeId| x != p && x != n ==> #[trigger] g.children(x) == f.children(x)
            &&& forall|x: NodeId| x != n ==> #[trigger] g.parent(x) == f.parent(x)
            &&& forall|x: NodeId| x != p && x != n ==> #[trigger] g.info(x) == f.info(x)
            &&& f.info(p).pick matches Some(pick) ==> g.info(p).pick is Some ==> {
                &&& pick.child != n ==> g.info(p).pick == Some(pick)
                &&& pick.child == n ==> g.info(p).pick->0.child == (if i + 1 < f.children(p).len() {
                    f.children(p)[i + 1]
                } else {
                    f.children(p)[i - 1]
                })
            }
            &&& f.info(p).pick is None ==> g.info(p).pick is None
            &&& f.children(p).len() > 1 && f.info(p).pick is Some ==> g.info(p).pick is Some
        }),
{
    let loose = f.detached(n);
    steps::lemma_child_at(f, p, i, n);
    proofs::lemma_detached(f, n);
    proofs::lemma_node(f, n);
    proofs::lemma_siblings(f, n);
    assert(loose.preorder_below(n, 0) =~= Seq::empty());
    assert(loose.preorder(n) =~= seq![n]);
    assert(seq![n].reverse() =~= seq![n]);
    assert(seq![n].drop_last() =~= Seq::empty());
    assert(loose.discarded(Seq::empty()) == loose);
    assert(loose.discarded(seq![n]) == loose.dropped(n));
    proofs::lemma_dropped(loose, n);
    let g = loose.dropped(n);
    assert forall|x: NodeId| x != n implies #[trigger] g.parent(x) == f.parent(x) by {
        assert(loose.parent(x) == f.parent(x));
    }
}

/// A childless node that leaves a root, or a container that keeps two children or more,
/// closes up the list of its siblings. Where the container led to it, it leads to the
/// next one, else to the one before.
pub proof fn law_left(f: ForestView, n: NodeId, p: NodeId, i: int)
    requires
        f.wf(),
        steps::child_at(f, p, i, n),
        f.children(n).len() == 0,
        f.parent(p) is None || f.children(p).len() > 2,
    ensures
        ({
            let g = f.removed(n);
            let kids = f.children(p);
            &&& g.wf()
            &&& one_less(f, g, n)
            &&& g.children(p) == kids.remove(i)
            &&& forall|x: NodeId| x != p && x != n ==> #[trigger] g.children(x) == f.children(x)
            &&& kids.len() > 1 && f.info(p).pick is Some ==> {
                &&& g.info(p).pick is Some
                &&& g.info(p).pick->0.child == (if f.info(p).pick->0.child != n {
                    f.info(p).pick->0.child
                } else if i + 1 < kids.len() {
                    kids[i + 1]
                } else {
                    kids[i - 1]
                })
            }
        }),
{
    lemma_taken_out(f, n, p, i);
    steps::lemma_child_at(f, p, i, n);
    let g = f.detached(n).dropped(n);
    assert(g.parent(p) == f.parent(p));
    assert(g.collapsed(p) == g);
}

/// An inner container that has one child left gives way to it: the child has its place.
#[verifier::spinoff_prover]
#[verifier::rlimit(40)]
proof fn lemma_gives_way(f: ForestView, p: NodeId, q: NodeId, k: int, c: NodeId)
    requires
        f.wf(),
        steps::child_at(f, q, k, p),
        f.children(p) == seq![c],
        f.parent(q) is None || f.children(q).len() > 1,
    ensures
        ({
            let g = f.collapsed(p);
            &&& one_less(f, g, p)
            &&& g.children(q) == f.children(q).update(k, c)
            &&& g.parent(c) == Some(q)
            &&& forall|x: NodeId| x != p && x != q ==> #[trigger] g.children(x) == f.children(x)
        }),
{
    steps::lemma_child_at(f, q, k, p);
    assert(f.children(p)[0] == c);
    steps::lemma_child_at(f, p, 0, c);
    proofs::lemma_hoisted(f, p);
    proofs::lemma_detached(f, c);
    let loose = f.detached(c);
    assert(c != q) by {
        proofs::lemma_node(f, c);
        proofs::lemma_node(f, p);
    }
    assert(loose.children(q) == f.children(q));
    steps::lemma_child_at(loose, q, k, p);
    let h = f.hoisted(c, p);
    assert(h.children(q) =~= f.children(q).insert(k + 1, c));
    assert(h.children(q)[k] == p);
    steps::lemma_child_at(h, q, k, p);
    assert(h.children(p).len() == 0);
    lemma_taken_out(h, p, q, k);
    let g = h.detached(p).dropped(p);
    proofs::lemma_detached(h, p);
    proofs::lemma_dropped(h.detached(p), p);
    assert(g.nodes.dom().len() < f.nodes.dom().len()) by {
        assert(h.detached(p).nodes.dom() == f.nodes.dom());
    }
    assert(g.children(q) =~= f.children(q).update(k, c));
    assert(g.parent(q) == f.parent(q)) by {
        assert(g.parent(q) == h.parent(q));
        assert(loose.parent(q) == f.parent(q));
    }
    assert(g.collapsed(q) == g);
    assert(f.collapsed(p) == g);
    assert forall|x: NodeId| x != p && x != q implies #[trigger] g.children(x) == f.children(x) by {
        assert(g.children(x) == h.children(x));
    }
}

/// Of two children of an inner container one leaves, and the other takes the place of
/// the container, which is gone.
#[verifier::spinoff_prover]
pub proof fn law_given_way(f: ForestView, n: NodeId, p: NodeId, i: int, q: NodeId, k: int)
    requires
        f.wf(),
        steps::child_at(f, p, i, n),
        f.children(n).len() == 0,
        f.children(p).len() == 2,
        steps::child_at(f, q, k, p),
        f.parent(q) is None || f.children(q).len() > 1,
    ensures
        ({
            let g = f.removed(n);
            &&& !g.live(n)
            &&& !g.live(p)
            &&& g.children(q) == f.children(q).update(k, f.children(p)[1 - i])
            &&& forall|x: NodeId|
                x != n && x != p && x != q ==> #[trigger] g.children(x) == f.children(x)
            &&& forall|x: NodeId| x != n && x != p ==> #[trigger] g.window(x) == f.window(x)
            &&& forall|x: NodeId| x != n && x != p ==> #[trigger] g.kind(x) == f.kind(x)
        }),
{
    let c = f.children(p)[1 - i];
    steps::lemma_child_at(f, p, i, n);
    steps::lemma_child_at(f, q, k, p);
    proofs::lemma_node(f, p);
    assert(q != n) by {
        assert(f.children(q).len() > 0);
    }
    lemma_taken_out(f, n, p, i);
    let u = f.detached(n).dropped(n);
    assert(u.children(p) =~= seq![c]);
    assert(q != p);
    assert(u.children(q) == f.children(q));
    lemma_gives_way(u, p, q, k, c);
    let g = f.removed(n);
    assert(u.live(n) == false);
    assert forall|x: NodeId| x != n && x != p && x != q implies #[trigger] g.children(x)
        == f.children(x) by {
        assert(g.children(x) == u.children(x));
    }
    assert forall|x: NodeId| x != n && x != p implies #[trigger] g.window(x) == f.window(x) by {
        assert(g.window(x) == u.window(x));
    }
    assert forall|x: NodeId| x != n && x != p implies #[trigger] g.kind(x) == f.kind(x) by {
        assert(g.kind(x) == u.kind(x));
    }
}

/// Where the children of a container go when it is taken apart: in front of the node
/// behind it, else to the end.
spec fn outlet(f: ForestView, p: NodeId, q: NodeId, k: int) -> Place {
    if k + 1 < f.children(q).len() {
        Place::Before(f.children(q)[k + 1])
    } else {
        Place::Last(q)
    }
}

/// The lists while the first children of `p` have gone behind it.
spec fn partly_out(f: ForestView, g: ForestView, p: NodeId, q: NodeId, k: int, upto: int) -> bool {
    let kids = f.children(p);
    let row = f.children(q);
    &&& g.wf()
    &&& steps::same_nodes(f, g)
    &&& g.children(p) == kids.skip(upto)
    &&& g.children(q) == row.take(k + 1) + kids.take(upto) + row.skip(k + 1)
    &&& g.parent(q) == f.parent(q)
    &&& forall|x: NodeId| x != p && x != q ==> #[trigger] g.children(x) == f.children(x)
}

/// The next child goes out.
#[verifier::spinoff_prover]
#[verifier::rlimit(40)]
proof fn lemma_next_out(f: ForestView, g: ForestView, p: NodeId, q: NodeId, k: int, upto: int)
    requires
        f.wf(),
        steps::child_at(f, q, k, p),
        0 <= upto < f.children(p).len(),
        partly_out(f, g, p, q, k, upto),
    ensures
        ({
            let c = f.children(p)[upto];
            let h = g.reseated(c, outlet(f, p, q, k)).noting(SizeChange::Recalled { node: c });
            partly_out(f, h, p, q, k, upto + 1)
        }),
{
    let kids = f.children(p);
    let row = f.children(q);
    let c = kids[upto];
    let place = outlet(f, p, q, k);
    steps::lemma_child_at(f, q, k, p);
    assert(g.children(p)[0] == c);
    steps::lemma_child_at(g, p, 0, c);
    assert(g.children(q)[k] == p);
    steps::lemma_child_at(g, q, k, p);
    let at = k + 1 + upto;
    if k + 1 < row.len() {
        assert(g.children(q)[at] == row[k + 1]);
        steps::lemma_child_at(g, q, at, row[k + 1]);
    } else {
        assert(g.children(q).len() == at);
    }
    assert(!g.above(c, q)) by {
        if g.above(c, q) {
            proofs::lemma_above_step(g, c, p);
        }
    }
    assert(q != p);
    assert(c != q) by {
        proofs::lemma_above_step(g, q, q);
        proofs::lemma_ancestors(g, q);
    }
    assert(ForestView::place_anchor(place) != c) by {
        if k + 1 < row.len() {
            assert(g.parent(row[k + 1]) == Some(q));
        }
    }
    assert(g.can_move_at_home(c, place));
    proofs::lemma_shifted(g, c, place);
    proofs::lemma_detached(g, c);
    let loose = g.detached(c);
    assert(loose.children(q) == g.children(q));
    if k + 1 < row.len() {
        steps::lemma_child_at(loose, q, at, row[k + 1]);
    }
    assert(loose.place_rank(place) == at);
    let u = g.shifted(c, place);
    assert(u.children(p) =~= kids.skip(upto + 1));
    assert(u.children(q) =~= row.take(k + 1) + kids.take(upto + 1) + row.skip(k + 1));
    proofs::lemma_noting(u, SizeChange::Recalled { node: c });
    assert(u.parent(q) == g.parent(q)) by {
        assert(loose.parent(q) == g.parent(q));
    }
    let h = u.noting(SizeChange::Recalled { node: c });
    assert forall|x: NodeId| x != p && x != q implies #[trigger] h.children(x) == f.children(x) by {
        assert(g.children(x) == f.children(x));
    }
    assert forall|x: NodeId| #[trigger] h.live(x) == f.live(x) by {
        assert(g.live(x) == f.live(x));
        assert(u.nodes.dom().contains(x) == g.nodes.dom().contains(x));
    }
    assert forall|x: NodeId| #[trigger] h.window(x) == f.window(x) by {
        assert(g.window(x) == f.window(x));
        assert(h.live(x) == f.live(x));
        assert(g.live(x) == f.live(x));
    }
    assert forall|x: NodeId| #[trigger] h.kind(x) == f.kind(x) by {
        assert(g.kind(x) == f.kind(x));
        assert(h.live(x) == f.live(x));
        assert(g.live(x) == f.live(x));
    }
}

/// All children go out in order.
proof fn lemma_all_out(f: ForestView, g: ForestView, p: NodeId, q: NodeId, k: int, upto: int)
    requires
        f.wf(),
        g.wf(),
        g.nodes == f.nodes,
        steps::child_at(f, q, k, p),
        0 <= upto <= f.children(p).len(),
    ensures
        partly_out(
            f,
            g.hoisted_all(f.children(p).take(upto), outlet(f, p, q, k)),
            p,
            q,
            k,
            upto,
        ),
    decreases upto,
{
    let kids = f.children(p);
    let row = f.children(q);
    if upto == 0 {
        assert(kids.skip(0) =~= kids);
        assert(row.take(k + 1) + kids.take(0) + row.skip(k + 1) =~= row);
    } else {
        lemma_all_out(f, g, p, q, k, upto - 1);
        let before = g.hoisted_all(kids.take(upto - 1), outlet(f, p, q, k));
        lemma_next_out(f, before, p, q, k, upto - 1);
        assert(kids.take(upto).drop_last() =~= kids.take(upto - 1));
        assert(kids.take(upto).last() == kids[upto - 1]);
    }
}

/// Taking apart the container around the selection puts its children in its place, in
/// order, and keeps the selection.
#[verifier::spinoff_prover]
#[verifier::rlimit(40)]
pub proof fn law_unjoined(s: TraditionalView, layout: LayoutId, p: NodeId, i: int, q: NodeId, k: int)
    requires
        s.wf(),
        s.has(layout),
        steps::child_at(s.forest, p, i, s.selection(layout)),
        steps::child_at(s.forest, q, k, p),
        s.forest.children(p).len() > 1,
    ensures
        ({
            let f = s.forest;
            let t = s.selection_unjoined(layout);
            let row = f.children(q);
            &&& t.roots == s.roots
            &&& !t.forest.live(p)
            &&& t.forest.children(q) == row.take(k) + f.children(p) + row.skip(k + 1)
            &&& t.forest.local_selection(q) == Some(s.selection(layout))
            &&& forall|x: NodeId|
                x != p && x != q ==> #[trigger] t.forest.children(x) == f.children(x)
            &&& forall|x: NodeId| x != p ==> #[trigger] t.forest.window(x) == f.window(x)
            &&& forall|x: NodeId| x != p ==> #[trigger] t.forest.kind(x) == f.kind(x)
        }),
{
    let f = s.forest;
    let n = s.selection(layout);
    let r = s.root(layout);
    let kids = f.children(p);
    let row = f.children(q);
    let change = SizeChange::Promoted { parent: p };
    let f1 = f.noting(change);
    assert(s.roots.contains_key(layout));
    steps::lemma_child_at(f, p, i, n);
    steps::lemma_child_at(f, q, k, p);
    assert(f.local_selection(p) == Some(n)) by {
        led::lemma_selection_led(f, r);
    }
    proofs::lemma_noting(f, change);
    lemma_all_out(f, f1, p, q, k, kids.len() as int);
    assert(kids.take(kids.len() as int) =~= kids);
    let place = outlet(f, p, q, k);
    let f2 = f1.hoisted_all(kids, place);
    assert(f2.children(p).len() == 0);
    assert(f2.children(q)[k] == p);
    assert(q != p);
    lemma_taken_out(f2, p, q, k);
    steps::lemma_child_at(f2, q, k, p);
    let f3 = f2.detached(p).dropped(p);
    assert(f3.children(q) =~= row.take(k) + kids + row.skip(k + 1));
    assert(f3.collapsed(q) == f3);
    assert(f2.removed(p) == f3);
    let f4 = f3.noting(SizeChange::Totalled { parent: q });
    proofs::lemma_noting(f3, SizeChange::Totalled { parent: q });
    assert(f4.live(n)) by {
        assert(f2.live(n) == f.live(n));
        assert(f3.live(n) == f2.live(n));
    }
    assert(f4.children(q)[k + i] == n);
    steps::lemma_child_at(f4, q, k + i, n);
    let g = f4.selected(n);
    proofs::lemma_selected(f4, n);
    proofs::lemma_ancestors(f4, n);
    proofs::lemma_ancestors(f4, q);
    let path = f4.ancestors(n);
    assert(path[1] == q);
    assert(path.contains(q));
    assert(path.index_of(q) == 1);
    assert(g.local_selection(q) == Some(n));
    let t = s.selection_unjoined(layout);
    assert(f.dissolved(p) == g);
    assert(t.forest == g);
    assert forall|x: NodeId| x != p && x != q implies #[trigger] g.children(x) == f.children(x) by {
        assert(f4.children(x) == f3.children(x));
        assert(f3.children(x) == f2.children(x));
    }
    assert forall|x: NodeId| x != p implies #[trigger] g.window(x) == f.window(x) by {
        assert(f3.window(x) == f2.window(x));
    }
    assert forall|x: NodeId| x != p implies #[trigger] g.kind(x) == f.kind(x) by {
        assert(f3.kind(x) == f2.kind(x));
    }
}

} // verus!
