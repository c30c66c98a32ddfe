//! Rows of windows below a node.

use vstd::prelude::*;

use crate::actor::WindowId;
use crate::model::tree::homes;
use crate::model::tree::proofs;
use crate::model::tree::pruned;
use crate::model::tree::view::{ForestView, NodeId};

verus! {

/// The children of a root show windows, in order, and have no children.
pub open spec fn in_one_row(f: ForestView, root: NodeId, windows: Seq<WindowId>) -> bool {
    &&& f.children(root).len() == windows.len()
    &&& forall|i: int|
        0 <= i < windows.len() ==> f.window(#[trigger] f.children(root)[i]) == Some(windows[i])
            && f.children(f.children(root)[i]).len() == 0
}

/// Such a root holds exactly these windows.
pub proof fn lemma_row_windows(f: ForestView, root: NodeId, windows: Seq<WindowId>)
    requires
        f.wf(),
        f.live(root),
        f.window(root) is None,
        in_one_row(f, root, windows),
    ensures
        f.windows_under(root) == windows,
{
    let kids = f.children(root);
    lemma_row_preorder(f, root, windows, kids.len());
    assert(kids.take(kids.len() as int) =~= kids);
    let all = seq![root] + kids;
    assert(f.preorder(root) == all);
    lemma_row_windows_of(f, root, windows, windows.len());
    assert(all.take(windows.len() as int + 1) =~= all);
    assert(windows.take(windows.len() as int) =~= windows);
}

proof fn lemma_row_preorder(f: ForestView, root: NodeId, windows: Seq<WindowId>, upto: nat)
    requires
        f.wf(),
        f.live(root),
        in_one_row(f, root, windows),
        upto <= windows.len(),
    ensures
        f.preorder_below(root, upto) == f.children(root).take(upto as int),
    decreases upto,
{
    let kids = f.children(root);
    if upto > 0 {
        let c = kids[upto - 1];
        lemma_row_preorder(f, root, windows, (upto - 1) as nat);
        proofs::lemma_node(f, root);
        assert(f.nodes[root].children[upto - 1] == c);
        assert(f.children(c).len() == 0);
        assert(f.preorder_below(c, 0) =~= Seq::empty());
        assert(f.preorder(c) =~= seq![c]);
        assert(kids.take(upto - 1) + seq![c] =~= kids.take(upto as int));
    } else {
        assert(f.preorder_below(root, 0) =~= kids.take(0));
    }
}

proof fn lemma_row_windows_of(f: ForestView, root: NodeId, windows: Seq<WindowId>, upto: nat)
    requires
        f.window(root) is None,
        in_one_row(f, root, windows),
        upto <= windows.len(),
    ensures
        f.windows_of((seq![root] + f.children(root)).take(upto as int + 1)) == windows.take(upto as int),
    decreases upto,
{
    let all = seq![root] + f.children(root);
    let list = all.take(upto as int + 1);
    if upto > 0 {
        lemma_row_windows_of(f, root, windows, (upto - 1) as nat);
        assert(list.drop_last() =~= all.take(upto as int));
        assert(list.last() == f.children(root)[upto - 1]);
        assert(windows.take(upto - 1).push(windows[upto - 1]) =~= windows.take(upto as int));
    } else {
        assert(list =~= seq![root]);
        assert(list.drop_last() =~= Seq::empty());
        assert(f.windows_of(Seq::<NodeId>::empty()) =~= Seq::empty());
        assert(f.windows_of(list) =~= windows.take(0));
    }
}

/// The children of a root go one after the other.
pub proof fn lemma_cleared(f: ForestView, root: NodeId, kids: Seq<NodeId>, upto: int)
    requires
        f.wf(),
        f.live(root),
        f.parent(root) is None,
        f.window(root) is None,
        kids == f.children(root),
        0 <= upto <= kids.len(),
    ensures
        ({
            let g = f.all_removed(kids.take(upto));
            &&& pruned::pruned(f, g)
            &&& g.live(root)
            &&& g.parent(root) is None
            &&& g.window(root) is None
            &&& g.kind(root) == f.kind(root)
            &&& g.children(root) == kids.skip(upto)
            &&& forall|x: NodeId|
                (#[trigger] f.window(x)) is Some && f.home(x) != root ==> g.window(x) == f.window(x)
        }),
    decreases upto,
{
    if upto == 0 {
        homes::lemma_refl(f);
        pruned::lemma_settled(f, f);
        assert(kids.skip(0) =~= kids);
    } else {
        let u = f.all_removed(kids.take(upto - 1));
        lemma_cleared(f, root, kids, upto - 1);
        assert(kids.take(upto).drop_last() =~= kids.take(upto - 1));
        let c = kids[upto - 1];
        assert(kids.skip(upto - 1)[0] == c);
        proofs::lemma_node(u, root);
        assert(u.nodes[root].children[0] == c);
        proofs::lemma_node(u, c);
        let g = u.removed(c);
        assert(f.all_removed(kids.take(upto)) == g);
        pruned::lemma_removed(u, c);
        pruned::lemma_trans(f, u, g);
        let loose = u.detached(c);
        proofs::lemma_detached(u, c);
        let ns = loose.preorder(c).reverse();
        proofs::lemma_discarded(loose, c);
        proofs::lemma_discarded_nodes(loose, ns);
        let d = loose.discarded(ns);
        proofs::lemma_above_step(loose, c, root);
        assert(d.live(root));
        assert(d.nodes[root] == loose.nodes[root]);
        assert(d.parent(root) is None);
        assert(g == d);
        assert(u.children(root).remove(0) =~= kids.skip(upto));
        assert forall|x: NodeId| (#[trigger] f.window(x)) is Some && f.home(x) != root implies g.window(
            x,
        ) == f.window(x) by {
            assert(u.window(x) == f.window(x));
            assert(u.live(x) && f.live(x));
            assert(u.home(x) == f.home(x));
            if u.above(c, x) {
                homes::lemma_above_home(u, c, x);
                homes::lemma_home(u, c);
                homes::lemma_home(u, root);
            }
        }
    }
}

} // verus!
