//! Joining nodes and taking containers apart leaves every window in its tree.

use vstd::prelude::*;

use crate::layout_engine::{Direction, LayoutKind};
use crate::model::tree::homes;
use crate::model::tree::proofs;
use crate::model::tree::view::{ForestView, NodeId, Place, SizeChange};

verus! {

pub proof fn lemma_noting_each(
    s: ForestView,
    list: Seq<NodeId>,
    step: spec_fn(NodeId) -> SizeChange,
)
    requires
        s.wf(),
    ensures
        homes::settled(s, s.noting_each(list, step)),
{
    homes::lemma_still(s, s.noting_each(list, step));
}

proof fn lemma_moved_noting(s: ForestView, n: NodeId, place: Place, change: SizeChange)
    requires
        s.wf(),
    ensures
        homes::settled(s, s.moved(n, place).noting(change)),
{
    homes::lemma_moved(s, n, place);
    let t = s.moved(n, place);
    homes::lemma_noting(t, change);
    homes::lemma_trans(s, t, t.noting(change));
}

pub proof fn lemma_paired(s: ForestView, a: NodeId, b: NodeId, p: NodeId)
    requires
        s.wf(),
        s.minted <= u64::MAX,
    ensures
        homes::settled(s, s.paired(a, b, p)),
{
    let s1 = s.noting(SizeChange::Remembered { node: a });
    let s2 = s1.noting(SizeChange::Remembered { node: b });
    homes::lemma_noting(s, SizeChange::Remembered { node: a });
    homes::lemma_noting(s1, SizeChange::Remembered { node: b });
    homes::lemma_trans(s, s1, s2);
    let box_id = s2.next_id();
    let s3 = s2.with_new(Place::Before(a));
    homes::lemma_with_new(s2, Place::Before(a));
    homes::lemma_trans(s, s2, s3);
    let s4 = s3.moved(a, Place::Last(box_id)).noting(SizeChange::Recalled { node: a });
    lemma_moved_noting(s3, a, Place::Last(box_id), SizeChange::Recalled { node: a });
    homes::lemma_trans(s, s3, s4);
    let s5 = s4.moved(b, Place::Last(box_id)).noting(SizeChange::Recalled { node: b });
    lemma_moved_noting(s4, b, Place::Last(box_id), SizeChange::Recalled { node: b });
    homes::lemma_trans(s, s4, s5);
    let s6 = s5.noting(SizeChange::Totalled { parent: box_id });
    homes::lemma_noting(s5, SizeChange::Totalled { parent: box_id });
    homes::lemma_trans(s, s5, s6);
    if s6.live(p) {
        let s7 = s6.noting(SizeChange::Summed { node: box_id, first: a, second: b });
        homes::lemma_noting(s6, SizeChange::Summed { node: box_id, first: a, second: b });
        homes::lemma_trans(s, s6, s7);
        let s8 = s7.noting(SizeChange::Totalled { parent: p });
        homes::lemma_noting(s7, SizeChange::Totalled { parent: p });
        homes::lemma_trans(s, s7, s8);
    }
}

pub proof fn lemma_gathered(s: ForestView, a: NodeId, b: NodeId, top: NodeId)
    requires
        s.wf(),
        s.minted <= u64::MAX,
    ensures
        homes::settled(s, s.gathered(a, b, top)),
{
    let box_id = s.next_id();
    let s1 = s.with_new(Place::Last(top));
    homes::lemma_with_new(s, Place::Last(top));
    let s2 = s1.with_kind(box_id, LayoutKind::Horizontal);
    homes::lemma_with_kind(s1, box_id, LayoutKind::Horizontal);
    homes::lemma_trans(s, s1, s2);
    let s3 = s2.moved(a, Place::Last(box_id));
    homes::lemma_moved(s2, a, Place::Last(box_id));
    homes::lemma_trans(s, s2, s3);
    homes::lemma_moved(s3, b, Place::Last(box_id));
    homes::lemma_trans(s, s3, s.gathered(a, b, top));
}

pub proof fn lemma_with_smart_parent(s: ForestView, a: NodeId, b: NodeId, direction: Direction)
    requires
        s.wf(),
        s.minted <= u64::MAX,
    ensures
        homes::settled(s, s.with_smart_parent(a, b, direction).0),
{
    homes::lemma_refl(s);
    if s.parent(a) is Some && s.parent(a) == s.parent(b) {
        lemma_paired(s, a, b, s.parent(a)->0);
    } else if s.meeting(a, b) is Some {
        lemma_gathered(s, a, b, s.meeting(a, b)->0);
    }
}

/// Giving a container a kind and selecting it.
pub proof fn lemma_kind_selected(s: ForestView, n: NodeId, kind: LayoutKind)
    requires
        s.wf(),
    ensures
        homes::settled(s, s.with_kind(n, kind).selected(n)),
{
    let t = s.with_kind(n, kind);
    homes::lemma_with_kind(s, n, kind);
    homes::lemma_selected(t, n);
    homes::lemma_trans(s, t, t.selected(n));
}

pub proof fn lemma_boxed(s: ForestView, a: NodeId, b: NodeId, direction: Direction)
    requires
        s.wf(),
        s.minted <= u64::MAX,
    ensures
        homes::settled(s, s.boxed(a, b, direction)),
        homes::settled(s, s.merged(a, b, direction)),
{
    let (t, common) = s.with_smart_parent(a, b, direction);
    lemma_with_smart_parent(s, a, b, direction);
    let along = LayoutKind::along(direction.axis());
    lemma_kind_selected(t, common, along);
    homes::lemma_trans(s, t, t.with_kind(common, along).selected(common));
    lemma_kind_selected(t, common, t.kind(common));
    homes::lemma_trans(s, t, t.with_kind(common, t.kind(common)).selected(common));
}

/// A node taken in by a container that is then selected.
pub proof fn lemma_taken_in(s: ForestView, n: NodeId, p: NodeId, at_end: bool)
    requires
        s.wf(),
    ensures
        homes::settled(s, s.taken_in(n, p, at_end)),
        homes::settled(s, s.taken_in(n, p, at_end).selected(p)),
{
    homes::lemma_moved(s, n, Place::Last(p));
    if s.first_child(p) is Some {
        homes::lemma_moved(s, n, Place::Before(s.first_child(p)->0));
    }
    let t = s.taken_in(n, p, at_end);
    homes::lemma_selected(t, p);
    homes::lemma_trans(s, t, t.selected(p));
}

pub proof fn lemma_joined(s: ForestView, n: NodeId, target: NodeId, direction: Direction)
    requires
        s.wf(),
        s.minted <= u64::MAX,
    ensures
        homes::settled(s, s.joined(n, target, direction)),
{
    let sp = s.parent(n);
    let tp = s.parent(target);
    if sp is Some {
        lemma_taken_in(s, target, sp->0, direction.is_forward());
        lemma_kind_selected(s, sp->0, LayoutKind::along(direction.axis()));
    }
    if tp is Some {
        lemma_taken_in(s, n, tp->0, !direction.is_forward());
    }
    if sp is Some && tp is Some {
        lemma_boxed(s, sp->0, tp->0, direction);
    }
    lemma_boxed(s, n, target, direction);
}

/// The state while the children of `p` are put beside it, one after the other.
spec fn emptying(s: ForestView, p: NodeId, above: NodeId, place: Place) -> bool {
    &&& s.wf()
    &&& s.parent(p) == Some(above)
    &&& s.place_parent(place) == Some(above)
    &&& s.window(p) is None
}

/// The first child of a container is put beside the container.
proof fn lemma_first_out(
    s: ForestView,
    p: NodeId,
    above: NodeId,
    place: Place,
    change: SizeChange,
)
    requires
        emptying(s, p, above, place),
        s.children(p).len() > 0,
    ensures
        ({
            let t = s.reseated(s.children(p)[0], place).noting(change);
            &&& homes::settled(s, t)
            &&& emptying(t, p, above, place)
            &&& t.children(p) == s.children(p).skip(1)
        }),
{
    let c = s.children(p)[0];
    let u = s.reseated(c, place);
    let t = u.noting(change);
    proofs::lemma_node(s, p);
    assert(s.nodes[p].children[0] == c);
    proofs::lemma_node(s, c);
    proofs::lemma_node(s, above);
    let anchor = ForestView::place_anchor(place);
    assert(s.live(anchor));
    assert(!s.above(c, above)) by {
        if s.above(c, above) {
            proofs::lemma_above_depth(s, c, above);
        }
    }
    homes::lemma_home(s, p);
    homes::lemma_home(s, c);
    assert(s.window(above) is None);
    assert(anchor != c);
    assert(s.can_move_at_home(c, place));
    homes::lemma_reseated(s, c, place);
    homes::lemma_noting(u, change);
    homes::lemma_trans(s, u, t);
    proofs::lemma_shifted(s, c, place);
    proofs::lemma_detached(s, c);
    let loose = s.detached(c);
    assert(loose.children(p) =~= s.children(p).skip(1));
    assert(loose.parent(p) == s.parent(p));
    assert(loose.parent(anchor) == s.parent(anchor));
    assert(t.window(p) is None) by {
        if t.window(p) is Some {
            assert(s.window(p) == t.window(p));
        }
    }
}

/// All children of a container are put beside it.
proof fn lemma_hoisted_all(
    s: ForestView,
    p: NodeId,
    above: NodeId,
    place: Place,
    kids: Seq<NodeId>,
    upto: int,
)
    requires
        emptying(s, p, above, place),
        kids == s.children(p),
        0 <= upto <= kids.len(),
    ensures
        homes::settled(s, s.hoisted_all(kids.take(upto), place)),
        emptying(s.hoisted_all(kids.take(upto), place), p, above, place),
        s.hoisted_all(kids.take(upto), place).children(p) == kids.skip(upto),
    decreases upto,
{
    if upto == 0 {
        homes::lemma_refl(s);
        assert(kids.skip(0) =~= kids);
    } else {
        let before = s.hoisted_all(kids.take(upto - 1), place);
        lemma_hoisted_all(s, p, above, place, kids, upto - 1);
        let c = kids[upto - 1];
        assert(kids.skip(upto - 1)[0] == c);
        let change = SizeChange::Recalled { node: c };
        lemma_first_out(before, p, above, place, change);
        assert(kids.take(upto).drop_last() =~= kids.take(upto - 1));
        assert(kids.take(upto).last() == c);
        let after = before.reseated(c, place).noting(change);
        assert(s.hoisted_all(kids.take(upto), place) == after);
        homes::lemma_trans(s, before, after);
        assert(kids.skip(upto - 1).skip(1) =~= kids.skip(upto));
    }
}

/// A container without children or window leaves no trace.
pub proof fn lemma_empty_removed(s: ForestView, p: NodeId)
    requires
        s.wf(),
        s.parent(p) is Some,
        s.children(p).len() == 0,
        s.window(p) is None,
    ensures
        homes::settled(s, s.removed(p)),
{
    let loose = s.detached(p);
    let above = s.parent(p)->0;
    proofs::lemma_detached(s, p);
    proofs::lemma_node(s, p);
    assert(loose.preorder_below(p, 0) =~= Seq::empty());
    assert(loose.preorder(p) =~= seq![p]);
    assert(seq![p].reverse() =~= seq![p]);
    assert(seq![p].drop_last() =~= Seq::empty());
    assert(loose.discarded(Seq::empty()) == loose);
    let t = loose.discarded(seq![p]);
    assert(t == loose.dropped(p));
    homes::lemma_taken_out(s, p);
    assert(t.window(above) is None) by {
        if t.window(above) is Some {
            assert(s.window(above) == t.window(above));
        }
    }
    homes::lemma_collapsed(t, above);
    homes::lemma_trans(s, t, t.collapsed(above));
}

pub proof fn lemma_dissolved(s: ForestView, p: NodeId)
    requires
        s.wf(),
        s.parent(p) is Some,
        s.window(p) is None,
    ensures
        homes::settled(s, s.dissolved(p)),
{
    let above = s.parent(p)->0;
    let kids = s.children(p);
    let place = match s.next_sibling(p) {
        Some(next) => Place::Before(next),
        None => Place::Last(above),
    };
    proofs::lemma_node(s, p);
    proofs::lemma_siblings(s, p);
    let s1 = s.noting(SizeChange::Promoted { parent: p });
    homes::lemma_noting(s, SizeChange::Promoted { parent: p });
    lemma_hoisted_all(s1, p, above, place, kids, kids.len() as int);
    assert(kids.take(kids.len() as int) =~= kids);
    let s2 = s1.hoisted_all(kids, place);
    homes::lemma_trans(s, s1, s2);
    lemma_empty_removed(s2, p);
    let s3 = s2.removed(p);
    homes::lemma_trans(s, s2, s3);
    let s4 = s3.noting(SizeChange::Totalled { parent: above });
    homes::lemma_noting(s3, SizeChange::Totalled { parent: above });
    homes::lemma_trans(s, s3, s4);
    if s.local_selection(p) is Some {
        homes::lemma_selected(s4, s.local_selection(p)->0);
        homes::lemma_trans(s, s4, s4.selected(s.local_selection(p)->0));
    } else if s4.first_child(above) is Some {
        homes::lemma_selected(s4, s4.first_child(above)->0);
        homes::lemma_trans(s, s4, s4.selected(s4.first_child(above)->0));
    }
}

} // verus!
