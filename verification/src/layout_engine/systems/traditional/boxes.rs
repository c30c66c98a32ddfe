//! Where a new window is put, and what becomes of containers that nodes join, leave and
//! are taken out of.

use vstd::prelude::*;

use crate::actor::{LayoutId, WindowId};
use crate::layout_engine::systems::traditional::arrivals;
use crate::layout_engine::systems::traditional::steps;
use crate::layout_engine::systems::traditional::view::TraditionalView;
use crate::layout_engine::{Direction, LayoutKind};
use crate::model::tree::homes;
use crate::model::tree::proofs;
use crate::model::tree::view::{ForestView, NodeId, Place, SizeChange};

verus! {

/// A forest has one more node, which is child number `i` of a node.
pub open spec fn one_more(f: ForestView, g: ForestView, p: NodeId, i: int, added: NodeId) -> bool {
    &&& !f.live(added)
    &&& g.live(added)
    &&& forall|x: NodeId| x != added ==> #[trigger] g.live(x) == f.live(x)
    &&& g.children(p) == f.children(p).insert(i, added)
    &&& g.children(added).len() == 0
    &&& forall|x: NodeId|
        x != p && x != added ==> #[trigger] g.children(x) == f.children(x)
    &&& forall|x: NodeId| x != added ==> #[trigger] g.kind(x) == f.kind(x)
    &&& forall|x: NodeId| x != added ==> #[trigger] g.window(x) == f.window(x)
}

/// A new node among the children of a node.
pub proof fn lemma_new_child(f: ForestView, p: NodeId, place: Place, i: int)
    requires
        f.wf(),
        f.minted <= u64::MAX,
        f.live(p),
        f.window(p) is None,
        f.place_parent(place) == Some(p),
        i == f.place_rank(place),
    ensures
        f.with_new(place).wf(),
        one_more(f, f.with_new(place), p, i, f.next_id()),
        f.with_new(place).kind(f.next_id()) is Horizontal,
        f.with_new(place).window(f.next_id()) is None,
        f.with_new(place).parent(f.next_id()) == Some(p),
        f.with_new(place).minted == f.minted + 1,
        forall|x: NodeId| x != f.next_id() ==> #[trigger] f.with_new(place).parent(x) == f.parent(x),
{
    let a = f.next_id();
    proofs::lemma_created(f);
    proofs::lemma_with_new(f, place);
    let c = f.created();
    assert(f.live(ForestView::place_anchor(place)));
    assert(c.place_rank(place) == i);
    assert(f.with_new(place).children(a) =~= Seq::<NodeId>::empty());
}

/// Selecting a node changes no list of children.
pub proof fn lemma_selected_lists(f: ForestView, n: NodeId)
    requires
        f.wf(),
        f.live(n),
    ensures
        f.selected(n).wf(),
        steps::same_lists(f, f.selected(n)),
{
    proofs::lemma_selected(f, n);
}

/// A new node gets a window and is selected.
pub proof fn lemma_shown(
    s: TraditionalView,
    layout: LayoutId,
    g: ForestView,
    q: NodeId,
    window: WindowId,
)
    requires
        s.wf(),
        s.has(layout),
        g.wf(),
        !s.forest.live(s.forest.next_id()),
        g.live(s.forest.next_id()),
        g.parent(s.forest.next_id()) == Some(q),
        g.children(s.forest.next_id()).len() == 0,
        g.window(s.forest.next_id()) is None,
        s.forest.live(q),
        s.forest.home(q) == s.root(layout),
        forall|x: NodeId| s.forest.live(x) ==> #[trigger] g.live(x),
        forall|x: NodeId| s.forest.live(x) ==> #[trigger] g.parent(x) == s.forest.parent(x),
        forall|x: NodeId| s.forest.live(x) ==> #[trigger] g.window(x) == s.forest.window(x),
    ensures
        ({
            let added = s.forest.next_id();
            let t = s.with_forest(g.with_window(layout, added, window).selected(added));
            &&& t.selection(layout) == added
            &&& t.forest.window(added) == Some(window)
            &&& forall|x: NodeId| #[trigger] t.forest.live(x) == g.live(x)
            &&& forall|x: NodeId| #[trigger] t.forest.children(x) == g.children(x)
            &&& forall|x: NodeId| #[trigger] t.forest.kind(x) == g.kind(x)
            &&& forall|x: NodeId| x != added ==> #[trigger] t.forest.window(x) == g.window(x)
        }),
{
    let f = s.forest;
    let added = f.next_id();
    let h = g.with_window(layout, added, window);
    proofs::lemma_with_window(g, layout, added, window);
    lemma_selected_lists(h, added);
    let v = s.with_forest(h);
    assert(v.wf()) by {
        assert forall|l: LayoutId| #[trigger] v.roots.contains_key(l) implies h.live(v.roots[l])
            && h.parent(v.roots[l]) is None && h.window(v.roots[l]) is None by {
            assert(s.roots.contains_key(l));
            assert(g.live(s.roots[l]) && g.parent(s.roots[l]) is None && g.window(
                s.roots[l],
            ) is None);
        }
    }
    proofs::lemma_ancestors(f, q);
    assert forall|j: int| 0 <= j < f.ancestors(q).len() implies h.live(#[trigger] f.ancestors(q)[j])
        && h.parent(f.ancestors(q)[j]) == f.parent(f.ancestors(q)[j]) by {
        let x = f.ancestors(q)[j];
        assert(g.live(x) && g.parent(x) == f.parent(x));
    }
    proofs::lemma_same_ancestors(f, h, q);
    homes::lemma_home(h, added);
    arrivals::law_selected(v, layout, added);
}

/// A new window goes to the end of the tree where the settings say so, else behind the
/// selected node, unless that stands in a crowded container.
pub proof fn law_new_window(
    s: TraditionalView,
    layout: LayoutId,
    p: NodeId,
    i: int,
    window: WindowId,
)
    requires
        s.wf(),
        s.has(layout),
        s.forest.minted <= u64::MAX,
        steps::child_at(s.forest, p, i, s.selection(layout)),
        s.point is EndOfTree || s.forest.children(p).len() < 4 || s.forest.kind(
            p,
        ) is HorizontalStack || s.forest.kind(p) is VerticalStack,
    ensures
        ({
            let f = s.forest;
            let t = s.window_added(layout, window);
            let added = t.selection(layout);
            let r = s.root(layout);
            &&& t.roots == s.roots
            &&& t.forest.window(added) == Some(window)
            &&& s.point is NextToSelection ==> one_more(f, t.forest, p, i + 1, added)
            &&& s.point is EndOfTree ==> one_more(
                f,
                t.forest,
                r,
                f.children(r).len() as int,
                added,
            )
        }),
{
    let f = s.forest;
    let n = s.selection(layout);
    let r = s.root(layout);
    assert(s.roots.contains_key(layout));
    steps::lemma_child_at(f, p, i, n);
    arrivals::lemma_selected_below(f, r);
    homes::lemma_home(f, r);
    homes::lemma_home(f, n);
    let added = f.next_id();
    if s.point is EndOfTree {
        let place = Place::Last(r);
        lemma_new_child(f, r, place, f.children(r).len() as int);
        lemma_shown(s, layout, f.with_new(place), r, window);
    } else {
        let place = Place::After(n);
        let g = f.with_new(place);
        lemma_new_child(f, p, place, i + 1);
        assert(g.parent(n) == Some(p));
        let t = s.with_forest(g).split_share(n, added);
        assert(t.forest.nodes == g.nodes);
        assert(t.forest.wf());
        assert(s.anchor(layout) == Some(n));
        lemma_shown(s, layout, t.forest, p, window);
    }
}

/// A window that comes to a layout without windows is the only child of its root.
pub proof fn law_first_window(s: TraditionalView, layout: LayoutId, window: WindowId)
    requires
        s.wf(),
        s.has(layout),
        s.forest.minted <= u64::MAX,
        s.forest.children(s.root(layout)).len() == 0,
    ensures
        ({
            let t = s.window_added(layout, window);
            let added = t.selection(layout);
            &&& t.roots == s.roots
            &&& t.forest.window(added) == Some(window)
            &&& t.forest.children(s.root(layout)) == seq![added]
            &&& one_more(s.forest, t.forest, s.root(layout), 0, added)
        }),
{
    let f = s.forest;
    let r = s.root(layout);
    assert(s.roots.contains_key(layout));
    proofs::lemma_node(f, r);
    homes::lemma_home(f, r);
    assert(s.selection(layout) == r);
    assert(s.anchor(layout) is None);
    lemma_new_child(f, r, Place::Last(r), 0);
    lemma_shown(s, layout, f.with_new(Place::Last(r)), r, window);
    let t = s.window_added(layout, window);
    assert(t.forest.children(r) =~= seq![f.next_id()]);
}

/// A node is alone in a new container, which has its place among the children of `p`.
pub open spec fn boxed_alone(
    f: ForestView,
    g: ForestView,
    p: NodeId,
    i: int,
    n: NodeId,
    sub: NodeId,
) -> bool {
    &&& !f.live(sub)
    &&& g.live(sub)
    &&& g.window(sub) is None
    &&& g.children(p) == f.children(p).update(i, sub)
    &&& g.children(sub) == seq![n]
    &&& forall|x: NodeId| x != sub ==> #[trigger] g.live(x) == f.live(x)
    &&& forall|x: NodeId| x != p && x != sub ==> #[trigger] g.children(x) == f.children(x)
    &&& forall|x: NodeId| x != sub ==> #[trigger] g.kind(x) == f.kind(x)
    &&& forall|x: NodeId| x != sub ==> #[trigger] g.window(x) == f.window(x)
}

/// A node that is split from its siblings gets a container of its own, of the kind asked
/// for.
pub proof fn law_split(
    s: TraditionalView,
    layout: LayoutId,
    n: NodeId,
    p: NodeId,
    i: int,
    kind: LayoutKind,
)
    requires
        s.wf(),
        s.forest.minted <= u64::MAX,
        steps::child_at(s.forest, p, i, n),
        s.forest.children(p).len() > 1,
    ensures
        ({
            let (t, sub) = s.nested(layout, n, kind);
            &&& t.forest.wf()
            &&& t.roots == s.roots
            &&& boxed_alone(s.forest, t.forest, p, i, n, sub)
            &&& t.forest.kind(sub) == kind
        }),
{
    let f = s.forest;
    let sub = f.next_id();
    steps::lemma_child_at(f, p, i, n);
    lemma_new_child(f, p, Place::Before(n), i);
    let inherit = SizeChange::Inherited { node: sub, from: n };
    let f1 = f.with_new(Place::Before(n));
    let f2 = f1.noting(inherit);
    proofs::lemma_noting(f1, inherit);
    assert(f2.children(p)[i + 1] == n);
    assert(f2.children(p)[i] == sub);
    steps::lemma_child_at(f2, p, i + 1, n);
    steps::lemma_child_at(f2, p, i, sub);
    proofs::lemma_above_step(f2, n, sub);
    steps::lemma_to_end(f2, n, p, i + 1, sub);
    let f3 = f2.moved(n, Place::Last(sub));
    assert(f3.children(sub) =~= seq![n]);
    assert(f3.children(p) =~= f.children(p).update(i, sub));
    let f4 = if f.local_selection(p) == Some(n) {
        f3.selected_locally(sub)
    } else {
        f3
    };
    proofs::lemma_selected_locally(f3, sub);
    proofs::lemma_selected_locally(f4, n);
    let f5 = f4.selected_locally(n);
    proofs::lemma_with_kind(f5, sub, kind);
    assert(f3.live(sub));
    assert forall|x: NodeId| x != sub implies #[trigger] f5.live(x) == f.live(x) by {
        assert(f3.live(x) == f2.live(x));
    }
}

/// A new window next to a node in a crowded container shares a container of the same
/// kind with it, at its place.
pub proof fn law_crowded(
    s: TraditionalView,
    layout: LayoutId,
    p: NodeId,
    i: int,
    window: WindowId,
)
    requires
        s.wf(),
        s.has(layout),
        s.forest.minted < u64::MAX,
        s.point is NextToSelection,
        steps::child_at(s.forest, p, i, s.selection(layout)),
        s.forest.children(p).len() >= 4,
        s.forest.kind(p) is Horizontal || s.forest.kind(p) is Vertical,
    ensures
        ({
            let f = s.forest;
            let n = s.selection(layout);
            let t = s.window_added(layout, window);
            let added = t.selection(layout);
            let sub = t.forest.children(p)[i];
            &&& t.roots == s.roots
            &&& t.forest.window(added) == Some(window)
            &&& !f.live(added) && !f.live(sub)
            &&& t.forest.children(p) == f.children(p).update(i, sub)
            &&& t.forest.children(sub) == seq![n, added]
            &&& t.forest.kind(sub) == f.kind(p)
            &&& forall|x: NodeId|
                f.live(x) && x != p ==> #[trigger] t.forest.children(x) == f.children(x)
            &&& forall|x: NodeId| f.live(x) ==> #[trigger] t.forest.window(x) == f.window(x)
        }),
{
    let f = s.forest;
    let n = s.selection(layout);
    let r = s.root(layout);
    assert(s.roots.contains_key(layout));
    steps::lemma_child_at(f, p, i, n);
    arrivals::lemma_selected_below(f, r);
    homes::lemma_home(f, r);
    let kind = f.kind(p);
    let (base, sub) = s.nested(layout, n, kind);
    arrivals::lemma_nested_sibling(s, layout, n, kind);
    law_split(s, layout, n, p, i, kind);
    let g = base.forest;
    let added = g.next_id();
    lemma_new_child(g, sub, Place::Last(sub), 1);
    let h = g.with_new(Place::Last(sub));
    let t = base.with_forest(h).split_share(n, added);
    assert(t.forest.nodes == h.nodes);
    assert(t.forest.wf());
    lemma_shown(base, layout, t.forest, sub, window);
    assert(s.anchor(layout) == Some(n));
    let u = s.window_added(layout, window);
    assert(u.forest.children(sub) =~= seq![n, added]);
    assert(u.forest.children(p) == f.children(p).update(i, sub));
    assert forall|x: NodeId| f.live(x) && x != p implies #[trigger] u.forest.children(x)
        == f.children(x) by {
        assert(h.children(x) == g.children(x));
        assert(g.live(x) == f.live(x));
    }
    assert forall|x: NodeId| f.live(x) implies #[trigger] u.forest.window(x) == f.window(x) by {
        assert(h.window(x) == g.window(x));
        assert(g.live(x) == f.live(x));
    }
}

/// A child alone in a new container at its place.
proof fn lemma_alone(f: ForestView, n: NodeId, p: NodeId, i: int)
    requires
        f.wf(),
        f.minted <= u64::MAX,
        steps::child_at(f, p, i, n),
        f.children(p).len() > 1,
    ensures
        ({
            let sub = f.next_id();
            let g = f.with_new(Place::Before(n)).moved(n, Place::Last(sub));
            &&& g.wf()
            &&& boxed_alone(f, g, p, i, n, sub)
            &&& g.parent(sub) == Some(p)
            &&& g.kind(sub) is Horizontal
            &&& forall|x: NodeId| x != n && x != sub ==> #[trigger] g.parent(x) == f.parent(x)
        }),
{
    let sub = f.next_id();
    steps::lemma_child_at(f, p, i, n);
    lemma_new_child(f, p, Place::Before(n), i);
    let f2 = f.with_new(Place::Before(n));
    assert(f2.children(p)[i + 1] == n);
    assert(f2.children(p)[i] == sub);
    steps::lemma_child_at(f2, p, i + 1, n);
    steps::lemma_child_at(f2, p, i, sub);
    proofs::lemma_above_step(f2, n, sub);
    steps::lemma_to_end(f2, n, p, i + 1, sub);
    let g = f2.moved(n, Place::Last(sub));
    assert(g.children(sub) =~= seq![n]);
    assert(g.children(p) =~= f.children(p).update(i, sub));
    assert(g.live(sub) == f2.live(sub));
}

/// Siblings `n` and `m` share a new container, which has the place of `n`.
pub open spec fn boxed_together(
    f: ForestView,
    g: ForestView,
    p: NodeId,
    i: int,
    j: int,
    sub: NodeId,
) -> bool {
    &&& !f.live(sub)
    &&& g.live(sub)
    &&& g.window(sub) is None
    &&& g.children(p) == f.children(p).update(i, sub).remove(j)
    &&& g.children(sub) == seq![f.children(p)[i], f.children(p)[j]]
    &&& forall|x: NodeId| x != sub ==> #[trigger] g.live(x) == f.live(x)
    &&& forall|x: NodeId| x != p && x != sub ==> #[trigger] g.children(x) == f.children(x)
    &&& forall|x: NodeId| x != sub ==> #[trigger] g.kind(x) == f.kind(x)
    &&& forall|x: NodeId| x != sub ==> #[trigger] g.window(x) == f.window(x)
}

/// Parents stay apart from those of the children of a node.
spec fn parents_above(f: ForestView, g: ForestView, p: NodeId, sub: NodeId) -> bool {
    &&& g.parent(sub) == Some(p)
    &&& forall|x: NodeId|
        f.live(x) && f.parent(x) != Some(p) ==> #[trigger] g.parent(x) == f.parent(x)
}

/// Two siblings in a container of their own.
#[verifier::spinoff_prover]
#[verifier::rlimit(40)]
proof fn lemma_paired(f: ForestView, n: NodeId, p: NodeId, i: int, m: NodeId, j: int)
    requires
        f.wf(),
        f.minted <= u64::MAX,
        steps::child_at(f, p, i, n),
        steps::child_at(f, p, j, m),
        i != j,
        f.children(p).len() > 2,
    ensures
        ({
            let g = f.paired(n, m, p);
            let sub = f.next_id();
            &&& g.wf()
            &&& boxed_together(f, g, p, i, j, sub)
            &&& parents_above(f, g, p, sub)
            &&& g.kind(sub) is Horizontal
        }),
{
    let sub = f.next_id();
    let f1 = f.noting(SizeChange::Remembered { node: n }).noting(
        SizeChange::Remembered { node: m },
    );
    proofs::lemma_noting(f, SizeChange::Remembered { node: n });
    proofs::lemma_noting(
        f.noting(SizeChange::Remembered { node: n }),
        SizeChange::Remembered { node: m },
    );
    steps::lemma_child_at(f, p, i, n);
    steps::lemma_child_at(f, p, j, m);
    lemma_alone(f1, n, p, i);
    let f3 = f1.with_new(Place::Before(n)).moved(n, Place::Last(sub));
    let f4 = f3.noting(SizeChange::Recalled { node: n });
    proofs::lemma_noting(f3, SizeChange::Recalled { node: n });
    assert(f4.children(p) == f.children(p).update(i, sub));
    assert(f4.children(sub) == seq![n]);
    assert(f4.children(p)[i] == sub);
    assert(f4.children(p)[j] == m);
    steps::lemma_child_at(f4, p, i, sub);
    steps::lemma_child_at(f4, p, j, m);
    assert(m != sub);
    proofs::lemma_above_step(f4, m, sub);
    steps::lemma_to_end(f4, m, p, j, sub);
    let f5 = f4.moved(m, Place::Last(sub));
    assert(f5.children(sub) =~= seq![n, m]);
    let g = f.paired(n, m, p);
    assert(g.nodes == f5.nodes);
    assert(g.minted == f5.minted);
    assert(g.wf());
    assert(boxed_together(f, g, p, i, j, sub)) by {
        assert forall|x: NodeId| x != p && x != sub implies #[trigger] g.children(x)
            == f.children(x) by {
            assert(f5.children(x) == f4.children(x));
            assert(f3.children(x) == f1.children(x));
        }
        assert forall|x: NodeId| x != sub implies #[trigger] g.live(x) == f.live(x) by {
            assert(f5.live(x) == f4.live(x));
            assert(f3.live(x) == f1.live(x));
        }
        assert forall|x: NodeId| x != sub implies #[trigger] g.kind(x) == f.kind(x) by {
            assert(f5.kind(x) == f4.kind(x));
            assert(f3.kind(x) == f1.kind(x));
        }
        assert forall|x: NodeId| x != sub implies #[trigger] g.window(x) == f.window(x) by {
            assert(f5.window(x) == f4.window(x));
            assert(f3.window(x) == f1.window(x));
        }
        assert(f5.live(sub) == f4.live(sub));
        assert(f5.window(sub) == f4.window(sub));
    }
    assert(parents_above(f, g, p, sub)) by {
        assert(f5.parent(sub) == f4.parent(sub));
        assert forall|x: NodeId| f.live(x) && f.parent(x) != Some(p) implies #[trigger] g.parent(x)
            == f.parent(x) by {
            assert(f5.parent(x) == f4.parent(x));
            assert(f3.parent(x) == f1.parent(x));
        }
    }
    assert(f5.kind(sub) == f4.kind(sub));
}

/// The plain kind along a direction.
pub open spec fn plain_along(direction: Direction) -> LayoutKind {
    match direction {
        Direction::Left | Direction::Right => LayoutKind::Horizontal,
        Direction::Up | Direction::Down => LayoutKind::Vertical,
    }
}

/// Siblings in a plain container that join.
#[verifier::spinoff_prover]
#[verifier::rlimit(40)]
proof fn lemma_joined(
    f: ForestView,
    n: NodeId,
    p: NodeId,
    i: int,
    m: NodeId,
    j: int,
    direction: Direction,
)
    requires
        f.wf(),
        f.minted <= u64::MAX,
        steps::child_at(f, p, i, n),
        steps::child_at(f, p, j, m),
        i != j,
        f.children(p).len() > 2,
        !f.kind(p).stacks(),
    ensures
        ({
            let g = f.joined(n, m, direction);
            let sub = f.next_id();
            &&& g.wf()
            &&& boxed_together(f, g, p, i, j, sub)
            &&& parents_above(f, g, p, sub)
            &&& g.kind(sub) == plain_along(direction)
        }),
{
    let sub = f.next_id();
    steps::lemma_child_at(f, p, i, n);
    steps::lemma_child_at(f, p, j, m);
    assert(n != m) by {
        proofs::lemma_node(f, p);
    }
    assert(!f.above(n, m)) by {
        proofs::lemma_above_step(f, n, m);
    }
    assert(!f.above(m, n)) by {
        proofs::lemma_above_step(f, m, n);
    }
    lemma_paired(f, n, p, i, m, j);
    let g = f.paired(n, m, p);
    assert(f.with_smart_parent(n, m, direction) == (g, sub));
    let kind = plain_along(direction);
    let g1 = g.with_kind(sub, kind);
    proofs::lemma_with_kind(g, sub, kind);
    lemma_selected_lists(g1, sub);
    let g2 = g1.selected(sub);
    assert(f.joined(n, m, direction) == g2);
    assert(boxed_together(f, g2, p, i, j, sub)) by {
        assert forall|x: NodeId| x != p && x != sub implies #[trigger] g2.children(x)
            == f.children(x) by {
            assert(g1.children(x) == g.children(x));
        }
        assert forall|x: NodeId| x != sub implies #[trigger] g2.live(x) == f.live(x) by {
            assert(g1.live(x) == g.live(x));
        }
        assert forall|x: NodeId| x != sub implies #[trigger] g2.kind(x) == f.kind(x) by {
            assert(g1.kind(x) == g.kind(x));
        }
        assert forall|x: NodeId| x != sub implies #[trigger] g2.window(x) == f.window(x) by {
            assert(g1.window(x) == g.window(x));
        }
    }
    assert forall|x: NodeId| f.live(x) && f.parent(x) != Some(p) implies #[trigger] g2.parent(x)
        == f.parent(x) by {
        assert(g1.parent(x) == g.parent(x));
    }
}

/// The selected window and its neighbour in a plain container share a new container
/// along the direction: it has the place of the selected window, which comes first in it
/// and stays selected.
#[verifier::spinoff_prover]
#[verifier::rlimit(40)]
pub proof fn law_joined(
    s: TraditionalView,
    layout: LayoutId,
    p: NodeId,
    i: int,
    direction: Direction,
)
    requires
        s.wf(),
        s.has(layout),
        s.forest.minted <= u64::MAX,
        steps::child_at(s.forest, p, i, s.selection(layout)),
        s.selected_window(layout) is Some,
        s.forest.kind(p) is Horizontal || s.forest.kind(p) is Vertical,
        s.forest.children(p).len() > 2,
        0 <= i + steps::step(direction) < s.forest.children(p).len(),
    ensures
        ({
            let t = s.selection_joined(layout, direction);
            let n = s.selection(layout);
            let sub = t.forest.parent(n)->0;
            &&& t.roots == s.roots
            &&& t.selection(layout) == n
            &&& t.forest.parent(n) is Some
            &&& boxed_together(s.forest, t.forest, p, i, i + steps::step(direction), sub)
            &&& t.forest.kind(sub) == plain_along(direction)
        }),
{
    let f = s.forest;
    let n = s.selection(layout);
    let r = s.root(layout);
    let j = i + steps::step(direction);
    let m = f.children(p)[j];
    let sub = f.next_id();
    assert(s.roots.contains_key(layout));
    arrivals::lemma_selected_below(f, r);
    homes::lemma_home(f, r);
    steps::lemma_child_at(f, p, i, n);
    steps::lemma_child_at(f, p, j, m);
    assert(f.join_target(n, direction) == Some(m));
    assert(f.join_source(n, m, direction) == n);
    assert(!f.absorbs(n, m, direction));
    lemma_joined(f, n, p, i, m, j, direction);
    let g = f.joined(n, m, direction);
    assert(g.window(n) == f.window(n));
    lemma_selected_lists(g, n);
    let t = s.selection_joined(layout, direction);
    assert(t == s.with_forest(g.selected(n)));
    steps::lemma_child_at(g, sub, 0, n);
    lemma_joined_home(s, layout, g, n, p, sub);
    arrivals::law_selected(s.with_forest(g), layout, n);
    assert(boxed_together(f, t.forest, p, i, j, sub)) by {
        assert forall|x: NodeId| x != p && x != sub implies #[trigger] t.forest.children(x)
            == f.children(x) by {
            assert(g.children(x) == f.children(x));
        }
        assert forall|x: NodeId| x != sub implies #[trigger] t.forest.live(x) == f.live(x) by {
            assert(g.live(x) == f.live(x));
        }
        assert forall|x: NodeId| x != sub implies #[trigger] t.forest.kind(x) == f.kind(x) by {
            assert(g.kind(x) == f.kind(x));
        }
        assert forall|x: NodeId| x != sub implies #[trigger] t.forest.window(x) == f.window(x) by {
            assert(g.window(x) == f.window(x));
        }
    }
    assert(t.forest.parent(n) == g.parent(n));
    assert(t.forest.kind(sub) == g.kind(sub));
}

/// A tree keeps its root when some of its nodes get a container.
proof fn lemma_joined_home(
    s: TraditionalView,
    layout: LayoutId,
    g: ForestView,
    n: NodeId,
    p: NodeId,
    sub: NodeId,
)
    requires
        s.wf(),
        s.has(layout),
        g.wf(),
        s.forest.parent(n) == Some(p),
        s.forest.home(n) == s.root(layout),
        g.parent(n) == Some(sub),
        g.parent(sub) == Some(p),
        !s.forest.live(sub),
        forall|x: NodeId| x != sub ==> #[trigger] g.live(x) == s.forest.live(x),
        forall|x: NodeId| x != sub ==> #[trigger] g.window(x) == s.forest.window(x),
        forall|x: NodeId|
            s.forest.live(x) && s.forest.parent(x) != Some(p) ==> #[trigger] g.parent(x)
                == s.forest.parent(x),
    ensures
        s.with_forest(g).wf(),
        g.home(n) == s.root(layout),
{
    let f = s.forest;
    let v = s.with_forest(g);
    assert forall|l: LayoutId| #[trigger] v.roots.contains_key(l) implies g.live(v.roots[l])
        && g.parent(v.roots[l]) is None && g.window(v.roots[l]) is None by {
        assert(s.roots.contains_key(l));
        let x = s.roots[l];
        assert(f.live(x));
        assert(g.live(x) && g.window(x) == f.window(x));
        assert(g.parent(x) == f.parent(x));
    }
    proofs::lemma_node(f, n);
    homes::lemma_home(f, n);
    proofs::lemma_ancestors(f, p);
    assert forall|k: int| 0 <= k < f.ancestors(p).len() implies g.live(#[trigger] f.ancestors(p)[k])
        && g.parent(f.ancestors(p)[k]) == f.parent(f.ancestors(p)[k]) by {
        let x = f.ancestors(p)[k];
        assert(g.live(x));
        if f.parent(x) == Some(p) {
            assert(f.ancestors(p)[k + 1] == p);
            assert(f.ancestors(p)[0] == p);
        }
    }
    proofs::lemma_same_ancestors(f, g, p);
    homes::lemma_home(g, n);
    homes::lemma_home(g, sub);
}

} // verus!
