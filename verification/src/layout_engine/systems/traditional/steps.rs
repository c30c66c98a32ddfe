//! Where a node of a tree goes when it moves in a direction.

use vstd::prelude::*;

use crate::actor::LayoutId;
use crate::layout_engine::systems::navigation;
use crate::layout_engine::systems::traditional::arrivals;
use crate::layout_engine::systems::traditional::joins;
use crate::layout_engine::systems::traditional::view::TraditionalView;
use crate::layout_engine::{Direction, LayoutKind};
use crate::model::tree::homes;
use crate::model::tree::proofs;
use crate::model::tree::view::{ForestView, NodeId, Place, SizeChange};

verus! {

/// A container of a kind lays its children out from left to right or from top to bottom,
/// and the direction is one of those or its opposite.
pub open spec fn lies_along(kind: LayoutKind, direction: Direction) -> bool {
    match direction {
        Direction::Left | Direction::Right => kind is Horizontal || kind is HorizontalStack,
        Direction::Up | Direction::Down => kind is Vertical || kind is VerticalStack,
    }
}

/// How far a direction leads in a list of children.
pub open spec fn step(direction: Direction) -> int {
    match direction {
        Direction::Right | Direction::Down => 1,
        Direction::Left | Direction::Up => -1,
    }
}

/// A node is child number `i` of a node.
pub open spec fn child_at(f: ForestView, p: NodeId, i: int, n: NodeId) -> bool {
    0 <= i < f.children(p).len() && f.children(p)[i] == n
}

/// A list in which two elements have changed places.
pub open spec fn exchanged(list: Seq<NodeId>, i: int, j: int) -> Seq<NodeId> {
    list.update(i, list[j]).update(j, list[i])
}

/// Before or behind a node.
pub open spec fn beside(m: NodeId, after: bool) -> Place {
    if after {
        Place::After(m)
    } else {
        Place::Before(m)
    }
}

/// Two forests have the same nodes, which show the same windows and are of the same kinds.
pub open spec fn same_nodes(f: ForestView, g: ForestView) -> bool {
    &&& forall|x: NodeId| #[trigger] g.live(x) == f.live(x)
    &&& forall|x: NodeId| #[trigger] g.window(x) == f.window(x)
    &&& forall|x: NodeId| #[trigger] g.kind(x) == f.kind(x)
}

/// The links of a child and its parent, from their numbers.
pub proof fn lemma_child_at(f: ForestView, p: NodeId, i: int, n: NodeId)
    requires
        f.wf(),
        child_at(f, p, i, n),
    ensures
        f.live(p),
        f.live(n),
        n != p,
        f.parent(n) == Some(p),
        f.rank(n) == i,
        f.window(p) is None,
        f.home(n) == f.home(p),
        !f.above(n, p),
{
    proofs::lemma_node(f, p);
    proofs::lemma_node(f, n);
    homes::lemma_home(f, n);
    proofs::lemma_ancestors(f, p);
    if f.above(n, p) {
        proofs::lemma_above_depth(f, n, p);
    }
}

/// A child that moves beside another node, where its old parent keeps enough children or
/// is a root.
pub proof fn lemma_beside(f: ForestView, n: NodeId, p: NodeId, i: int, m: NodeId, after: bool)
    requires
        f.wf(),
        child_at(f, p, i, n),
        m != n,
        f.parent(m) is Some,
        !f.above(n, f.parent(m)->0),
        f.home(m) == f.home(n),
        f.parent(m) == Some(p) || f.parent(p) is None || f.children(p).len() > 2,
    ensures
        ({
            let g = f.moved(n, beside(m, after));
            let q = f.parent(m)->0;
            let k = f.rank(m);
            let by: int = if after {
                1
            } else {
                0
            };
            &&& same_nodes(f, g)
            &&& g.parent(n) == Some(q)
            &&& q == p ==> g.children(p) == f.children(p).remove(i).insert(
                if k > i {
                    k - 1 + by
                } else {
                    k + by
                },
                n,
            )
            &&& q != p ==> g.children(p) == f.children(p).remove(i) && g.children(q) == f.children(
                q,
            ).insert(k + by, n)
            &&& forall|x: NodeId| x != p && x != q ==> #[trigger] g.children(x) == f.children(x)
            &&& forall|x: NodeId| x != n ==> #[trigger] g.parent(x) == f.parent(x)
        }),
{
    let place = beside(m, after);
    let q = f.parent(m)->0;
    lemma_child_at(f, p, i, n);
    assert(f.live(m));
    proofs::lemma_node(f, m);
    lemma_child_at(f, q, f.rank(m), m);
    assert(f.can_move_at_home(n, place));
    proofs::lemma_shifted(f, n, place);
    proofs::lemma_detached(f, n);
    let loose = f.detached(n);
    let u = f.shifted(n, place);
    let k = f.rank(m);
    let r = if q == p && k > i {
        k - 1
    } else {
        k
    };
    assert(loose.children(q)[r] == m);
    lemma_child_at(loose, q, r, m);
    assert(u.children(p).len() > 1 || u.parent(p) is None);
    assert(f.moved(n, place) == u);
}

/// A child that moves to the end of another container, where its old parent keeps enough
/// children or is a root.
pub proof fn lemma_to_end(f: ForestView, n: NodeId, p: NodeId, i: int, q: NodeId)
    requires
        f.wf(),
        child_at(f, p, i, n),
        q != p,
        f.live(q),
        f.window(q) is None,
        !f.above(n, q),
        f.home(q) == f.home(n),
        f.parent(p) is None || f.children(p).len() > 2,
    ensures
        ({
            let g = f.moved(n, Place::Last(q));
            &&& g.wf()
            &&& same_nodes(f, g)
            &&& g.parent(n) == Some(q)
            &&& g.children(p) == f.children(p).remove(i)
            &&& g.children(q) == f.children(q).push(n)
            &&& forall|x: NodeId| x != p && x != q ==> #[trigger] g.children(x) == f.children(x)
            &&& forall|x: NodeId| x != n ==> #[trigger] g.parent(x) == f.parent(x)
        }),
{
    let place = Place::Last(q);
    lemma_child_at(f, p, i, n);
    if q == n {
        proofs::lemma_above_step(f, n, n);
    }
    assert(f.can_move_at_home(n, place));
    proofs::lemma_shifted(f, n, place);
    proofs::lemma_detached(f, n);
    let loose = f.detached(n);
    let u = f.shifted(n, place);
    assert(loose.children(q) == f.children(q));
    assert(u.children(q) =~= f.children(q).push(n));
    assert(u.children(p).len() > 1 || u.parent(p) is None);
    assert(f.moved(n, place) == u);
}

/// Two forests that differ only in what their nodes lead to and in the size steps.
pub open spec fn same_lists(f: ForestView, g: ForestView) -> bool {
    &&& same_nodes(f, g)
    &&& forall|x: NodeId| #[trigger] g.children(x) == f.children(x)
    &&& forall|x: NodeId| #[trigger] g.parent(x) == f.parent(x)
}

/// Where a node goes decides the lists of children, whatever becomes of sizes and of
/// what containers lead to.
proof fn lemma_shift(
    s: TraditionalView,
    layout: LayoutId,
    n: NodeId,
    direction: Direction,
    t: TraditionalView,
    place: Place,
)
    requires
        s.forest.parent(n) is Some,
        s.destination(layout, n, direction) == Some((t, place)),
    ensures
        ({
            let kids = s.forest.children(s.forest.parent(n)->0);
            let noted = t.forest.noting_each(kids, |c: NodeId| SizeChange::Remembered { node: c });
            let u = s.node_shifted(layout, n, direction);
            &&& same_lists(noted.moved(n, place), u.forest)
            &&& u.roots == t.roots
        }),
{
}

/// A node goes beside another node of its tree.
#[verifier::spinoff_prover]
proof fn lemma_shift_beside(
    s: TraditionalView,
    layout: LayoutId,
    n: NodeId,
    p: NodeId,
    i: int,
    direction: Direction,
    m: NodeId,
    after: bool,
)
    requires
        s.wf(),
        child_at(s.forest, p, i, n),
        s.destination(layout, n, direction) == Some((s, beside(m, after))),
        m != n,
        s.forest.parent(m) is Some,
        !s.forest.above(n, s.forest.parent(m)->0),
        s.forest.home(m) == s.forest.home(n),
        s.forest.parent(m) == Some(p) || s.forest.parent(p) is None || s.forest.children(p).len()
            > 2,
    ensures
        ({
            let f = s.forest;
            let u = s.node_shifted(layout, n, direction);
            let g = u.forest;
            let q = f.parent(m)->0;
            let k = f.rank(m);
            let by: int = if after {
                1
            } else {
                0
            };
            &&& s.can_shift(layout, n, direction)
            &&& u.roots == s.roots
            &&& same_nodes(f, g)
            &&& q == p ==> g.children(p) == f.children(p).remove(i).insert(
                if k > i {
                    k - 1 + by
                } else {
                    k + by
                },
                n,
            )
            &&& q != p ==> g.children(p) == f.children(p).remove(i) && g.children(q) == f.children(
                q,
            ).insert(k + by, n)
            &&& forall|x: NodeId| x != p && x != q ==> #[trigger] g.children(x) == f.children(x)
        }),
{
    let f = s.forest;
    lemma_child_at(f, p, i, n);
    let remember = |c: NodeId| SizeChange::Remembered { node: c };
    let noted = f.noting_each(f.children(p), remember);
    joins::lemma_noting_each(f, f.children(p), remember);
    lemma_same_paths(f, noted, n);
    lemma_same_paths(f, noted, m);
    lemma_same_paths(f, noted, f.parent(m)->0);
    lemma_beside(noted, n, p, i, m, after);
    let place = beside(m, after);
    lemma_shift(s, layout, n, direction, s, place);
    let u = s.node_shifted(layout, n, direction);
    let g = noted.moved(n, place);
    assert forall|x: NodeId| x != p && x != f.parent(m)->0 implies #[trigger] u.forest.children(x)
        == f.children(x) by {
        assert(g.children(x) == noted.children(x));
    }
}

/// Forests with the same nodes have the same paths.
proof fn lemma_same_paths(f: ForestView, g: ForestView, n: NodeId)
    requires
        f.wf(),
        g.wf(),
        g.nodes == f.nodes,
    ensures
        g.ancestors(n) == f.ancestors(n),
        g.home(n) == f.home(n),
{
    if f.live(n) {
        proofs::lemma_ancestors(f, n);
        proofs::lemma_same_ancestors(f, g, n);
    }
}

/// A window or container that moves along its container past a neighbour without
/// children changes places with it. No other list of children changes.
#[verifier::spinoff_prover]
pub proof fn law_past_a_leaf(
    s: TraditionalView,
    layout: LayoutId,
    n: NodeId,
    p: NodeId,
    i: int,
    direction: Direction,
)
    requires
        s.wf(),
        child_at(s.forest, p, i, n),
        lies_along(s.forest.kind(p), direction),
        0 <= i + step(direction) < s.forest.children(p).len(),
        s.forest.children(s.forest.children(p)[i + step(direction)]).len() == 0,
    ensures
        ({
            let t = s.node_shifted(layout, n, direction);
            &&& s.can_shift(layout, n, direction)
            &&& t.roots == s.roots
            &&& same_nodes(s.forest, t.forest)
            &&& t.forest.children(p) == exchanged(s.forest.children(p), i, i + step(direction))
            &&& forall|x: NodeId| x != p ==> #[trigger] t.forest.children(x) == s.forest.children(x)
        }),
{
    let f = s.forest;
    let m = f.children(p)[i + step(direction)];
    lemma_child_at(f, p, i, n);
    lemma_child_at(f, p, i + step(direction), m);
    assert(s.destination(layout, n, direction) == Some((s, beside(m, step(direction) > 0)))) by {
        proofs::lemma_node(f, m);
        assert(f.move_over(n, direction) == Some(m));
        assert(f.landing(m, direction) == m);
    }
    assert(m != n) by {
        proofs::lemma_node(f, p);
    }
    lemma_shift_beside(s, layout, n, p, i, direction, m, step(direction) > 0);
    let t = s.node_shifted(layout, n, direction);
    assert(t.forest.children(p) =~= exchanged(f.children(p), i, i + step(direction)));
}

/// A node that moves along its container towards a container goes into it: beside the
/// child that the container leads to, else the first one, on the side it comes from.
pub proof fn law_into_a_container(
    s: TraditionalView,
    layout: LayoutId,
    n: NodeId,
    p: NodeId,
    i: int,
    k: int,
    direction: Direction,
)
    requires
        s.wf(),
        child_at(s.forest, p, i, n),
        s.forest.parent(p) is None || s.forest.children(p).len() > 2,
        lies_along(s.forest.kind(p), direction),
        0 <= i + step(direction) < s.forest.children(p).len(),
        ({
            let m = s.forest.children(p)[i + step(direction)];
            let kids = s.forest.children(m);
            let pick = s.forest.info(m).pick;
            &&& 0 <= k < kids.len()
            &&& if pick is Some && !pick->0.stop_here {
                kids[k] == pick->0.child
            } else {
                k == 0
            }
            &&& lies_along(s.forest.kind(m), direction) || s.forest.children(kids[k]).len() == 0
        }),
    ensures
        ({
            let t = s.node_shifted(layout, n, direction);
            let m = s.forest.children(p)[i + step(direction)];
            let at = match direction {
                Direction::Right | Direction::Down => k,
                Direction::Left | Direction::Up => k + 1,
            };
            &&& t.roots == s.roots
            &&& same_nodes(s.forest, t.forest)
            &&& t.forest.children(p) == s.forest.children(p).remove(i)
            &&& t.forest.children(m) == s.forest.children(m).insert(at, n)
            &&& forall|x: NodeId|
                x != p && x != m ==> #[trigger] t.forest.children(x) == s.forest.children(x)
        }),
{
    let f = s.forest;
    let m = f.children(p)[i + step(direction)];
    let c = f.children(m)[k];
    lemma_child_at(f, p, i, n);
    lemma_child_at(f, p, i + step(direction), m);
    lemma_child_at(f, m, k, c);
    proofs::lemma_node(f, m);
    proofs::lemma_node(f, p);
    proofs::lemma_node(f, c);
    proofs::lemma_above_step(f, n, m);
    assert(f.move_over(n, direction) == Some(m));
    assert(f.landing(c, direction) == c || lies_along(f.kind(m), direction));
    assert(f.landing(m, direction) == c);
    lemma_shift_beside(s, layout, n, p, i, direction, c, step(direction) < 0);
}

/// A node that cannot go on in its container leaves it for the container around it, if
/// that one lies along the direction: it goes beside its old container, on the side of
/// the direction.
pub proof fn law_out_of_a_container(
    s: TraditionalView,
    layout: LayoutId,
    n: NodeId,
    p: NodeId,
    i: int,
    q: NodeId,
    k: int,
    direction: Direction,
)
    requires
        s.wf(),
        child_at(s.forest, p, i, n),
        child_at(s.forest, q, k, p),
        s.forest.children(p).len() > 2,
        !lies_along(s.forest.kind(p), direction) || !(0 <= i + step(direction)
            < s.forest.children(p).len()),
        lies_along(s.forest.kind(q), direction),
    ensures
        ({
            let t = s.node_shifted(layout, n, direction);
            let at = match direction {
                Direction::Right | Direction::Down => k + 1,
                Direction::Left | Direction::Up => k,
            };
            &&& t.roots == s.roots
            &&& same_nodes(s.forest, t.forest)
            &&& t.forest.children(p) == s.forest.children(p).remove(i)
            &&& t.forest.children(q) == s.forest.children(q).insert(at, n)
            &&& forall|x: NodeId|
                x != p && x != q ==> #[trigger] t.forest.children(x) == s.forest.children(x)
        }),
{
    let f = s.forest;
    lemma_child_at(f, p, i, n);
    lemma_child_at(f, q, k, p);
    proofs::lemma_ancestors(f, n);
    proofs::lemma_ancestors(f, p);
    assert(f.move_over(n, direction) is None);
    assert(f.ancestors(n)[1] == p);
    assert(f.aligned_ancestor(n, direction) == Some(p));
    if f.above(n, q) {
        proofs::lemma_above_step(f, n, p);
    }
    lemma_shift_beside(s, layout, n, p, i, direction, p, step(direction) > 0);
}

/// The root of a layout under a new root along a direction.
proof fn lemma_new_top(s: TraditionalView, layout: LayoutId, kind: LayoutKind)
    requires
        s.wf(),
        s.has(layout),
        s.forest.minted <= u64::MAX,
    ensures
        ({
            let f = s.forest;
            let p = s.root(layout);
            let top = f.next_id();
            let t = s.nested(layout, p, kind).0;
            &&& t.forest.wf()
            &&& t.roots == s.roots.insert(layout, top)
            &&& !f.live(top)
            &&& t.forest.children(top) == seq![p]
            &&& t.forest.parent(top) is None
            &&& t.forest.kind(top) == kind
            &&& t.forest.window(top) is None
            &&& forall|x: NodeId| #[trigger] t.forest.live(x) <==> f.live(x) || x == top
            &&& forall|x: NodeId|
                x != top ==> #[trigger] t.forest.children(x) == f.children(x)
            &&& forall|x: NodeId| x != top ==> #[trigger] t.forest.kind(x) == f.kind(x)
            &&& forall|x: NodeId| x != top ==> #[trigger] t.forest.window(x) == f.window(x)
        }),
{
    let f = s.forest;
    let p = s.root(layout);
    let top = f.next_id();
    assert(s.roots.contains_key(layout));
    proofs::lemma_created(f);
    proofs::lemma_wrapped(f, p);
    let w = f.wrapped(p);
    homes::lemma_selected_locally(w, p);
    let w2 = w.selected_locally(p);
    homes::lemma_with_kind(w2, top, kind);
    proofs::lemma_node(f, p);
    assert(w.children(top) =~= seq![p]);
}

/// A child of the root of a layout that cannot go on in it leaves it: a new root along
/// the direction takes the old one and, on the side of the direction, the child.
pub proof fn law_beside_the_root(
    s: TraditionalView,
    layout: LayoutId,
    n: NodeId,
    i: int,
    direction: Direction,
)
    requires
        s.wf(),
        s.has(layout),
        s.forest.minted <= u64::MAX,
        child_at(s.forest, s.root(layout), i, n),
        s.forest.children(s.root(layout)).len() > 2,
        !lies_along(s.forest.kind(s.root(layout)), direction) || !(0 <= i + step(direction)
            < s.forest.children(s.root(layout)).len()),
    ensures
        ({
            let t = s.node_shifted(layout, n, direction);
            let p = s.root(layout);
            let top = t.root(layout);
            &&& t.has(layout)
            &&& !s.forest.live(top)
            &&& t.forest.kind(top) == match direction {
                Direction::Left | Direction::Right => LayoutKind::Horizontal,
                Direction::Up | Direction::Down => LayoutKind::Vertical,
            }
            &&& t.forest.children(top) == match direction {
                Direction::Right | Direction::Down => seq![p, n],
                Direction::Left | Direction::Up => seq![n, p],
            }
            &&& t.forest.children(p) == s.forest.children(p).remove(i)
            &&& forall|x: NodeId|
                x != p && x != top ==> #[trigger] t.forest.children(x) == s.forest.children(x)
            &&& forall|x: NodeId| x != top ==> #[trigger] t.forest.kind(x) == s.forest.kind(x)
            &&& forall|x: NodeId| #[trigger] t.forest.window(x) == s.forest.window(x)
        }),
{
    let f = s.forest;
    let p = s.root(layout);
    let top = f.next_id();
    let kind = match direction {
        Direction::Left | Direction::Right => LayoutKind::Horizontal,
        Direction::Up | Direction::Down => LayoutKind::Vertical,
    };
    assert(s.roots.contains_key(layout));
    lemma_child_at(f, p, i, n);
    proofs::lemma_ancestors(f, n);
    proofs::lemma_ancestors(f, p);
    assert(f.move_over(n, direction) is None);
    assert(f.ancestors(n) =~= seq![n, p]);
    reveal_with_fuel(navigation::find_on, 3);
    assert(f.aligned_ancestor(n, direction) is None);
    assert(f.ancestors(n).last() == p);
    lemma_new_top(s, layout, kind);
    let t = s.nested(layout, p, kind).0;
    let after = step(direction) > 0;
    assert(s.destination(layout, n, direction) == Some((t, beside(p, after))));
    let remember = |c: NodeId| SizeChange::Remembered { node: c };
    let noted = t.forest.noting_each(f.children(p), remember);
    joins::lemma_noting_each(t.forest, f.children(p), remember);
    assert(noted.children(p) == t.forest.children(p));
    assert(noted.children(top) == t.forest.children(top));
    lemma_child_at(noted, p, i, n);
    lemma_child_at(noted, top, 0, p);
    if noted.above(n, top) {
        proofs::lemma_above_step(noted, n, p);
    }
    lemma_beside(noted, n, p, i, p, after);
    lemma_shift(s, layout, n, direction, t, beside(p, after));
    let u = s.node_shifted(layout, n, direction);
    let g = noted.moved(n, beside(p, after));
    assert(u.forest.children(top) =~= match direction {
        Direction::Right | Direction::Down => seq![p, n],
        Direction::Left | Direction::Up => seq![n, p],
    });
    assert forall|x: NodeId| x != p && x != top implies #[trigger] u.forest.children(x)
        == f.children(x) by {
        assert(g.children(x) == noted.children(x));
        assert(t.forest.children(x) == f.children(x));
    }
    assert forall|x: NodeId| #[trigger] u.forest.window(x) == f.window(x) by {
        assert(g.window(x) == noted.window(x));
        assert(t.forest.window(x) == f.window(x));
    }
    assert forall|x: NodeId| x != top implies #[trigger] u.forest.kind(x) == f.kind(x) by {
        assert(g.kind(x) == noted.kind(x));
        assert(t.forest.kind(x) == f.kind(x));
    }
}

/// A child that goes to a place of another tree.
#[verifier::spinoff_prover]
proof fn lemma_grafted(f: ForestView, n: NodeId, p: NodeId, i: int, place: Place)
    requires
        f.wf(),
        child_at(f, p, i, n),
        f.open_place(place),
        f.home(f.place_parent(place)->0) != f.home(n),
        f.parent(p) is None || f.children(p).len() > 2,
    ensures
        ({
            let g = f.grafted(n, place);
            let q = f.place_parent(place)->0;
            &&& g.wf()
            &&& same_nodes(f, g)
            &&& g.children(p) == f.children(p).remove(i)
            &&& g.children(q) == f.children(q).insert(f.place_rank(place), n)
            &&& forall|x: NodeId| x != p && x != q ==> #[trigger] g.children(x) == f.children(x)
        }),
{
    let q = f.place_parent(place)->0;
    let a = ForestView::place_anchor(place);
    lemma_child_at(f, p, i, n);
    assert(f.live(a));
    proofs::lemma_node(f, a);
    homes::lemma_home(f, a);
    assert(f.live(q));
    assert(q != p);
    assert(a != n);
    if f.above(n, q) {
        homes::lemma_above_home(f, n, q);
    }
    assert(f.can_move(n, place));
    proofs::lemma_shifted(f, n, place);
    proofs::lemma_detached(f, n);
    let loose = f.detached(n);
    assert(loose.children(q) == f.children(q));
    assert(loose.place_rank(place) == f.place_rank(place));
    let u = f.shifted(n, place);
    assert(u.children(p).len() > 1 || u.parent(p) is None);
    assert(f.grafted(n, place) == u);
}

/// A node that is sent to another layout goes behind the selection there, or to the end
/// of its root where that is selected.
#[verifier::spinoff_prover]
pub proof fn law_sent_beside(s: TraditionalView, from: LayoutId, to: LayoutId, p: NodeId, i: int)
    requires
        s.wf(),
        s.has(from),
        s.has(to),
        from != to,
        child_at(s.forest, p, i, s.selection(from)),
        s.forest.parent(p) is None || s.forest.children(p).len() > 2,
    ensures
        ({
            let f = s.forest;
            let n = s.selection(from);
            let target = s.selection(to);
            let t = s.sent(from, to);
            &&& t.roots == s.roots
            &&& same_nodes(f, t.forest)
            &&& t.forest.children(p) == f.children(p).remove(i)
            &&& forall|q: NodeId, k: int|
                #[trigger] child_at(f, q, k, target) ==> t.forest.children(q) == f.children(
                    q,
                ).insert(k + 1, n)
            &&& f.parent(target) is None ==> t.forest.children(target) == f.children(target).push(n)
        }),
{
    let f = s.forest;
    let n = s.selection(from);
    let target = s.selection(to);
    assert(s.roots.contains_key(from) && s.roots.contains_key(to));
    assert(s.roots[from] != s.roots[to]);
    arrivals::lemma_selected_below(f, s.root(from));
    arrivals::lemma_selected_below(f, s.root(to));
    homes::lemma_home(f, s.root(from));
    homes::lemma_home(f, s.root(to));
    homes::lemma_home(f, target);
    lemma_child_at(f, p, i, n);
    proofs::lemma_node(f, target);
    let place = if f.parent(target) is None {
        Place::Last(target)
    } else {
        Place::After(target)
    };
    assert(f.open_place(place)) by {
        if f.parent(target) is None {
            assert(target == s.root(to));
        }
    }
    lemma_grafted(f, n, p, i, place);
    let g = f.grafted(n, place);
    let t = s.sent(from, to);
    assert(same_lists(g, t.forest));
    assert forall|q: NodeId, k: int| #[trigger] child_at(f, q, k, target) implies t.forest.children(
        q,
    ) == f.children(q).insert(k + 1, n) by {
        lemma_child_at(f, q, k, target);
    }
    if f.parent(target) is None {
        assert(t.forest.children(target) =~= f.children(target).push(n));
    }
}

} // verus!
