//! The path that leads to a selected node, and what leaves it alone.

use vstd::prelude::*;

use crate::model::tree::homes;
use crate::model::tree::proofs;
use crate::model::tree::view;
use crate::model::tree::view::{ForestView, NodeId, Place};

verus! {

/// Every node above `n` leads to it.
pub open spec fn led(f: ForestView, n: NodeId) -> bool
    decreases view::depth(f.nodes, n),
{
    match f.parent(n) {
        Some(p) => f.local_selection(p) == Some(n) && (view::depth(f.nodes, p) < view::depth(
            f.nodes,
            n,
        ) ==> led(f, p)),
        None => true,
    }
}

/// The nodes on the path, one by one.
pub proof fn lemma_led_path(f: ForestView, n: NodeId, i: int)
    requires
        f.wf(),
        f.live(n),
        led(f, n),
        0 <= i < f.ancestors(n).len(),
    ensures
        led(f, f.ancestors(n)[i]),
        i > 0 ==> f.local_selection(f.ancestors(n)[i]) == Some(f.ancestors(n)[i - 1]),
    decreases i,
{
    proofs::lemma_ancestors(f, n);
    proofs::lemma_node(f, n);
    if i > 0 {
        let p = f.parent(n)->0;
        assert(f.ancestors(n)[i] == f.ancestors(p)[i - 1]);
        proofs::lemma_ancestors(f, p);
        lemma_led_path(f, p, i - 1);
        if i > 1 {
            assert(f.ancestors(n)[i - 1] == f.ancestors(p)[i - 2]);
        }
    }
}

/// A node that every node above leads to, and that leads no further, is what its
/// root selects.
pub proof fn lemma_led_is_selected(f: ForestView, n: NodeId, i: int)
    requires
        f.wf(),
        f.live(n),
        led(f, n),
        f.local_selection(n) is None,
        0 <= i < f.ancestors(n).len(),
    ensures
        f.selected_below(f.ancestors(n)[i]) == n,
    decreases i,
{
    proofs::lemma_ancestors(f, n);
    if i > 0 {
        lemma_led_path(f, n, i);
        proofs::lemma_pick(f, f.ancestors(n)[i]);
        lemma_led_is_selected(f, n, i - 1);
    }
}

/// What a root selects is led to.
pub proof fn lemma_selection_led(f: ForestView, n: NodeId)
    requires
        f.wf(),
        f.live(n),
        led(f, n),
    ensures
        led(f, f.selected_below(n)),
    decreases view::height(f.nodes, n),
{
    if f.local_selection(n) is Some {
        proofs::lemma_pick(f, n);
        let c = f.local_selection(n)->0;
        proofs::lemma_node(f, c);
        assert(led(f, c));
        lemma_selection_led(f, c);
    }
}

/// A path that nothing happens to still leads to its end. The end itself may
/// lead elsewhere.
pub proof fn lemma_led_same(s: ForestView, t: ForestView, n: NodeId)
    requires
        s.wf(),
        t.wf(),
        s.live(n),
        led(s, n),
        forall|i: int|
            0 <= i < s.ancestors(n).len() ==> {
                let a = #[trigger] s.ancestors(n)[i];
                &&& t.live(a)
                &&& t.parent(a) == s.parent(a)
                &&& i > 0 ==> t.local_selection(a) == s.local_selection(a)
            },
    ensures
        led(t, n),
    decreases view::depth(s.nodes, n),
{
    proofs::lemma_ancestors(s, n);
    proofs::lemma_node(s, n);
    assert(s.ancestors(n)[0] == n);
    if s.parent(n) is Some {
        let p = s.parent(n)->0;
        proofs::lemma_ancestors(s, p);
        assert(s.ancestors(n)[1] == s.ancestors(p)[0]);
        assert forall|i: int| 0 <= i < s.ancestors(p).len() implies {
            let a = #[trigger] s.ancestors(p)[i];
            &&& t.live(a)
            &&& t.parent(a) == s.parent(a)
            &&& i > 0 ==> t.local_selection(a) == s.local_selection(a)
        } by {
            assert(s.ancestors(n)[i + 1] == s.ancestors(p)[i]);
        }
        lemma_led_same(s, t, p);
    }
}

/// A selected node is led to.
pub proof fn lemma_selected_led(s: ForestView, n: NodeId)
    requires
        s.wf(),
        s.live(n),
    ensures
        led(s.selected(n), n),
{
    let t = s.selected(n);
    proofs::lemma_ancestors(s, n);
    proofs::lemma_selected(s, n);
    let path = s.ancestors(n);
    lemma_picked_led(s, t, n, path.len() - 1);
}

proof fn lemma_picked_led(s: ForestView, t: ForestView, n: NodeId, i: int)
    requires
        s.wf(),
        s.live(n),
        t == s.selected(n),
        0 <= i < s.ancestors(n).len(),
    ensures
        led(t, s.ancestors(n)[i]) ==> led(t, n),
        led(t, s.ancestors(n).last()),
    decreases i,
{
    let path = s.ancestors(n);
    proofs::lemma_ancestors(s, n);
    proofs::lemma_selected(s, n);
    let top = path.last();
    assert(path[path.len() - 1] == top);
    assert(s.live(top));
    assert(t.parent(top) is None);
    if i > 0 {
        lemma_picked_led(s, t, n, i - 1);
        let k = path[i];
        let c = path[i - 1];
        assert(s.live(k) && s.live(c));
        assert(path.contains(k));
        assert(path.index_of(k) == i);
        assert(t.local_selection(k) == Some(c));
        assert(s.parent(path[i - 1]) == Some(path[i - 1 + 1]));
        assert(t.parent(c) == Some(k));
        if led(t, k) {
            assert(led(t, c));
        }
    }
}

/// Nothing lies below a node that shows a window but the node itself.
pub proof fn lemma_window_above(f: ForestView, m: NodeId, n: NodeId)
    requires
        f.wf(),
        f.live(n),
        f.window(m) is Some,
        f.above(m, n),
    ensures
        m == n,
{
    proofs::lemma_ancestors(f, n);
    let path = f.ancestors(n);
    let i = choose|i: int| 0 <= i < path.len() && path[i] == m;
    if i > 0 {
        assert(f.live(path[i]) && f.live(path[i - 1]));
        assert(f.parent(path[i - 1]) == Some(path[i - 1 + 1]));
        proofs::lemma_node(f, path[i - 1]);
    }
}

/// Taking off a node that does not lie above.
pub proof fn lemma_detached(s: ForestView, m: NodeId, n: NodeId)
    requires
        s.wf(),
        s.live(n),
        led(s, n),
        s.parent(m) is Some,
        !s.above(m, n),
    ensures
        led(s.detached(m), n),
{
    let t = s.detached(m);
    proofs::lemma_detached(s, m);
    proofs::lemma_ancestors(s, n);
    let path = s.ancestors(n);
    assert forall|i: int| 0 <= i < path.len() implies {
        let a = #[trigger] path[i];
        &&& t.live(a)
        &&& t.parent(a) == s.parent(a)
        &&& i > 0 ==> t.local_selection(a) == s.local_selection(a)
    } by {
        assert(s.live(path[i]));
        assert(path[i] != m);
        if i > 0 {
            lemma_led_path(s, n, i);
            assert(path[i - 1] != m);
        }
    }
    lemma_led_same(s, t, n);
}

/// Hanging up a loose node that does not lie above.
pub proof fn lemma_attached(s: ForestView, m: NodeId, p: NodeId, i: int, n: NodeId)
    requires
        s.wf(),
        s.live(n),
        led(s, n),
        s.live(m),
        s.parent(m) is None,
        !s.above(m, n),
        p != m,
        s.attached(m, p, i).wf(),
    ensures
        led(s.attached(m, p, i), n),
{
    let t = s.attached(m, p, i);
    proofs::lemma_ancestors(s, n);
    let path = s.ancestors(n);
    assert forall|k: int| 0 <= k < path.len() implies {
        let a = #[trigger] path[k];
        &&& t.live(a)
        &&& t.parent(a) == s.parent(a)
        &&& k > 0 ==> t.local_selection(a) == s.local_selection(a)
    } by {
        assert(s.live(path[k]));
        assert(path[k] != m);
    }
    lemma_led_same(s, t, n);
}

/// A container that lost its last child disappears.
proof fn lemma_emptied(s: ForestView, p: NodeId, n: NodeId)
    requires
        s.wf(),
        s.live(n),
        led(s, n),
        s.parent(p) is Some,
        s.children(p).len() == 0,
        p != n,
    ensures
        led(s.detached(p).dropped(p), n),
        !s.above(p, n),
{
    proofs::lemma_ancestors(s, n);
    let path = s.ancestors(n);
    assert(!s.above(p, n)) by {
        if path.contains(p) {
            let i = choose|i: int| 0 <= i < path.len() && path[i] == p;
            assert(s.live(path[i]) && s.live(path[i - 1]));
            assert(s.parent(path[i - 1]) == Some(path[i - 1 + 1]));
            proofs::lemma_node(s, path[i - 1]);
        }
    }
    let u = s.detached(p);
    proofs::lemma_detached(s, p);
    lemma_detached(s, p, n);
    proofs::lemma_detached_above(s, p, n);
    let t = u.dropped(p);
    proofs::lemma_dropped(u, p);
    proofs::lemma_ancestors(u, n);
    assert forall|k: int| 0 <= k < u.ancestors(n).len() implies {
        let a = #[trigger] u.ancestors(n)[k];
        &&& t.live(a)
        &&& t.parent(a) == u.parent(a)
        &&& k > 0 ==> t.local_selection(a) == u.local_selection(a)
    } by {
        assert(u.live(u.ancestors(n)[k]));
        assert(u.ancestors(n)[k] != p);
    }
    lemma_led_same(u, t, n);
}

/// What giving way to an only child changes: the child takes the place of its
/// parent, also as the one that is led to.
proof fn lemma_given_way(s: ForestView, p: NodeId)
    requires
        s.wf(),
        s.parent(p) is Some,
        s.children(p).len() == 1,
    ensures
        ({
            let c = s.children(p)[0];
            let g = s.parent(p)->0;
            let t = s.hoisted(c, p).detached(p).dropped(p);
            &&& t.wf()
            &&& c != p && c != g && g != p
            &&& s.live(c) && s.live(g) && s.parent(c) == Some(p)
            &&& forall|x: NodeId| #[trigger] t.live(x) <==> s.live(x) && x != p
            &&& t.parent(c) == Some(g)
            &&& forall|x: NodeId| x != c && x != p ==> #[trigger] t.parent(x) == s.parent(x)
            &&& forall|x: NodeId| x != p ==> #[trigger] t.window(x) == s.window(x)
            &&& forall|x: NodeId|
                x != g && x != p ==> #[trigger] t.local_selection(x) == s.local_selection(x)
            &&& s.local_selection(g) == Some(p) ==> t.local_selection(g) == Some(c)
            &&& s.local_selection(g) != Some(p) ==> t.local_selection(g) == s.local_selection(g)
        }),
{
    let c = s.children(p)[0];
    let g = s.parent(p)->0;
    proofs::lemma_node(s, p);
    assert(s.nodes[p].children[0] == c);
    proofs::lemma_node(s, c);
    proofs::lemma_node(s, g);
    proofs::lemma_hoisted(s, p);
    proofs::lemma_detached(s, c);
    let loose = s.detached(c);
    let h = s.hoisted(c, p);
    proofs::lemma_node(loose, p);
    let k = loose.rank(p);
    let kids = loose.children(g);
    assert(kids[k] == p);
    assert(h.children(g) == kids.insert(k + 1, c));
    assert(h.children(g)[k] == p);
    assert(h.children(g)[k + 1] == c);
    proofs::lemma_node(h, p);
    proofs::lemma_node(h, g);
    assert(h.rank(p) == k) by {
        assert(h.nodes[g].children[k] == p);
        assert(h.nodes[g].children[h.rank(p)] == p);
    }
    assert(h.next_sibling(p) == Some(c));
    proofs::lemma_detached(h, p);
    let u = h.detached(p);
    proofs::lemma_dropped(u, p);
}

/// Nodes below one that is led to are led to as before.
pub proof fn lemma_led_below(s: ForestView, t: ForestView, c: NodeId, n: NodeId)
    requires
        s.wf(),
        t.wf(),
        s.live(n),
        s.above(c, n),
        led(s, n),
        led(t, c),
        forall|x: NodeId|
            s.live(x) && #[trigger] s.above(c, x) ==> {
                &&& t.live(x)
                &&& x != c ==> t.parent(x) == s.parent(x)
                &&& t.local_selection(x) == s.local_selection(x)
            },
    ensures
        led(t, n),
    decreases view::depth(s.nodes, n),
{
    proofs::lemma_above_step(s, c, n);
    proofs::lemma_node(s, n);
    if n != c {
        let p = s.parent(n)->0;
        lemma_led_below(s, t, c, p);
        assert(t.parent(n) == Some(p));
    }
}

/// A container that gives way to its only child.
proof fn lemma_hoisted(s: ForestView, p: NodeId, n: NodeId)
    requires
        s.wf(),
        s.live(n),
        led(s, n),
        s.parent(p) is Some,
        s.children(p).len() == 1,
        p != n,
    ensures
        led(s.hoisted(s.children(p)[0], p).detached(p).dropped(p), n),
{
    let c = s.children(p)[0];
    let g = s.parent(p)->0;
    let t = s.hoisted(c, p).detached(p).dropped(p);
    lemma_given_way(s, p);
    proofs::lemma_ancestors(s, n);
    proofs::lemma_node(s, p);
    let path = s.ancestors(n);
    if s.above(p, n) {
        let k = choose|k: int| 0 <= k < path.len() && path[k] == p;
        lemma_led_path(s, n, k);
        assert(s.live(path[k - 1]));
        assert(s.parent(path[k - 1]) == Some(path[k - 1 + 1]));
        proofs::lemma_node(s, path[k - 1]);
        assert(s.nodes[p].children.contains(path[k - 1]));
        assert(path[k - 1] == c);
        assert(s.above(c, n));
        assert(led(s, p));
        assert(s.local_selection(g) == Some(p));
        assert(led(s, g));
        proofs::lemma_ancestors(s, g);
        assert forall|i: int| 0 <= i < s.ancestors(g).len() implies {
            let a = #[trigger] s.ancestors(g)[i];
            &&& t.live(a)
            &&& t.parent(a) == s.parent(a)
            &&& i > 0 ==> t.local_selection(a) == s.local_selection(a)
        } by {
            let a = s.ancestors(g)[i];
            assert(s.live(a));
            assert(s.above(a, g));
            proofs::lemma_above_depth(s, a, g);
            proofs::lemma_node(s, c);
            if i > 0 {
                assert(view::depth(s.nodes, s.ancestors(g)[i]) < view::depth(
                    s.nodes,
                    s.ancestors(g)[0],
                ));
            }
        }
        lemma_led_same(s, t, g);
        proofs::lemma_node(t, c);
        assert(led(t, c));
        assert forall|x: NodeId| s.live(x) && #[trigger] s.above(c, x) implies {
            &&& t.live(x)
            &&& x != c ==> t.parent(x) == s.parent(x)
            &&& t.local_selection(x) == s.local_selection(x)
        } by {
            proofs::lemma_above_depth(s, c, x);
            proofs::lemma_node(s, c);
        }
        lemma_led_below(s, t, c, n);
    } else {
        assert forall|i: int| 0 <= i < path.len() implies {
            let a = #[trigger] path[i];
            &&& t.live(a)
            &&& t.parent(a) == s.parent(a)
            &&& i > 0 ==> t.local_selection(a) == s.local_selection(a)
        } by {
            let a = path[i];
            assert(s.live(a));
            assert(a != p);
            if a == c {
                if i + 1 < path.len() {
                    assert(s.parent(path[i]) == Some(path[i + 1]));
                } else {
                    assert(path.last() == a);
                }
            }
            if i > 0 {
                lemma_led_path(s, n, i);
                assert(path[i - 1] != p);
            }
        }
        lemma_led_same(s, t, n);
    }
}

/// Looking after a container that lost a child leaves the path to a window alone.
proof fn lemma_collapsed(s: ForestView, p: NodeId, n: NodeId)
    requires
        s.wf(),
        s.window(n) is Some,
        led(s, n),
        p != n,
    ensures
        led(s.collapsed(p), n),
        s.collapsed(p).window(n) == s.window(n),
    decreases s.nodes.dom().len(),
{
    assert(s.live(n));
    proofs::lemma_node(s, n);
    if s.parent(p) is None || s.children(p).len() > 1 {
    } else {
        let above = s.parent(p)->0;
        proofs::lemma_node(s, p);
        let next = if s.children(p).len() == 1 {
            s.hoisted(s.children(p)[0], p).detached(p).dropped(p)
        } else {
            s.detached(p).dropped(p)
        };
        if s.children(p).len() == 1 {
            lemma_given_way(s, p);
            lemma_hoisted(s, p, n);
        } else {
            lemma_emptied(s, p, n);
            proofs::lemma_detached(s, p);
            proofs::lemma_dropped(s.detached(p), p);
        }
        assert(next.window(n) == s.window(n));
        assert(above != n);
        if next.nodes.dom().len() < s.nodes.dom().len() {
            lemma_collapsed(next, above, n);
        }
    }
}

/// Moving another window leaves the path to a window alone.
pub proof fn lemma_moved(s: ForestView, m: NodeId, place: Place, n: NodeId)
    requires
        s.wf(),
        s.window(n) is Some,
        led(s, n),
        s.window(m) is Some,
        m != n,
    ensures
        led(s.moved(m, place), n),
        s.moved(m, place).window(n) == s.window(n),
{
    if s.can_move_at_home(m, place) {
        assert(s.live(n) && s.live(m));
        if s.above(m, n) {
            lemma_window_above(s, m, n);
        }
        let p = s.parent(m)->0;
        let loose = s.detached(m);
        proofs::lemma_shifted(s, m, place);
        proofs::lemma_detached(s, m);
        lemma_detached(s, m, n);
        proofs::lemma_detached_above(s, m, n);
        let q = loose.place_parent(place)->0;
        lemma_attached(loose, m, q, loose.place_rank(place), n);
        let t = s.shifted(m, place);
        assert(t.window(n) == s.window(n));
        proofs::lemma_node(s, m);
        proofs::lemma_node(s, n);
        lemma_collapsed(t, p, n);
    }
}

/// An inner container with one child or none does not survive.
pub proof fn lemma_gone(s: ForestView, p: NodeId)
    requires
        s.wf(),
        s.window(p) is None,
        s.parent(p) is Some,
        s.children(p).len() <= 1,
    ensures
        !s.collapsed(p).live(p),
{
    let above = s.parent(p)->0;
    proofs::lemma_node(s, p);
    let next = if s.children(p).len() == 1 {
        s.hoisted(s.children(p)[0], p).detached(p).dropped(p)
    } else {
        s.detached(p).dropped(p)
    };
    if s.children(p).len() == 1 {
        lemma_given_way(s, p);
        proofs::lemma_hoisted(s, p);
        proofs::lemma_detached(s.hoisted(s.children(p)[0], p), p);
        proofs::lemma_dropped(s.hoisted(s.children(p)[0], p).detached(p), p);
    } else {
        proofs::lemma_detached(s, p);
        proofs::lemma_dropped(s.detached(p), p);
    }
    assert(!next.live(p));
    assert(next.window(above) is None);
    assert(next.minted == s.minted);
    homes::lemma_collapsed(next, above);
}

/// A node is led to after the path to it was selected, if what lies beyond the end
/// of that path was led to before.
pub proof fn lemma_path_selected(s: ForestView, n: NodeId, stop: NodeId)
    requires
        s.wf(),
        s.live(n),
        s.above(stop, n) ==> led(s, stop),
    ensures
        led(s.path_selected(n, stop), n),
{
    let t = s.path_selected(n, stop);
    let path = s.ancestors(n);
    proofs::lemma_ancestors(s, n);
    homes::lemma_stop_at(path, stop, 0);
    let k = view::stop_at(path, stop, 0);
    lemma_stops(path, stop, 0);
    proofs::lemma_path_picked(s, n, k);
    let a = path[k];
    assert(s.live(a));
    assert(t.parent(a) == s.parent(a));
    if k < path.len() - 1 {
        assert(a == stop);
        assert(path.contains(stop));
        lemma_rest(s, n, k);
        proofs::lemma_ancestors(s, a);
        assert forall|i: int| 0 <= i < s.ancestors(a).len() implies {
            let x = #[trigger] s.ancestors(a)[i];
            &&& t.live(x)
            &&& t.parent(x) == s.parent(x)
            &&& i > 0 ==> t.local_selection(x) == s.local_selection(x)
        } by {
            let x = s.ancestors(a)[i];
            assert(s.live(x));
            assert(path[k + i] == x);
            assert(path.index_of(x) == k + i);
        }
        lemma_led_same(s, t, a);
    } else {
        assert(path.last() == a);
    }
    lemma_down(s, t, n, k, k);
}

proof fn lemma_stops(path: Seq<NodeId>, stop: NodeId, from: int)
    requires
        0 <= from < path.len(),
    ensures
        view::stop_at(path, stop, from) < path.len() - 1 ==> path[view::stop_at(path, stop, from)]
            == stop,
    decreases path.len() - from,
{
    if from < path.len() - 1 && path[from] != stop {
        lemma_stops(path, stop, from + 1);
    }
}

/// The path of a node on a path is the rest of it.
proof fn lemma_rest(s: ForestView, n: NodeId, k: int)
    requires
        s.wf(),
        s.live(n),
        0 <= k < s.ancestors(n).len(),
    ensures
        s.ancestors(s.ancestors(n)[k]) == s.ancestors(n).skip(k),
    decreases k,
{
    proofs::lemma_ancestors(s, n);
    if k > 0 {
        let p = s.parent(n)->0;
        proofs::lemma_node(s, n);
        assert(s.ancestors(n)[k] == s.ancestors(p)[k - 1]);
        lemma_rest(s, p, k - 1);
        assert(s.ancestors(n).skip(k) =~= s.ancestors(p).skip(k - 1));
    } else {
        assert(s.ancestors(n).skip(0) =~= s.ancestors(n));
    }
}

/// From a node on the path down to its start.
proof fn lemma_down(s: ForestView, t: ForestView, n: NodeId, k: int, i: int)
    requires
        s.wf(),
        s.live(n),
        0 <= i <= k < s.ancestors(n).len(),
        t == s.path_picked(s.ancestors(n), k),
        t.wf(),
        led(t, s.ancestors(n)[i]),
    ensures
        led(t, n),
    decreases i,
{
    let path = s.ancestors(n);
    proofs::lemma_ancestors(s, n);
    if i > 0 {
        let a = path[i];
        let c = path[i - 1];
        assert(s.live(a) && s.live(c));
        assert(path.contains(a));
        assert(path.index_of(a) == i);
        assert(t.local_selection(a) == Some(c));
        assert(s.parent(path[i - 1]) == Some(path[i - 1 + 1]));
        assert(t.parent(c) == Some(a));
        lemma_down(s, t, n, k, i - 1);
    }
}

/// Selecting a node that its ancestors remember changes nothing that is
/// remembered.
pub proof fn lemma_still_remembered(f: ForestView, n: NodeId)
    requires
        f.wf(),
        f.live(n),
        forall|i: int|
            0 < i < f.ancestors(n).len() ==> f.last_selection(#[trigger] f.ancestors(n)[i]) == Some(
                f.ancestors(n)[i - 1],
            ),
    ensures
        f.selected(n).wf(),
        forall|x: NodeId| #[trigger] f.selected(n).live(x) == f.live(x),
        forall|x: NodeId| #[trigger] f.selected(n).last_selection(x) == f.last_selection(x),
        forall|x: NodeId| #[trigger] f.selected(n).children(x) == f.children(x),
        forall|x: NodeId| #[trigger] f.selected(n).window(x) == f.window(x),
{
    let g = f.selected(n);
    let path = f.ancestors(n);
    proofs::lemma_ancestors(f, n);
    proofs::lemma_selected(f, n);
    assert forall|x: NodeId| #[trigger] g.last_selection(x) == f.last_selection(x) by {
        if path.contains(x) {
            let i = path.index_of(x);
            assert(path[i] == x);
        }
    }
}

} // verus!
