//! Edits keep a forest well formed.

use vstd::prelude::*;

use crate::model::tree::view;
use crate::model::tree::view::{ForestView, NodeId, NodeInfo, NodeView};

verus! {

/// A well-formed forest is ranked by its own ranking.
pub proof fn lemma_ranked(s: ForestView)
    requires
        s.wf(),
    ensures
        view::ranked(s.nodes, view::ranking(s.nodes).0, view::ranking(s.nodes).1),
{
    let r = choose|r: (spec_fn(NodeId) -> nat, nat)| #[trigger] view::ranked(s.nodes, r.0, r.1);
    assert(view::ranked(s.nodes, r.0, r.1));
}

/// What well-formedness says of one node.
pub proof fn lemma_node(s: ForestView, n: NodeId)
    requires
        s.wf(),
        s.live(n),
    ensures
        n < s.minted,
        s.nodes[n].parent is Some ==> {
            let p = s.nodes[n].parent->0;
            &&& s.live(p)
            &&& p != n
            &&& s.nodes[p].children.contains(n)
            &&& 0 <= s.rank(n) < s.nodes[p].children.len()
            &&& s.nodes[p].children[s.rank(n)] == n
            &&& view::depth(s.nodes, p) < view::depth(s.nodes, n)
            &&& view::height(s.nodes, n) < view::height(s.nodes, p)
            &&& s.nodes[p].info.window is None
        },
        forall|i: int|
            0 <= i < s.nodes[n].children.len() ==> {
                &&& s.live(#[trigger] s.nodes[n].children[i])
                &&& s.nodes[s.nodes[n].children[i]].parent == Some(n)
                &&& s.nodes[n].children[i] != n
                &&& s.rank(s.nodes[n].children[i]) == i
                &&& view::height(s.nodes, s.nodes[n].children[i]) < view::height(s.nodes, n)
            },
        s.nodes[n].children.no_duplicates(),
        s.nodes[n].info.pick is Some ==> s.nodes[n].children.contains(
            s.nodes[n].info.pick->0.child,
        ),
        s.nodes[n].info.window is Some ==> s.nodes[n].children.len() == 0,
        view::depth(s.nodes, n) <= view::ranking(s.nodes).1,
{
    lemma_ranked(s);
    assert(view::node_ok(s.nodes, n));
    reveal(view::node_ok);
    if s.nodes[n].parent is Some {
        let p = s.nodes[n].parent->0;
        assert(s.live(p));
        assert(view::node_ok(s.nodes, p));
        assert(s.nodes[p].children.contains(n));
    }
    assert forall|i: int| 0 <= i < s.nodes[n].children.len() implies {
        &&& s.live(#[trigger] s.nodes[n].children[i])
        &&& s.nodes[s.nodes[n].children[i]].parent == Some(n)
        &&& s.nodes[n].children[i] != n
        &&& s.rank(s.nodes[n].children[i]) == i
        &&& view::height(s.nodes, s.nodes[n].children[i]) < view::height(s.nodes, n)
    } by {
        let c = s.nodes[n].children[i];
        assert(s.live(c));
        assert(s.nodes[n].children.contains(c));
        assert(view::depth(s.nodes, n) < view::depth(s.nodes, c));
    }
}

/// A child that a pick names lies below the node.
pub proof fn lemma_pick(s: ForestView, n: NodeId)
    requires
        s.wf(),
        s.info(n).pick is Some,
    ensures
        s.live(n),
        s.live(s.info(n).pick->0.child),
        s.parent(s.info(n).pick->0.child) == Some(n),
        view::height(s.nodes, s.info(n).pick->0.child) < view::height(s.nodes, n),
{
    lemma_node(s, n);
    let c = s.info(n).pick->0.child;
    let i = choose|i: int| 0 <= i < s.nodes[n].children.len() && s.nodes[n].children[i] == c;
    assert(s.nodes[n].children[i] == c);
}

/// Siblings are live and distinct.
pub proof fn lemma_siblings(s: ForestView, n: NodeId)
    requires
        s.wf(),
        s.live(n),
    ensures
        s.next_sibling(n) is Some ==> {
            let c = s.next_sibling(n)->0;
            s.live(c) && c != n && s.parent(c) == s.parent(n) && s.rank(c) == s.rank(n) + 1
        },
        s.prev_sibling(n) is Some ==> {
            let c = s.prev_sibling(n)->0;
            s.live(c) && c != n && s.parent(c) == s.parent(n) && s.rank(c) == s.rank(n) - 1
        },
{
    lemma_node(s, n);
    if s.parent(n) is Some {
        lemma_node(s, s.parent(n)->0);
    }
}

/// The path to the root of a live node.
pub proof fn lemma_ancestors(s: ForestView, n: NodeId)
    requires
        s.wf(),
        s.live(n),
    ensures
        s.ancestors(n).len() > 0,
        s.ancestors(n)[0] == n,
        s.parent(n) is Some ==> s.ancestors(n) == seq![n] + s.ancestors(s.parent(n)->0),
        s.parent(n) is None ==> s.ancestors(n) == seq![n],
        forall|i: int| 0 <= i < s.ancestors(n).len() ==> s.live(#[trigger] s.ancestors(n)[i]),
        forall|i: int|
            0 <= i < s.ancestors(n).len() - 1 ==> s.parent(#[trigger] s.ancestors(n)[i]) == Some(
                s.ancestors(n)[i + 1],
            ),
        s.parent(s.ancestors(n).last()) is None,
        forall|i: int, j: int|
            0 <= i < j < s.ancestors(n).len() ==> view::depth(s.nodes, #[trigger] s.ancestors(n)[j])
                < view::depth(s.nodes, #[trigger] s.ancestors(n)[i]),
        s.ancestors(n).no_duplicates(),
    decreases view::depth(s.nodes, n),
{
    lemma_node(s, n);
    if s.parent(n) is Some {
        let p = s.parent(n)->0;
        lemma_ancestors(s, p);
        let up = s.ancestors(p);
        let all = s.ancestors(n);
        assert(all == seq![n] + up);
        assert forall|i: int| 0 <= i < all.len() implies s.live(#[trigger] all[i]) by {
            if i > 0 {
                assert(all[i] == up[i - 1]);
            }
        }
        assert forall|i: int| 0 <= i < all.len() - 1 implies s.parent(#[trigger] all[i]) == Some(
            all[i + 1],
        ) by {
            assert(all[i + 1] == up[i]);
            if i > 0 {
                assert(all[i] == up[i - 1]);
                assert(s.parent(up[i - 1]) == Some(up[i - 1 + 1]));
            }
        }
        assert(all.last() == up.last());
        assert forall|i: int, j: int| 0 <= i < j < all.len() implies view::depth(
            s.nodes,
            #[trigger] all[j],
        ) < view::depth(s.nodes, #[trigger] all[i]) by {
            assert(all[j] == up[j - 1]);
            if i > 0 {
                assert(all[i] == up[i - 1]);
            } else if j > 1 {
                assert(view::depth(s.nodes, up[j - 1]) < view::depth(s.nodes, up[0]));
            }
        }
    }
}

/// Whether `a` lies above a child is decided at the child or at its parent.
pub proof fn lemma_above_step(s: ForestView, a: NodeId, n: NodeId)
    requires
        s.wf(),
        s.live(n),
    ensures
        s.above(a, n) <==> a == n || (s.parent(n) is Some && s.above(a, s.parent(n)->0)),
{
    lemma_ancestors(s, n);
    if s.parent(n) is Some {
        let up = s.ancestors(s.parent(n)->0);
        let all = s.ancestors(n);
        if all.contains(a) {
            let i = choose|i: int| 0 <= i < all.len() && all[i] == a;
            if i > 0 {
                assert(up[i - 1] == a);
            }
        }
        if up.contains(a) {
            let i = choose|i: int| 0 <= i < up.len() && up[i] == a;
            assert(all[i + 1] == a);
        }
        assert(all[0] == n);
    }
}

/// Paths that avoid the nodes with changed parents are unchanged.
pub proof fn lemma_same_ancestors(s: ForestView, t: ForestView, n: NodeId)
    requires
        s.wf(),
        t.wf(),
        s.live(n),
        forall|i: int|
            0 <= i < s.ancestors(n).len() ==> t.live(#[trigger] s.ancestors(n)[i]) && t.parent(
                s.ancestors(n)[i],
            ) == s.parent(s.ancestors(n)[i]),
    ensures
        t.ancestors(n) == s.ancestors(n),
    decreases view::depth(s.nodes, n),
{
    lemma_ancestors(s, n);
    lemma_node(s, n);
    assert(s.ancestors(n)[0] == n);
    assert(t.live(n));
    lemma_ancestors(t, n);
    if s.parent(n) is Some {
        let p = s.parent(n)->0;
        assert forall|i: int| 0 <= i < s.ancestors(p).len() implies t.live(
            #[trigger] s.ancestors(p)[i],
        ) && t.parent(s.ancestors(p)[i]) == s.parent(s.ancestors(p)[i]) by {
            assert(s.ancestors(n)[i + 1] == s.ancestors(p)[i]);
        }
        lemma_same_ancestors(s, t, p);
    }
}

/// The same ranking serves any nodes whose parents are among the old ones.
pub proof fn lemma_acyclic_fewer(old_nodes: Map<NodeId, NodeView>, nodes: Map<NodeId, NodeView>)
    requires
        view::acyclic(old_nodes),
        forall|n: NodeId| #[trigger]
            nodes.contains_key(n) ==> old_nodes.contains_key(n) && (nodes[n].parent is None
                || nodes[n].parent == old_nodes[n].parent),
    ensures
        view::acyclic(nodes),
{
    let r = choose|r: (spec_fn(NodeId) -> nat, nat)| #[trigger] view::ranked(old_nodes, r.0, r.1);
    assert(view::ranked(nodes, r.0, r.1));
}

/// Changing a record keeps the forest well formed as long as the pick names a
/// child and a window has no children.
pub proof fn lemma_with_info(s: ForestView, n: NodeId, info: NodeInfo)
    requires
        s.wf(),
        s.live(n) ==> (info.pick is Some ==> s.children(n).contains(info.pick->0.child)),
        s.live(n) ==> (info.window is Some ==> s.children(n).len() == 0),
    ensures
        s.with_info(n, info).wf(),
        s.with_info(n, info).nodes.dom() == s.nodes.dom(),
{
    if s.live(n) {
        let t = s.with_info(n, info);
        assert(t.nodes.dom() =~= s.nodes.dom());
        lemma_acyclic_fewer(s.nodes, t.nodes);
        assert forall|m: NodeId| t.nodes.contains_key(m) implies #[trigger] view::node_ok(t.nodes, m) by {
            reveal(view::node_ok);
            assert(view::node_ok(s.nodes, m));
            assert(t.nodes[m].children == s.nodes[m].children);
            assert(t.nodes[m].parent == s.nodes[m].parent);
            assert forall|i: int| 0 <= i < t.nodes[m].children.len() implies t.nodes.contains_key(
                #[trigger] t.nodes[m].children[i],
            ) && t.nodes[t.nodes[m].children[i]].parent == Some(m) by {
                assert(s.nodes.contains_key(s.nodes[m].children[i]));
            }
        }
    }
}

/// A new root keeps the forest well formed.
pub proof fn lemma_created(s: ForestView)
    requires
        s.wf(),
        s.minted <= u64::MAX,
    ensures
        s.created().wf(),
        s.created().live(s.next_id()),
        !s.live(s.next_id()),
        s.created().parent(s.next_id()) is None,
        s.created().children(s.next_id()).len() == 0,
{
    let t = s.created();
    let c = s.next_id();
    assert(!s.live(c));
    let r = view::ranking(s.nodes);
    lemma_ranked(s);
    assert(view::ranked(t.nodes, r.0, r.1 + (r.0)(c))) by {
        assert forall|n: NodeId| #[trigger] t.nodes.contains_key(n) implies (r.0)(n) <= r.1 + (r.0)(
            c,
        ) && (t.nodes[n].parent is Some ==> (r.0)(t.nodes[n].parent->0) < (r.0)(n)) by {
            if n != c {
                assert(s.nodes.contains_key(n));
            }
        }
    }
    let w = (r.0, r.1 + (r.0)(c));
    assert(view::ranked(t.nodes, w.0, w.1));
    assert forall|m: NodeId| t.nodes.contains_key(m) implies #[trigger] view::node_ok(t.nodes, m) by {
        reveal(view::node_ok);
        if m != c {
            assert(view::node_ok(s.nodes, m));
            if s.nodes[m].parent is Some {
                assert(s.nodes[m].parent->0 != c);
            }
            assert forall|i: int| 0 <= i < t.nodes[m].children.len() implies t.nodes.contains_key(
                #[trigger] t.nodes[m].children[i],
            ) && t.nodes[t.nodes[m].children[i]].parent == Some(m) by {
                assert(s.nodes.contains_key(s.nodes[m].children[i]));
            }
        }
    }
}

/// Hanging a root below a node outside its tree makes no cycle.
proof fn lemma_attached_acyclic(s: ForestView, n: NodeId, p: NodeId, i: int)
    requires
        s.wf(),
        s.live(n),
        s.live(p),
        s.parent(n) is None,
        !s.above(n, p),
        n != p,
    ensures
        view::acyclic(s.attached(n, p, i).nodes),
{
    let t = s.attached(n, p, i);
    let r = view::ranking(s.nodes);
    lemma_ranked(s);
    let f = |x: NodeId| if s.above(n, x) { (r.0)(x) + (r.0)(p) + 1 } else { (r.0)(x) };
    let b: nat = (r.1 + r.1 + 1) as nat;
    assert forall|x: NodeId| #[trigger] t.nodes.contains_key(x) implies f(x) <= b && (
    t.nodes[x].parent is Some ==> f(t.nodes[x].parent->0) < f(x)) by {
        assert(s.nodes.contains_key(x));
        assert(s.nodes.contains_key(p));
        lemma_above_step(s, n, x);
        lemma_node(s, x);
    }
    let w = (f, b);
    assert(view::ranked(t.nodes, w.0, w.1));
}

/// Hanging a root below a container outside its tree keeps the forest well formed.
#[verifier::rlimit(40)]
#[verifier::spinoff_prover]
pub proof fn lemma_attached(s: ForestView, n: NodeId, p: NodeId, i: int)
    requires
        s.wf(),
        s.live(n),
        s.live(p),
        s.parent(n) is None,
        !s.above(n, p),
        s.window(p) is None,
        0 <= i <= s.children(p).len(),
    ensures
        s.attached(n, p, i).wf(),
        s.attached(n, p, i).nodes.dom() == s.nodes.dom(),
        s.attached(n, p, i).parent(n) == Some(p),
        n != p,
{
    let t = s.attached(n, p, i);
    lemma_ancestors(s, p);
    assert(n != p);
    assert(t.nodes.dom() =~= s.nodes.dom());
    lemma_attached_acyclic(s, n, p, i);
    let cs = s.nodes[p].children;
    lemma_node(s, p);
    assert(!cs.contains(n)) by {
        if cs.contains(n) {
            let j = choose|j: int| 0 <= j < cs.len() && cs[j] == n;
            assert(s.nodes[cs[j]].parent == Some(p));
        }
    }
    let cs2 = cs.insert(i, n);
    assert forall|j: int| 0 <= j < cs2.len() implies #[trigger] cs2[j] == (if j < i {
        cs[j]
    } else if j == i {
        n
    } else {
        cs[j - 1]
    }) by {}
    assert forall|m: NodeId| t.nodes.contains_key(m) implies #[trigger] view::node_ok(t.nodes, m) by {
        reveal(view::node_ok);
        assert(view::node_ok(s.nodes, m));
        lemma_node(s, m);
        if m == p {
            assert(t.nodes[m].children == cs2);
            assert(cs2.no_duplicates());
            if s.nodes[m].info.pick is Some {
                let k = choose|k: int|
                    0 <= k < cs.len() && cs[k] == s.nodes[m].info.pick->0.child;
                assert(cs2[if k < i { k } else { k + 1 }] == cs[k]);
            }
        }
        if t.nodes[m].parent is Some {
            let q = t.nodes[m].parent->0;
            if m == n {
                assert(cs2[i] == n);
            } else if q == p {
                let k = choose|k: int| 0 <= k < cs.len() && cs[k] == m;
                assert(cs2[if k < i { k } else { k + 1 }] == m);
            }
        }
        assert forall|j: int| 0 <= j < t.nodes[m].children.len() implies t.nodes.contains_key(
            #[trigger] t.nodes[m].children[j],
        ) && t.nodes[t.nodes[m].children[j]].parent == Some(m) by {
            let c = t.nodes[m].children[j];
            if m == p {
                if j != i {
                    let k = if j < i { j } else { j - 1 };
                    assert(c == cs[k]);
                    assert(s.nodes[cs[k]].parent == Some(p));
                }
            } else {
                assert(c == s.nodes[m].children[j]);
                assert(s.nodes[s.nodes[m].children[j]].parent == Some(m));
            }
        }
    }
}

/// Taking a child off its parent keeps the forest well formed.
#[verifier::rlimit(40)]
#[verifier::spinoff_prover]
pub proof fn lemma_detached(s: ForestView, n: NodeId)
    requires
        s.wf(),
        s.parent(n) is Some,
    ensures
        s.detached(n).wf(),
        s.detached(n).nodes.dom() == s.nodes.dom(),
        s.live(n),
        s.live(s.parent(n)->0),
        s.parent(n)->0 != n,
        s.detached(n).parent(n) is None,
        s.detached(n).children(n) == s.children(n),
        s.detached(n).children(s.parent(n)->0) == s.children(s.parent(n)->0).remove(s.rank(n)),
        !s.detached(n).children(s.parent(n)->0).contains(n),
        forall|m: NodeId| m != n ==> #[trigger] s.detached(n).parent(m) == s.parent(m),
{
    let t = s.detached(n);
    let p = s.parent(n)->0;
    lemma_node(s, n);
    lemma_node(s, p);
    lemma_siblings(s, n);
    assert(t.nodes.dom() =~= s.nodes.dom());
    lemma_acyclic_fewer(s.nodes, t.nodes);
    let k = s.rank(n);
    let cs = s.nodes[p].children;
    let cs2 = cs.remove(k);
    assert forall|j: int| 0 <= j < cs2.len() implies #[trigger] cs2[j] == (if j < k {
        cs[j]
    } else {
        cs[j + 1]
    }) by {}
    assert(cs2.no_duplicates());
    assert(!cs2.contains(n));
    assert forall|c: NodeId| c != n && cs.contains(c) implies #[trigger] cs2.contains(c) by {
        let j = choose|j: int| 0 <= j < cs.len() && cs[j] == c;
        assert(cs2[if j < k { j } else { j - 1 }] == c);
    }
    assert forall|m: NodeId| t.nodes.contains_key(m) implies #[trigger] view::node_ok(t.nodes, m) by {
        reveal(view::node_ok);
        assert(view::node_ok(s.nodes, m));
        lemma_node(s, m);
        if m == p {
            assert(t.nodes[m].children == cs2);
            if s.next_sibling(n) is Some {
                assert(cs2[k] == s.next_sibling(n)->0);
            }
            if s.prev_sibling(n) is Some {
                assert(cs2[k - 1] == s.prev_sibling(n)->0);
            }
        }
        assert forall|j: int| 0 <= j < t.nodes[m].children.len() implies t.nodes.contains_key(
            #[trigger] t.nodes[m].children[j],
        ) && t.nodes[t.nodes[m].children[j]].parent == Some(m) by {
            let c = t.nodes[m].children[j];
            if m == p {
                let i = if j < k { j } else { j + 1 };
                assert(c == cs[i]);
                assert(s.nodes[cs[i]].parent == Some(p));
                assert(c != n);
            } else {
                assert(c == s.nodes[m].children[j]);
                assert(s.nodes[s.nodes[m].children[j]].parent == Some(m));
            }
        }
    }
}

/// A node above another is no deeper.
pub proof fn lemma_above_depth(s: ForestView, a: NodeId, n: NodeId)
    requires
        s.wf(),
        s.live(n),
        s.above(a, n),
    ensures
        view::depth(s.nodes, a) <= view::depth(s.nodes, n),
        a != n ==> view::depth(s.nodes, a) < view::depth(s.nodes, n),
{
    lemma_ancestors(s, n);
    let i = choose|i: int| 0 <= i < s.ancestors(n).len() && s.ancestors(n)[i] == a;
    if i > 0 {
        assert(view::depth(s.nodes, s.ancestors(n)[i]) < view::depth(s.nodes, s.ancestors(n)[0]));
    }
}

/// Taking a child off changes no path that does not lead through it.
pub proof fn lemma_detached_above(s: ForestView, n: NodeId, m: NodeId)
    requires
        s.wf(),
        s.parent(n) is Some,
        s.live(m),
        !s.above(n, m),
    ensures
        s.detached(n).ancestors(m) == s.ancestors(m),
        !s.detached(n).above(n, m),
{
    let t = s.detached(n);
    lemma_detached(s, n);
    lemma_ancestors(s, m);
    assert forall|i: int| 0 <= i < s.ancestors(m).len() implies t.live(
        #[trigger] s.ancestors(m)[i],
    ) && t.parent(s.ancestors(m)[i]) == s.parent(s.ancestors(m)[i]) by {
        assert(s.live(s.ancestors(m)[i]));
        assert(s.ancestors(m)[i] != n);
    }
    lemma_same_ancestors(s, t, m);
}

/// Dropping a childless root keeps the forest well formed.
pub proof fn lemma_dropped(s: ForestView, n: NodeId)
    requires
        s.wf(),
        s.live(n),
        s.parent(n) is None,
        s.children(n).len() == 0,
    ensures
        s.dropped(n).wf(),
        s.dropped(n).nodes == s.nodes.remove(n),
        s.dropped(n).nodes.dom().len() < s.nodes.dom().len(),
{
    let t = s.dropped(n);
    lemma_acyclic_fewer(s.nodes, t.nodes);
    assert(t.nodes.dom() =~= s.nodes.dom().remove(n));
    assert forall|m: NodeId| t.nodes.contains_key(m) implies #[trigger] view::node_ok(
        t.nodes,
        m,
    ) by {
        reveal(view::node_ok);
        assert(view::node_ok(s.nodes, m));
        lemma_node(s, m);
        if s.nodes[m].parent is Some {
            assert(s.nodes[m].parent->0 != n);
        }
        assert forall|j: int| 0 <= j < t.nodes[m].children.len() implies t.nodes.contains_key(
            #[trigger] t.nodes[m].children[j],
        ) && t.nodes[t.nodes[m].children[j]].parent == Some(m) by {
            assert(s.nodes[s.nodes[m].children[j]].parent == Some(m));
        }
    }
}

/// The only child of an inner container can be hoisted behind it.
pub proof fn lemma_hoisted(s: ForestView, p: NodeId)
    requires
        s.wf(),
        s.parent(p) is Some,
        s.children(p).len() == 1,
    ensures
        s.hoisted(s.children(p)[0], p).wf(),
        s.hoisted(s.children(p)[0], p).nodes.dom() == s.nodes.dom(),
        s.hoisted(s.children(p)[0], p).parent(p) == s.parent(p),
        s.hoisted(s.children(p)[0], p).children(p).len() == 0,
        s.detached(s.children(p)[0]).parent(p) == s.parent(p),
        s.live(p),
        s.live(s.parent(p)->0),
        s.children(p)[0] != s.parent(p)->0,
        s.children(p)[0] != p,
        s.parent(s.children(p)[0]) == Some(p),
        0 <= s.detached(s.children(p)[0]).rank(p) < s.detached(s.children(p)[0]).children(
            s.parent(p)->0,
        ).len(),
{
    let c = s.children(p)[0];
    let g = s.parent(p)->0;
    lemma_node(s, p);
    assert(s.nodes[p].children[0] == c);
    lemma_node(s, c);
    let loose = s.detached(c);
    lemma_detached(s, c);
    assert(!s.above(c, g)) by {
        if s.above(c, g) {
            lemma_above_depth(s, c, g);
        }
    }
    lemma_detached_above(s, c, g);
    lemma_node(loose, p);
    lemma_attached(loose, c, g, loose.rank(p) + 1);
    let a = loose.attached(c, g, loose.rank(p) + 1);
    assert(s.hoisted(c, p).nodes == a.nodes);
    lemma_noting(a, view::SizeChange::Inherited { node: c, from: p });
}

/// Size steps do not touch the nodes.
pub proof fn lemma_noting(s: ForestView, change: view::SizeChange)
    requires
        s.wf(),
    ensures
        s.noting(change).wf(),
{
}

/// Looking after a container that lost a child keeps the forest well formed.
pub proof fn lemma_collapsed(s: ForestView, p: NodeId)
    requires
        s.wf(),
    ensures
        s.collapsed(p).wf(),
        s.collapsed(p).minted == s.minted,
    decreases s.nodes.dom().len(),
{
    if s.parent(p) is None || s.children(p).len() > 1 {
    } else {
        let above = s.parent(p)->0;
        let ready = if s.children(p).len() == 1 {
            s.hoisted(s.children(p)[0], p)
        } else {
            s
        };
        if s.children(p).len() == 1 {
            lemma_hoisted(s, p);
        }
        lemma_detached(ready, p);
        lemma_dropped(ready.detached(p), p);
        let next = ready.detached(p).dropped(p);
        lemma_collapsed(next, above);
    }
}

/// A place outside the subtree of a child stays open when the child is taken off.
pub proof fn lemma_shifted(s: ForestView, n: NodeId, place: view::Place)
    requires
        s.wf(),
        s.can_move(n, place),
    ensures
        s.shifted(n, place).wf(),
        s.shifted(n, place).nodes.dom() == s.nodes.dom(),
        s.shifted(n, place).parent(n) == s.place_parent(place),
        s.live(n),
        s.live(s.place_parent(place)->0),
        n != s.place_parent(place)->0,
        s.detached(n).place_parent(place) == s.place_parent(place),
        0 <= s.detached(n).place_rank(place) <= s.detached(n).children(
            s.place_parent(place)->0,
        ).len(),
        s.detached(n).wf(),
        s.detached(n).open_place(place),
{
    let loose = s.detached(n);
    lemma_detached(s, n);
    let a = ForestView::place_anchor(place);
    let p = s.place_parent(place)->0;
    assert(s.live(a));
    lemma_node(s, a);
    lemma_ancestors(s, p);
    lemma_detached_above(s, n, p);
    assert(loose.place_parent(place) == Some(p));
    lemma_node(loose, a);
    lemma_attached(loose, n, p, loose.place_rank(place));
}

/// Moving a child keeps the forest well formed.
pub proof fn lemma_moved(s: ForestView, n: NodeId, place: view::Place)
    requires
        s.wf(),
    ensures
        s.moved(n, place).wf(),
        s.moved(n, place).minted == s.minted,
        s.grafted(n, place).wf(),
        s.grafted(n, place).minted == s.minted,
{
    if s.can_move(n, place) {
        lemma_shifted(s, n, place);
        lemma_collapsed(s.shifted(n, place), s.parent(n)->0);
    }
}

/// Putting a new node at a place keeps the forest well formed.
pub proof fn lemma_with_new(s: ForestView, place: view::Place)
    requires
        s.wf(),
        s.minted <= u64::MAX,
    ensures
        s.with_new(place).wf(),
        s.open_place(place) ==> {
            let c = s.created();
            &&& c.wf()
            &&& c.place_parent(place) == s.place_parent(place)
            &&& c.live(s.place_parent(place)->0)
            &&& 0 <= c.place_rank(place) <= c.children(s.place_parent(place)->0).len()
            &&& s.with_new(place).live(s.next_id())
            &&& s.with_new(place).parent(s.next_id()) == s.place_parent(place)
            &&& s.with_new(place).children(s.next_id()).len() == 0
            &&& s.with_new(place).window(s.next_id()) is None
            &&& s.next_id() != s.place_parent(place)->0
        },
        !s.live(s.next_id()),
        s.with_new(place).minted <= s.minted + 1,
{
    lemma_created(s);
    if s.open_place(place) {
        let c = s.created();
        let n = s.next_id();
        let a = ForestView::place_anchor(place);
        let p = s.place_parent(place)->0;
        assert(s.live(a));
        lemma_node(s, a);
        assert(c.parent(a) == s.parent(a));
        lemma_node(c, a);
        lemma_ancestors(c, p);
        assert(!c.above(n, p)) by {
            if c.above(n, p) {
                let i = choose|i: int| 0 <= i < c.ancestors(p).len() && c.ancestors(p)[i] == n;
                assert(p != n);
                assert(i > 0);
                let q = c.ancestors(p)[i - 1];
                assert(c.parent(q) == Some(n));
                lemma_node(c, q);
                assert(c.nodes[n].children.contains(q));
            }
        }
        lemma_attached(c, n, p, c.place_rank(place));
    }
}

/// Leading a path to the root keeps the forest well formed.
pub proof fn lemma_path_picked(s: ForestView, n: NodeId, upto: int)
    requires
        s.wf(),
        s.live(n),
        0 <= upto < s.ancestors(n).len(),
    ensures
        s.path_picked(s.ancestors(n), upto).wf(),
        s.path_picked(s.ancestors(n), upto).nodes.dom() == s.nodes.dom(),
{
    let path = s.ancestors(n);
    let t = s.path_picked(path, upto);
    lemma_ancestors(s, n);
    assert(t.nodes.dom() =~= s.nodes.dom());
    lemma_acyclic_fewer(s.nodes, t.nodes);
    assert forall|m: NodeId| t.nodes.contains_key(m) implies #[trigger] view::node_ok(
        t.nodes,
        m,
    ) by {
        reveal(view::node_ok);
        assert(view::node_ok(s.nodes, m));
        lemma_node(s, m);
        let i = path.index_of(m);
        if path.contains(m) && 0 < i <= upto {
            assert(path[i] == m);
            assert(s.parent(path[i - 1]) == Some(path[i - 1 + 1]));
            lemma_node(s, path[i - 1]);
        }
        assert forall|j: int| 0 <= j < t.nodes[m].children.len() implies t.nodes.contains_key(
            #[trigger] t.nodes[m].children[j],
        ) && t.nodes[t.nodes[m].children[j]].parent == Some(m) by {
            assert(s.nodes[s.nodes[m].children[j]].parent == Some(m));
        }
    }
}

/// Selecting a node keeps the forest well formed.
pub proof fn lemma_selected(s: ForestView, n: NodeId)
    requires
        s.wf(),
    ensures
        s.selected(n).wf(),
        s.selected(n).nodes.dom() == s.nodes.dom(),
        s.selected(n).minted == s.minted,
        s.live(n) ==> s.stopping_at(n).wf() && s.stopping_at(n).ancestors(n) == s.ancestors(n),
{
    if s.live(n) {
        let u = s.stopping_at(n);
        lemma_node(s, n);
        lemma_with_info(
            s,
            n,
            NodeInfo {
                pick: match s.info(n).pick {
                    Some(p) => Some(view::Pick { stop_here: true, ..p }),
                    None => None,
                },
                ..s.info(n)
            },
        );
        lemma_ancestors(s, n);
        assert forall|i: int| 0 <= i < s.ancestors(n).len() implies u.live(
            #[trigger] s.ancestors(n)[i],
        ) && u.parent(s.ancestors(n)[i]) == s.parent(s.ancestors(n)[i]) by {
            assert(s.live(s.ancestors(n)[i]));
        }
        lemma_same_ancestors(s, u, n);
        lemma_path_picked(u, n, s.ancestors(n).len() - 1);
    }
}

/// Leading a parent to its child keeps the forest well formed.
pub proof fn lemma_selected_locally(s: ForestView, n: NodeId)
    requires
        s.wf(),
    ensures
        s.selected_locally(n).wf(),
        s.selected_locally(n).nodes.dom() == s.nodes.dom(),
{
    if s.parent(n) is Some {
        let p = s.parent(n)->0;
        lemma_node(s, n);
        lemma_node(s, p);
        lemma_with_info(
            s,
            p,
            NodeInfo {
                pick: Some(view::Pick { child: n, stop_here: false }),
                ..s.info(p)
            },
        );
    }
}

/// Changing the kind of a container keeps the forest well formed.
pub proof fn lemma_with_kind(s: ForestView, n: NodeId, kind: crate::layout_engine::LayoutKind)
    requires
        s.wf(),
    ensures
        s.with_kind(n, kind).wf(),
        s.with_kind(n, kind).nodes.dom() == s.nodes.dom(),
{
    if s.live(n) {
        lemma_node(s, n);
        lemma_with_info(
            s,
            n,
            NodeInfo {
                kind,
                last_ungrouped_kind: if kind.stacks() {
                    s.info(n).last_ungrouped_kind
                } else {
                    kind
                },
                ..s.info(n)
            },
        );
    }
}

/// Giving a childless node a window keeps the forest well formed.
pub proof fn lemma_with_window(
    s: ForestView,
    layout: crate::actor::LayoutId,
    n: NodeId,
    window: crate::actor::WindowId,
)
    requires
        s.wf(),
    ensures
        s.with_window(layout, n, window).wf(),
        s.with_window(layout, n, window).nodes.dom() == s.nodes.dom(),
{
    if s.live(n) && s.children(n).len() == 0 && s.window(n) is None {
        lemma_node(s, n);
        lemma_with_info(s, n, NodeInfo { window: Some(window), ..s.info(n) });
    }
}

/// Of two nodes above a third, one is above the other.
pub proof fn lemma_above_linear(s: ForestView, a: NodeId, b: NodeId, n: NodeId)
    requires
        s.wf(),
        s.live(n),
        s.above(a, n),
        s.above(b, n),
    ensures
        s.above(a, b) || s.above(b, a),
    decreases view::depth(s.nodes, n),
{
    lemma_above_step(s, a, n);
    lemma_above_step(s, b, n);
    if a != n && b != n {
        lemma_node(s, n);
        lemma_above_linear(s, a, b, s.parent(n)->0);
    }
}

/// Above is transitive.
pub proof fn lemma_above_trans(s: ForestView, a: NodeId, b: NodeId, n: NodeId)
    requires
        s.wf(),
        s.live(n),
        s.above(a, b),
        s.above(b, n),
    ensures
        s.above(a, n),
    decreases view::depth(s.nodes, n),
{
    lemma_above_step(s, b, n);
    lemma_above_step(s, a, n);
    if b != n {
        lemma_node(s, n);
        lemma_above_trans(s, a, b, s.parent(n)->0);
    }
}

/// A traversal lists live nodes below its start, each once.
pub proof fn lemma_preorder(s: ForestView, n: NodeId)
    requires
        s.wf(),
        s.live(n),
    ensures
        s.preorder(n).len() > 0,
        s.preorder(n)[0] == n,
        forall|i: int|
            0 <= i < s.preorder(n).len() ==> s.live(#[trigger] s.preorder(n)[i]) && s.above(
                n,
                s.preorder(n)[i],
            ),
        s.preorder(n).no_duplicates(),
    decreases view::height(s.nodes, n), s.children(n).len() + 1,
{
    lemma_preorder_below(s, n, s.children(n).len());
    lemma_above_step(s, n, n);
    let below = s.preorder_below(n, s.children(n).len());
    let all = s.preorder(n);
    assert(all == seq![n] + below);
    assert forall|i: int| 0 <= i < all.len() implies s.live(#[trigger] all[i]) && s.above(
        n,
        all[i],
    ) by {
        if i > 0 {
            assert(all[i] == below[i - 1]);
        }
    }
    assert forall|i: int, j: int| 0 <= i < all.len() && 0 <= j < all.len() && i != j implies all[i]
        != all[j] by {
        if i > 0 {
            assert(all[i] == below[i - 1]);
        }
        if j > 0 {
            assert(all[j] == below[j - 1]);
        }
    }
}

pub proof fn lemma_preorder_below(s: ForestView, n: NodeId, upto: nat)
    requires
        s.wf(),
        s.live(n),
        upto <= s.children(n).len(),
    ensures
        forall|i: int|
            0 <= i < s.preorder_below(n, upto).len() ==> {
                let x = #[trigger] s.preorder_below(n, upto)[i];
                &&& s.live(x)
                &&& s.above(n, x)
                &&& x != n
                &&& exists|k: int| 0 <= k < upto && s.above(#[trigger] s.children(n)[k], x)
            },
        s.preorder_below(n, upto).no_duplicates(),
    decreases view::height(s.nodes, n), upto,
{
    if upto > 0 {
        let last = (upto - 1) as nat;
        let c = s.children(n)[upto - 1];
        lemma_node(s, n);
        assert(s.nodes[n].children[upto - 1] == c);
        lemma_node(s, c);
        lemma_preorder(s, c);
        lemma_preorder_below(s, n, last);
        let front = s.preorder_below(n, last);
        let back = s.preorder(c);
        let all = s.preorder_below(n, upto);
        assert(all == front + back);
        assert forall|i: int| 0 <= i < all.len() implies {
            let x = #[trigger] all[i];
            &&& s.live(x)
            &&& s.above(n, x)
            &&& x != n
            &&& exists|k: int| 0 <= k < upto && s.above(#[trigger] s.children(n)[k], x)
        } by {
            let x = all[i];
            if i < front.len() {
                assert(x == front[i]);
                let k = choose|k: int| 0 <= k < last && s.above(#[trigger] s.children(n)[k], x);
                assert(s.above(s.children(n)[k], x));
            } else {
                assert(x == back[i - front.len()]);
                assert(s.above(s.children(n)[upto - 1], x));
                lemma_above_step(s, n, c);
                lemma_ancestors(s, n);
                lemma_above_trans(s, n, c, x);
                lemma_above_depth(s, c, x);
            }
        }
        assert forall|i: int, j: int|
            0 <= i < front.len() && 0 <= j < back.len() implies front[i] != back[j] by {
            if front[i] == back[j] {
                let x = front[i];
                let k = choose|k: int| 0 <= k < last && s.above(#[trigger] s.children(n)[k], x);
                let d = s.children(n)[k];
                assert(s.nodes[n].children[k] == d);
                assert(d != c);
                assert(s.above(c, back[j]));
                lemma_above_linear(s, c, d, x);
                lemma_node(s, d);
                lemma_above_step(s, c, d);
                lemma_above_step(s, d, c);
                if s.above(c, n) {
                    lemma_above_depth(s, c, n);
                }
                if s.above(d, n) {
                    lemma_above_depth(s, d, n);
                }
            }
        }
        assert forall|i: int, j: int|
            0 <= i < all.len() && 0 <= j < all.len() && i != j implies all[i] != all[j] by {
            if i < front.len() {
                assert(all[i] == front[i]);
            } else {
                assert(all[i] == back[i - front.len()]);
            }
            if j < front.len() {
                assert(all[j] == front[j]);
            } else {
                assert(all[j] == back[j - front.len()]);
            }
        }
    }
}

/// The children below the first `upto` ones are listed.
proof fn lemma_preorder_child(s: ForestView, n: NodeId, upto: nat, k: int, x: NodeId)
    requires
        s.wf(),
        s.live(n),
        0 <= k < upto <= s.children(n).len(),
        s.preorder(s.children(n)[k]).contains(x),
    ensures
        s.preorder_below(n, upto).contains(x),
    decreases upto,
{
    let last = (upto - 1) as nat;
    let c = s.children(n)[upto - 1];
    lemma_node(s, n);
    assert(s.nodes[n].children[upto - 1] == c);
    let front = s.preorder_below(n, last);
    let back = s.preorder(c);
    if k == upto - 1 {
        let i = choose|i: int| 0 <= i < back.len() && back[i] == x;
        assert((front + back)[front.len() + i] == x);
    } else {
        lemma_preorder_child(s, n, last, k, x);
        let i = choose|i: int| 0 <= i < front.len() && front[i] == x;
        assert((front + back)[i] == x);
    }
}

/// A traversal lists every live node below its start.
pub proof fn lemma_preorder_complete(s: ForestView, n: NodeId, x: NodeId)
    requires
        s.wf(),
        s.live(n),
        s.live(x),
        s.above(n, x),
    ensures
        s.preorder(n).contains(x),
    decreases view::height(s.nodes, n),
{
    lemma_preorder(s, n);
    if x == n {
        assert(s.preorder(n)[0] == n);
    } else {
        let k = lemma_child_above(s, n, x);
        let c = s.children(n)[k];
        lemma_node(s, n);
        assert(s.nodes[n].children[k] == c);
        lemma_preorder_complete(s, c, x);
        lemma_preorder_child(s, n, s.children(n).len(), k, x);
        let below = s.preorder_below(n, s.children(n).len());
        let i = choose|i: int| 0 <= i < below.len() && below[i] == x;
        assert(s.preorder(n)[i + 1] == x);
    }
}

/// The child through which a path leads.
pub proof fn lemma_child_above(s: ForestView, n: NodeId, x: NodeId) -> (k: int)
    requires
        s.wf(),
        s.live(n),
        s.live(x),
        s.above(n, x),
        x != n,
    ensures
        0 <= k < s.children(n).len(),
        s.above(s.children(n)[k], x),
    decreases view::depth(s.nodes, x),
{
    lemma_node(s, x);
    lemma_above_step(s, n, x);
    let q = s.parent(x)->0;
    if q == n {
        lemma_ancestors(s, x);
        assert(s.ancestors(x)[0] == x);
        s.rank(x)
    } else {
        let k = lemma_child_above(s, n, q);
        let c = s.children(n)[k];
        lemma_above_step(s, c, x);
        k
    }
}

/// Discarding nodes removes exactly them.
pub proof fn lemma_discarded_nodes(s: ForestView, ns: Seq<NodeId>)
    ensures
        forall|m: NodeId| #[trigger]
            s.discarded(ns).nodes.contains_key(m) <==> s.nodes.contains_key(m) && !ns.contains(m),
        forall|m: NodeId| #[trigger]
            s.discarded(ns).nodes.contains_key(m) ==> s.discarded(ns).nodes[m] == s.nodes[m],
        s.nodes.dom().finite() ==> s.discarded(ns).nodes.dom().finite(),
        s.discarded(ns).minted == s.minted,
    decreases ns.len(),
{
    if ns.len() > 0 {
        let front = ns.drop_last();
        lemma_discarded_nodes(s, front);
        let t = s.discarded(front);
        assert(s.discarded(ns) == t.dropped(ns.last()));
        assert forall|m: NodeId| ns.contains(m) <==> front.contains(m) || m == ns.last() by {
            if ns.contains(m) {
                let i = choose|i: int| 0 <= i < ns.len() && ns[i] == m;
                if i < front.len() {
                    assert(front[i] == m);
                }
            }
            if front.contains(m) {
                let i = choose|i: int| 0 <= i < front.len() && front[i] == m;
                assert(ns[i] == m);
            }
            assert(ns[ns.len() - 1] == ns.last());
        }
    }
}

/// Discarding a whole tree keeps the forest well formed.
pub proof fn lemma_discarded(s: ForestView, n: NodeId)
    requires
        s.wf(),
        s.live(n),
        s.parent(n) is None,
    ensures
        s.discarded(s.preorder(n).reverse()).wf(),
        s.discarded(s.preorder(n).reverse()).minted == s.minted,
        forall|m: NodeId| #[trigger]
            s.discarded(s.preorder(n).reverse()).live(m) <==> s.live(m) && !s.above(n, m),
{
    let pre = s.preorder(n);
    let ns = pre.reverse();
    let t = s.discarded(ns);
    lemma_preorder(s, n);
    lemma_discarded_nodes(s, ns);
    assert forall|m: NodeId| s.live(m) implies (ns.contains(m) <==> s.above(n, m)) by {
        if ns.contains(m) {
            let i = choose|i: int| 0 <= i < ns.len() && ns[i] == m;
            assert(pre[pre.len() - 1 - i] == m);
        }
        if s.above(n, m) {
            lemma_preorder_complete(s, n, m);
            let i = choose|i: int| 0 <= i < pre.len() && pre[i] == m;
            assert(ns[pre.len() - 1 - i] == m);
        }
    }
    lemma_acyclic_fewer(s.nodes, t.nodes);
    assert forall|m: NodeId| t.nodes.contains_key(m) implies #[trigger] view::node_ok(
        t.nodes,
        m,
    ) by {
        reveal(view::node_ok);
        assert(view::node_ok(s.nodes, m));
        lemma_node(s, m);
        lemma_above_step(s, n, m);
        assert(t.nodes[m] == s.nodes[m]);
        assert forall|j: int| 0 <= j < t.nodes[m].children.len() implies t.nodes.contains_key(
            #[trigger] t.nodes[m].children[j],
        ) && t.nodes[t.nodes[m].children[j]].parent == Some(m) by {
            let c = s.nodes[m].children[j];
            assert(s.live(c));
            assert(s.nodes[c].parent == Some(m));
            lemma_above_step(s, n, c);
            assert(!ns.contains(c));
        }
    }
    assert forall|m: NodeId| #[trigger] t.nodes.contains_key(m) implies m < t.minted by {
        assert(s.nodes.contains_key(m));
    }
}

/// Removing a child with its descendants keeps the forest well formed.
pub proof fn lemma_removed(s: ForestView, n: NodeId)
    requires
        s.wf(),
    ensures
        s.removed(n).wf(),
        s.removed(n).minted == s.minted,
{
    if s.parent(n) is Some {
        let loose = s.detached(n);
        lemma_detached(s, n);
        lemma_discarded(loose, n);
        lemma_collapsed(loose.discarded(loose.preorder(n).reverse()), s.parent(n)->0);
    }
}

/// Putting a new root above a root keeps the forest well formed.
pub proof fn lemma_wrapped(s: ForestView, n: NodeId)
    requires
        s.wf(),
        s.minted <= u64::MAX,
        s.live(n),
        s.parent(n) is None,
    ensures
        s.wrapped(n).wf(),
        s.wrapped(n).live(s.next_id()),
        s.wrapped(n).parent(s.next_id()) is None,
        s.next_id() != n,
{
    lemma_created(s);
    let c = s.created();
    lemma_ancestors(c, s.next_id());
    lemma_attached(c, n, s.next_id(), 0);
}

/// A node that a traversal lists, with the identifier of its copy.
pub proof fn lemma_source(s: ForestView, n: NodeId, x: NodeId)
    requires
        s.wf(),
        s.live(n),
        s.parent(n) is None,
        s.minted + s.preorder(n).len() <= u64::MAX,
        s.preorder(n).contains(x),
    ensures
        s.live(x),
        x < s.minted,
        0 <= s.preorder(n).index_of(x) < s.preorder(n).len(),
        s.preorder(n)[s.preorder(n).index_of(x)] == x,
        s.copy_id(s.preorder(n), x) == s.minted + s.preorder(n).index_of(x),
        s.preorder(n)[0] == n,
        x != n ==> s.parent(x) is Some && s.preorder(n).contains(s.parent(x)->0),
        forall|j: int|
            0 <= j < s.nodes[x].children.len() ==> s.preorder(n).contains(
                #[trigger] s.nodes[x].children[j],
            ),
{
    let src = s.preorder(n);
    lemma_preorder(s, n);
    let i = src.index_of(x);
    assert(src[i] == x);
    assert(s.live(src[i]) && s.above(n, src[i]));
    lemma_node(s, x);
    lemma_above_step(s, n, x);
    if x != n {
        lemma_preorder_complete(s, n, s.parent(x)->0);
    }
    assert forall|j: int| 0 <= j < s.nodes[x].children.len() implies src.contains(
        #[trigger] s.nodes[x].children[j],
    ) by {
        let c = s.nodes[x].children[j];
        lemma_above_step(s, n, c);
        lemma_preorder_complete(s, n, c);
    }
}

/// The copy of a node is linked as the node is.
#[verifier::rlimit(30)]
proof fn lemma_copied_node(s: ForestView, n: NodeId, layout: crate::actor::LayoutId, m: NodeId)
    requires
        s.wf(),
        s.live(n),
        s.parent(n) is None,
        s.minted + s.preorder(n).len() <= u64::MAX,
        s.minted <= m < s.minted + s.preorder(n).len(),
    ensures
        view::node_ok(s.copied(n, layout).nodes, m),
{
    let src = s.preorder(n);
    let t = s.copied(n, layout);
    let base = s.minted;
    let x = src[m - base];
    lemma_preorder(s, n);
    assert(src.contains(x));
    lemma_source(s, n, x);
    assert(src.index_of(x) == m - base);
    lemma_node(s, x);
    let v = s.nodes[x];
    let cs = t.nodes[m].children;
    assert(!s.nodes.contains_key(m));
    assert(t.nodes[m] == s.copy_node(src, x));
    assert forall|j: int| 0 <= j < cs.len() implies {
        &&& #[trigger] cs[j] == s.copy_id(src, v.children[j])
        &&& t.nodes.contains_key(cs[j])
        &&& t.nodes[cs[j]].parent == Some(m)
        &&& cs[j] == base + src.index_of(v.children[j])
        &&& src[cs[j] - base] == v.children[j]
    } by {
        let c = v.children[j];
        assert(src.contains(c));
        lemma_source(s, n, c);
        assert(s.nodes[c].parent == Some(x));
        assert(c != n);
        assert(!s.nodes.contains_key(cs[j]));
        assert(t.nodes[cs[j]] == s.copy_node(src, c));
    }
    assert(cs.no_duplicates()) by {
        assert forall|i: int, j: int|
            0 <= i < cs.len() && 0 <= j < cs.len() && i != j implies cs[i] != cs[j] by {
            assert(v.children[i] != v.children[j]);
        }
    }
    if x != n {
        let q = v.parent->0;
        lemma_source(s, n, q);
        let mq = s.copy_id(src, q);
        assert(!s.nodes.contains_key(mq));
        assert(t.nodes[mq] == s.copy_node(src, q));
        let k = s.rank(x);
        assert(s.nodes[q].children[k] == x);
        assert(t.nodes[mq].children[k] == s.copy_id(src, s.nodes[q].children[k]));
        assert(t.nodes[mq].children[k] == m);
        assert(t.nodes[mq].children.contains(m));
    }
    if v.info.pick is Some {
        let c = v.info.pick->0.child;
        let j = choose|j: int| 0 <= j < v.children.len() && v.children[j] == c;
        assert(cs[j] == s.copy_id(src, c));
        assert(cs.contains(s.copy_id(src, c)));
    }
    reveal(view::node_ok);
}

/// Copying a tree keeps the forest well formed.
#[verifier::rlimit(30)]
pub proof fn lemma_copied(s: ForestView, n: NodeId, layout: crate::actor::LayoutId)
    requires
        s.wf(),
        s.live(n),
        s.parent(n) is None,
        s.minted + s.preorder(n).len() <= u64::MAX,
    ensures
        s.copied(n, layout).wf(),
        s.copied(n, layout).live(s.next_id()),
        s.copied(n, layout).parent(s.next_id()) is None,
        s.copied(n, layout).window(s.next_id()) == s.window(n),
{
    let src = s.preorder(n);
    let t = s.copied(n, layout);
    let base = s.minted;
    lemma_preorder(s, n);
    lemma_ranked(s);
    lemma_range_finite(base, base + src.len());
    assert(t.nodes.dom() =~= s.nodes.dom().union(
        Set::new(|m: NodeId| base <= m < base + src.len()),
    ));
    let r = view::ranking(s.nodes);
    let f = |m: NodeId| if m < base { (r.0)(m) } else { (r.0)(src[m - base]) };
    assert forall|m: NodeId| #[trigger] t.nodes.contains_key(m) implies f(m) <= r.1 && (
    t.nodes[m].parent is Some ==> f(t.nodes[m].parent->0) < f(m)) by {
        if s.nodes.contains_key(m) {
            if s.nodes[m].parent is Some {
                lemma_node(s, m);
                assert(s.nodes.contains_key(s.nodes[m].parent->0));
            }
        } else {
            let x = src[m - base];
            assert(src.contains(x));
            lemma_source(s, n, x);
            assert(s.nodes.contains_key(x));
            if x != n {
                lemma_source(s, n, s.nodes[x].parent->0);
            }
        }
    }
    let w = (f, r.1);
    assert(view::ranked(t.nodes, w.0, w.1));
    assert forall|m: NodeId| t.nodes.contains_key(m) implies #[trigger] view::node_ok(
        t.nodes,
        m,
    ) by {
        if s.nodes.contains_key(m) {
            reveal(view::node_ok);
            assert(view::node_ok(s.nodes, m));
            lemma_node(s, m);
            assert forall|j: int| 0 <= j < t.nodes[m].children.len() implies t.nodes.contains_key(
                #[trigger] t.nodes[m].children[j],
            ) && t.nodes[t.nodes[m].children[j]].parent == Some(m) by {
                assert(s.nodes[s.nodes[m].children[j]].parent == Some(m));
            }
        } else {
            lemma_copied_node(s, n, layout, m);
        }
    }
    assert(src.contains(src[0]));
    assert(src.index_of(n) == 0);
    assert(!s.nodes.contains_key(s.next_id()));
}

/// A range of identifiers is finite.
proof fn lemma_range_finite(lo: nat, hi: nat)
    requires
        hi <= u64::MAX,
    ensures
        Set::new(|m: NodeId| lo <= m < hi).finite(),
    decreases hi,
{
    let all = Set::new(|m: NodeId| lo <= m < hi);
    if hi <= lo {
        assert(all =~= Set::empty());
    } else {
        lemma_range_finite(lo, (hi - 1) as nat);
        let fewer = Set::new(|m: NodeId| lo <= m < (hi - 1) as nat);
        assert(all =~= fewer.insert((hi - 1) as u64));
    }
}

} // verus!
