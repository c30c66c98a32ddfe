//! Which tree a node belongs to, and the windows of a tree.

use vstd::multiset::Multiset;
use vstd::prelude::*;

use crate::actor::WindowId;
use crate::layout_engine::LayoutKind;
use crate::model::tree::kept;
use crate::model::tree::proofs;
use crate::model::tree::view;
use crate::model::tree::view::{ForestView, NodeId, NodeInfo, NodeView, Place, SizeChange};

verus! {

/// From `s` to `t` the windows stay at their nodes, the nodes that are left stay
/// in their trees, and no node comes back.
pub open spec fn settled(s: ForestView, t: ForestView) -> bool {
    &&& t.wf()
    &&& kept::rearranged(s, t)
    &&& no_revival(s, t)
    &&& forall|x: NodeId| s.live(x) && t.live(x) ==> #[trigger] t.home(x) == s.home(x)
}

/// Nodes of `t` that are no nodes of `s` are newer.
pub open spec fn no_revival(s: ForestView, t: ForestView) -> bool {
    &&& s.minted <= t.minted
    &&& forall|x: NodeId| #[trigger] t.live(x) && x < s.minted ==> s.live(x)
}

/// The root of a node is that of its parent.
pub proof fn lemma_home(s: ForestView, n: NodeId)
    requires
        s.wf(),
        s.live(n),
    ensures
        s.live(s.home(n)),
        s.parent(s.home(n)) is None,
        s.above(s.home(n), n),
        s.parent(n) is None ==> s.home(n) == n,
        s.parent(n) is Some ==> s.home(n) == s.home(s.parent(n)->0),
{
    proofs::lemma_ancestors(s, n);
    let path = s.ancestors(n);
    assert(path[path.len() - 1] == s.home(n));
    if s.parent(n) is Some {
        proofs::lemma_node(s, n);
        proofs::lemma_ancestors(s, s.parent(n)->0);
    }
}

/// A root lies above exactly the nodes of its tree.
pub proof fn lemma_root_above(s: ForestView, r: NodeId, n: NodeId)
    requires
        s.wf(),
        s.live(n),
        s.parent(r) is None,
    ensures
        s.above(r, n) <==> s.home(n) == r,
    decreases view::depth(s.nodes, n),
{
    lemma_home(s, n);
    proofs::lemma_above_step(s, r, n);
    if s.parent(n) is Some {
        proofs::lemma_node(s, n);
        lemma_root_above(s, r, s.parent(n)->0);
    }
}

/// Nodes above and below each other belong to the same tree.
pub proof fn lemma_above_home(s: ForestView, a: NodeId, n: NodeId)
    requires
        s.wf(),
        s.live(n),
        s.above(a, n),
    ensures
        s.live(a),
        s.home(a) == s.home(n),
    decreases view::depth(s.nodes, n),
{
    lemma_home(s, n);
    proofs::lemma_above_step(s, a, n);
    if a != n {
        proofs::lemma_node(s, n);
        lemma_above_home(s, a, s.parent(n)->0);
    }
}

/// In `t` every node hangs below a node of the tree it had in `s`.
pub open spec fn hung_at_home(s: ForestView, t: ForestView) -> bool {
    forall|x: NodeId| #[trigger]
        t.live(x) && s.live(x) ==> {
            &&& t.parent(x) is None ==> s.parent(x) is None
            &&& t.parent(x) is Some ==> s.live(t.parent(x)->0) && s.home(t.parent(x)->0) == s.home(
                x,
            )
        }
}

proof fn lemma_same_home(s: ForestView, t: ForestView, x: NodeId)
    requires
        s.wf(),
        t.wf(),
        hung_at_home(s, t),
        s.live(x),
        t.live(x),
    ensures
        t.home(x) == s.home(x),
    decreases view::depth(t.nodes, x),
{
    lemma_home(s, x);
    lemma_home(t, x);
    if t.parent(x) is Some {
        proofs::lemma_node(t, x);
        lemma_same_home(s, t, t.parent(x)->0);
    }
}

/// Nodes that hang below nodes of their own tree stay in it.
pub proof fn lemma_homes(s: ForestView, t: ForestView)
    requires
        s.wf(),
        t.wf(),
        hung_at_home(s, t),
    ensures
        forall|x: NodeId| s.live(x) && t.live(x) ==> #[trigger] t.home(x) == s.home(x),
{
    assert forall|x: NodeId| s.live(x) && t.live(x) implies #[trigger] t.home(x) == s.home(x) by {
        lemma_same_home(s, t, x);
    }
}

/// Nodes that keep their windows and stay in their trees are settled.
pub proof fn lemma_settled(s: ForestView, t: ForestView)
    requires
        s.wf(),
        t.wf(),
        kept::rearranged(s, t),
        no_revival(s, t),
        hung_at_home(s, t),
    ensures
        settled(s, t),
{
    lemma_homes(s, t);
}

/// Edits that touch no parent, no window and no index entry.
pub proof fn lemma_still(s: ForestView, t: ForestView)
    requires
        s.wf(),
        t.wf(),
        t.nodes.dom() == s.nodes.dom(),
        t.minted == s.minted,
        forall|x: NodeId| #[trigger] t.parent(x) == s.parent(x),
        forall|x: NodeId| #[trigger] t.window(x) == s.window(x),
        t.index == s.index,
    ensures
        settled(s, t),
{
    assert forall|x: NodeId| #[trigger] s.live(x) && s.parent(x) is None implies t.live(x)
        && t.parent(x) is None by {
        assert(t.parent(x) == s.parent(x));
    }
    assert forall|x: NodeId| (#[trigger] s.window(x)) is Some implies t.window(x) == s.window(
        x,
    ) by {
        assert(t.window(x) == s.window(x));
    }
    assert(hung_at_home(s, t)) by {
        assert forall|x: NodeId| #[trigger] t.live(x) && s.live(x) implies {
            &&& t.parent(x) is None ==> s.parent(x) is None
            &&& t.parent(x) is Some ==> s.live(t.parent(x)->0) && s.home(t.parent(x)->0) == s.home(
                x,
            )
        } by {
            assert(t.parent(x) == s.parent(x));
            lemma_home(s, x);
            proofs::lemma_node(s, x);
        }
    }
    assert forall|x: NodeId| #[trigger] t.live(x) && x < s.minted implies s.live(x) by {
        assert(t.nodes.dom().contains(x));
    }
    lemma_settled(s, t);
}

pub proof fn lemma_trans(s: ForestView, t: ForestView, u: ForestView)
    requires
        s.wf(),
        settled(s, t),
        settled(t, u),
    ensures
        settled(s, u),
{
    kept::lemma_trans(s, t, u);
    assert forall|x: NodeId| #[trigger] u.live(x) && x < s.minted implies s.live(x) by {
        assert(t.live(x));
    }
    assert forall|x: NodeId| s.live(x) && u.live(x) implies #[trigger] u.home(x) == s.home(x) by {
        assert(x < s.minted);
        assert(t.live(x));
        assert(t.home(x) == s.home(x));
    }
}

pub proof fn lemma_refl(s: ForestView)
    requires
        s.wf(),
    ensures
        settled(s, s),
{
    lemma_still(s, s);
}

pub proof fn lemma_noting(s: ForestView, change: SizeChange)
    requires
        s.wf(),
    ensures
        settled(s, s.noting(change)),
{
    lemma_still(s, s.noting(change));
}

/// Changing a record without touching its window.
pub proof fn lemma_with_info(s: ForestView, n: NodeId, info: NodeInfo)
    requires
        s.wf(),
        s.with_info(n, info).wf(),
        s.live(n) ==> info.window == s.window(n),
    ensures
        settled(s, s.with_info(n, info)),
{
    let t = s.with_info(n, info);
    assert(t.nodes.dom() =~= s.nodes.dom());
    lemma_still(s, t);
}

pub proof fn lemma_with_kind(s: ForestView, n: NodeId, kind: LayoutKind)
    requires
        s.wf(),
    ensures
        settled(s, s.with_kind(n, kind)),
{
    proofs::lemma_with_kind(s, n, kind);
    lemma_with_info(s, n, s.with_kind(n, kind).info(n));
}

pub proof fn lemma_with_fullscreen(s: ForestView, n: NodeId, full: bool, within: bool)
    requires
        s.wf(),
    ensures
        settled(s, s.with_fullscreen(n, full, within)),
{
    let info = NodeInfo { is_fullscreen: full, is_fullscreen_within_gaps: within, ..s.info(n) };
    if s.live(n) {
        proofs::lemma_node(s, n);
    }
    proofs::lemma_with_info(s, n, info);
    lemma_with_info(s, n, info);
}

pub proof fn lemma_path_picked(s: ForestView, n: NodeId, upto: int)
    requires
        s.wf(),
        s.live(n),
        0 <= upto < s.ancestors(n).len(),
    ensures
        settled(s, s.path_picked(s.ancestors(n), upto)),
{
    proofs::lemma_path_picked(s, n, upto);
    lemma_still(s, s.path_picked(s.ancestors(n), upto));
}

pub proof fn lemma_selected(s: ForestView, n: NodeId)
    requires
        s.wf(),
    ensures
        settled(s, s.selected(n)),
{
    if s.live(n) {
        proofs::lemma_selected(s, n);
        let u = s.stopping_at(n);
        let t = s.selected(n);
        assert(u.nodes.dom() =~= s.nodes.dom());
        assert(t.nodes.dom() =~= s.nodes.dom());
        lemma_still(s, t);
    } else {
        lemma_refl(s);
    }
}

pub proof fn lemma_selected_locally(s: ForestView, n: NodeId)
    requires
        s.wf(),
    ensures
        settled(s, s.selected_locally(n)),
{
    proofs::lemma_selected_locally(s, n);
    if s.parent(n) is Some {
        let p = s.parent(n)->0;
        lemma_with_info(s, p, s.selected_locally(n).info(p));
    } else {
        lemma_refl(s);
    }
}

pub proof fn lemma_stop_at(path: Seq<NodeId>, stop: NodeId, from: int)
    requires
        0 <= from < path.len(),
    ensures
        from <= view::stop_at(path, stop, from) < path.len(),
    decreases path.len() - from,
{
    if from < path.len() - 1 && path[from] != stop {
        lemma_stop_at(path, stop, from + 1);
    }
}

pub proof fn lemma_path_selected(s: ForestView, n: NodeId, stop: NodeId)
    requires
        s.wf(),
    ensures
        settled(s, s.path_selected(n, stop)),
{
    if s.live(n) {
        proofs::lemma_ancestors(s, n);
        lemma_stop_at(s.ancestors(n), stop, 0);
        lemma_path_picked(s, n, view::stop_at(s.ancestors(n), stop, 0));
    } else {
        lemma_refl(s);
    }
}

pub proof fn lemma_with_new(s: ForestView, place: Place)
    requires
        s.wf(),
        s.minted <= u64::MAX,
    ensures
        settled(s, s.with_new(place)),
{
    let t = s.with_new(place);
    proofs::lemma_with_new(s, place);
    kept::lemma_with_new(s, place);
    assert(hung_at_home(s, t)) by {
        assert forall|x: NodeId| #[trigger] t.live(x) && s.live(x) implies {
            &&& t.parent(x) is None ==> s.parent(x) is None
            &&& t.parent(x) is Some ==> s.live(t.parent(x)->0) && s.home(t.parent(x)->0) == s.home(
                x,
            )
        } by {
            assert(t.parent(x) == s.parent(x));
            lemma_home(s, x);
            proofs::lemma_node(s, x);
        }
    }
    lemma_settled(s, t);
}

/// A node that hangs elsewhere in its tree.
proof fn lemma_hung(s: ForestView, t: ForestView, n: NodeId)
    requires
        s.wf(),
        s.live(n),
        t.parent(n) is Some,
        s.live(t.parent(n)->0),
        s.home(t.parent(n)->0) == s.home(n),
        forall|x: NodeId| #[trigger] t.live(x) ==> s.live(x),
        forall|x: NodeId| x != n && t.live(x) ==> #[trigger] t.parent(x) == s.parent(x),
    ensures
        hung_at_home(s, t),
{
    assert forall|x: NodeId| #[trigger] t.live(x) && s.live(x) implies {
        &&& t.parent(x) is None ==> s.parent(x) is None
        &&& t.parent(x) is Some ==> s.live(t.parent(x)->0) && s.home(t.parent(x)->0) == s.home(x)
    } by {
        if x != n {
            assert(t.parent(x) == s.parent(x));
            lemma_home(s, x);
            proofs::lemma_node(s, x);
        }
    }
}

pub proof fn lemma_shifted(s: ForestView, n: NodeId, place: Place)
    requires
        s.wf(),
        s.can_move_at_home(n, place),
    ensures
        settled(s, s.shifted(n, place)),
{
    let t = s.shifted(n, place);
    proofs::lemma_shifted(s, n, place);
    proofs::lemma_detached(s, n);
    kept::lemma_shifted(s, n, place);
    assert forall|x: NodeId| #[trigger] t.live(x) implies s.live(x) by {
        assert(t.nodes.dom().contains(x));
    }
    let loose = s.detached(n);
    assert forall|x: NodeId| x != n && t.live(x) implies #[trigger] t.parent(x) == s.parent(x) by {
        assert(loose.parent(x) == s.parent(x));
    }
    lemma_hung(s, t, n);
    lemma_settled(s, t);
}

pub proof fn lemma_reseated(s: ForestView, n: NodeId, place: Place)
    requires
        s.wf(),
    ensures
        settled(s, s.reseated(n, place)),
{
    if s.can_move_at_home(n, place) {
        lemma_shifted(s, n, place);
    } else {
        lemma_refl(s);
    }
}

proof fn lemma_hoisted(s: ForestView, p: NodeId)
    requires
        s.wf(),
        s.parent(p) is Some,
        s.children(p).len() == 1,
        s.window(p) is None,
    ensures
        settled(s, s.hoisted(s.children(p)[0], p)),
{
    let c = s.children(p)[0];
    let g = s.parent(p)->0;
    let t = s.hoisted(c, p);
    proofs::lemma_hoisted(s, p);
    proofs::lemma_detached(s, c);
    let loose = s.detached(c);
    let a = loose.attached(c, g, loose.rank(p) + 1);
    kept::lemma_reattached(s, c, g, loose.rank(p) + 1);
    kept::lemma_noting(a, SizeChange::Inherited { node: c, from: p });
    kept::lemma_trans(s, a, t);
    lemma_home(s, p);
    lemma_home(s, c);
    assert(t.parent(c) == Some(g));
    assert forall|x: NodeId| #[trigger] t.live(x) implies s.live(x) by {
        assert(t.nodes.dom().contains(x));
    }
    assert forall|x: NodeId| x != c && t.live(x) implies #[trigger] t.parent(x) == s.parent(x) by {
        assert(loose.parent(x) == s.parent(x));
    }
    lemma_hung(s, t, c);
    lemma_settled(s, t);
}

/// A childless node without window leaves no trace.
pub proof fn lemma_taken_out(s: ForestView, p: NodeId)
    requires
        s.wf(),
        s.parent(p) is Some,
        s.children(p).len() == 0,
        s.window(p) is None,
    ensures
        settled(s, s.detached(p).dropped(p)),
{
    let t = s.detached(p).dropped(p);
    proofs::lemma_detached(s, p);
    proofs::lemma_dropped(s.detached(p), p);
    kept::lemma_taken_out(s, p);
    let loose = s.detached(p);
    assert(hung_at_home(s, t)) by {
        assert forall|x: NodeId| #[trigger] t.live(x) && s.live(x) implies {
            &&& t.parent(x) is None ==> s.parent(x) is None
            &&& t.parent(x) is Some ==> s.live(t.parent(x)->0) && s.home(t.parent(x)->0) == s.home(
                x,
            )
        } by {
            assert(x != p);
            assert(loose.parent(x) == s.parent(x));
            lemma_home(s, x);
            proofs::lemma_node(s, x);
        }
    }
    lemma_settled(s, t);
}

pub proof fn lemma_collapsed(s: ForestView, p: NodeId)
    requires
        s.wf(),
        s.window(p) is None,
    ensures
        settled(s, s.collapsed(p)),
    decreases s.nodes.dom().len(),
{
    if s.parent(p) is None || s.children(p).len() > 1 {
        lemma_refl(s);
    } else {
        let above = s.parent(p)->0;
        proofs::lemma_node(s, p);
        let ready = if s.children(p).len() == 1 {
            s.hoisted(s.children(p)[0], p)
        } else {
            s
        };
        if s.children(p).len() == 1 {
            proofs::lemma_hoisted(s, p);
            lemma_hoisted(s, p);
        } else {
            lemma_refl(s);
        }
        assert(ready.window(p) is None) by {
            if ready.window(p) is Some {
                assert(s.window(p) == ready.window(p));
            }
        }
        assert(s.window(above) is None);
        proofs::lemma_detached(ready, p);
        proofs::lemma_dropped(ready.detached(p), p);
        lemma_taken_out(ready, p);
        let next = ready.detached(p).dropped(p);
        lemma_trans(s, ready, next);
        assert(next.window(above) is None) by {
            if next.window(above) is Some {
                assert(s.window(above) == next.window(above));
            }
        }
        lemma_collapsed(next, above);
        lemma_trans(s, next, s.collapsed(p));
    }
}

/// Moving a node within its tree neither adds nor loses windows of any tree.
pub proof fn lemma_moved(s: ForestView, n: NodeId, place: Place)
    requires
        s.wf(),
    ensures
        settled(s, s.moved(n, place)),
{
    if s.can_move_at_home(n, place) {
        lemma_shifted(s, n, place);
        let p = s.parent(n)->0;
        let t = s.shifted(n, place);
        proofs::lemma_node(s, n);
        assert(t.window(p) is None) by {
            if t.window(p) is Some {
                assert(s.window(p) == t.window(p));
            }
        }
        lemma_collapsed(t, p);
        lemma_trans(s, t, s.moved(n, place));
    } else {
        lemma_refl(s);
    }
}

/// The windows of nodes, counted.
pub open spec fn census(s: ForestView, nodes: Seq<NodeId>) -> Multiset<WindowId> {
    s.windows_of(nodes).to_multiset()
}

/// What one node adds to the count.
pub open spec fn head_count(s: ForestView, n: NodeId) -> Multiset<WindowId> {
    match s.window(n) {
        Some(w) => Multiset::singleton(w),
        None => Multiset::empty(),
    }
}

proof fn lemma_census_push(s: ForestView, nodes: Seq<NodeId>)
    requires
        nodes.len() > 0,
    ensures
        census(s, nodes) == census(s, nodes.drop_last()).add(head_count(s, nodes.last())),
{
    broadcast use vstd::seq_lib::group_to_multiset_ensures;

    let rest = s.windows_of(nodes.drop_last());
    match s.window(nodes.last()) {
        Some(w) => {
            assert(rest.push(w).to_multiset() =~= rest.to_multiset().add(Multiset::singleton(w)));
        },
        None => {
            assert(rest.to_multiset() =~= rest.to_multiset().add(Multiset::empty()));
        },
    }
}

/// The place of a node in a list does not matter to the count.
proof fn lemma_census_remove(s: ForestView, nodes: Seq<NodeId>, j: int)
    requires
        0 <= j < nodes.len(),
    ensures
        census(s, nodes) == census(s, nodes.remove(j)).add(head_count(s, nodes[j])),
    decreases nodes.len(),
{
    lemma_census_push(s, nodes);
    if j == nodes.len() - 1 {
        assert(nodes.remove(j) =~= nodes.drop_last());
    } else {
        let front = nodes.drop_last();
        lemma_census_remove(s, front, j);
        let rest = nodes.remove(j);
        assert(rest.drop_last() =~= front.remove(j));
        assert(rest.last() == nodes.last());
        lemma_census_push(s, rest);
        assert(census(s, front.remove(j)).add(head_count(s, nodes[j])).add(
            head_count(s, nodes.last()),
        ) =~= census(s, front.remove(j)).add(head_count(s, nodes.last())).add(
            head_count(s, nodes[j]),
        ));
    }
}

/// The node shows the same window, if any, whichever list it is counted in.
pub open spec fn same_showing(
    s: ForestView,
    a: Seq<NodeId>,
    t: ForestView,
    b: Seq<NodeId>,
    x: NodeId,
) -> bool {
    &&& (a.contains(x) && s.window(x) is Some) == (b.contains(x) && t.window(x) is Some)
    &&& a.contains(x) && s.window(x) is Some ==> t.window(x) == s.window(x)
}

/// Lists without repetition that show the same windows at the same nodes count alike.
pub proof fn lemma_census_same(s: ForestView, a: Seq<NodeId>, t: ForestView, b: Seq<NodeId>)
    requires
        a.no_duplicates(),
        b.no_duplicates(),
        forall|x: NodeId| #[trigger] same_showing(s, a, t, b, x),
    ensures
        census(s, a) == census(t, b),
    decreases a.len(), b.len(),
{
    if a.len() > 0 {
        let x = a.last();
        let front = a.drop_last();
        lemma_census_push(s, a);
        assert(a[a.len() - 1] == x);
        assert(same_showing(s, a, t, b, x));
        assert(!front.contains(x)) by {
            if front.contains(x) {
                let i = choose|i: int| 0 <= i < front.len() && front[i] == x;
                assert(a[i] == x);
            }
        }
        assert forall|y: NodeId| a.contains(y) <==> front.contains(y) || y == x by {
            if a.contains(y) {
                let i = choose|i: int| 0 <= i < a.len() && a[i] == y;
                if i < front.len() {
                    assert(front[i] == y);
                }
            }
            if front.contains(y) {
                let i = choose|i: int| 0 <= i < front.len() && front[i] == y;
                assert(a[i] == y);
            }
        }
        if s.window(x) is Some {
            let j = choose|j: int| 0 <= j < b.len() && b[j] == x;
            let rest = b.remove(j);
            lemma_census_remove(t, b, j);
            lemma_removed_members(b, j);
            assert forall|y: NodeId| #[trigger] same_showing(s, front, t, rest, y) by {
                assert(same_showing(s, a, t, b, y));
            }
            lemma_census_same(s, front, t, rest);
        } else {
            assert forall|y: NodeId| #[trigger] same_showing(s, front, t, b, y) by {
                assert(same_showing(s, a, t, b, y));
            }
            lemma_census_same(s, front, t, b);
            assert(census(s, front).add(Multiset::empty()) =~= census(s, front));
        }
    } else if b.len() > 0 {
        let x = b.last();
        lemma_census_push(t, b);
        assert(b[b.len() - 1] == x);
        assert(same_showing(s, a, t, b, x));
        let front = b.drop_last();
        assert forall|y: NodeId| #[trigger] same_showing(s, a, t, front, y) by {
            assert(same_showing(s, a, t, b, y));
            if front.contains(y) {
                let i = choose|i: int| 0 <= i < front.len() && front[i] == y;
                assert(b[i] == y);
            }
        }
        lemma_census_same(s, a, t, front);
        assert(census(t, front).add(Multiset::empty()) =~= census(t, front));
    } else {
        assert(a =~= b);
        assert(s.windows_of(a) =~= t.windows_of(b));
    }
}

/// A list without one of its distinct members.
proof fn lemma_removed_members(b: Seq<NodeId>, j: int)
    requires
        b.no_duplicates(),
        0 <= j < b.len(),
    ensures
        b.remove(j).no_duplicates(),
        forall|y: NodeId| #[trigger] b.remove(j).contains(y) <==> b.contains(y) && y != b[j],
{
    let rest = b.remove(j);
    assert forall|y: NodeId| #[trigger] rest.contains(y) <==> b.contains(y) && y != b[j] by {
        if rest.contains(y) {
            let i = choose|i: int| 0 <= i < rest.len() && rest[i] == y;
            assert(b[if i < j { i } else { i + 1 }] == y);
        }
        if b.contains(y) && y != b[j] {
            let i = choose|i: int| 0 <= i < b.len() && b[i] == y;
            assert(rest[if i < j { i } else { i - 1 }] == y);
        }
    }
}

/// The node shows a window of the tree with root `r`.
pub open spec fn shown_in(s: ForestView, r: NodeId, x: NodeId) -> bool {
    s.window(x) is Some && s.home(x) == r
}

/// A traversal from a root lists the nodes of its tree.
pub proof fn lemma_shown_in(s: ForestView, r: NodeId, x: NodeId)
    requires
        s.wf(),
        s.live(r),
        s.parent(r) is None,
    ensures
        s.preorder(r).no_duplicates(),
        s.preorder(r).contains(x) ==> s.live(x),
        s.live(x) ==> (s.preorder(r).contains(x) <==> s.home(x) == r),
        (s.preorder(r).contains(x) && s.window(x) is Some) == shown_in(s, r, x),
{
    proofs::lemma_preorder(s, r);
    if s.preorder(r).contains(x) {
        let i = choose|i: int| 0 <= i < s.preorder(r).len() && s.preorder(r)[i] == x;
        assert(s.live(s.preorder(r)[i]));
    }
    if s.live(x) {
        lemma_root_above(s, r, x);
        if s.home(x) == r {
            proofs::lemma_preorder_complete(s, r, x);
        }
    }
}

/// Trees that show the same windows at the same nodes hold the same windows.
pub proof fn lemma_same_windows(s: ForestView, r: NodeId, t: ForestView, q: NodeId)
    requires
        s.wf(),
        s.live(r),
        s.parent(r) is None,
        t.wf(),
        t.live(q),
        t.parent(q) is None,
        forall|x: NodeId| #[trigger] shown_in(s, r, x) == shown_in(t, q, x),
        forall|x: NodeId| #[trigger] shown_in(s, r, x) ==> t.window(x) == s.window(x),
    ensures
        s.windows_under(r).to_multiset() == t.windows_under(q).to_multiset(),
{
    let a = s.preorder(r);
    let b = t.preorder(q);
    lemma_shown_in(s, r, r);
    lemma_shown_in(t, q, q);
    assert forall|x: NodeId| #[trigger] same_showing(s, a, t, b, x) by {
        lemma_shown_in(s, r, x);
        lemma_shown_in(t, q, x);
        assert(shown_in(s, r, x) == shown_in(t, q, x));
    }
    lemma_census_same(s, a, t, b);
}

/// As `lemma_same_windows`, but the second tree shows one window more.
pub proof fn lemma_one_more(s: ForestView, r: NodeId, t: ForestView, q: NodeId, y: NodeId)
    requires
        s.wf(),
        s.live(r),
        s.parent(r) is None,
        t.wf(),
        t.live(q),
        t.parent(q) is None,
        !shown_in(s, r, y),
        shown_in(t, q, y),
        forall|x: NodeId| x != y ==> #[trigger] shown_in(s, r, x) == shown_in(t, q, x),
        forall|x: NodeId| #[trigger] shown_in(s, r, x) ==> t.window(x) == s.window(x),
    ensures
        t.windows_under(q).to_multiset() == s.windows_under(r).to_multiset().insert(
            t.window(y)->0,
        ),
{
    let a = s.preorder(r);
    let b = t.preorder(q);
    lemma_shown_in(s, r, r);
    lemma_shown_in(t, q, y);
    let j = choose|j: int| 0 <= j < b.len() && b[j] == y;
    let rest = b.remove(j);
    lemma_census_remove(t, b, j);
    lemma_removed_members(b, j);
    assert forall|x: NodeId| #[trigger] same_showing(s, a, t, rest, x) by {
        lemma_shown_in(s, r, x);
        lemma_shown_in(t, q, x);
        if x != y {
            assert(shown_in(s, r, x) == shown_in(t, q, x));
        }
    }
    lemma_census_same(s, a, t, rest);
    assert(t.windows_under(q).to_multiset() =~= s.windows_under(r).to_multiset().insert(
        t.window(y)->0,
    ));
}

/// A tree holds a window if one of its nodes shows it.
pub proof fn lemma_windows_contain(s: ForestView, r: NodeId, w: WindowId)
    requires
        s.wf(),
        s.live(r),
        s.parent(r) is None,
    ensures
        s.windows_under(r).contains(w) <==> exists|x: NodeId| #[trigger]
            shown_in(s, r, x) && s.window(x) == Some(w),
{
    lemma_windows_of_contain(s, s.preorder(r), w);
    if s.windows_under(r).contains(w) {
        let i = choose|i: int|
            0 <= i < s.preorder(r).len() && s.window(#[trigger] s.preorder(r)[i]) == Some(w);
        lemma_shown_in(s, r, s.preorder(r)[i]);
        assert(shown_in(s, r, s.preorder(r)[i]));
    }
    if exists|x: NodeId| #[trigger] shown_in(s, r, x) && s.window(x) == Some(w) {
        let x = choose|x: NodeId| #[trigger] shown_in(s, r, x) && s.window(x) == Some(w);
        lemma_shown_in(s, r, x);
        let i = choose|i: int| 0 <= i < s.preorder(r).len() && s.preorder(r)[i] == x;
        assert(s.window(s.preorder(r)[i]) == Some(w));
    }
}

pub proof fn lemma_windows_of_contain(s: ForestView, nodes: Seq<NodeId>, w: WindowId)
    ensures
        s.windows_of(nodes).contains(w) <==> exists|i: int|
            0 <= i < nodes.len() && s.window(#[trigger] nodes[i]) == Some(w),
    decreases nodes.len(),
{
    if nodes.len() > 0 {
        let front = nodes.drop_last();
        lemma_windows_of_contain(s, front, w);
        let rest = s.windows_of(front);
        let all = s.windows_of(nodes);
        if all.contains(w) {
            let k = choose|k: int| 0 <= k < all.len() && all[k] == w;
            if k < rest.len() {
                assert(rest[k] == w);
                let i = choose|i: int|
                    0 <= i < front.len() && s.window(#[trigger] front[i]) == Some(w);
                assert(nodes[i] == front[i]);
            } else {
                assert(s.window(nodes[nodes.len() - 1]) == Some(w));
            }
        }
        if exists|i: int| 0 <= i < nodes.len() && s.window(#[trigger] nodes[i]) == Some(w) {
            let i = choose|i: int| 0 <= i < nodes.len() && s.window(#[trigger] nodes[i]) == Some(w);
            if i < front.len() {
                assert(front[i] == nodes[i]);
                let k = choose|k: int| 0 <= k < rest.len() && rest[k] == w;
                assert(all[k] == w);
            } else {
                assert(all[rest.len() as int] == w);
            }
        }
    }
}

/// The forest without the windows that fail a test.
spec fn hiding(s: ForestView, keep: spec_fn(WindowId) -> bool) -> ForestView {
    ForestView {
        nodes: s.nodes.map_values(
            |v: NodeView|
                NodeView {
                    info: NodeInfo {
                        window: if v.info.window is Some && keep(v.info.window->0) {
                            v.info.window
                        } else {
                            None
                        },
                        ..v.info
                    },
                    ..v
                },
        ),
        ..s
    }
}

proof fn lemma_hiding(s: ForestView, keep: spec_fn(WindowId) -> bool, nodes: Seq<NodeId>)
    ensures
        hiding(s, keep).windows_of(nodes) == s.windows_of(nodes).filter(keep),
    decreases nodes.len(),
{
    reveal(Seq::filter);
    if nodes.len() > 0 {
        let front = nodes.drop_last();
        lemma_hiding(s, keep, front);
        let rest = s.windows_of(front);
        match s.window(nodes.last()) {
            Some(w) => {
                assert(rest.push(w).drop_last() =~= rest);
            },
            None => {},
        }
    } else {
        assert(s.windows_of(nodes).filter(keep) =~= Seq::empty());
    }
}

/// A tree that lost exactly the windows that fail a test.
pub proof fn lemma_some_fewer(
    s: ForestView,
    r: NodeId,
    t: ForestView,
    q: NodeId,
    keep: spec_fn(WindowId) -> bool,
)
    requires
        s.wf(),
        s.live(r),
        s.parent(r) is None,
        t.wf(),
        t.live(q),
        t.parent(q) is None,
        forall|x: NodeId| #[trigger]
            shown_in(t, q, x) == (shown_in(s, r, x) && keep(s.window(x)->0)),
        forall|x: NodeId| #[trigger] shown_in(t, q, x) ==> t.window(x) == s.window(x),
    ensures
        t.windows_under(q).to_multiset() == s.windows_under(r).filter(keep).to_multiset(),
{
    let a = s.preorder(r);
    let b = t.preorder(q);
    let h = hiding(s, keep);
    lemma_shown_in(s, r, r);
    lemma_shown_in(t, q, q);
    assert forall|x: NodeId| #[trigger] same_showing(h, a, t, b, x) by {
        lemma_shown_in(s, r, x);
        lemma_shown_in(t, q, x);
        assert(shown_in(t, q, x) == (shown_in(s, r, x) && keep(s.window(x)->0)));
    }
    lemma_census_same(h, a, t, b);
    lemma_hiding(s, keep, a);
}

/// Forests with the same children traverse alike.
pub proof fn lemma_same_preorder(s: ForestView, t: ForestView, n: NodeId)
    requires
        s.wf(),
        t.wf(),
        s.live(n),
        forall|x: NodeId| s.live(x) ==> #[trigger] t.live(x) && t.children(x) == s.children(x),
    ensures
        t.preorder(n) == s.preorder(n),
    decreases view::height(s.nodes, n), s.children(n).len() + 1,
{
    assert(t.live(n));
    lemma_same_preorder_below(s, t, n, s.children(n).len());
}

proof fn lemma_same_preorder_below(s: ForestView, t: ForestView, n: NodeId, upto: nat)
    requires
        s.wf(),
        t.wf(),
        s.live(n),
        upto <= s.children(n).len(),
        forall|x: NodeId| s.live(x) ==> #[trigger] t.live(x) && t.children(x) == s.children(x),
    ensures
        t.preorder_below(n, upto) == s.preorder_below(n, upto),
    decreases view::height(s.nodes, n), upto,
{
    assert(t.live(n));
    if upto > 0 {
        let c = s.children(n)[upto - 1];
        proofs::lemma_node(s, n);
        proofs::lemma_node(t, n);
        assert(s.nodes[n].children[upto - 1] == c);
        assert(t.nodes[n].children[upto - 1] == c);
        lemma_same_preorder_below(s, t, n, (upto - 1) as nat);
        lemma_same_preorder(s, t, c);
    }
}

/// The same nodes with exchanged windows.
pub proof fn lemma_windows_mapped(
    s: ForestView,
    t: ForestView,
    nodes: Seq<NodeId>,
    change: spec_fn(WindowId) -> WindowId,
)
    requires
        forall|i: int|
            0 <= i < nodes.len() ==> t.window(#[trigger] nodes[i]) == (match s.window(nodes[i]) {
                Some(w) => Some(change(w)),
                None => None,
            }),
    ensures
        t.windows_of(nodes) == s.windows_of(nodes).map_values(change),
    decreases nodes.len(),
{
    if nodes.len() > 0 {
        let front = nodes.drop_last();
        assert forall|i: int| 0 <= i < front.len() implies t.window(#[trigger] front[i]) == (
        match s.window(front[i]) {
            Some(w) => Some(change(w)),
            None => None,
        }) by {
            assert(nodes[i] == front[i]);
        }
        lemma_windows_mapped(s, t, front, change);
        assert(nodes[nodes.len() - 1] == nodes.last());
        let rest = s.windows_of(front);
        match s.window(nodes.last()) {
            Some(w) => {
                assert(rest.push(w).map_values(change) =~= rest.map_values(change).push(
                    change(w),
                ));
            },
            None => {},
        }
    } else {
        assert(s.windows_of(nodes).map_values(change) =~= t.windows_of(nodes));
    }
}

/// Nodes that show the same windows list the same windows.
pub proof fn lemma_same_windows_of(f: ForestView, g: ForestView, nodes: Seq<NodeId>)
    requires
        forall|x: NodeId| #[trigger] g.window(x) == f.window(x),
    ensures
        g.windows_of(nodes) == f.windows_of(nodes),
    decreases nodes.len(),
{
    if nodes.len() > 0 {
        lemma_same_windows_of(f, g, nodes.drop_last());
        assert(g.window(nodes.last()) == f.window(nodes.last()));
    }
}

/// The windows of two lists of nodes.
pub proof fn lemma_windows_of_concat(f: ForestView, a: Seq<NodeId>, b: Seq<NodeId>)
    ensures
        f.windows_of(a + b) == f.windows_of(a) + f.windows_of(b),
    decreases b.len(),
{
    if b.len() == 0 {
        assert(a + b =~= a);
        assert(f.windows_of(a) + f.windows_of(b) =~= f.windows_of(a));
    } else {
        let front = b.drop_last();
        lemma_windows_of_concat(f, a, front);
        assert((a + b).drop_last() =~= a + front);
        assert((a + b).last() == b.last());
        match f.window(b.last()) {
            Some(w) => {
                assert((f.windows_of(a) + f.windows_of(front)).push(w) =~= f.windows_of(a) + (
                f.windows_of(front).push(w)));
            },
            None => {},
        }
    }
}

} // verus!
