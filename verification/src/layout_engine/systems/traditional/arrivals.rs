//! Selecting nodes and adding windows.

use vstd::prelude::*;

use crate::actor::{LayoutId, WindowId};
use crate::layout_engine::LayoutKind;
use crate::layout_engine::systems::traditional::filed;
use crate::layout_engine::systems::traditional::laws;
use crate::layout_engine::systems::traditional::view::TraditionalView;
use crate::model::tree::homes;
use crate::model::tree::proofs;
use crate::model::tree::pruned;
use crate::model::tree::rows;
use crate::model::tree::view;
use crate::model::tree::view::{ForestView, NodeId, Place, SizeChange, WindowEntry};

verus! {

/// The node that holds the selection below a node belongs to its tree.
pub proof fn lemma_selected_below(f: ForestView, n: NodeId)
    requires
        f.wf(),
        f.live(n),
    ensures
        f.live(f.selected_below(n)),
        f.home(f.selected_below(n)) == f.home(n),
    decreases view::height(f.nodes, n),
{
    if f.local_selection(n) is Some {
        let c = f.local_selection(n)->0;
        proofs::lemma_pick(f, n);
        homes::lemma_home(f, c);
        lemma_selected_below(f, c);
    }
}

/// Every node on the path to a selected node leads to it.
proof fn lemma_path_leads(s: ForestView, n: NodeId, i: int)
    requires
        s.wf(),
        s.live(n),
        0 <= i < s.ancestors(n).len(),
    ensures
        s.selected(n).selected_below(s.ancestors(n)[i]) == n,
    decreases i,
{
    let t = s.selected(n);
    let path = s.ancestors(n);
    proofs::lemma_ancestors(s, n);
    proofs::lemma_selected(s, n);
    let k = path[i];
    assert(s.live(k));
    assert(path.contains(k));
    assert(path.index_of(k) == i);
    if i == 0 {
        assert(t.nodes[n].info == s.stopping_at(n).nodes[n].info);
        assert(t.local_selection(n) is None);
    } else {
        assert(t.local_selection(k) == Some(path[i - 1]));
        proofs::lemma_pick(t, k);
        lemma_path_leads(s, n, i - 1);
    }
}

/// After a node of a layout was selected, it is the selection of the layout.
pub proof fn law_selected(s: TraditionalView, layout: LayoutId, n: NodeId)
    requires
        s.wf(),
        s.forest.live(n),
        s.forest.home(n) == s.root(layout),
    ensures
        s.with_forest(s.forest.selected(n)).selection(layout) == n,
        s.with_forest(s.forest.selected(n)).selected_window(layout) == s.forest.window(n),
{
    let f = s.forest;
    proofs::lemma_ancestors(f, n);
    let path = f.ancestors(n);
    lemma_path_leads(f, n, path.len() - 1);
    homes::lemma_selected(f, n);
    let g = f.selected(n);
    assert(g.window(n) == f.window(n)) by {
        if f.window(n) is Some {
            assert(g.window(n) == f.window(n));
        }
        if g.window(n) is Some {
            assert(g.window(n) == f.window(n));
        }
    }
}

/// Selecting a window of a layout makes it the selected window.
pub proof fn law_window_selected(s: TraditionalView, layout: LayoutId, window: WindowId)
    requires
        s.wf(),
        filed::filed(s),
        s.has(layout),
        s.all_windows(layout).contains(window),
    ensures
        s.window_selected(layout, window).selected_window(layout) == Some(window),
        laws::keeps_windows(s, s.window_selected(layout, window)),
{
    filed::law_contains(s, layout, window);
    let n = s.forest.node_for(layout, window)->0;
    assert(s.forest.live(n));
    law_selected(s, layout, n);
    homes::lemma_selected(s.forest, n);
    laws::lemma_settled(s, s.forest.selected(n));
}

/// One window came to a layout; nothing else did.
pub open spec fn arrived(
    s: TraditionalView,
    t: TraditionalView,
    layout: LayoutId,
    window: WindowId,
) -> bool {
    &&& t.wf()
    &&& t.roots == s.roots
    &&& filed::filed(s) ==> filed::filed(t)
    &&& forall|l: LayoutId|
        s.has(l) ==> #[trigger] t.all_windows(l).to_multiset() == (if l == layout {
            s.all_windows(l).to_multiset().insert(window)
        } else {
            s.all_windows(l).to_multiset()
        })
}

pub proof fn lemma_entry_slot(index: Seq<WindowEntry>, window: WindowId, from: int)
    requires
        0 <= from <= index.len(),
    ensures
        from <= view::entry_slot(index, window, from) <= index.len(),
    decreases index.len() - from,
{
    if from < index.len() && index[from].window.le(window) {
        lemma_entry_slot(index, window, from + 1);
    }
}

/// The entries of an index with one more.
pub proof fn lemma_index_with(index: Seq<WindowEntry>, entry: WindowEntry)
    ensures
        ({
            let k = view::entry_slot(index, entry.window, 0);
            let more = view::index_with(index, entry);
            &&& 0 <= k <= index.len()
            &&& more.len() == index.len() + 1
            &&& more[k] == entry
            &&& forall|i: int|
                0 <= i < more.len() && i != k ==> #[trigger] more[i] == index[if i < k {
                    i
                } else {
                    i - 1
                }]
            &&& forall|i: int|
                0 <= i < index.len() ==> #[trigger] index[i] == more[if i < k {
                    i
                } else {
                    i + 1
                }]
        }),
{
    lemma_entry_slot(index, entry.window, 0);
}

/// A childless node of a layout is given a window.
proof fn lemma_window_given(s: TraditionalView, layout: LayoutId, n: NodeId, window: WindowId)
    requires
        s.wf(),
        s.has(layout),
        s.forest.live(n),
        s.forest.parent(n) is Some,
        s.forest.children(n).len() == 0,
        s.forest.window(n) is None,
        s.forest.home(n) == s.root(layout),
    ensures
        ({
            let g = s.forest.with_window(layout, n, window);
            &&& arrived(s, s.with_forest(g), layout, window)
            &&& g.live(n)
            &&& g.window(n) == Some(window)
            &&& g.home(n) == s.root(layout)
        }),
{
    let f = s.forest;
    let g = f.with_window(layout, n, window);
    let t = s.with_forest(g);
    proofs::lemma_with_window(f, layout, n, window);
    assert(g.nodes.dom() =~= f.nodes.dom());
    assert forall|x: NodeId| #[trigger] g.parent(x) == f.parent(x) by {}
    assert forall|x: NodeId| x != n implies #[trigger] g.window(x) == f.window(x) by {}
    assert(homes::hung_at_home(f, g)) by {
        assert forall|x: NodeId| #[trigger] g.live(x) && f.live(x) implies {
            &&& g.parent(x) is None ==> f.parent(x) is None
            &&& g.parent(x) is Some ==> f.live(g.parent(x)->0) && f.home(g.parent(x)->0) == f.home(
                x,
            )
        } by {
            assert(g.parent(x) == f.parent(x));
            homes::lemma_home(f, x);
            proofs::lemma_node(f, x);
        }
    }
    homes::lemma_homes(f, g);
    assert forall|l: LayoutId| #[trigger] t.roots.contains_key(l) implies {
        &&& l.issued()
        &&& g.live(t.roots[l])
        &&& g.parent(t.roots[l]) is None
        &&& g.window(t.roots[l]) is None
    } by {
        assert(s.roots.contains_key(l));
        assert(g.parent(t.roots[l]) == f.parent(t.roots[l]));
        assert(t.roots[l] != n);
    }
    assert forall|l: LayoutId| s.has(l) implies #[trigger] t.all_windows(l).to_multiset() == (if l
        == layout {
        s.all_windows(l).to_multiset().insert(window)
    } else {
        s.all_windows(l).to_multiset()
    }) by {
        let r = s.root(l);
        assert(s.roots.contains_key(l) && t.roots.contains_key(l));
        assert forall|x: NodeId| x != n implies #[trigger] homes::shown_in(f, r, x)
            == homes::shown_in(g, r, x) by {
            assert(g.window(x) == f.window(x));
            if f.window(x) is Some {
                assert(g.live(x) && f.live(x));
                assert(g.home(x) == f.home(x));
            }
        }
        assert forall|x: NodeId| #[trigger] homes::shown_in(f, r, x) implies g.window(x)
            == f.window(x) by {
            assert(x != n);
        }
        if l == layout {
            assert(homes::shown_in(g, r, n));
            homes::lemma_one_more(f, r, g, r, n);
        } else {
            assert(s.roots[l] != s.roots[layout]);
            assert(g.home(n) == f.home(n));
            assert(homes::shown_in(f, r, n) == homes::shown_in(g, r, n));
            assert forall|x: NodeId| #[trigger] homes::shown_in(f, r, x)
                == homes::shown_in(g, r, x) by {}
            homes::lemma_same_windows(f, r, g, r);
        }
    }
    if filed::filed(s) {
        let entry = WindowEntry { window, layout, node: n };
        lemma_index_with(f.index, entry);
        let k = view::entry_slot(f.index, window, 0);
        assert(g.index == view::index_with(f.index, entry));
        assert forall|i: int| 0 <= i < f.index.len() implies (#[trigger] f.index[i]).node != n by {
            assert(f.window(f.index[i].node) is Some);
        }
        assert forall|i: int| 0 <= i < g.index.len() implies g.window((#[trigger] g.index[i]).node)
            == Some(g.index[i].window) && filed::in_its_layout(t, g.index[i]) by {
            if i != k {
                let j = if i < k { i } else { i - 1 };
                assert(g.index[i] == f.index[j]);
                assert(f.window(f.index[j].node) == Some(f.index[j].window));
                assert(filed::in_its_layout(s, f.index[j]));
                assert(f.live(f.index[j].node));
            }
        }
        assert(filed::distinct_nodes(g.index)) by {
            assert forall|i: int, j: int| 0 <= i < j < g.index.len() implies (
            #[trigger] g.index[i]).node != (#[trigger] g.index[j]).node by {
                if i != k && j != k {
                    let a = if i < k { i } else { i - 1 };
                    let b = if j < k { j } else { j - 1 };
                    assert(g.index[i] == f.index[a] && g.index[j] == f.index[b]);
                } else if i == k {
                    assert(g.index[j] == f.index[j - 1]);
                } else {
                    assert(g.index[i] == f.index[i]);
                }
            }
        }
        assert forall|x: NodeId| (#[trigger] g.window(x)) is Some implies filed::listed(g, x) by {
            if x == n {
                assert(g.index[k].node == n);
            } else {
                assert(f.window(x) is Some);
                assert(filed::listed(f, x));
                let j = choose|j: int|
                    0 <= j < f.index.len() && (#[trigger] f.index[j]).node == x;
                assert(g.index[if j < k { j } else { j + 1 }] == f.index[j]);
            }
        }
    }
}

/// A rearrangement followed by an arrival.
pub proof fn lemma_arrived_after(
    s: TraditionalView,
    base: TraditionalView,
    t: TraditionalView,
    layout: LayoutId,
    window: WindowId,
)
    requires
        laws::keeps_windows(s, base),
        base.roots == s.roots,
        arrived(base, t, layout, window),
    ensures
        arrived(s, t, layout, window),
{
    assert forall|l: LayoutId| s.has(l) implies #[trigger] t.all_windows(l).to_multiset() == (if l
        == layout {
        s.all_windows(l).to_multiset().insert(window)
    } else {
        s.all_windows(l).to_multiset()
    }) by {
        assert(base.has(l));
        assert(base.all_windows(l).to_multiset() == s.all_windows(l).to_multiset());
    }
}

/// An arrival followed by a rearrangement.
pub proof fn lemma_arrived_before(
    s: TraditionalView,
    t: TraditionalView,
    after: TraditionalView,
    layout: LayoutId,
    window: WindowId,
)
    requires
        arrived(s, t, layout, window),
        laws::keeps_windows(t, after),
        after.roots == t.roots,
    ensures
        arrived(s, after, layout, window),
{
    assert forall|l: LayoutId| s.has(l) implies #[trigger] after.all_windows(l).to_multiset() == (
    if l == layout {
        s.all_windows(l).to_multiset().insert(window)
    } else {
        s.all_windows(l).to_multiset()
    }) by {
        assert(t.has(l));
        assert(t.all_windows(l).to_multiset() == (if l == layout {
            s.all_windows(l).to_multiset().insert(window)
        } else {
            s.all_windows(l).to_multiset()
        }));
    }
}

/// A new node of a layout tree, after which only size steps follow, is given a
/// window.
pub proof fn lemma_window_entered(
    s: TraditionalView,
    layout: LayoutId,
    place: Place,
    window: WindowId,
    forest: ForestView,
)
    requires
        s.wf(),
        s.has(layout),
        s.forest.minted <= u64::MAX,
        s.forest.open_place(place),
        s.forest.home(s.forest.place_parent(place)->0) == s.root(layout),
        forest == (ForestView { changes: forest.changes, ..s.forest.with_new(place) }),
    ensures
        ({
            let n = s.forest.next_id();
            let g = forest.with_window(layout, n, window);
            &&& arrived(s, s.with_forest(g), layout, window)
            &&& g.live(n)
            &&& g.minted <= s.forest.minted + 1
            &&& g.window(n) == Some(window)
            &&& g.home(n) == s.root(layout)
        }),
{
    let f = s.forest;
    let n = f.next_id();
    let p = f.place_parent(place)->0;
    let f1 = f.with_new(place);
    proofs::lemma_with_new(f, place);
    homes::lemma_with_new(f, place);
    homes::lemma_still(f1, forest);
    homes::lemma_trans(f, f1, forest);
    laws::lemma_settled(s, forest);
    homes::lemma_home(forest, n);
    assert(f.live(p)) by {
        if place is Last {
        } else {
            proofs::lemma_node(f, ForestView::place_anchor(place));
        }
    }
    assert(forest.live(p));
    assert(forest.home(p) == f.home(p));
    let base = s.with_forest(forest);
    lemma_window_given(base, layout, n, window);
    lemma_arrived_after(
        s,
        base,
        base.with_forest(forest.with_window(layout, n, window)),
        layout,
        window,
    );
}

/// A container around one of several siblings.
pub proof fn lemma_nested_sibling(s: TraditionalView, layout: LayoutId, n: NodeId, kind: LayoutKind)
    requires
        s.wf(),
        s.forest.minted <= u64::MAX,
        s.forest.parent(n) is Some,
        s.forest.children(s.forest.parent(n)->0).len() > 1,
    ensures
        ({
            let (t, sub) = s.nested(layout, n, kind);
            &&& laws::keeps_windows(s, t)
            &&& t.roots == s.roots
            &&& t.forest.live(sub)
            &&& t.forest.window(sub) is None
            &&& t.forest.home(sub) == s.forest.home(n)
            &&& t.forest.minted == s.forest.minted + 1
        }),
{
    let f = s.forest;
    let p = f.parent(n)->0;
    let box_id = f.next_id();
    laws::lemma_nested(s, layout, n, kind);
    proofs::lemma_node(f, n);
    let place = Place::Before(n);
    let f1 = f.with_new(place);
    proofs::lemma_created(f);
    proofs::lemma_with_new(f, place);
    homes::lemma_with_new(f, place);
    homes::lemma_home(f, n);
    homes::lemma_home(f1, box_id);
    assert(f1.live(p));
    assert(f1.home(p) == f.home(p));
    assert(f1.children(p).len() == f.children(p).len() + 1);
    let f2 = f1.noting(SizeChange::Inherited { node: box_id, from: n });
    homes::lemma_noting(f1, SizeChange::Inherited { node: box_id, from: n });
    assert(f2.home(box_id) == f1.home(box_id));
    let last = Place::Last(box_id);
    let f3 = f2.moved(n, last);
    homes::lemma_moved(f2, n, last);
    assert(f3.live(box_id) && f3.minted == f.minted + 1) by {
        if f2.can_move_at_home(n, last) {
            proofs::lemma_shifted(f2, n, last);
            proofs::lemma_detached(f2, n);
            let u = f2.shifted(n, last);
            assert(f2.parent(n) == Some(p));
            assert(box_id != p);
            proofs::lemma_node(f2, n);
            let loose = f2.detached(n);
            assert(loose.children(p).len() == f2.children(p).len() - 1);
            assert(u.children(p) == loose.children(p));
            assert(f3 == u);
            assert(u.nodes.dom().contains(box_id));
        }
    }
    assert(f3.window(box_id) is None) by {
        if f3.window(box_id) is Some {
            assert(f2.window(box_id) == f3.window(box_id));
        }
    }
    assert(f3.home(box_id) == f2.home(box_id));
    let f4 = if f.local_selection(p) == Some(n) {
        f3.selected_locally(box_id)
    } else {
        f3
    };
    homes::lemma_refl(f3);
    homes::lemma_selected_locally(f3, box_id);
    assert(f4.live(box_id));
    assert(f4.home(box_id) == f3.home(box_id));
    let f5 = f4.selected_locally(n);
    homes::lemma_selected_locally(f4, n);
    assert(f5.live(box_id));
    assert(f5.home(box_id) == f4.home(box_id));
    homes::lemma_with_kind(f5, box_id, kind);
    let f6 = f5.with_kind(box_id, kind);
    assert(f6.live(box_id));
    assert(f6.home(box_id) == f5.home(box_id));
}

/// A window beside a node of a layout.
proof fn lemma_window_beside(s: TraditionalView, layout: LayoutId, n: NodeId, window: WindowId)
    requires
        s.wf(),
        s.has(layout),
        s.forest.minted < u64::MAX,
        s.forest.parent(n) is Some,
        s.forest.home(n) == s.root(layout),
    ensures
        ({
            let (t, added) = s.window_beside(layout, n, window);
            &&& arrived(s, t, layout, window)
            &&& t.forest.live(added)
            &&& t.forest.minted <= s.forest.minted + 2
            &&& t.forest.window(added) == Some(window)
            &&& t.forest.home(added) == s.root(layout)
        }),
{
    let f = s.forest;
    let p = f.parent(n)->0;
    proofs::lemma_node(f, n);
    homes::lemma_home(f, n);
    let crowded = f.children(p).len() >= 4 && !f.kind(p).stacks();
    let (base, place) = if crowded {
        let (t, sub) = s.nested(layout, n, f.kind(p));
        (t, Place::Last(sub))
    } else {
        (s, Place::After(n))
    };
    if crowded {
        lemma_nested_sibling(s, layout, n, f.kind(p));
    } else {
        homes::lemma_refl(f);
        laws::lemma_settled(s, f);
        assert(s.with_forest(f) == s);
    }
    let added = base.forest.next_id();
    let b1 = base.with_forest(base.forest.with_new(place));
    let t = b1.split_share(n, added);
    let after = t.with_forest(t.forest.with_window(layout, added, window));
    assert(base.roots == s.roots);
    lemma_window_entered(base, layout, place, window, t.forest);
    assert(after == base.with_forest(t.forest.with_window(layout, added, window)));
    lemma_arrived_after(s, base, after, layout, window);
}

/// The node that a new window is put beside belongs to the layout.
pub proof fn lemma_anchor(s: TraditionalView, layout: LayoutId)
    requires
        s.wf(),
        s.has(layout),
    ensures
        s.anchor(layout) is Some ==> {
            let n = s.anchor(layout)->0;
            s.forest.parent(n) is Some && s.forest.home(n) == s.root(layout)
        },
        s.anchor(layout) is None ==> s.selection(layout) == s.root(layout),
{
    let f = s.forest;
    let r = s.root(layout);
    assert(s.roots.contains_key(layout));
    lemma_selected_below(f, r);
    homes::lemma_home(f, r);
    let n = s.selection(layout);
    homes::lemma_home(f, n);
    if f.parent(n) is None {
        if f.last_selection(n) is Some {
            proofs::lemma_pick(f, n);
            homes::lemma_home(f, f.last_selection(n)->0);
        } else if f.last_child(n) is Some {
            proofs::lemma_node(f, n);
            let c = f.children(n)[f.children(n).len() - 1];
            assert(f.nodes[n].children[f.children(n).len() - 1] == c);
            homes::lemma_home(f, c);
        }
    }
}

/// Adding a window to a layout adds it once, to that layout only, and selects it.
pub proof fn law_window_added(s: TraditionalView, layout: LayoutId, window: WindowId)
    requires
        s.wf(),
        s.has(layout),
        s.forest.minted < u64::MAX,
    ensures
        arrived(s, s.window_added(layout, window), layout, window),
        s.window_added(layout, window).selected_window(layout) == Some(window),
        s.window_added(layout, window).forest.minted <= s.forest.minted + 2,
{
    let f = s.forest;
    let r = s.root(layout);
    assert(s.roots.contains_key(layout));
    homes::lemma_home(f, r);
    lemma_anchor(s, layout);
    let (t, added) = if s.point is EndOfTree || s.anchor(layout) is None {
        (s.window_put(layout, Place::Last(r), window), f.next_id())
    } else {
        s.window_beside(layout, s.anchor(layout)->0, window)
    };
    if s.point is EndOfTree || s.anchor(layout) is None {
        lemma_window_entered(s, layout, Place::Last(r), window, f.with_new(Place::Last(r)));
    } else {
        lemma_window_beside(s, layout, s.anchor(layout)->0, window);
    }
    let after = t.with_forest(t.forest.selected(added));
    assert(s.window_added(layout, window) == after);
    homes::lemma_selected(t.forest, added);
    laws::lemma_settled(t, t.forest.selected(added));
    lemma_arrived_before(s, t, after, layout, window);
    law_selected(t, layout, added);
}

/// A window put at the end of a row of windows, at the root or further down.
pub proof fn lemma_put_in(
    s: TraditionalView,
    layout: LayoutId,
    area: NodeId,
    row: Seq<WindowId>,
    window: WindowId,
)
    requires
        s.wf(),
        s.has(layout),
        s.forest.minted <= u64::MAX,
        s.forest.live(area),
        s.forest.window(area) is None,
        s.forest.home(area) == s.root(layout),
        rows::in_one_row(s.forest, area, row),
    ensures
        ({
            let t = s.window_put(layout, Place::Last(area), window);
            let n = s.forest.next_id();
            &&& arrived(s, t, layout, window)
            &&& rows::in_one_row(t.forest, area, row.push(window))
            &&& t.forest.children(area) == s.forest.children(area).push(n)
            &&& t.forest.minted == s.forest.minted + 1
            &&& t.forest.live(n)
            &&& t.forest.window(n) == Some(window)
            &&& t.forest.home(n) == s.root(layout)
            &&& forall|x: NodeId|
                s.forest.live(x) ==> {
                    &&& #[trigger] t.forest.live(x)
                    &&& x != n
                    &&& t.forest.window(x) == s.forest.window(x)
                    &&& t.forest.kind(x) == s.forest.kind(x)
                    &&& t.forest.parent(x) == s.forest.parent(x)
                    &&& x != area ==> t.forest.children(x) == s.forest.children(x)
                }
        }),
{
    let f = s.forest;
    let place = Place::Last(area);
    let n = f.next_id();
    proofs::lemma_created(f);
    proofs::lemma_with_new(f, place);
    let f1 = f.with_new(place);
    lemma_window_entered(s, layout, place, window, f1);
    let g = f1.with_window(layout, n, window);
    let kids = f.children(area);
    assert(f1.children(area) =~= kids.push(n));
    assert(g.children(area) =~= kids.push(n));
    proofs::lemma_node(f, area);
    assert forall|x: NodeId| f.live(x) implies {
        &&& #[trigger] g.live(x)
        &&& x != n
        &&& g.window(x) == f.window(x)
        &&& g.kind(x) == f.kind(x)
        &&& g.parent(x) == f.parent(x)
        &&& x != area ==> g.children(x) == f.children(x)
    } by {
        proofs::lemma_node(f, x);
    }
    assert forall|i: int| 0 <= i < row.push(window).len() implies g.window(
        #[trigger] g.children(area)[i],
    ) == Some(row.push(window)[i]) && g.children(g.children(area)[i]).len() == 0 by {
        if i < row.len() {
            let c = kids[i];
            assert(f.nodes[area].children[i] == c);
            assert(f.live(c));
            assert(c != area);
            assert(g.live(c));
        }
    }
}

/// Layouts other than the one that was cleared keep their windows.
pub proof fn lemma_others_kept(v: TraditionalView, layout: LayoutId, h: ForestView)
    requires
        v.wf(),
        v.has(layout),
        pruned::pruned(v.forest, h),
        v.with_forest(h).wf(),
        forall|x: NodeId|
            (#[trigger] v.forest.window(x)) is Some && v.forest.home(x) != v.root(layout)
                ==> h.window(x) == v.forest.window(x),
    ensures
        forall|l: LayoutId|
            v.has(l) && l != layout ==> #[trigger] v.with_forest(h).all_windows(l).to_multiset()
                == v.all_windows(l).to_multiset(),
{
    let f = v.forest;
    let bare = v.with_forest(h);
    assert forall|l: LayoutId| v.has(l) && l != layout implies #[trigger] bare.all_windows(
        l,
    ).to_multiset() == v.all_windows(l).to_multiset() by {
        let r = v.root(l);
        assert(v.roots.contains_key(l) && bare.roots.contains_key(l));
        assert(v.roots[l] != v.roots[layout]);
        assert forall|x: NodeId| #[trigger] homes::shown_in(f, r, x) == homes::shown_in(
            h,
            r,
            x,
        ) by {
            if h.window(x) is Some {
                assert(f.window(x) == h.window(x));
                assert(h.home(x) == f.home(x));
            }
            if homes::shown_in(f, r, x) {
                assert(h.window(x) == f.window(x));
                assert(h.home(x) == f.home(x));
            }
        }
        homes::lemma_same_windows(f, r, h, r);
    }
}

/// The selected window is one of the windows of the layout.
pub proof fn lemma_selected_listed(v: TraditionalView, layout: LayoutId)
    requires
        v.wf(),
        v.has(layout),
    ensures
        v.selected_window(layout) is Some ==> v.all_windows(layout).contains(
            v.selected_window(layout)->0,
        ),
{
    let root = v.root(layout);
    assert(v.roots.contains_key(layout));
    lemma_selected_below(v.forest, root);
    homes::lemma_home(v.forest, root);
    if v.selected_window(layout) is Some {
        assert(homes::shown_in(v.forest, root, v.selection(layout)));
        homes::lemma_windows_contain(v.forest, root, v.selected_window(layout)->0);
    }
}

/// Without windows nothing but the root is selected.
pub proof fn lemma_bare_selection(v: TraditionalView, layout: LayoutId)
    requires
        v.wf(),
        v.has(layout),
        v.forest.children(v.root(layout)).len() == 0,
    ensures
        v.selected_window(layout) is None,
        v.all_windows(layout) == Seq::<WindowId>::empty(),
{
    let f = v.forest;
    let root = v.root(layout);
    assert(v.roots.contains_key(layout));
    if f.local_selection(root) is Some {
        proofs::lemma_pick(f, root);
        proofs::lemma_node(f, root);
    }
    assert(rows::in_one_row(f, root, Seq::empty()));
    rows::lemma_row_windows(f, root, Seq::empty());
}

} // verus!
