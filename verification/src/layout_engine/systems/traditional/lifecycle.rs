//! Layouts come, go and are copied without touching each other.

use vstd::prelude::*;

use crate::actor::{LayoutId, WindowId};
use crate::layout_engine::systems::traditional::arrivals;
use crate::layout_engine::systems::traditional::filed;
use crate::layout_engine::systems::traditional::system;
use crate::layout_engine::systems::traditional::view::TraditionalView;
use crate::model::tree::culled;
use crate::model::tree::homes;
use crate::model::tree::kept;
use crate::model::tree::proofs;
use crate::model::tree::pruned;
use crate::model::tree::view;
use crate::model::tree::view::{ForestView, NodeId, WindowEntry};

verus! {

/// The layouts of `s` hold the same windows in `t`.
pub open spec fn others_keep(s: TraditionalView, t: TraditionalView) -> bool {
    forall|l: LayoutId|
        s.has(l) && t.has(l) ==> #[trigger] t.all_windows(l).to_multiset() == s.all_windows(
            l,
        ).to_multiset()
}

/// A new layout is empty, and the others keep their windows.
pub proof fn law_created(s: TraditionalView, layout: LayoutId)
    requires
        s.wf(),
        !s.has(layout),
        layout.issued(),
        s.forest.minted <= u64::MAX,
    ensures
        ({
            let t = s.with_layout(layout);
            &&& t.wf()
            &&& t.roots.dom() == s.roots.dom().insert(layout)
            &&& t.all_windows(layout) == Seq::<WindowId>::empty()
            &&& others_keep(s, t)
            &&& filed::filed(s) ==> filed::filed(t)
        }),
{
    let f = s.forest;
    let g = f.created();
    let n = f.next_id();
    let t = s.with_layout(layout);
    proofs::lemma_created(f);
    system::lemma_not_a_root(s, n);
    assert forall|x: NodeId| f.live(x) implies g.live(x) && x != n && #[trigger] g.window(x)
        == f.window(x) && g.parent(x) == f.parent(x) by {
        proofs::lemma_node(f, x);
    }
    assert(homes::hung_at_home(f, g)) by {
        assert forall|x: NodeId| #[trigger] g.live(x) && f.live(x) implies {
            &&& g.parent(x) is None ==> f.parent(x) is None
            &&& g.parent(x) is Some ==> f.live(g.parent(x)->0) && f.home(g.parent(x)->0) == f.home(
                x,
            )
        } by {
            assert(g.window(x) == f.window(x));
            homes::lemma_home(f, x);
            proofs::lemma_node(f, x);
        }
    }
    homes::lemma_homes(f, g);
    assert forall|l: LayoutId| #[trigger] t.roots.contains_key(l) implies {
        &&& l.issued()
        &&& g.live(t.roots[l])
        &&& g.parent(t.roots[l]) is None
        &&& g.window(t.roots[l]) is None
    } by {
        if l != layout {
            assert(s.roots.contains_key(l));
            assert(g.window(s.roots[l]) == f.window(s.roots[l]));
        }
    }
    arrivals::lemma_bare_selection(t, layout);
    assert forall|l: LayoutId| s.has(l) && t.has(l) implies #[trigger] t.all_windows(
        l,
    ).to_multiset() == s.all_windows(l).to_multiset() by {
        let r = s.root(l);
        assert(s.roots.contains_key(l) && t.roots.contains_key(l));
        assert forall|x: NodeId| #[trigger] homes::shown_in(f, r, x) == homes::shown_in(
            g,
            r,
            x,
        ) by {
            if f.live(x) {
                assert(g.window(x) == f.window(x));
                assert(g.home(x) == f.home(x));
            }
        }
        homes::lemma_same_windows(f, r, g, r);
    }
    assert(t.roots.dom() =~= s.roots.dom().insert(layout));
    if filed::filed(s) {
        assert forall|i: int| 0 <= i < g.index.len() implies g.window((#[trigger] g.index[i]).node)
            == Some(g.index[i].window) && filed::in_its_layout(t, g.index[i]) by {
            assert(f.window(f.index[i].node) is Some);
            assert(filed::in_its_layout(s, f.index[i]));
            assert(g.window(f.index[i].node) == f.window(f.index[i].node));
            assert(g.home(f.index[i].node) == f.home(f.index[i].node));
        }
        assert forall|x: NodeId| (#[trigger] g.window(x)) is Some implies filed::listed(g, x) by {
            assert(x != n);
            assert(f.live(x));
            assert(filed::listed(f, x));
        }
    }
}

/// Removing a layout leaves the others with their windows.
pub proof fn law_layout_removed(s: TraditionalView, layout: LayoutId)
    requires
        s.wf(),
        s.has(layout),
    ensures
        ({
            let t = s.without_layout(layout);
            &&& t.wf()
            &&& t.roots.dom() == s.roots.dom().remove(layout)
            &&& others_keep(s, t)
            &&& filed::filed(s) ==> filed::filed(t)
        }),
{
    let f = s.forest;
    let root = s.root(layout);
    assert(s.roots.contains_key(layout));
    let ns = f.preorder(root).reverse();
    let g = f.discarded(ns);
    let t = s.without_layout(layout);
    assert(t.forest == g);
    proofs::lemma_discarded(f, root);
    proofs::lemma_discarded_nodes(f, ns);
    assert forall|x: NodeId| f.live(x) implies (#[trigger] g.live(x) <==> f.home(x) != root) by {
        homes::lemma_root_above(f, root, x);
    }
    assert forall|x: NodeId| #[trigger] g.live(x) implies f.live(x) && g.window(x) == f.window(x)
        && g.parent(x) == f.parent(x) by {
        assert(g.nodes.contains_key(x));
    }
    assert(homes::hung_at_home(f, g)) by {
        assert forall|x: NodeId| #[trigger] g.live(x) && f.live(x) implies {
            &&& g.parent(x) is None ==> f.parent(x) is None
            &&& g.parent(x) is Some ==> f.live(g.parent(x)->0) && f.home(g.parent(x)->0) == f.home(
                x,
            )
        } by {
            homes::lemma_home(f, x);
            proofs::lemma_node(f, x);
        }
    }
    homes::lemma_homes(f, g);
    assert forall|l: LayoutId| #[trigger] t.roots.contains_key(l) implies {
        &&& l.issued()
        &&& g.live(t.roots[l])
        &&& g.parent(t.roots[l]) is None
        &&& g.window(t.roots[l]) is None
    } by {
        assert(s.roots.contains_key(l));
        assert(s.roots[l] != s.roots[layout]);
        homes::lemma_home(f, s.roots[l]);
        assert(g.live(s.roots[l]));
    }
    assert(t.roots.dom() =~= s.roots.dom().remove(layout));
    assert forall|l: LayoutId| s.has(l) && t.has(l) implies #[trigger] t.all_windows(
        l,
    ).to_multiset() == s.all_windows(l).to_multiset() by {
        let r = s.root(l);
        assert(s.roots.contains_key(l) && t.roots.contains_key(l));
        assert(s.roots[l] != s.roots[layout]);
        assert forall|x: NodeId| #[trigger] homes::shown_in(f, r, x) == homes::shown_in(
            g,
            r,
            x,
        ) by {
            if f.live(x) && f.home(x) != root {
                assert(g.live(x));
                assert(g.home(x) == f.home(x));
            }
            if g.live(x) {
                assert(f.live(x));
                assert(g.home(x) == f.home(x));
            }
        }
        homes::lemma_same_windows(f, r, g, r);
    }
    if filed::filed(s) {
        lemma_felled_filed(s, layout);
    }
}

proof fn lemma_felled_filed(s: TraditionalView, layout: LayoutId)
    requires
        s.wf(),
        s.has(layout),
        filed::filed(s),
    ensures
        filed::filed(s.without_layout(layout)),
{
    let f = s.forest;
    let root = s.root(layout);
    assert(s.roots.contains_key(layout));
    let ns = f.preorder(root).reverse();
    let g = f.discarded(ns);
    let t = s.without_layout(layout);
    let keep = |e: WindowEntry| !ns.contains(e.node);
    proofs::lemma_discarded(f, root);
    proofs::lemma_discarded_nodes(f, ns);
    pruned::lemma_discarded_index(f, ns);
    culled::lemma_filtered_ok(f.index, keep);
    filed::lemma_filter_distinct(f.index, keep);
    assert(homes::hung_at_home(f, g)) by {
        assert forall|x: NodeId| #[trigger] g.live(x) && f.live(x) implies {
            &&& g.parent(x) is None ==> f.parent(x) is None
            &&& g.parent(x) is Some ==> f.live(g.parent(x)->0) && f.home(g.parent(x)->0) == f.home(
                x,
            )
        } by {
            assert(g.nodes.contains_key(x));
            homes::lemma_home(f, x);
            proofs::lemma_node(f, x);
        }
    }
    homes::lemma_homes(f, g);
    assert forall|i: int| 0 <= i < g.index.len() implies g.window((#[trigger] g.index[i]).node)
        == Some(g.index[i].window) && filed::in_its_layout(t, g.index[i]) by {
        let j = choose|j: int| 0 <= j < f.index.len() && f.index[j] == g.index[i];
        let e = f.index[j];
        assert(keep(e));
        assert(f.window(e.node) == Some(e.window));
        assert(filed::in_its_layout(s, e));
        assert(g.nodes.contains_key(e.node));
        assert(f.live(e.node) && g.live(e.node));
        assert(g.home(e.node) == f.home(e.node));
        homes::lemma_root_above(f, root, e.node);
        assert(!f.above(root, e.node));
        assert(e.layout != layout);
    }
    assert forall|x: NodeId| (#[trigger] g.window(x)) is Some implies filed::listed(g, x) by {
        assert(g.nodes.contains_key(x));
        assert(f.window(x) == g.window(x));
        assert(filed::listed(f, x));
        let j = choose|j: int| 0 <= j < f.index.len() && (#[trigger] f.index[j]).node == x;
        assert(keep(f.index[j]));
        assert(g.index.contains(f.index[j]));
        let i = choose|i: int| 0 <= i < g.index.len() && g.index[i] == f.index[j];
        assert(g.index[i].node == x);
    }
}

/// The copy of a node has the copies of its children.
proof fn lemma_copy_of(s: ForestView, n: NodeId, layout: LayoutId, x: NodeId)
    requires
        s.wf(),
        s.live(n),
        s.parent(n) is None,
        s.minted + s.preorder(n).len() <= u64::MAX,
        s.preorder(n).contains(x),
    ensures
        ({
            let src = s.preorder(n);
            let t = s.copied(n, layout);
            let c = s.copy_id(src, x);
            &&& t.live(c)
            &&& !s.live(c)
            &&& s.minted <= c
            &&& t.window(c) == s.window(x)
            &&& t.children(c) == s.children(x).map_values(|y: NodeId| s.copy_id(src, y))
        }),
{
    let src = s.preorder(n);
    proofs::lemma_source(s, n, x);
    let c = s.copy_id(src, x);
    let t = s.copied(n, layout);
    assert(src[c - s.minted] == x);
    assert(!s.nodes.contains_key(c));
    assert(t.nodes[c] == s.copy_node(src, x));
    assert(t.children(c) =~= s.children(x).map_values(|y: NodeId| s.copy_id(src, y)));
}

/// A copied tree is traversed as its source is.
proof fn lemma_copied_preorder(s: ForestView, n: NodeId, layout: LayoutId, x: NodeId)
    requires
        s.wf(),
        s.live(n),
        s.parent(n) is None,
        s.minted + s.preorder(n).len() <= u64::MAX,
        s.preorder(n).contains(x),
    ensures
        s.copied(n, layout).preorder(s.copy_id(s.preorder(n), x)) == s.preorder(x).map_values(
            |y: NodeId| s.copy_id(s.preorder(n), y),
        ),
    decreases view::height(s.nodes, x), s.children(x).len() + 1,
{
    let src = s.preorder(n);
    let id = |y: NodeId| s.copy_id(src, y);
    let t = s.copied(n, layout);
    lemma_copy_of(s, n, layout, x);
    proofs::lemma_source(s, n, x);
    lemma_copied_preorder_below(s, n, layout, x, s.children(x).len());
    let below = s.preorder_below(x, s.children(x).len());
    assert((seq![x] + below).map_values(id) =~= seq![id(x)] + below.map_values(id));
}

proof fn lemma_copied_preorder_below(
    s: ForestView,
    n: NodeId,
    layout: LayoutId,
    x: NodeId,
    upto: nat,
)
    requires
        s.wf(),
        s.live(n),
        s.parent(n) is None,
        s.minted + s.preorder(n).len() <= u64::MAX,
        s.preorder(n).contains(x),
        upto <= s.children(x).len(),
    ensures
        s.copied(n, layout).preorder_below(s.copy_id(s.preorder(n), x), upto)
            == s.preorder_below(x, upto).map_values(|y: NodeId| s.copy_id(s.preorder(n), y)),
    decreases view::height(s.nodes, x), upto,
{
    let src = s.preorder(n);
    let id = |y: NodeId| s.copy_id(src, y);
    let t = s.copied(n, layout);
    lemma_copy_of(s, n, layout, x);
    proofs::lemma_source(s, n, x);
    proofs::lemma_copied(s, n, layout);
    if upto > 0 {
        let c = s.children(x)[upto - 1];
        proofs::lemma_node(s, x);
        assert(s.nodes[x].children[upto - 1] == c);
        assert(src.contains(c));
        lemma_copied_preorder_below(s, n, layout, x, (upto - 1) as nat);
        lemma_copied_preorder(s, n, layout, c);
        proofs::lemma_node(t, id(x));
        assert(t.nodes[id(x)].children[upto - 1] == id(c));
        let a = s.preorder_below(x, (upto - 1) as nat);
        let b = s.preorder(c);
        assert((a + b).map_values(id) =~= a.map_values(id) + b.map_values(id));
    } else {
        assert(s.preorder_below(x, 0).map_values(id) =~= Seq::empty());
    }
}

/// Copies show the windows of their sources.
proof fn lemma_copied_windows(s: ForestView, n: NodeId, layout: LayoutId, list: Seq<NodeId>)
    requires
        s.wf(),
        s.live(n),
        s.parent(n) is None,
        s.minted + s.preorder(n).len() <= u64::MAX,
        forall|i: int| 0 <= i < list.len() ==> s.preorder(n).contains(#[trigger] list[i]),
    ensures
        s.copied(n, layout).windows_of(
            list.map_values(|y: NodeId| s.copy_id(s.preorder(n), y)),
        ) == s.windows_of(list),
    decreases list.len(),
{
    let src = s.preorder(n);
    let id = |y: NodeId| s.copy_id(src, y);
    let t = s.copied(n, layout);
    let after = list.map_values(id);
    if list.len() > 0 {
        let front = list.drop_last();
        assert forall|i: int| 0 <= i < front.len() implies src.contains(#[trigger] front[i]) by {
            assert(list[i] == front[i]);
        }
        lemma_copied_windows(s, n, layout, front);
        assert(after.drop_last() =~= front.map_values(id));
        assert(list[list.len() - 1] == list.last());
        lemma_copy_of(s, n, layout, list.last());
        assert(after.last() == id(list.last()));
    } else {
        assert(t.windows_of(after) =~= s.windows_of(list));
    }
}

/// The nodes that were there before a copy are as they were.
proof fn lemma_copied_others(s: ForestView, n: NodeId, layout: LayoutId, r: NodeId)
    requires
        s.wf(),
        s.live(n),
        s.parent(n) is None,
        s.minted + s.preorder(n).len() <= u64::MAX,
        s.live(r),
    ensures
        s.copied(n, layout).windows_under(r) == s.windows_under(r),
{
    let t = s.copied(n, layout);
    proofs::lemma_copied(s, n, layout);
    assert forall|x: NodeId| s.live(x) implies #[trigger] t.live(x) && t.children(x) == s.children(
        x,
    ) && t.window(x) == s.window(x) by {
        assert(t.nodes.contains_key(x));
    }
    homes::lemma_same_preorder(s, t, r);
    let nodes = s.preorder(r);
    proofs::lemma_preorder(s, r);
    let same = |w: WindowId| w;
    assert forall|i: int| 0 <= i < nodes.len() implies t.window(#[trigger] nodes[i]) == (
    match s.window(nodes[i]) {
        Some(w) => Some(same(w)),
        None => None,
    }) by {
        assert(s.live(nodes[i]));
        assert(t.live(nodes[i]));
    }
    homes::lemma_windows_mapped(s, t, nodes, same);
    assert(s.windows_of(nodes).map_values(same) =~= s.windows_of(nodes));
}

/// The entries after the windows of the first copies were entered.
spec fn copied_entry(s: ForestView, src: Seq<NodeId>, layout: LayoutId, k: int) -> WindowEntry {
    WindowEntry { window: s.window(src[k])->0, layout, node: (s.minted + k) as u64 }
}

spec fn index_covers(
    s: ForestView,
    src: Seq<NodeId>,
    layout: LayoutId,
    index: Seq<WindowEntry>,
    upto: int,
) -> bool {
    &&& filed::distinct_nodes(index)
    &&& forall|i: int|
        0 <= i < index.len() ==> {
            ||| s.index.contains(#[trigger] index[i])
            ||| s.minted <= index[i].node < s.minted + upto && s.window(
                src[index[i].node - s.minted],
            ) is Some && index[i] == copied_entry(s, src, layout, index[i].node - s.minted)
        }
    &&& forall|j: int| 0 <= j < s.index.len() ==> index.contains(#[trigger] s.index[j])
    &&& forall|k: int|
        0 <= k < upto && s.window(#[trigger] src[k]) is Some ==> index.contains(
            copied_entry(s, src, layout, k),
        )
}

proof fn lemma_copy_index(s: ForestView, src: Seq<NodeId>, layout: LayoutId, upto: nat)
    requires
        s.wf(),
        kept::index_ok(s),
        filed::distinct_nodes(s.index),
        upto <= src.len(),
        s.minted + src.len() <= u64::MAX,
    ensures
        index_covers(s, src, layout, s.copy_index(src, layout, upto), upto as int),
    decreases upto,
{
    if upto == 0 {
        assert forall|i: int| 0 <= i < s.index.len() implies s.index.contains(
            #[trigger] s.index[i],
        ) by {}
    } else {
        let before = s.copy_index(src, layout, (upto - 1) as nat);
        lemma_copy_index(s, src, layout, (upto - 1) as nat);
        let after = s.copy_index(src, layout, upto);
        let k = upto - 1;
        if s.window(src[k]) is Some {
            let entry = copied_entry(s, src, layout, k);
            assert(after == view::index_with(before, entry));
            arrivals::lemma_index_with(before, entry);
            let slot = view::entry_slot(before, entry.window, 0);
            assert forall|i: int| 0 <= i < before.len() implies (#[trigger] before[i]).node
                != entry.node by {
                if s.index.contains(before[i]) {
                    let j = choose|j: int| 0 <= j < s.index.len() && s.index[j] == before[i];
                    assert(s.window(s.index[j].node) is Some);
                }
            }
            assert(filed::distinct_nodes(after)) by {
                assert forall|i: int, j: int| 0 <= i < j < after.len() implies (
                #[trigger] after[i]).node != (#[trigger] after[j]).node by {
                    if i != slot && j != slot {
                        let a = if i < slot { i } else { i - 1 };
                        let b = if j < slot { j } else { j - 1 };
                        assert(after[i] == before[a] && after[j] == before[b]);
                    } else if i == slot {
                        assert(after[j] == before[j - 1]);
                    } else {
                        assert(after[i] == before[i]);
                    }
                }
            }
            assert forall|i: int| 0 <= i < after.len() implies {
                ||| s.index.contains(#[trigger] after[i])
                ||| s.minted <= after[i].node < s.minted + upto && s.window(
                    src[after[i].node - s.minted],
                ) is Some && after[i] == copied_entry(s, src, layout, after[i].node - s.minted)
            } by {
                if i != slot {
                    let a = if i < slot { i } else { i - 1 };
                    assert(after[i] == before[a]);
                }
            }
            assert forall|e: WindowEntry| before.contains(e) implies #[trigger] after.contains(
                e,
            ) by {
                let i = choose|i: int| 0 <= i < before.len() && before[i] == e;
                assert(after[if i < slot { i } else { i + 1 }] == before[i]);
            }
            assert(after.contains(entry)) by {
                assert(after[slot] == entry);
            }
            assert forall|j: int| 0 <= j < s.index.len() implies after.contains(
                #[trigger] s.index[j],
            ) by {
                assert(before.contains(s.index[j]));
            }
            assert forall|m: int| 0 <= m < upto && s.window(#[trigger] src[m]) is Some implies after.contains(
                copied_entry(s, src, layout, m),
            ) by {
                if m < k {
                    assert(before.contains(copied_entry(s, src, layout, m)));
                }
            }
        }
    }
}

/// A copy of a layout holds the same windows in the same order. The source and
/// all other layouts keep theirs, and the index still agrees with the trees.
pub proof fn law_cloned(s: TraditionalView, layout: LayoutId, copy: LayoutId)
    requires
        s.wf(),
        s.has(layout),
        !s.has(copy),
        copy.issued(),
        s.forest.minted + s.forest.preorder(s.root(layout)).len() <= u64::MAX,
    ensures
        ({
            let t = s.with_clone(layout, copy);
            &&& t.wf()
            &&& t.roots.dom() == s.roots.dom().insert(copy)
            &&& t.all_windows(copy) == s.all_windows(layout)
            &&& forall|l: LayoutId| s.has(l) ==> #[trigger] t.all_windows(l) == s.all_windows(l)
            &&& filed::filed(s) ==> filed::filed(t)
        }),
{
    let f = s.forest;
    let n = s.root(layout);
    assert(s.roots.contains_key(layout));
    let src = f.preorder(n);
    let t = s.with_clone(layout, copy);
    let g = t.forest;
    let id = |y: NodeId| f.copy_id(src, y);
    proofs::lemma_copied(f, n, copy);
    proofs::lemma_preorder(f, n);
    system::lemma_not_a_root(s, f.next_id());
    assert(src.contains(src[0]));
    proofs::lemma_source(f, n, n);
    assert(src.index_of(n) == 0);
    assert(id(n) == f.next_id());
    assert forall|l: LayoutId| #[trigger] t.roots.contains_key(l) implies {
        &&& l.issued()
        &&& g.live(t.roots[l])
        &&& g.parent(t.roots[l]) is None
        &&& g.window(t.roots[l]) is None
    } by {
        if l != copy {
            assert(s.roots.contains_key(l));
            assert(g.nodes.contains_key(s.roots[l]));
        }
    }
    lemma_copied_preorder(f, n, copy, n);
    assert forall|i: int| 0 <= i < src.len() implies src.contains(#[trigger] src[i]) by {}
    lemma_copied_windows(f, n, copy, src);
    assert forall|l: LayoutId| s.has(l) implies #[trigger] t.all_windows(l) == s.all_windows(
        l,
    ) by {
        assert(s.roots.contains_key(l));
        lemma_copied_others(f, n, copy, s.root(l));
    }
    assert(t.roots.dom() =~= s.roots.dom().insert(copy));
    if filed::filed(s) {
        lemma_cloned_filed(s, layout, copy);
    }
}

proof fn lemma_cloned_filed(s: TraditionalView, layout: LayoutId, copy: LayoutId)
    requires
        s.wf(),
        s.has(layout),
        !s.has(copy),
        copy.issued(),
        s.forest.minted + s.forest.preorder(s.root(layout)).len() <= u64::MAX,
        filed::filed(s),
    ensures
        filed::filed(s.with_clone(layout, copy)),
{
    let f = s.forest;
    let n = s.root(layout);
    assert(s.roots.contains_key(layout));
    let src = f.preorder(n);
    let t = s.with_clone(layout, copy);
    let g = t.forest;
    proofs::lemma_copied(f, n, copy);
    proofs::lemma_preorder(f, n);
    lemma_copy_index(f, src, copy, src.len());
    lemma_copied_preorder(f, n, copy, n);
    assert(src.contains(src[0]));
    proofs::lemma_source(f, n, n);
    let root = f.next_id();
    assert(src.index_of(n) == 0);
    assert(f.copy_id(src, n) == root);
    assert(homes::hung_at_home(f, g)) by {
        assert forall|x: NodeId| #[trigger] g.live(x) && f.live(x) implies {
            &&& g.parent(x) is None ==> f.parent(x) is None
            &&& g.parent(x) is Some ==> f.live(g.parent(x)->0) && f.home(g.parent(x)->0) == f.home(
                x,
            )
        } by {
            homes::lemma_home(f, x);
            proofs::lemma_node(f, x);
        }
    }
    homes::lemma_homes(f, g);
    assert forall|k: int| 0 <= k < src.len() implies {
        let c = (f.minted + k) as u64;
        &&& #[trigger] f.copy_id(src, src[k]) == c
        &&& g.window(c) == f.window(src[k])
        &&& g.home(c) == root
    } by {
        let x = src[k];
        assert(src.contains(x));
        proofs::lemma_source(f, n, x);
        assert(src.index_of(x) == k);
        lemma_copy_of(f, n, copy, x);
        let c = f.copy_id(src, x);
        assert(g.preorder(root)[k] == c);
        assert(g.preorder(root).contains(c));
        homes::lemma_shown_in(g, root, c);
    }
    assert forall|i: int| 0 <= i < g.index.len() implies g.window((#[trigger] g.index[i]).node)
        == Some(g.index[i].window) && filed::in_its_layout(t, g.index[i]) by {
        let e = g.index[i];
        if f.index.contains(e) {
            let j = choose|j: int| 0 <= j < f.index.len() && f.index[j] == e;
            assert(f.window(f.index[j].node) == Some(f.index[j].window));
            assert(filed::in_its_layout(s, f.index[j]));
            assert(f.live(e.node));
            assert(g.live(e.node));
            assert(g.home(e.node) == f.home(e.node));
        } else {
            let k = e.node - f.minted;
            assert(f.copy_id(src, src[k]) == (f.minted + k) as u64);
        }
    }
    assert forall|x: NodeId| (#[trigger] g.window(x)) is Some implies filed::listed(g, x) by {
        if f.live(x) {
            assert(f.window(x) is Some);
            assert(filed::listed(f, x));
            let j = choose|j: int| 0 <= j < f.index.len() && (#[trigger] f.index[j]).node == x;
            assert(g.index.contains(f.index[j]));
            let i = choose|i: int| 0 <= i < g.index.len() && g.index[i] == f.index[j];
            assert(g.index[i].node == x);
        } else {
            let k = x - f.minted;
            assert(g.nodes.contains_key(x));
            assert(0 <= k < src.len());
            assert(f.copy_id(src, src[k]) == (f.minted + k) as u64);
            assert(f.window(src[k]) is Some);
            let e = copied_entry(f, src, copy, k);
            assert(g.index.contains(e));
            let i = choose|i: int| 0 <= i < g.index.len() && g.index[i] == e;
            assert(g.index[i].node == x);
        }
    }
}

/// A copy takes one identifier for each node.
pub proof fn lemma_cloned_minted(s: TraditionalView, layout: LayoutId, copy: LayoutId)
    ensures
        s.with_clone(layout, copy).forest.minted == s.forest.minted + s.forest.preorder(
            s.root(layout),
        ).len(),
{
}

/// A copy of a layout has the shape of the layout: node for node, in the order of the
/// tree, the same kinds, as many children, the same windows and the same coverage.
pub proof fn law_cloned_shape(s: TraditionalView, layout: LayoutId, copy: LayoutId)
    requires
        s.wf(),
        s.has(layout),
        !s.has(copy),
        s.forest.minted + s.forest.preorder(s.root(layout)).len() <= u64::MAX,
    ensures
        ({
            let f = s.forest;
            let t = s.with_clone(layout, copy);
            let g = t.forest;
            let a = f.preorder(s.root(layout));
            let b = g.preorder(t.root(copy));
            &&& b.len() == a.len()
            &&& forall|i: int|
                0 <= i < a.len() ==> {
                    &&& !f.live(#[trigger] b[i])
                    &&& g.kind(b[i]) == f.kind(a[i])
                    &&& g.window(b[i]) == f.window(a[i])
                    &&& g.children(b[i]).len() == f.children(a[i]).len()
                    &&& g.info(b[i]).is_fullscreen == f.info(a[i]).is_fullscreen
                    &&& g.info(b[i]).is_fullscreen_within_gaps == f.info(
                        a[i],
                    ).is_fullscreen_within_gaps
                    &&& g.info(b[i]).pick is Some == f.info(a[i]).pick is Some
                }
        }),
{
    let f = s.forest;
    let n = s.root(layout);
    let t = s.with_clone(layout, copy);
    let g = t.forest;
    let src = f.preorder(n);
    assert(s.roots.contains_key(layout));
    proofs::lemma_preorder(f, n);
    assert(src[0] == n);
    assert(src.contains(n));
    lemma_copied_preorder(f, n, copy, n);
    assert(f.copy_id(src, n) == t.root(copy)) by {
        proofs::lemma_source(f, n, n);
    }
    let b = g.preorder(t.root(copy));
    assert forall|i: int| 0 <= i < src.len() implies {
        &&& !f.live(#[trigger] b[i])
        &&& g.kind(b[i]) == f.kind(src[i])
        &&& g.window(b[i]) == f.window(src[i])
        &&& g.children(b[i]).len() == f.children(src[i]).len()
        &&& g.info(b[i]).is_fullscreen == f.info(src[i]).is_fullscreen
        &&& g.info(b[i]).is_fullscreen_within_gaps == f.info(src[i]).is_fullscreen_within_gaps
        &&& g.info(b[i]).pick is Some == f.info(src[i]).pick is Some
    } by {
        let x = src[i];
        assert(src.contains(x));
        lemma_copy_of(f, n, copy, x);
        proofs::lemma_source(f, n, x);
        let c = f.copy_id(src, x);
        assert(b[i] == c);
        assert(src[c - f.minted] == x);
        assert(g.nodes[c] == f.copy_node(src, x));
    }
}

} // verus!
