//! The index of windows agrees with the layout trees.

use vstd::prelude::*;

use crate::actor::{LayoutId, Pid, WindowId};
use crate::layout_engine::systems::traditional::view::TraditionalView;
use crate::model::tree::culled;
use crate::model::tree::homes;
use crate::model::tree::kept;
use crate::model::tree::proofs;
use crate::model::tree::pruned;
use crate::model::tree::view;
use crate::model::tree::view::{ForestView, NodeId, WindowEntry};

verus! {

/// Some entry of the index points at the node.
pub open spec fn listed(s: ForestView, x: NodeId) -> bool {
    exists|i: int| 0 <= i < s.index.len() && (#[trigger] s.index[i]).node == x
}

/// No two entries point at the same node.
pub open spec fn distinct_nodes(index: Seq<WindowEntry>) -> bool {
    forall|i: int, j: int|
        0 <= i < j < index.len() ==> (#[trigger] index[i]).node != (#[trigger] index[j]).node
}

/// An entry names a layout and a node of its tree.
pub open spec fn in_its_layout(s: TraditionalView, e: WindowEntry) -> bool {
    s.has(e.layout) && s.forest.home(e.node) == s.root(e.layout)
}

/// Every window of a layout tree has one entry, which names its node and layout,
/// and there are no other entries.
pub open spec fn filed(s: TraditionalView) -> bool {
    &&& kept::index_ok(s.forest)
    &&& distinct_nodes(s.forest.index)
    &&& forall|x: NodeId| (#[trigger] s.forest.window(x)) is Some ==> listed(s.forest, x)
    &&& forall|i: int|
        0 <= i < s.forest.index.len() ==> in_its_layout(s, #[trigger] s.forest.index[i])
}

/// A system without layouts is filed.
pub proof fn law_fresh_is_filed(s: TraditionalView)
    requires
        s.forest == ForestView::empty(),
    ensures
        filed(s),
{
}

/// The entry that a lookup finds.
pub proof fn lemma_entry_node(index: Seq<WindowEntry>, layout: LayoutId, window: WindowId)
    ensures
        ForestView::entry_node(index, layout, window) is Some <==> exists|i: int|
            0 <= i < index.len() && (#[trigger] index[i]).window == window && index[i].layout
                == layout,
        ForestView::entry_node(index, layout, window) is Some ==> exists|i: int|
            0 <= i < index.len() && (#[trigger] index[i]).window == window && index[i].layout
                == layout && Some(index[i].node) == ForestView::entry_node(index, layout, window),
    decreases index.len(),
{
    if index.len() > 0 {
        let rest = index.skip(1);
        lemma_entry_node(rest, layout, window);
        if index[0].window == window && index[0].layout == layout {
        } else {
            if ForestView::entry_node(rest, layout, window) is Some {
                let i = choose|i: int|
                    0 <= i < rest.len() && (#[trigger] rest[i]).window == window && rest[i].layout
                        == layout && Some(rest[i].node) == ForestView::entry_node(
                        rest,
                        layout,
                        window,
                    );
                assert(index[i + 1] == rest[i]);
            }
            if exists|i: int|
                0 <= i < index.len() && (#[trigger] index[i]).window == window && index[i].layout
                    == layout {
                let i = choose|i: int|
                    0 <= i < index.len() && (#[trigger] index[i]).window == window
                        && index[i].layout == layout;
                assert(rest[i - 1] == index[i]);
            }
        }
    }
}

/// A layout contains a window, as the index tells, exactly if its tree shows it.
pub proof fn law_contains(s: TraditionalView, layout: LayoutId, window: WindowId)
    requires
        s.wf(),
        filed(s),
        s.has(layout),
    ensures
        s.forest.node_for(layout, window) is Some <==> s.all_windows(layout).contains(window),
        s.forest.node_for(layout, window) is Some ==> {
            let n = s.forest.node_for(layout, window)->0;
            s.forest.window(n) == Some(window) && s.forest.home(n) == s.root(layout)
        },
{
    let f = s.forest;
    let r = s.root(layout);
    assert(s.roots.contains_key(layout));
    lemma_entry_node(f.index, layout, window);
    homes::lemma_windows_contain(f, r, window);
    if f.node_for(layout, window) is Some {
        let i = choose|i: int|
            0 <= i < f.index.len() && (#[trigger] f.index[i]).window == window
                && f.index[i].layout == layout && Some(f.index[i].node) == f.node_for(
                layout,
                window,
            );
        let x = f.index[i].node;
        assert(f.window(x) == Some(window));
        assert(in_its_layout(s, f.index[i]));
        assert(homes::shown_in(f, r, x));
    }
    if s.all_windows(layout).contains(window) {
        let x = choose|x: NodeId| #[trigger]
            homes::shown_in(f, r, x) && f.window(x) == Some(window);
        assert(listed(f, x));
        let i = choose|i: int| 0 <= i < f.index.len() && (#[trigger] f.index[i]).node == x;
        assert(f.window(f.index[i].node) == Some(f.index[i].window));
        assert(in_its_layout(s, f.index[i]));
        let l = f.index[i].layout;
        assert(s.roots.contains_key(l));
        assert(s.roots[l] == s.roots[layout]);
        assert(l == layout);
    }
}

/// Layouts whose forest is rearranged within its trees stay filed.
pub proof fn lemma_settled(s: TraditionalView, forest: ForestView)
    requires
        s.wf(),
        filed(s),
        homes::settled(s.forest, forest),
    ensures
        filed(s.with_forest(forest)),
{
    let t = s.with_forest(forest);
    kept::lemma_index_ok(s.forest, forest);
    assert forall|x: NodeId| (#[trigger] forest.window(x)) is Some implies listed(forest, x) by {
        assert(s.forest.window(x) == forest.window(x));
        assert(listed(s.forest, x));
    }
    assert forall|i: int| 0 <= i < forest.index.len() implies in_its_layout(
        t,
        #[trigger] forest.index[i],
    ) by {
        assert(in_its_layout(s, s.forest.index[i]));
        assert(s.forest.window(s.forest.index[i].node) is Some);
        assert(forest.window(s.forest.index[i].node) is Some);
        assert(forest.home(s.forest.index[i].node) == s.forest.home(s.forest.index[i].node));
    }
}

/// A filter keeps entries apart.
pub proof fn lemma_filter_distinct(index: Seq<WindowEntry>, keep: spec_fn(WindowEntry) -> bool)
    requires
        distinct_nodes(index),
    ensures
        distinct_nodes(index.filter(keep)),
    decreases index.len(),
{
    reveal(Seq::filter);
    if index.len() > 0 {
        let front = index.drop_last();
        assert(distinct_nodes(front)) by {
            assert forall|i: int, j: int| 0 <= i < j < front.len() implies (
            #[trigger] front[i]).node != (#[trigger] front[j]).node by {
                assert(front[i] == index[i] && front[j] == index[j]);
            }
        }
        lemma_filter_distinct(front, keep);
        culled::lemma_filtered_ok(front, keep);
        let kept_front = front.filter(keep);
        if keep(index.last()) {
            let all = kept_front.push(index.last());
            assert forall|i: int, j: int| 0 <= i < j < all.len() implies (#[trigger] all[i]).node
                != (#[trigger] all[j]).node by {
                if j == kept_front.len() {
                    assert(all[i] == kept_front[i]);
                    let k = choose|k: int| 0 <= k < front.len() && front[k] == kept_front[i];
                    assert(index[k] == front[k]);
                    assert(index[index.len() - 1] == index.last());
                } else {
                    assert(all[i] == kept_front[i] && all[j] == kept_front[j]);
                }
            }
        }
    }
}

/// Layouts that lost exactly the windows that fail a test, with their entries.
pub open spec fn thinned(
    s: TraditionalView,
    t: TraditionalView,
    keep: spec_fn(WindowId) -> bool,
) -> bool {
    &&& t.wf()
    &&& filed(t)
    &&& t.roots == s.roots
    &&& forall|l: LayoutId|
        s.has(l) ==> #[trigger] t.all_windows(l).to_multiset() == s.all_windows(l).filter(
            keep,
        ).to_multiset()
}

/// The nodes `ns`, which show the windows that fail a test, are gone with their entries.
pub proof fn lemma_thinned(
    s: TraditionalView,
    t: TraditionalView,
    ns: Seq<NodeId>,
    keep: spec_fn(WindowId) -> bool,
)
    requires
        s.wf(),
        filed(s),
        t.roots == s.roots,
        culled::culled(s.forest, t.forest, ns),
        t.forest.index == s.forest.index.filter(|e: WindowEntry| keep(e.window)),
        forall|x: NodeId|
            (#[trigger] s.forest.window(x)) is Some ==> (ns.contains(x) <==> !keep(
                s.forest.window(x)->0,
            )),
    ensures
        thinned(s, t, keep),
{
    let f = s.forest;
    let g = t.forest;
    let test = |e: WindowEntry| keep(e.window);
    culled::lemma_filtered_ok(f.index, test);
    lemma_filter_distinct(f.index, test);
    assert forall|x: NodeId| (#[trigger] g.window(x)) is Some implies f.window(x) == g.window(x)
        && keep(f.window(x)->0) && f.live(x) && g.live(x) && g.home(x) == f.home(x) by {
        assert(f.window(x) == g.window(x));
        assert(!ns.contains(x));
        assert(f.live(x) && g.live(x));
    }
    assert forall|i: int| 0 <= i < g.index.len() implies g.window((#[trigger] g.index[i]).node)
        == Some(g.index[i].window) && in_its_layout(t, g.index[i]) by {
        let j = choose|j: int| 0 <= j < f.index.len() && f.index[j] == g.index[i];
        assert(test(g.index[i]));
        assert(f.window(f.index[j].node) == Some(f.index[j].window));
        assert(in_its_layout(s, f.index[j]));
        assert(g.window(f.index[j].node) == f.window(f.index[j].node));
    }
    assert forall|x: NodeId| (#[trigger] g.window(x)) is Some implies listed(g, x) by {
        assert(listed(f, x));
        let j = choose|j: int| 0 <= j < f.index.len() && (#[trigger] f.index[j]).node == x;
        assert(f.window(f.index[j].node) == Some(f.index[j].window));
        assert(test(f.index[j]));
        assert(g.index.contains(f.index[j]));
        let i = choose|i: int| 0 <= i < g.index.len() && g.index[i] == f.index[j];
        assert(g.index[i].node == x);
    }
    assert forall|l: LayoutId| #[trigger] t.roots.contains_key(l) implies {
        &&& l.issued()
        &&& g.live(t.roots[l])
        &&& g.parent(t.roots[l]) is None
        &&& g.window(t.roots[l]) is None
    } by {
        assert(s.roots.contains_key(l));
        assert(f.live(s.roots[l]));
    }
    assert forall|l: LayoutId| s.has(l) implies #[trigger] t.all_windows(l).to_multiset()
        == s.all_windows(l).filter(keep).to_multiset() by {
        let r = s.root(l);
        assert(t.roots.contains_key(l));
        assert forall|x: NodeId| #[trigger]
            homes::shown_in(g, r, x) == (homes::shown_in(f, r, x) && keep(f.window(x)->0)) by {
            if g.window(x) is Some {
                assert(f.window(x) == g.window(x));
            }
            if f.window(x) is Some && keep(f.window(x)->0) {
                assert(!ns.contains(x));
                assert(g.window(x) == f.window(x));
            }
        }
        homes::lemma_some_fewer(f, r, g, r, keep);
    }
}

/// The nodes of the entries that fail a test, and the forest without those entries.
proof fn lemma_entries_out(
    s: TraditionalView,
    keep: spec_fn(WindowId) -> bool,
    stay: spec_fn(WindowEntry) -> bool,
    go: spec_fn(WindowEntry) -> bool,
)
    requires
        s.wf(),
        filed(s),
        forall|e: WindowEntry| #[trigger] stay(e) == keep(e.window),
        forall|e: WindowEntry| #[trigger] go(e) == !keep(e.window),
    ensures
        ({
            let f = s.forest;
            let cleared = ForestView { index: f.index.filter(stay), ..f };
            let ns = view::entry_nodes(f.index.filter(go));
            &&& cleared.wf()
            &&& kept::index_ok(cleared)
            &&& culled::window_nodes(cleared, ns)
            &&& culled::unlisted(cleared, ns)
            &&& forall|x: NodeId|
                (#[trigger] f.window(x)) is Some ==> (ns.contains(x) <==> !keep(f.window(x)->0))
            &&& forall|x: NodeId| f.live(x) ==> #[trigger] cleared.home(x) == f.home(x)
        }),
{
    let f = s.forest;
    let cleared = ForestView { index: f.index.filter(stay), ..f };
    let gone = f.index.filter(go);
    let ns = view::entry_nodes(gone);
    assert(cleared.wf());
    culled::lemma_filtered_ok(f.index, stay);
    culled::lemma_filtered_ok(f.index, go);
    lemma_filter_distinct(f.index, go);
    assert forall|i: int| 0 <= i < cleared.index.len() implies cleared.window(
        (#[trigger] cleared.index[i]).node,
    ) == Some(cleared.index[i].window) && keep(cleared.index[i].window) by {
        let j = choose|j: int| 0 <= j < f.index.len() && f.index[j] == cleared.index[i];
        assert(f.window(f.index[j].node) == Some(f.index[j].window));
        assert(stay(cleared.index[i]));
    }
    assert forall|i: int| 0 <= i < ns.len() implies f.window(#[trigger] ns[i]) == Some(
        gone[i].window,
    ) && !keep(gone[i].window) && f.parent(ns[i]) is Some by {
        let j = choose|j: int| 0 <= j < f.index.len() && f.index[j] == gone[i];
        assert(go(gone[i]));
        assert(f.window(f.index[j].node) == Some(f.index[j].window));
        assert(in_its_layout(s, f.index[j]));
        let l = f.index[j].layout;
        assert(s.roots.contains_key(l));
        homes::lemma_home(f, ns[i]);
    }
    assert(ns.no_duplicates()) by {
        assert forall|i: int, j: int| 0 <= i < ns.len() && 0 <= j < ns.len() && i != j implies ns[i]
            != ns[j] by {
            if i < j {
                assert(gone[i].node != gone[j].node);
            } else {
                assert(gone[j].node != gone[i].node);
            }
        }
    }
    assert forall|i: int| 0 <= i < cleared.index.len() implies !ns.contains(
        (#[trigger] cleared.index[i]).node,
    ) by {
        let x = cleared.index[i].node;
        assert(cleared.window(x) == Some(cleared.index[i].window));
        if ns.contains(x) {
            let k = choose|k: int| 0 <= k < ns.len() && ns[k] == x;
            assert(f.window(ns[k]) == Some(gone[k].window));
        }
    }
    assert forall|x: NodeId| (#[trigger] f.window(x)) is Some implies (ns.contains(x) <==> !keep(
        f.window(x)->0,
    )) by {
        if ns.contains(x) {
            let k = choose|k: int| 0 <= k < ns.len() && ns[k] == x;
            assert(f.window(ns[k]) == Some(gone[k].window));
        }
        if !keep(f.window(x)->0) {
            assert(listed(f, x));
            let j = choose|j: int| 0 <= j < f.index.len() && (#[trigger] f.index[j]).node == x;
            assert(f.window(f.index[j].node) == Some(f.index[j].window));
            assert(go(f.index[j]));
            assert(gone.contains(f.index[j]));
            let k = choose|k: int| 0 <= k < gone.len() && gone[k] == f.index[j];
            assert(ns[k] == x);
        }
    }
    assert(homes::hung_at_home(f, cleared)) by {
        assert forall|x: NodeId| #[trigger] cleared.live(x) && f.live(x) implies {
            &&& cleared.parent(x) is None ==> f.parent(x) is None
            &&& cleared.parent(x) is Some ==> f.live(cleared.parent(x)->0) && f.home(
                cleared.parent(x)->0,
            ) == f.home(x)
        } by {
            homes::lemma_home(f, x);
            proofs::lemma_node(f, x);
        }
    }
    homes::lemma_homes(f, cleared);
}

/// What is culled after the entries went.
proof fn lemma_culled_after(f: ForestView, cleared: ForestView, g: ForestView, ns: Seq<NodeId>)
    requires
        f.wf(),
        cleared.nodes == f.nodes,
        cleared.minted == f.minted,
        forall|x: NodeId| f.live(x) ==> #[trigger] cleared.home(x) == f.home(x),
        culled::culled(cleared, g, ns),
    ensures
        culled::culled(f, g, ns),
{
    assert forall|x: NodeId| #[trigger]
        g.window(x) == (if ns.contains(x) {
            None
        } else {
            f.window(x)
        }) by {
        assert(cleared.window(x) == f.window(x));
    }
    assert forall|x: NodeId| f.live(x) && g.live(x) implies #[trigger] g.home(x) == f.home(x) by {
        assert(cleared.live(x));
        assert(cleared.home(x) == f.home(x));
    }
    assert forall|x: NodeId| #[trigger] g.live(x) && x < f.minted implies f.live(x) by {
        assert(cleared.live(x));
    }
    assert forall|x: NodeId| #[trigger]
        f.live(x) && f.parent(x) is None && f.window(x) is None implies g.live(x) && g.parent(x)
        is None && g.window(x) is None by {
        assert(cleared.live(x) && cleared.parent(x) is None && cleared.window(x) is None);
    }
}

/// Removing a window takes it out of every layout and leaves the other windows.
pub proof fn law_window_removed(s: TraditionalView, window: WindowId)
    requires
        s.wf(),
        filed(s),
    ensures
        thinned(
            s,
            s.with_forest(s.forest.window_removed(window)),
            |v: WindowId| v != window,
        ),
        thinned(
            s,
            s.with_forest(s.forest.window_removed_evenly(window)),
            |v: WindowId| v != window,
        ),
{
    let f = s.forest;
    let keep = |v: WindowId| v != window;
    let stay = |e: WindowEntry| e.window != window;
    let go = |e: WindowEntry| e.window == window;
    lemma_entries_out(s, keep, stay, go);
    let cleared = f.forgetting(window);
    let ns = view::entry_nodes(f.entries_for(window));
    assert(stay =~= |e: WindowEntry| keep(e.window));
    culled::lemma_all_removed(cleared, ns);
    lemma_culled_after(f, cleared, f.window_removed(window), ns);
    lemma_thinned(s, s.with_forest(f.window_removed(window)), ns, keep);
    culled::lemma_all_removed_evenly(cleared, ns);
    lemma_culled_after(f, cleared, f.window_removed_evenly(window), ns);
    lemma_thinned(s, s.with_forest(f.window_removed_evenly(window)), ns, keep);
}

/// Removing the windows of a process takes them out of every layout and leaves
/// the windows of other processes.
pub proof fn law_app_removed(s: TraditionalView, pid: Pid)
    requires
        s.wf(),
        filed(s),
    ensures
        thinned(s, s.with_forest(s.forest.app_removed(pid)), |v: WindowId| v.pid != pid),
{
    let f = s.forest;
    let keep = |v: WindowId| v.pid != pid;
    let stay = |e: WindowEntry| e.window.pid != pid;
    let go = |e: WindowEntry| e.window.pid == pid;
    lemma_entries_out(s, keep, stay, go);
    let cleared = f.forgetting_app(pid);
    let ns = view::entry_nodes(f.entries_for_app(pid));
    assert(stay =~= |e: WindowEntry| keep(e.window));
    culled::lemma_all_removed(cleared, ns);
    lemma_culled_after(f, cleared, f.app_removed(pid), ns);
    lemma_thinned(s, s.with_forest(f.app_removed(pid)), ns, keep);
}

/// Layouts stay filed when nodes go with their entries.
pub proof fn lemma_pruned(s: TraditionalView, forest: ForestView)
    requires
        s.wf(),
        pruned::pruned(s.forest, forest),
    ensures
        s.with_forest(forest).wf(),
        filed(s) ==> filed(s.with_forest(forest)),
{
    let f = s.forest;
    let t = s.with_forest(forest);
    assert forall|l: LayoutId| #[trigger] t.roots.contains_key(l) implies {
        &&& l.issued()
        &&& forest.live(t.roots[l])
        &&& forest.parent(t.roots[l]) is None
        &&& forest.window(t.roots[l]) is None
    } by {
        assert(s.roots.contains_key(l));
        assert(f.live(s.roots[l]));
    }
    if filed(s) {
        let test = |e: WindowEntry| forest.window(e.node) is Some;
        pruned::lemma_pruned_index_ok(f, forest);
        culled::lemma_filtered_ok(f.index, test);
        lemma_filter_distinct(f.index, test);
        assert forall|x: NodeId| (#[trigger] forest.window(x)) is Some implies listed(
            forest,
            x,
        ) by {
            assert(f.window(x) == forest.window(x));
            assert(listed(f, x));
            let j = choose|j: int| 0 <= j < f.index.len() && (#[trigger] f.index[j]).node == x;
            assert(test(f.index[j]));
            assert(forest.index.contains(f.index[j]));
            let i = choose|i: int| 0 <= i < forest.index.len() && forest.index[i] == f.index[j];
            assert(forest.index[i].node == x);
        }
        assert forall|i: int| 0 <= i < forest.index.len() implies in_its_layout(
            t,
            #[trigger] forest.index[i],
        ) by {
            let j = choose|j: int| 0 <= j < f.index.len() && f.index[j] == forest.index[i];
            assert(in_its_layout(s, f.index[j]));
            assert(test(forest.index[i]));
            let x = f.index[j].node;
            assert(forest.window(x) == f.window(x));
            assert(f.live(x) && forest.live(x));
            assert(forest.home(x) == f.home(x));
        }
    }
}

/// Removals make no nodes.
pub proof fn lemma_removed_minted(s: TraditionalView, window: WindowId)
    requires
        s.wf(),
    ensures
        s.forest.window_removed(window).minted == s.forest.minted,
{
    let f = s.forest.forgetting(window);
    assert(f.wf());
    lemma_all_removed_minted(
        f,
        view::entry_nodes(s.forest.entries_for(window)),
    );
}

proof fn lemma_all_removed_minted(f: ForestView, ns: Seq<NodeId>)
    requires
        f.wf(),
    ensures
        f.all_removed(ns).wf(),
        f.all_removed(ns).minted == f.minted,
    decreases ns.len(),
{
    if ns.len() > 0 {
        lemma_all_removed_minted(f, ns.drop_last());
        proofs::lemma_removed(f.all_removed(ns.drop_last()), ns.last());
    }
}

} // verus!
