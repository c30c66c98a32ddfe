//! The order of windows in a stack as windows come.

use vstd::prelude::*;

use crate::actor::{LayoutId, WindowId};
use crate::layout_engine::systems::stack;
use crate::layout_engine::systems::stack::laws;
use crate::layout_engine::systems::stack::{StackLayoutSystem, StackView};
use crate::layout_engine::systems::traditional::boxes;
use crate::layout_engine::systems::traditional::laws as tree_laws;
use crate::layout_engine::systems::traditional::lifecycle;
use crate::layout_engine::systems::traditional::steps;
use crate::layout_engine::systems::traditional::view::TraditionalView;
use crate::layout_engine::systems::LayoutSystem;
use crate::model::tree::homes;
use crate::model::tree::proofs;
use crate::model::tree::rows;
use crate::model::tree::view::{ForestView, NodeId, Place};

verus! {

/// The selected node of a row of windows.
proof fn lemma_selected_child(v: TraditionalView, layout: LayoutId, row: Seq<WindowId>, i: int)
    requires
        v.wf(),
        v.has(layout),
        rows::in_one_row(v.forest, v.root(layout), row),
        row.no_duplicates(),
        0 <= i < row.len(),
        v.selected_window(layout) == Some(row[i]),
    ensures
        steps::child_at(v.forest, v.root(layout), i, v.selection(layout)),
{
    let f = v.forest;
    let root = v.root(layout);
    assert(v.roots.contains_key(layout));
    assert(f.local_selection(root) is Some);
    proofs::lemma_pick(f, root);
    let c = f.local_selection(root)->0;
    proofs::lemma_node(f, root);
    let j = choose|j: int| 0 <= j < f.nodes[root].children.len() && f.nodes[root].children[j] == c;
    assert(f.children(root)[j] == c);
    proofs::lemma_node(f, c);
    assert(f.info(c).pick is None);
    assert(f.selected_below(c) == c);
    assert(v.selection(layout) == c);
    assert(f.window(f.children(root)[j]) == Some(row[j]));
}

/// One more window in a row.
pub proof fn lemma_longer_row(
    f: ForestView,
    g: ForestView,
    root: NodeId,
    row: Seq<WindowId>,
    k: int,
    added: NodeId,
    window: WindowId,
)
    requires
        f.wf(),
        f.live(root),
        rows::in_one_row(f, root, row),
        boxes::one_more(f, g, root, k, added),
        0 <= k <= row.len(),
        g.window(added) == Some(window),
    ensures
        rows::in_one_row(g, root, row.insert(k, window)),
{
    let longer = row.insert(k, window);
    proofs::lemma_node(f, root);
    assert forall|j: int| 0 <= j < longer.len() implies g.window(#[trigger] g.children(root)[j])
        == Some(longer[j]) && g.children(g.children(root)[j]).len() == 0 by {
        if j != k {
            let old = if j < k {
                j
            } else {
                j - 1
            };
            let c = f.children(root)[old];
            assert(f.nodes[root].children[old] == c);
            assert(g.children(root)[j] == c);
            assert(c != added && c != root);
            assert(f.window(c) == Some(row[old]));
            assert(g.window(c) == f.window(c));
            assert(g.children(c) == f.children(c));
        }
    }
}

/// A window that comes to a stack stands behind the selected one, or at the end where the
/// settings say so; the others keep their order.
#[verifier::spinoff_prover]
pub proof fn law_new_window(s: StackView, layout: LayoutId, window: WindowId, i: int)
    requires
        s.inner.wf(),
        s.inner.has(layout),
        s.inner.point == s.point,
        s.inner.forest.minted + s.inner.all_windows(layout).len() < u64::MAX,
        s.inner.all_windows(layout).no_duplicates(),
        0 <= i < s.inner.all_windows(layout).len(),
        s.inner.selected_window(layout) == Some(s.inner.all_windows(layout)[i]),
    ensures
        s.window_added(layout, window).inner.all_windows(layout) == s.inner.all_windows(
            layout,
        ).insert(
            if s.point is NextToSelection {
                i + 1
            } else {
                s.inner.all_windows(layout).len() as int
            },
            window,
        ),
{
    laws::law_normalized(s, layout);
    laws::lemma_normalized_minted(s, layout);
    let row = s.inner.all_windows(layout);
    let v = s.normalized(layout).inner;
    let f = v.forest;
    let root = v.root(layout);
    assert(v.roots.contains_key(layout));
    lemma_selected_child(v, layout, row, i);
    let t = s.window_added(layout, window).inner;
    let g = t.forest;
    assert(v.point == s.inner.point) by {
        lemma_point(s, layout);
    }
    if s.point is NextToSelection {
        boxes::law_new_window(v, layout, root, i, window);
        lemma_longer_row(f, g, root, row, i + 1, t.selection(layout), window);
        assert(g.wf()) by {
            laws::law_window_added(s, layout, window);
        }
        rows::lemma_row_windows(g, root, row.insert(i + 1, window));
    } else {
        let k = f.children(root).len() as int;
        homes::lemma_home(f, root);
        boxes::lemma_new_child(f, root, Place::Last(root), k);
        boxes::lemma_shown(v, layout, f.with_new(Place::Last(root)), root, window);
        lemma_longer_row(f, g, root, row, k, f.next_id(), window);
        assert(g.wf()) by {
            laws::law_window_added(s, layout, window);
        }
        rows::lemma_row_windows(g, root, row.insert(k, window));
    }
}

/// Lining windows up leaves the settings alone.
proof fn lemma_lined_up_point(
    v: TraditionalView,
    layout: LayoutId,
    p: NodeId,
    windows: Seq<WindowId>,
)
    ensures
        stack::lined_up(v, layout, p, windows).point == v.point,
    decreases windows.len(),
{
    if windows.len() > 0 {
        lemma_lined_up_point(v, layout, p, windows.drop_last());
    }
}

/// Making a layout one stack leaves the settings alone.
proof fn lemma_point(s: StackView, layout: LayoutId)
    ensures
        s.normalized(layout).inner.point == s.inner.point,
{
    reveal(StackView::normalized);
    let t = s.inner;
    let root = t.root(layout);
    let bare = t.with_forest(
        t.forest.all_removed(t.forest.children(root)).with_kind(
            root,
            stack::stack_along(t.forest.kind(root)),
        ),
    );
    lemma_lined_up_point(bare, layout, root, t.all_windows(layout));
}

/// A new layout is an empty stack that lies as the settings say: upright across a
/// row, else flat.
pub proof fn law_first_stack(s: StackView, layout: LayoutId)
    requires
        s.inner.wf(),
        !s.inner.has(layout),
        layout.issued(),
        s.inner.forest.minted < u64::MAX,
    ensures
        ({
            let t = <StackLayoutSystem as LayoutSystem>::with_fresh(s, layout);
            let kind = t.inner.forest.kind(t.inner.root(layout));
            &&& t.inner.has(layout)
            &&& t.inner.all_windows(layout) == Seq::<WindowId>::empty()
            &&& s.orientation is Horizontal || s.orientation is Same ==> kind is HorizontalStack
            &&& s.orientation is Vertical || s.orientation is Perpendicular
                ==> kind is VerticalStack
        }),
{
    lifecycle::law_created(s.inner, layout);
    let t = s.inner.with_layout(layout);
    let root = t.root(layout);
    let kind = stack::first_stack(s.orientation);
    assert(t.roots.contains_key(layout));
    let g = t.forest.with_kind(root, kind);
    homes::lemma_with_kind(t.forest, root, kind);
    tree_laws::lemma_settled(t, g);
    let v = StackView { inner: t.with_forest(g), ..s };
    assert(v.inner.all_windows(layout).len() == 0) by {
        broadcast use vstd::seq_lib::group_to_multiset_ensures;

        assert(v.inner.all_windows(layout).to_multiset().len() == t.all_windows(
            layout,
        ).to_multiset().len());
    }
    laws::law_normalized(v, layout);
    assert(v.inner.all_windows(layout) =~= Seq::<WindowId>::empty());
}

} // verus!
