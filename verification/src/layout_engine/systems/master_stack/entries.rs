//! Which area a new window enters.

use vstd::prelude::*;

use crate::actor::{LayoutId, WindowId};
use crate::layout_engine::systems::master_stack::laws;
use crate::layout_engine::systems::master_stack::sides;
use crate::layout_engine::systems::master_stack::view::MasterView;
use crate::layout_engine::systems::stack::order;
use crate::layout_engine::systems::traditional::boxes;
use crate::model::tree::proofs;
use crate::model::tree::rows;
use crate::model::tree::view::{ForestView, NodeId};

verus! {

/// An area of windows as a row.
proof fn lemma_row(s: MasterView, a: NodeId)
    requires
        s.inner.wf(),
        s.forest().live(a),
        s.forest().window(a) is None,
        s.flat(a),
    ensures
        rows::in_one_row(s.forest(), a, s.windows_in(a)),
{
    let f = s.forest();
    laws::lemma_flat_windows(s, a);
    proofs::lemma_node(f, a);
    assert forall|i: int| 0 <= i < s.windows_in(a).len() implies f.window(
        #[trigger] f.children(a)[i],
    ) == Some(s.windows_in(a)[i]) && f.children(f.children(a)[i]).len() == 0 by {
        let c = f.children(a)[i];
        assert(f.nodes[a].children[i] == c);
        assert(f.window(c) is Some);
        proofs::lemma_node(f, c);
    }
}

/// A row that a new node elsewhere leaves alone.
proof fn lemma_same_row(
    f: ForestView,
    g: ForestView,
    q: NodeId,
    k: int,
    added: NodeId,
    a: NodeId,
    row: Seq<WindowId>,
)
    requires
        f.wf(),
        g.wf(),
        f.live(a),
        f.window(a) is None,
        a != q,
        rows::in_one_row(f, a, row),
        boxes::one_more(f, g, q, k, added),
        f.window(q) is None,
    ensures
        g.windows_under(a) == row,
{
    proofs::lemma_node(f, a);
    assert(a != added);
    assert(g.children(a) == f.children(a));
    assert(g.live(a) == f.live(a));
    assert(g.window(a) == f.window(a));
    assert forall|i: int| 0 <= i < row.len() implies g.window(#[trigger] g.children(a)[i]) == Some(
        row[i],
    ) && g.children(g.children(a)[i]).len() == 0 by {
        let c = f.children(a)[i];
        assert(f.nodes[a].children[i] == c);
        assert(f.window(c) == Some(row[i]));
        assert(c != added && c != q);
        assert(g.window(c) == f.window(c));
        assert(g.children(c) == f.children(c));
    }
    rows::lemma_row_windows(g, a, row);
}

/// A new window enters a master area that is not full; where it is full and the settings
/// send new windows to the stack, it enters the stack. It comes first there, unless the
/// settings name another place, and the other area keeps its windows.
#[verifier::spinoff_prover]
#[verifier::rlimit(40)]
pub proof fn law_new_window(s: MasterView, layout: LayoutId, window: WindowId)
    requires
        s.inner.wf(),
        s.inner.has(layout),
        sides::in_shape(s, layout),
        s.settings.base.window_insertion_point is None,
        s.forest().minted + laws::room(s, layout) < u64::MAX,
        sides::held(s, layout, true).len() == s.settings.master_count
            ==> s.settings.new_window_placement is Stack,
    ensures
        ({
            let t = s.window_added(layout, window);
            let full = sides::held(s, layout, true).len() == s.settings.master_count;
            &&& sides::held(t, layout, full == false) == seq![window] + sides::held(
                s,
                layout,
                full == false,
            )
            &&& sides::held(t, layout, full) == sides::held(s, layout, full)
        }),
{
    reveal(MasterView::window_added);
    reveal(MasterView::settled);
    sides::lemma_before(s, layout);
    laws::law_ensured(s, layout);
    sides::lemma_areas(s, layout);
    let (v, root, master, stack) = s.ensured(layout);
    sides::lemma_areas(v, layout);
    laws::lemma_valid_areas(v, layout, master, stack);
    let full = sides::held(s, layout, true).len() == s.settings.master_count;
    let f = v.forest();
    assert(master == sides::area(v, layout, true));
    assert(stack == sides::area(v, layout, false));
    let target = v.target(layout, master, stack);
    let other = if full {
        master
    } else {
        stack
    };
    assert(target == (if full {
        stack
    } else {
        master
    }));
    let kids = f.children(v.inner.root(layout));
    assert(v.inner.roots.contains_key(layout));
    proofs::lemma_node(f, v.inner.root(layout));
    assert(master != stack && master != v.inner.root(layout) && stack != v.inner.root(layout)) by {
        assert(kids[0] != kids[1]);
        assert(f.nodes[v.inner.root(layout)].children[0] == kids[0]);
        assert(f.nodes[v.inner.root(layout)].children[1] == kids[1]);
    }
    assert(v.flat(master) && v.flat(stack));
    lemma_row(v, master);
    lemma_row(v, stack);
    let place = v.entry(layout, target);
    proofs::lemma_node(f, target);
    assert(f.place_parent(place) == Some(target) && f.place_rank(place) == 0) by {
        if f.children(target).len() > 0 {
            assert(f.nodes[target].children[0] == f.children(target)[0]);
        }
    }
    boxes::lemma_new_child(f, target, place, 0);
    let h = f.with_new(place);
    boxes::lemma_shown(v.inner, layout, h, target, window);
    let added = f.next_id();
    let put = MasterView { inner: v.inner.window_put(layout, place, window), ..v }.selecting(added);
    let g = put.forest();
    assert(g == h.with_window(layout, added, window).selected(added));
    assert(g.wf()) by {
        proofs::lemma_with_window(h, layout, added, window);
        boxes::lemma_selected_lists(h.with_window(layout, added, window), added);
    }
    assert(boxes::one_more(f, g, target, 0, added));
    let row = v.windows_in(target);
    order::lemma_longer_row(f, g, target, row, 0, added, window);
    assert(row.insert(0, window) =~= seq![window] + row);
    assert(g.live(target) == f.live(target) && g.window(target) == f.window(target));
    rows::lemma_row_windows(g, target, row.insert(0, window));
    lemma_same_row(f, g, target, 0, added, other, v.windows_in(other));
    assert(put.windows_in(target) == seq![window] + row);
    assert(put.windows_in(other) == v.windows_in(other));
    laws::law_enforced_in_order(put, layout, master, stack, None);
    let t = s.window_added(layout, window);
    assert(t == put);
    assert(g.children(v.inner.root(layout)) == kids);
}

} // verus!
