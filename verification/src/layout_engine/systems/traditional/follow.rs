//! A selected window that moves stays selected.

use vstd::prelude::*;

use crate::actor::LayoutId;
use crate::layout_engine::systems::traditional::arrivals;
use crate::layout_engine::systems::traditional::joins;
use crate::layout_engine::systems::traditional::laws;
use crate::layout_engine::systems::traditional::view::TraditionalView;
use crate::layout_engine::{Direction, LayoutKind};
use crate::model::tree::homes;
use crate::model::tree::led;
use crate::model::tree::proofs;
use crate::model::tree::view::{ForestView, NodeId, Place, SizeChange};

verus! {

/// A layout leads to a node that shows a window.
pub open spec fn leads_to(s: TraditionalView, layout: LayoutId, x: NodeId) -> bool {
    &&& s.forest.window(x) is Some
    &&& s.forest.home(x) == s.root(layout)
    &&& led::led(s.forest, x)
}

/// What a layout leads to is its selection.
pub proof fn lemma_leads_to(s: TraditionalView, layout: LayoutId, x: NodeId)
    requires
        s.wf(),
        leads_to(s, layout, x),
    ensures
        s.selection(layout) == x,
        s.selected_window(layout) == s.forest.window(x),
{
    let f = s.forest;
    proofs::lemma_node(f, x);
    proofs::lemma_ancestors(f, x);
    if f.info(x).pick is Some {
        proofs::lemma_pick(f, x);
    }
    led::lemma_led_is_selected(f, x, f.ancestors(x).len() - 1);
}

/// A layout leads to its selected window.
pub proof fn lemma_selection(s: TraditionalView, layout: LayoutId)
    requires
        s.wf(),
        s.has(layout),
        s.selected_window(layout) is Some,
    ensures
        leads_to(s, layout, s.selection(layout)),
{
    let f = s.forest;
    let root = s.root(layout);
    assert(s.roots.contains_key(layout));
    led::lemma_selection_led(f, root);
    arrivals::lemma_selected_below(f, root);
    homes::lemma_home(f, root);
}

/// Nothing that containers remember differs.
pub open spec fn remembers_alike(f: ForestView, g: ForestView) -> bool {
    &&& g.wf()
    &&& forall|x: NodeId| #[trigger] g.live(x) == f.live(x)
    &&& forall|x: NodeId| #[trigger] g.last_selection(x) == f.last_selection(x)
    &&& forall|x: NodeId| #[trigger] g.children(x) == f.children(x)
    &&& forall|x: NodeId| #[trigger] g.window(x) == f.window(x)
}

/// The selection lies in the tree of its layout, at the end of the path to it.
proof fn lemma_end_of_path(s: TraditionalView, layout: LayoutId)
    requires
        s.wf(),
        s.has(layout),
    ensures
        s.forest.live(s.selection(layout)),
        s.forest.home(s.selection(layout)) == s.root(layout),
        led::led(s.forest, s.selection(layout)),
{
    let f = s.forest;
    let root = s.root(layout);
    assert(s.roots.contains_key(layout));
    led::lemma_selection_led(f, root);
    arrivals::lemma_selected_below(f, root);
    homes::lemma_home(f, root);
}

/// Selecting a node that is led to changes nothing that is remembered.
proof fn lemma_led_is_remembered(f: ForestView, n: NodeId)
    requires
        f.wf(),
        f.live(n),
        led::led(f, n),
    ensures
        remembers_alike(f, f.selected(n)),
{
    assert forall|i: int| 0 < i < f.ancestors(n).len() implies f.last_selection(
        #[trigger] f.ancestors(n)[i],
    ) == Some(f.ancestors(n)[i - 1]) by {
        led::lemma_led_path(f, n, i);
    }
    led::lemma_still_remembered(f, n);
}

proof fn lemma_ascended(s: TraditionalView, layout: LayoutId)
    requires
        s.wf(),
        s.has(layout),
        s.forest.parent(s.selection(layout)) is Some,
    ensures
        remembers_alike(s.forest, s.ascended(layout).forest),
        s.ascended(layout).selection(layout) == s.forest.parent(s.selection(layout))->0,
        s.forest.last_selection(s.forest.parent(s.selection(layout))->0) == Some(
            s.selection(layout),
        ),
{
    let f = s.forest;
    let n = s.selection(layout);
    let p = f.parent(n)->0;
    lemma_end_of_path(s, layout);
    proofs::lemma_node(f, n);
    homes::lemma_home(f, n);
    homes::lemma_home(f, p);
    assert(led::led(f, p) && f.local_selection(p) == Some(n));
    lemma_led_is_remembered(f, p);
    arrivals::law_selected(s, layout, p);
}

proof fn lemma_descended(s: TraditionalView, layout: LayoutId)
    requires
        s.wf(),
        s.has(layout),
        s.forest.last_selection(s.selection(layout)) is Some,
    ensures
        remembers_alike(s.forest, s.descended(layout).forest),
        s.descended(layout).selection(layout) == s.forest.last_selection(s.selection(layout))->0,
{
    let f = s.forest;
    let n = s.selection(layout);
    let c = f.last_selection(n)->0;
    lemma_end_of_path(s, layout);
    proofs::lemma_pick(f, n);
    proofs::lemma_ancestors(f, n);
    proofs::lemma_ancestors(f, c);
    homes::lemma_home(f, n);
    homes::lemma_home(f, c);
    assert forall|i: int| 0 < i < f.ancestors(c).len() implies f.last_selection(
        #[trigger] f.ancestors(c)[i],
    ) == Some(f.ancestors(c)[i - 1]) by {
        assert(f.ancestors(c)[i] == f.ancestors(n)[i - 1]);
        if i > 1 {
            assert(f.ancestors(c)[i - 1] == f.ancestors(n)[i - 2]);
            led::lemma_led_path(f, n, i - 1);
        }
    }
    led::lemma_still_remembered(f, c);
    arrivals::law_selected(s, layout, c);
}

/// Moving the selection up or down the path of what is remembered changes nothing
/// that is remembered.
pub proof fn law_path_is_remembered(s: TraditionalView, layout: LayoutId)
    requires
        s.wf(),
        s.has(layout),
    ensures
        remembers_alike(s.forest, s.ascended(layout).forest),
        remembers_alike(s.forest, s.descended(layout).forest),
        s.forest.parent(s.selection(layout)) matches Some(p) ==> s.ascended(layout).selection(
            layout,
        ) == p && s.forest.last_selection(p) == Some(s.selection(layout)),
        s.forest.last_selection(s.selection(layout)) matches Some(c) ==> s.descended(
            layout,
        ).selection(layout) == c,
{
    if s.forest.parent(s.selection(layout)) is Some {
        lemma_ascended(s, layout);
    }
    if s.forest.last_selection(s.selection(layout)) is Some {
        lemma_descended(s, layout);
    }
}

/// Size steps change no path.
proof fn lemma_noted(s: ForestView, t: ForestView, n: NodeId)
    requires
        s.wf(),
        t.wf(),
        s.live(n),
        led::led(s, n),
        t.nodes == s.nodes,
    ensures
        led::led(t, n),
{
    proofs::lemma_ancestors(s, n);
    led::lemma_led_same(s, t, n);
}

/// A layout leads on to a window when its root gets a new root above it.
proof fn lemma_new_root(s: TraditionalView, layout: LayoutId, kind: LayoutKind, n: NodeId)
    requires
        s.wf(),
        s.has(layout),
        s.forest.minted <= u64::MAX,
        leads_to(s, layout, n),
    ensures
        leads_to(s.nested(layout, s.root(layout), kind).0, layout, n),
{
    let f = s.forest;
    let root = s.root(layout);
    let top = f.next_id();
    assert(s.roots.contains_key(layout));
    laws::lemma_nested(s, layout, root, kind);
    proofs::lemma_created(f);
    proofs::lemma_wrapped(f, root);
    let w = f.wrapped(root);
    let w2 = w.selected_locally(root);
    let w3 = w2.with_kind(top, kind);
    homes::lemma_selected_locally(w, root);
    homes::lemma_with_kind(w2, top, kind);
    homes::lemma_trans(w, w2, w3);
    laws::lemma_wrapped_home(f, root, n);
    assert(w.window(n) is Some);
    assert(w3.window(n) == f.window(n));
    assert(w3.home(n) == w.home(n));
    homes::lemma_root_above(f, root, n);
    proofs::lemma_node(f, root);
    assert(w3.parent(root) == Some(top));
    assert(w3.local_selection(top) == Some(root));
    assert(w3.parent(top) is None);
    proofs::lemma_node(w3, root);
    assert(led::led(w3, top));
    assert(led::led(w3, root));
    assert forall|x: NodeId| f.live(x) && #[trigger] f.above(root, x) implies {
        &&& w3.live(x)
        &&& x != root ==> w3.parent(x) == f.parent(x)
        &&& w3.local_selection(x) == f.local_selection(x)
    } by {
        proofs::lemma_node(f, x);
        assert(x != top);
    }
    led::lemma_led_below(f, w3, root, n);
}

/// Where a node went, what was above it before and still is leads on.
proof fn lemma_old_parent(f: ForestView, n: NodeId, place: Place)
    requires
        f.wf(),
        f.live(n),
        f.parent(n) is Some,
        led::led(f, n),
    ensures
        f.moved(n, place).above(f.parent(n)->0, n) && f.moved(n, place).live(n) ==> led::led(
            f.moved(n, place),
            f.parent(n)->0,
        ),
{
    let p = f.parent(n)->0;
    let t = f.moved(n, place);
    proofs::lemma_node(f, n);
    proofs::lemma_ancestors(f, n);
    led::lemma_led_path(f, n, 1);
    proofs::lemma_ancestors(f, p);
    assert(f.ancestors(n)[1] == p);
    assert(led::led(f, p));
    if f.can_move_at_home(n, place) {
        let loose = f.detached(n);
        let u = f.shifted(n, place);
        proofs::lemma_shifted(f, n, place);
        proofs::lemma_detached(f, n);
        assert(!f.above(n, p)) by {
            if f.above(n, p) {
                proofs::lemma_above_depth(f, n, p);
            }
        }
        led::lemma_detached(f, n, p);
        proofs::lemma_detached_above(f, n, p);
        led::lemma_attached(loose, n, loose.place_parent(place)->0, loose.place_rank(place), p);
        assert(led::led(u, p));
        assert(u.window(p) is None);
        if u.parent(p) is Some && u.children(p).len() <= 1 {
            led::lemma_gone(u, p);
            proofs::lemma_moved(f, n, place);
            if t.above(p, n) && t.live(n) {
                homes::lemma_above_home(t, p, n);
            }
        }
    }
}

/// Moving the selected window in a direction keeps it selected.
pub proof fn law_moved_window_stays_selected(
    s: TraditionalView,
    layout: LayoutId,
    direction: Direction,
)
    requires
        s.wf(),
        s.has(layout),
        s.forest.minted <= u64::MAX,
        s.selected_window(layout) is Some,
    ensures
        s.node_shifted(layout, s.selection(layout), direction).selected_window(layout)
            == s.selected_window(layout),
{
    let n = s.selection(layout);
    lemma_selection(s, layout);
    if s.can_shift(layout, n, direction) {
        let f0 = s.forest;
        let p = f0.parent(n)->0;
        let kids = f0.children(p);
        let kind = LayoutKind::along(direction.axis());
        let (t, place) = s.destination(layout, n, direction)->0;
        homes::lemma_home(f0, n);
        assert(f0.ancestors(n).last() == s.root(layout));
        lemma_new_root(s, layout, kind, n);
        laws::lemma_nested(s, layout, s.root(layout), kind);
        laws::law_move_keeps_windows(s, layout, n, direction);
        let f = t.forest;
        assert(leads_to(t, layout, n));
        assert(t.wf());
        let remember = |c: NodeId| SizeChange::Remembered { node: c };
        let recall = |c: NodeId| SizeChange::Recalled { node: c };
        let f1 = f.noting_each(kids, remember);
        joins::lemma_noting_each(f, kids, remember);
        lemma_noted(f, f1, n);
        let f2 = f1.moved(n, place);
        homes::lemma_moved(f1, n, place);
        homes::lemma_trans(f, f1, f2);
        let f3 = if f2.parent(n) == Some(p) {
            f2.noting_each(kids, recall).noting(SizeChange::Totalled { parent: p })
        } else {
            f2
        };
        joins::lemma_noting_each(f2, kids, recall);
        let g = f2.noting_each(kids, recall);
        homes::lemma_noting(g, SizeChange::Totalled { parent: p });
        homes::lemma_trans(f2, g, g.noting(SizeChange::Totalled { parent: p }));
        homes::lemma_refl(f2);
        homes::lemma_trans(f, f2, f3);
        let h = f3.path_selected(n, p);
        homes::lemma_path_selected(f3, n, p);
        homes::lemma_trans(f, f3, h);
        assert(f2.window(n) is Some);
        assert(f1.parent(n) == Some(p));
        lemma_old_parent(f1, n, place);
        if f3.above(p, n) {
            assert(f2.nodes == f3.nodes);
            proofs::lemma_ancestors(f3, n);
            proofs::lemma_ancestors(f2, n);
            proofs::lemma_same_ancestors(f3, f2, n);
            homes::lemma_above_home(f3, p, n);
            lemma_noted(f2, f3, p);
        }
        led::lemma_path_selected(f3, n, p);
        assert(f0.local_selection(p) == Some(n));
        let u = s.node_shifted(layout, n, direction);
        assert(u == t.with_forest(h));
        assert(h.window(n) == f.window(n));
        assert(h.home(n) == f.home(n));
        lemma_leads_to(u, layout, n);
    }
}

} // verus!
