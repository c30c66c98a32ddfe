//! What the commands on layout trees leave alone.

use vstd::prelude::*;

use crate::actor::LayoutId;
use crate::common::config::StackDefaultOrientation;
use crate::layout_engine::systems::traditional::filed;
use crate::layout_engine::systems::traditional::joins;
use crate::layout_engine::systems::traditional::system;
use crate::layout_engine::systems::traditional::view::TraditionalView;
use crate::layout_engine::systems::traditional::view as commands;
use crate::layout_engine::{Direction, LayoutKind};
use crate::model::tree::homes;
use crate::model::tree::kept;
use crate::model::tree::proofs;
use crate::model::tree::view;
use crate::model::tree::view::{ForestView, NodeId, Place, SizeChange};

verus! {

/// The same layouts hold the same windows, each as often as before, and the index
/// still agrees with the trees.
pub open spec fn keeps_windows(s: TraditionalView, t: TraditionalView) -> bool {
    &&& t.wf()
    &&& t.roots.dom() == s.roots.dom()
    &&& filed::filed(s) ==> filed::filed(t)
    &&& forall|l: LayoutId|
        s.has(l) ==> #[trigger] t.all_windows(l).to_multiset() == s.all_windows(l).to_multiset()
}

/// A forest whose windows stay in their trees holds the same windows per layout.
pub proof fn lemma_settled(s: TraditionalView, forest: ForestView)
    requires
        s.wf(),
        homes::settled(s.forest, forest),
    ensures
        keeps_windows(s, s.with_forest(forest)),
{
    let t = s.with_forest(forest);
    kept::lemma_roots(s.forest, forest);
    if filed::filed(s) {
        filed::lemma_settled(s, forest);
    }
    assert forall|l: LayoutId| #[trigger] t.roots.contains_key(l) implies {
        &&& l.issued()
        &&& t.forest.live(t.roots[l])
        &&& t.forest.parent(t.roots[l]) is None
        &&& t.forest.window(t.roots[l]) is None
    } by {
        assert(s.roots.contains_key(l));
        assert(s.forest.live(s.roots[l]));
    }
    assert forall|l: LayoutId| s.has(l) implies #[trigger] t.all_windows(l).to_multiset()
        == s.all_windows(l).to_multiset() by {
        let r = s.root(l);
        assert(t.roots.contains_key(l));
        assert forall|x: NodeId| #[trigger]
            homes::shown_in(s.forest, r, x) == homes::shown_in(forest, r, x) by {
            if s.forest.window(x) is Some {
                assert(forest.window(x) == s.forest.window(x));
                assert(forest.home(x) == s.forest.home(x));
            }
            if forest.window(x) is Some {
                assert(s.forest.window(x) == forest.window(x));
            }
        }
        homes::lemma_same_windows(s.forest, r, forest, r);
    }
}

pub proof fn lemma_trans(s: TraditionalView, t: TraditionalView, u: TraditionalView)
    requires
        keeps_windows(s, t),
        keeps_windows(t, u),
    ensures
        keeps_windows(s, u),
{
    assert forall|l: LayoutId| s.has(l) implies #[trigger] u.all_windows(l).to_multiset()
        == s.all_windows(l).to_multiset() by {
        assert(t.roots.dom().contains(l));
        assert(t.all_windows(l).to_multiset() == s.all_windows(l).to_multiset());
    }
}

/// Where nodes belong after their root got a new root above it.
pub proof fn lemma_wrapped_home(s: ForestView, n: NodeId, x: NodeId)
    requires
        s.wf(),
        s.minted <= u64::MAX,
        s.live(n),
        s.parent(n) is None,
        s.live(x),
    ensures
        s.wrapped(n).live(x),
        s.wrapped(n).window(x) == s.window(x),
        s.wrapped(n).home(x) == (if s.home(x) == n {
            s.next_id()
        } else {
            s.home(x)
        }),
    decreases view::depth(s.nodes, x),
{
    let t = s.wrapped(n);
    proofs::lemma_created(s);
    proofs::lemma_wrapped(s, n);
    homes::lemma_home(s, x);
    homes::lemma_home(t, x);
    proofs::lemma_node(s, x);
    if s.parent(x) is Some {
        assert(t.parent(x) == s.parent(x));
        lemma_wrapped_home(s, n, s.parent(x)->0);
    } else if x == n {
        homes::lemma_home(t, s.next_id());
    }
}

/// A layout keeps its windows when its root gets a new root above it.
proof fn lemma_new_root(s: TraditionalView, layout: LayoutId, kind: LayoutKind)
    requires
        s.wf(),
        s.forest.minted <= u64::MAX,
        s.has(layout),
    ensures
        keeps_windows(s, s.nested(layout, s.root(layout), kind).0),
{
    let f = s.forest;
    let n = s.root(layout);
    let box_id = f.next_id();
    assert(s.roots.contains_key(layout));
    proofs::lemma_created(f);
    proofs::lemma_wrapped(f, n);
    let w = f.wrapped(n);
    let w2 = w.selected_locally(n);
    let w3 = w2.with_kind(box_id, kind);
    let t = s.nested(layout, n, kind).0;
    homes::lemma_selected_locally(w, n);
    homes::lemma_with_kind(w2, box_id, kind);
    homes::lemma_trans(w, w2, w3);
    assert(kept::other_roots_kept(f, w, n)) by {
        assert forall|x: NodeId| #[trigger]
            f.live(x) && x != n && f.parent(x) is None && f.window(x) is None implies w.live(x)
            && w.parent(x) is None && w.window(x) is None by {
            proofs::lemma_node(f, x);
        }
    }
    system::lemma_wrapped_wf(s, layout, w, t);
    assert(t.roots.dom() =~= s.roots.dom());
    assert forall|l: LayoutId| s.has(l) implies #[trigger] t.all_windows(l).to_multiset()
        == s.all_windows(l).to_multiset() by {
        let r = s.root(l);
        let q = t.root(l);
        assert(s.roots.contains_key(l) && t.roots.contains_key(l));
        assert forall|x: NodeId| #[trigger] homes::shown_in(f, r, x) == homes::shown_in(w3, q, x)
            && (homes::shown_in(f, r, x) ==> w3.window(x) == f.window(x)) by {
            if f.live(x) {
                lemma_wrapped_home(f, n, x);
                homes::lemma_home(f, x);
                proofs::lemma_node(f, f.home(x));
                if w.window(x) is Some {
                    assert(w3.window(x) == w.window(x));
                    assert(w3.home(x) == w.home(x));
                }
            }
            if w3.window(x) is Some {
                assert(w.window(x) == w3.window(x));
                assert(x != box_id);
            }
        }
        homes::lemma_same_windows(f, r, w3, q);
    }
    if filed::filed(s) {
        lemma_new_root_filed(s, layout, w, t);
    }
}

/// A layout stays filed when its root gets a new root above it.
proof fn lemma_new_root_filed(
    s: TraditionalView,
    layout: LayoutId,
    w: ForestView,
    t: TraditionalView,
)
    requires
        s.wf(),
        filed::filed(s),
        s.forest.minted <= u64::MAX,
        s.has(layout),
        w == s.forest.wrapped(s.root(layout)),
        w.wf(),
        homes::settled(w, t.forest),
        t.roots == s.roots.insert(layout, s.forest.next_id()),
    ensures
        filed::filed(t),
{
    let f = s.forest;
    let n = s.root(layout);
    assert(s.roots.contains_key(layout));
    proofs::lemma_created(f);
    assert(kept::index_ok(w)) by {
        assert forall|i: int| 0 <= i < w.index.len() implies w.window((#[trigger] w.index[i]).node)
            == Some(w.index[i].window) by {
            assert(f.window(f.index[i].node) is Some);
            lemma_wrapped_home(f, n, f.index[i].node);
        }
    }
    kept::lemma_index_ok(w, t.forest);
    assert forall|x: NodeId| (#[trigger] t.forest.window(x)) is Some implies filed::listed(
        t.forest,
        x,
    ) by {
        assert(w.window(x) == t.forest.window(x));
        assert(x != f.next_id());
        assert(f.live(x));
        lemma_wrapped_home(f, n, x);
        assert(f.window(x) is Some);
        assert(filed::listed(f, x));
    }
    assert forall|i: int| 0 <= i < t.forest.index.len() implies filed::in_its_layout(
        t,
        #[trigger] t.forest.index[i],
    ) by {
        let e = f.index[i];
        assert(filed::in_its_layout(s, e));
        assert(f.window(e.node) is Some);
        lemma_wrapped_home(f, n, e.node);
        assert(w.window(e.node) is Some);
        assert(t.forest.window(e.node) is Some);
        assert(t.forest.home(e.node) == w.home(e.node));
        assert(s.roots.contains_key(e.layout));
        if e.layout != layout {
            assert(s.roots[e.layout] != s.roots[layout]);
        }
    }
}

pub proof fn lemma_nested(s: TraditionalView, layout: LayoutId, n: NodeId, kind: LayoutKind)
    requires
        s.wf(),
        s.forest.minted <= u64::MAX,
    ensures
        keeps_windows(s, s.nested(layout, n, kind).0),
{
    let f = s.forest;
    homes::lemma_refl(f);
    lemma_settled(s, f);
    if f.parent(n) is Some {
        let p = f.parent(n)->0;
        if f.children(p).len() == 1 {
            homes::lemma_with_kind(f, p, kind);
            lemma_settled(s, f.with_kind(p, kind));
        } else {
            let box_id = f.next_id();
            let f1 = f.with_new(Place::Before(n));
            homes::lemma_with_new(f, Place::Before(n));
            let f2 = f1.noting(SizeChange::Inherited { node: box_id, from: n });
            homes::lemma_noting(f1, SizeChange::Inherited { node: box_id, from: n });
            homes::lemma_trans(f, f1, f2);
            let f3 = f2.moved(n, Place::Last(box_id));
            homes::lemma_moved(f2, n, Place::Last(box_id));
            homes::lemma_trans(f, f2, f3);
            let f4 = if f.local_selection(p) == Some(n) {
                f3.selected_locally(box_id)
            } else {
                f3
            };
            homes::lemma_refl(f3);
            homes::lemma_selected_locally(f3, box_id);
            homes::lemma_trans(f, f3, f4);
            let f5 = f4.selected_locally(n);
            homes::lemma_selected_locally(f4, n);
            homes::lemma_trans(f, f4, f5);
            homes::lemma_with_kind(f5, box_id, kind);
            homes::lemma_trans(f, f5, f5.with_kind(box_id, kind));
            lemma_settled(s, f5.with_kind(box_id, kind));
        }
    } else if s.has(layout) && s.root(layout) == n {
        lemma_new_root(s, layout, kind);
    }
}

/// Moving a node in a direction keeps the windows of every layout.
pub proof fn law_move_keeps_windows(
    s: TraditionalView,
    layout: LayoutId,
    n: NodeId,
    direction: Direction,
)
    requires
        s.wf(),
        s.forest.minted <= u64::MAX,
    ensures
        keeps_windows(s, s.node_shifted(layout, n, direction)),
{
    homes::lemma_refl(s.forest);
    lemma_settled(s, s.forest);
    if s.can_shift(layout, n, direction) {
        let p = s.forest.parent(n)->0;
        let kids = s.forest.children(p);
        let (t, place) = s.destination(layout, n, direction)->0;
        lemma_nested(
            s,
            layout,
            s.forest.ancestors(n).last(),
            LayoutKind::along(direction.axis()),
        );
        assert(keeps_windows(s, t));
        let remember = |c: NodeId| SizeChange::Remembered { node: c };
        let recall = |c: NodeId| SizeChange::Recalled { node: c };
        let f = t.forest;
        let f1 = f.noting_each(kids, remember);
        joins::lemma_noting_each(f, kids, remember);
        let f2 = f1.moved(n, place);
        homes::lemma_moved(f1, n, place);
        homes::lemma_trans(f, f1, f2);
        let f3 = if f2.parent(n) == Some(p) {
            f2.noting_each(kids, recall).noting(SizeChange::Totalled { parent: p })
        } else {
            f2
        };
        joins::lemma_noting_each(f2, kids, recall);
        let g = f2.noting_each(kids, recall);
        homes::lemma_noting(g, SizeChange::Totalled { parent: p });
        homes::lemma_trans(f2, g, g.noting(SizeChange::Totalled { parent: p }));
        homes::lemma_refl(f2);
        homes::lemma_trans(f, f2, f3);
        homes::lemma_path_selected(f3, n, p);
        homes::lemma_trans(f, f3, f3.path_selected(n, p));
        lemma_settled(t, f3);
        lemma_settled(t, f3.path_selected(n, p));
        let u = s.node_shifted(layout, n, direction);
        assert(u == t.with_forest(f3) || u == t.with_forest(f3.path_selected(n, p)));
        lemma_trans(s, t, u);
    }
}

/// Splitting the selection keeps the windows of every layout.
pub proof fn law_split_keeps_windows(s: TraditionalView, layout: LayoutId, kind: LayoutKind)
    requires
        s.wf(),
        s.forest.minted <= u64::MAX,
    ensures
        keeps_windows(s, s.nested(layout, s.selection(layout), kind).0),
{
    lemma_nested(s, layout, s.selection(layout), kind);
}

/// Joining the selection with a neighbour keeps the windows of every layout.
pub proof fn law_join_keeps_windows(s: TraditionalView, layout: LayoutId, direction: Direction)
    requires
        s.wf(),
        s.forest.minted <= u64::MAX,
    ensures
        keeps_windows(s, s.selection_joined(layout, direction)),
{
    let f = s.forest;
    homes::lemma_refl(f);
    lemma_settled(s, f);
    match f.join_target(s.selection(layout), direction) {
        Some(target) => {
            let n = f.join_source(s.selection(layout), target, direction);
            if f.absorbs(n, target, direction) {
                joins::lemma_taken_in(f, target, n, direction.is_forward());
                lemma_settled(s, f.taken_in(target, n, direction.is_forward()).selected(n));
            } else {
                let t = f.joined(n, target, direction);
                joins::lemma_joined(f, n, target, direction);
                lemma_settled(s, t);
                let u = s.with_forest(t);
                homes::lemma_selected(t, n);
                homes::lemma_trans(f, t, t.selected(n));
                lemma_settled(s, t.selected(n));
                law_descend_keeps_windows(u, layout);
                lemma_trans(s, u, u.descended(layout));
            }
        },
        None => {},
    }
}

/// Selecting the remembered child keeps the windows of every layout.
pub proof fn law_descend_keeps_windows(s: TraditionalView, layout: LayoutId)
    requires
        s.wf(),
    ensures
        keeps_windows(s, s.descended(layout)),
{
    homes::lemma_refl(s.forest);
    lemma_settled(s, s.forest);
    match s.forest.last_selection(s.selection(layout)) {
        Some(c) => {
            homes::lemma_selected(s.forest, c);
            lemma_settled(s, s.forest.selected(c));
        },
        None => {},
    }
}

/// Selecting the parent keeps the windows of every layout.
pub proof fn law_ascend_keeps_windows(s: TraditionalView, layout: LayoutId)
    requires
        s.wf(),
    ensures
        keeps_windows(s, s.ascended(layout)),
{
    homes::lemma_refl(s.forest);
    lemma_settled(s, s.forest);
    match s.forest.parent(s.selection(layout)) {
        Some(p) => {
            homes::lemma_selected(s.forest, p);
            lemma_settled(s, s.forest.selected(p));
        },
        None => {},
    }
}

/// Taking the container around the selection apart keeps the windows of every
/// layout.
pub proof fn law_unjoin_keeps_windows(s: TraditionalView, layout: LayoutId)
    requires
        s.wf(),
    ensures
        keeps_windows(s, s.selection_unjoined(layout)),
{
    homes::lemma_refl(s.forest);
    lemma_settled(s, s.forest);
    let n = s.selection(layout);
    if s.selection_is_joined(layout) {
        let p = s.forest.parent(n)->0;
        proofs::lemma_node(s.forest, n);
        joins::lemma_dissolved(s.forest, p);
        lemma_settled(s, s.forest.dissolved(p));
    }
}

/// Consuming or expelling keeps the windows of every layout.
pub proof fn law_consume_keeps_windows(s: TraditionalView, layout: LayoutId, direction: Direction)
    requires
        s.wf(),
        s.forest.minted <= u64::MAX,
    ensures
        keeps_windows(s, s.consumed_or_expelled(layout, direction)),
{
    law_unjoin_keeps_windows(s, layout);
    law_join_keeps_windows(s, layout, direction);
}

/// Stacking and unstacking keep the windows of every layout.
pub proof fn law_stacking_keeps_windows(
    s: TraditionalView,
    layout: LayoutId,
    default: StackDefaultOrientation,
)
    requires
        s.wf(),
    ensures
        keeps_windows(s, s.stacking_applied(layout, default)),
        keeps_windows(s, s.unstacked(layout, default)),
{
    let f = s.forest;
    homes::lemma_refl(f);
    lemma_settled(s, f);
    match s.stacking_target(layout) {
        Some(c) => {
            let kind = commands::stacked_kind(f.kind(c), default);
            let t = f.with_kind(c, kind);
            homes::lemma_with_kind(f, c, kind);
            lemma_settled(s, t);
            match t.first_child(c) {
                Some(first) => {
                    homes::lemma_selected(t, first);
                    homes::lemma_trans(f, t, t.selected(first));
                    lemma_settled(s, t.selected(first));
                },
                None => {},
            }
        },
        None => {},
    }
    match s.unstacking_target(layout) {
        Some(c) => {
            let kind = commands::unstacked_kind(f.kind(c), default);
            homes::lemma_with_kind(f, c, kind);
            lemma_settled(s, f.with_kind(c, kind));
        },
        None => {},
    }
}

/// Turning a container and covering the screen keep the windows of every layout.
pub proof fn law_toggles_keep_windows(s: TraditionalView, layout: LayoutId)
    requires
        s.wf(),
    ensures
        keeps_windows(s, s.tile_toggled(layout)),
        keeps_windows(s, s.fullscreen_toggled(layout)),
        keeps_windows(s, s.fullscreen_within_gaps_toggled(layout)),
{
    let f = s.forest;
    homes::lemma_refl(f);
    lemma_settled(s, f);
    let n = s.tile_target(layout);
    homes::lemma_with_kind(f, n, LayoutKind::Vertical);
    lemma_settled(s, f.with_kind(n, LayoutKind::Vertical));
    homes::lemma_with_kind(f, n, LayoutKind::Horizontal);
    lemma_settled(s, f.with_kind(n, LayoutKind::Horizontal));
    let m = s.selection(layout);
    let info = s.selection_info(layout);
    let within = info.is_fullscreen && info.is_fullscreen_within_gaps;
    homes::lemma_with_fullscreen(f, m, !info.is_fullscreen, within);
    lemma_settled(s, f.with_fullscreen(m, !info.is_fullscreen, within));
    homes::lemma_with_fullscreen(f, m, within, !info.is_fullscreen_within_gaps);
    lemma_settled(s, f.with_fullscreen(m, within, !info.is_fullscreen_within_gaps));
}

/// Moving the focus keeps the windows of every layout.
pub proof fn law_focus_keeps_windows(s: TraditionalView, layout: LayoutId, direction: Direction)
    requires
        s.wf(),
    ensures
        keeps_windows(s, s.focus_moved(layout, direction).0),
{
    let f = s.forest;
    homes::lemma_refl(f);
    lemma_settled(s, f);
    match f.traverse(s.selection(layout), direction) {
        Some(next) => match f.best_focus(next) {
            Some((n, window)) => {
                system::lemma_focus_live(f, next);
                proofs::lemma_ancestors(f, n);
                let path = f.ancestors(n);
                homes::lemma_path_picked(f, n, path.len() - 1);
                lemma_settled(s, f.path_picked(path, path.len() - 1));
            },
            None => {},
        },
        None => {},
    }
}

} // verus!
