//! What is switched on can be switched off again.

use vstd::prelude::*;

use crate::actor::LayoutId;
use crate::layout_engine::systems::traditional::arrivals;
use crate::layout_engine::systems::traditional::view::TraditionalView;
use crate::model::tree::proofs;
use crate::model::tree::view;
use crate::model::tree::view::{ForestView, NodeId, NodeInfo};

verus! {

/// Forests that differ in what nodes look like alone.
pub open spec fn same_paths(s: ForestView, t: ForestView) -> bool {
    &&& t.wf()
    &&& forall|x: NodeId| #[trigger] t.live(x) <==> s.live(x)
    &&& forall|x: NodeId| #[trigger] t.parent(x) == s.parent(x)
    &&& forall|x: NodeId| (#[trigger] t.info(x)).pick == s.info(x).pick
}

/// The selection depends on nothing else.
pub proof fn lemma_same_selection(s: ForestView, t: ForestView, n: NodeId)
    requires
        s.wf(),
        same_paths(s, t),
        s.live(n),
    ensures
        t.selected_below(n) == s.selected_below(n),
    decreases view::height(s.nodes, n),
{
    assert(t.info(n).pick == s.info(n).pick);
    if s.local_selection(n) is Some {
        proofs::lemma_pick(s, n);
        proofs::lemma_pick(t, n);
        lemma_same_selection(s, t, s.local_selection(n)->0);
    }
}

/// Changing what a node looks like keeps the selection.
proof fn lemma_dressed(v: TraditionalView, layout: LayoutId, n: NodeId, info: NodeInfo)
    requires
        v.wf(),
        v.has(layout),
        v.forest.live(n),
        info.window == v.forest.info(n).window,
        info.pick == v.forest.info(n).pick,
    ensures
        v.with_forest(v.forest.with_info(n, info)).selection(layout) == v.selection(layout),
        v.forest.with_info(n, info).parent(v.selection(layout)) == v.forest.parent(
            v.selection(layout),
        ),
        v.forest.with_info(n, info).live(n),
        v.forest.with_info(n, info).info(n) == info,
{
    let f = v.forest;
    let t = f.with_info(n, info);
    proofs::lemma_node(f, n);
    proofs::lemma_with_info(f, n, info);
    assert(same_paths(f, t));
    lemma_same_selection(f, t, v.root(layout));
}

/// Turning the orientation of a container twice leaves everything as it was.
pub proof fn law_tile_toggled_back(v: TraditionalView, layout: LayoutId)
    requires
        v.wf(),
        v.has(layout),
        !v.forest.kind(v.tile_target(layout)).stacks() ==> v.forest.info(
            v.tile_target(layout),
        ).last_ungrouped_kind == v.forest.kind(v.tile_target(layout)),
    ensures
        v.tile_toggled(layout).tile_toggled(layout) == v,
{
    let f = v.forest;
    let n = v.tile_target(layout);
    arrivals::lemma_selected_below(f, v.root(layout));
    proofs::lemma_node(f, v.selection(layout));
    let turned = v.tile_toggled(layout);
    if !f.kind(n).stacks() {
        lemma_dressed(v, layout, n, turned.forest.info(n));
        assert(turned.tile_target(layout) == n);
        assert(turned.tile_toggled(layout).forest.nodes =~= f.nodes);
    }
}

/// A selection that covers the screen, or the screen within its gaps, can be put
/// back, and then does neither.
pub proof fn law_fullscreen_toggled_back(v: TraditionalView, layout: LayoutId)
    requires
        v.wf(),
        v.has(layout),
        !v.selection_info(layout).is_fullscreen,
        !v.selection_info(layout).is_fullscreen_within_gaps,
    ensures
        v.fullscreen_toggled(layout).selection_info(layout).is_fullscreen,
        v.fullscreen_toggled(layout).fullscreen_toggled(layout) == v,
        v.fullscreen_within_gaps_toggled(layout).selection_info(layout).is_fullscreen_within_gaps,
        v.fullscreen_within_gaps_toggled(layout).fullscreen_within_gaps_toggled(layout) == v,
{
    let f = v.forest;
    let n = v.selection(layout);
    arrivals::lemma_selected_below(f, v.root(layout));
    let full = v.fullscreen_toggled(layout);
    lemma_dressed(v, layout, n, full.forest.info(n));
    assert(full.fullscreen_toggled(layout).forest.nodes =~= f.nodes);
    let within = v.fullscreen_within_gaps_toggled(layout);
    lemma_dressed(v, layout, n, within.forest.info(n));
    assert(within.fullscreen_within_gaps_toggled(layout).forest.nodes =~= f.nodes);
}

/// Nothing comes to cover both the screen and the screen within its gaps.
pub proof fn law_covers_in_one_way(v: TraditionalView, layout: LayoutId)
    requires
        v.wf(),
        v.has(layout),
        !(v.selection_info(layout).is_fullscreen && v.selection_info(
            layout,
        ).is_fullscreen_within_gaps),
    ensures
        ({
            let a = v.fullscreen_toggled(layout).selection_info(layout);
            !(a.is_fullscreen && a.is_fullscreen_within_gaps)
        }),
        ({
            let a = v.fullscreen_within_gaps_toggled(layout).selection_info(layout);
            !(a.is_fullscreen && a.is_fullscreen_within_gaps)
        }),
{
    let f = v.forest;
    let n = v.selection(layout);
    arrivals::lemma_selected_below(f, v.root(layout));
    lemma_dressed(v, layout, n, v.fullscreen_toggled(layout).forest.info(n));
    lemma_dressed(v, layout, n, v.fullscreen_within_gaps_toggled(layout).forest.info(n));
}

} // verus!
