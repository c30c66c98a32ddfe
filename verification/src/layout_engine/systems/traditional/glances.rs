//! What the focus reaches in a direction.

use vstd::prelude::*;

use crate::actor::{LayoutId, WindowId};
use crate::layout_engine::systems::navigation;
use crate::layout_engine::systems::traditional::arrivals;
use crate::layout_engine::systems::traditional::steps;
use crate::layout_engine::systems::traditional::view::TraditionalView;
use crate::layout_engine::Direction;
use crate::model::tree::homes;
use crate::model::tree::proofs;
use crate::model::tree::view::{ForestView, NodeId};

verus! {

/// The focus has gone from a layout to a node that shows a window, and nothing else
/// changed but what containers lead to.
pub open spec fn reaches(
    s: TraditionalView,
    layout: LayoutId,
    direction: Direction,
    m: NodeId,
    window: WindowId,
) -> bool {
    let (t, reached, _) = s.focus_moved(layout, direction);
    &&& reached == Some(window)
    &&& t.selection(layout) == m
    &&& t.selected_window(layout) == Some(window)
    &&& t.roots == s.roots
    &&& steps::same_lists(s.forest, t.forest)
}

/// A selected node lies in the tree of its layout.
proof fn lemma_selection_home(s: TraditionalView, layout: LayoutId)
    requires
        s.wf(),
        s.has(layout),
    ensures
        s.forest.live(s.selection(layout)),
        s.forest.home(s.selection(layout)) == s.root(layout),
{
    assert(s.roots.contains_key(layout));
    arrivals::lemma_selected_below(s.forest, s.root(layout));
    homes::lemma_home(s.forest, s.root(layout));
}

/// Leading to a window selects it.
proof fn lemma_led_to(s: TraditionalView, layout: LayoutId, m: NodeId, window: WindowId)
    requires
        s.wf(),
        s.forest.live(m),
        s.forest.home(m) == s.root(layout),
        s.forest.window(m) == Some(window),
    ensures
        ({
            let path = s.forest.ancestors(m);
            let t = s.with_forest(s.forest.path_picked(path, path.len() - 1));
            &&& t.selection(layout) == m
            &&& t.selected_window(layout) == Some(window)
            &&& steps::same_lists(s.forest, t.forest)
        }),
{
    let f = s.forest;
    proofs::lemma_node(f, m);
    assert(f.info(m).pick is None);
    assert(f.stopping_at(m).nodes =~= f.nodes);
    assert(f.stopping_at(m) == f);
    arrivals::law_selected(s, layout, m);
}

/// The focus goes to the next node along the container of the selected one, if that shows
/// a window.
pub proof fn law_to_neighbour(
    s: TraditionalView,
    layout: LayoutId,
    p: NodeId,
    i: int,
    window: WindowId,
    direction: Direction,
)
    requires
        s.wf(),
        s.has(layout),
        steps::child_at(s.forest, p, i, s.selection(layout)),
        steps::lies_along(s.forest.kind(p), direction),
        0 <= i + steps::step(direction) < s.forest.children(p).len(),
        s.forest.window(s.forest.children(p)[i + steps::step(direction)]) == Some(window),
    ensures
        reaches(
            s,
            layout,
            direction,
            s.forest.children(p)[i + steps::step(direction)],
            window,
        ),
{
    let f = s.forest;
    let n = s.selection(layout);
    let m = f.children(p)[i + steps::step(direction)];
    lemma_selection_home(s, layout);
    steps::lemma_child_at(f, p, i, n);
    steps::lemma_child_at(f, p, i + steps::step(direction), m);
    assert(f.traverse(n, direction) == Some(m));
    assert(f.best_focus(m) == Some((m, window)));
    lemma_led_to(s, layout, m, window);
}

/// Where the next node is a container, the focus goes to the window that it leads to or
/// remembers.
pub proof fn law_into_neighbour(
    s: TraditionalView,
    layout: LayoutId,
    p: NodeId,
    i: int,
    c: NodeId,
    window: WindowId,
    direction: Direction,
)
    requires
        s.wf(),
        s.has(layout),
        steps::child_at(s.forest, p, i, s.selection(layout)),
        steps::lies_along(s.forest.kind(p), direction),
        0 <= i + steps::step(direction) < s.forest.children(p).len(),
        s.forest.window(c) == Some(window),
        ({
            let m = s.forest.children(p)[i + steps::step(direction)];
            if s.forest.info(m).pick is Some {
                s.forest.info(m).pick->0.child == c
            } else {
                steps::child_at(s.forest, m, 0, c)
            }
        }),
    ensures
        reaches(s, layout, direction, c, window),
{
    let f = s.forest;
    let n = s.selection(layout);
    let m = f.children(p)[i + steps::step(direction)];
    lemma_selection_home(s, layout);
    steps::lemma_child_at(f, p, i, n);
    steps::lemma_child_at(f, p, i + steps::step(direction), m);
    assert(f.traverse(n, direction) == Some(m));
    proofs::lemma_node(f, m);
    if f.info(m).pick is Some {
        proofs::lemma_pick(f, m);
    }
    homes::lemma_home(f, c);
    assert(f.best_focus(c) == Some((c, window)));
    assert(f.best_focus_among(m, f.children(m).len()) == Some((c, window)) || f.info(
        m,
    ).pick is Some);
    assert(f.best_focus(m) == Some((c, window)));
    lemma_led_to(s, layout, c, window);
}

/// Where a container ends, or does not lie along the direction, the focus goes on beside
/// it in the container around it.
pub proof fn law_past_container(
    s: TraditionalView,
    layout: LayoutId,
    p: NodeId,
    i: int,
    q: NodeId,
    k: int,
    window: WindowId,
    direction: Direction,
)
    requires
        s.wf(),
        s.has(layout),
        steps::child_at(s.forest, p, i, s.selection(layout)),
        steps::child_at(s.forest, q, k, p),
        !steps::lies_along(s.forest.kind(p), direction) || !(0 <= i + steps::step(direction)
            < s.forest.children(p).len()),
        steps::lies_along(s.forest.kind(q), direction),
        0 <= k + steps::step(direction) < s.forest.children(q).len(),
        s.forest.window(s.forest.children(q)[k + steps::step(direction)]) == Some(window),
    ensures
        reaches(
            s,
            layout,
            direction,
            s.forest.children(q)[k + steps::step(direction)],
            window,
        ),
{
    let f = s.forest;
    let n = s.selection(layout);
    let m = f.children(q)[k + steps::step(direction)];
    lemma_selection_home(s, layout);
    steps::lemma_child_at(f, p, i, n);
    steps::lemma_child_at(f, q, k, p);
    steps::lemma_child_at(f, q, k + steps::step(direction), m);
    proofs::lemma_ancestors(f, n);
    proofs::lemma_ancestors(f, p);
    proofs::lemma_node(f, m);
    assert(f.ancestors(n)[1] == p);
    assert(f.move_over(n, direction) is None);
    assert(f.move_over(p, direction) == Some(m));
    assert(f.turning_point(n, direction) == Some(p));
    assert(f.descend(m, direction) == m);
    assert(f.best_focus(m) == Some((m, window)));
    lemma_led_to(s, layout, m, window);
}

/// At the end of a root, or across it, the focus stays where it is.
pub proof fn law_at_the_end(
    s: TraditionalView,
    layout: LayoutId,
    p: NodeId,
    i: int,
    direction: Direction,
)
    requires
        s.wf(),
        steps::child_at(s.forest, p, i, s.selection(layout)),
        s.forest.parent(p) is None,
        !steps::lies_along(s.forest.kind(p), direction) || !(0 <= i + steps::step(direction)
            < s.forest.children(p).len()),
    ensures
        s.focus_moved(layout, direction) == (s, None::<WindowId>, Seq::<WindowId>::empty()),
{
    let f = s.forest;
    let n = s.selection(layout);
    steps::lemma_child_at(f, p, i, n);
    proofs::lemma_ancestors(f, n);
    proofs::lemma_ancestors(f, p);
    assert(f.ancestors(n) =~= seq![n, p]);
    assert(f.move_over(n, direction) is None);
    reveal_with_fuel(navigation::find_on, 3);
    assert(f.turning_point(n, direction) is None);
}

/// Without stacks from a container on up, the end of a path is what comes to light.
proof fn lemma_revealed(f: ForestView, path: Seq<NodeId>, upto: int)
    requires
        0 <= upto < path.len(),
        forall|j: int| 2 <= j <= upto ==> !f.kind(#[trigger] path[j]).stacks(),
    ensures
        f.revealed(path, upto) == path[0],
    decreases upto,
{
    if upto > 0 {
        lemma_revealed(f, path, upto - 1);
    }
}

/// The focus raises the window it reaches and no other, unless it turns a stack further up.
pub proof fn law_raised_alone(
    s: TraditionalView,
    layout: LayoutId,
    p: NodeId,
    i: int,
    window: WindowId,
    direction: Direction,
)
    requires
        s.wf(),
        s.has(layout),
        steps::child_at(s.forest, p, i, s.selection(layout)),
        steps::lies_along(s.forest.kind(p), direction),
        0 <= i + steps::step(direction) < s.forest.children(p).len(),
        s.forest.window(s.forest.children(p)[i + steps::step(direction)]) == Some(window),
        forall|a: NodeId|
            #![trigger s.forest.kind(a)]
            a != p && s.forest.above(a, p) ==> s.forest.kind(a) is Horizontal || s.forest.kind(
                a,
            ) is Vertical,
    ensures
        ({
            let (_, _, raised) = s.focus_moved(layout, direction);
            raised == seq![window]
        }),
{
    let f = s.forest;
    let n = s.selection(layout);
    let m = f.children(p)[i + steps::step(direction)];
    law_to_neighbour(s, layout, p, i, window, direction);
    steps::lemma_child_at(f, p, i, n);
    steps::lemma_child_at(f, p, i + steps::step(direction), m);
    assert(f.traverse(n, direction) == Some(m));
    assert(f.best_focus(m) == Some((m, window)));
    proofs::lemma_ancestors(f, m);
    proofs::lemma_ancestors(f, p);
    let path = f.ancestors(m);
    let t = f.path_picked(path, path.len() - 1);
    assert forall|j: int| 2 <= j <= path.len() - 1 implies !f.kind(#[trigger] path[j]).stacks() by {
        assert(path[j] == f.ancestors(p)[j - 1]);
        assert(f.above(path[j], p));
        assert(path[1] == p);
        assert(path[j] != path[1]);
    }
    lemma_revealed(f, path, path.len() - 1);
    proofs::lemma_node(f, m);
    assert(t.children(m).len() == 0);
    assert(t.window(m) == Some(window));
    assert(t.info(m).pick is None) by {
        assert(path.index_of(m) == 0);
        assert(path.contains(path[0]));
    }
    assert(t.visible_below(m, 0) == Seq::<WindowId>::empty());
    assert(t.visible(m) =~= seq![window]);
}

} // verus!
