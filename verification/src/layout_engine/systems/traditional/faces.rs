//! What becomes of the kind of a container, what a node shows, and where sizes are traded.

use vstd::prelude::*;

use crate::actor::{LayoutId, WindowId};
use crate::common::config::StackDefaultOrientation;
use crate::layout_engine::systems::navigation;
use crate::layout_engine::systems::navigation::Coverage;
use crate::layout_engine::systems::traditional::arrivals;
use crate::layout_engine::systems::traditional::boxes;
use crate::layout_engine::systems::traditional::steps;
use crate::layout_engine::systems::traditional::view::TraditionalView;
use crate::layout_engine::{Direction, LayoutKind, ResizeOrientation};
use crate::model::tree::homes;
use crate::model::tree::proofs;
use crate::model::tree::view::{ForestView, NodeId};

verus! {

/// Only the kind of one node differs, and what nodes lead to.
pub open spec fn refaced(f: ForestView, g: ForestView, c: NodeId, kind: LayoutKind) -> bool {
    &&& g.kind(c) == kind
    &&& forall|x: NodeId| x != c ==> #[trigger] g.kind(x) == f.kind(x)
    &&& forall|x: NodeId| #[trigger] g.live(x) == f.live(x)
    &&& forall|x: NodeId| #[trigger] g.children(x) == f.children(x)
    &&& forall|x: NodeId| #[trigger] g.window(x) == f.window(x)
}

/// Toggling the orientation turns the container of the selection, unless it is a stack.
pub proof fn law_turned(s: TraditionalView, layout: LayoutId, p: NodeId, i: int)
    requires
        s.wf(),
        steps::child_at(s.forest, p, i, s.selection(layout)),
    ensures
        ({
            let t = s.tile_toggled(layout);
            &&& t.roots == s.roots
            &&& s.forest.kind(p) is Horizontal ==> refaced(
                s.forest,
                t.forest,
                p,
                LayoutKind::Vertical,
            )
            &&& s.forest.kind(p) is Vertical ==> refaced(
                s.forest,
                t.forest,
                p,
                LayoutKind::Horizontal,
            )
            &&& s.forest.kind(p) is HorizontalStack || s.forest.kind(p) is VerticalStack ==> t == s
        }),
{
    steps::lemma_child_at(s.forest, p, i, s.selection(layout));
    proofs::lemma_with_kind(s.forest, p, LayoutKind::Horizontal);
    proofs::lemma_with_kind(s.forest, p, LayoutKind::Vertical);
}

/// The stack that a row or column becomes, for each setting.
pub open spec fn becomes(kind: LayoutKind, default: StackDefaultOrientation) -> LayoutKind {
    if kind is HorizontalStack {
        LayoutKind::VerticalStack
    } else if kind is VerticalStack {
        LayoutKind::HorizontalStack
    } else if default is Horizontal || (default is Same && kind is Horizontal) || (
    default is Perpendicular && kind is Vertical) {
        LayoutKind::HorizontalStack
    } else {
        LayoutKind::VerticalStack
    }
}

/// Stacking turns the container of the selected window into a stack, which shows its
/// first child. One that is a stack already is turned.
pub proof fn law_stacked(
    s: TraditionalView,
    layout: LayoutId,
    p: NodeId,
    i: int,
    default: StackDefaultOrientation,
)
    requires
        s.wf(),
        s.has(layout),
        steps::child_at(s.forest, p, i, s.selection(layout)),
        s.selected_window(layout) is Some,
    ensures
        ({
            let t = s.stacking_applied(layout, default);
            &&& t.roots == s.roots
            &&& refaced(s.forest, t.forest, p, becomes(s.forest.kind(p), default))
            &&& t.forest.local_selection(p) == Some(s.forest.children(p)[0])
            &&& t.selection(layout) == s.forest.children(p)[0]
        }),
{
    let f = s.forest;
    let n = s.selection(layout);
    let kind = becomes(f.kind(p), default);
    let c = f.children(p)[0];
    let r = s.root(layout);
    assert(s.roots.contains_key(layout));
    arrivals::lemma_selected_below(f, r);
    homes::lemma_home(f, r);
    steps::lemma_child_at(f, p, i, n);
    steps::lemma_child_at(f, p, 0, c);
    let g = f.with_kind(p, kind);
    proofs::lemma_with_kind(f, p, kind);
    homes::lemma_with_kind(f, p, kind);
    steps::lemma_child_at(g, p, 0, c);
    proofs::lemma_ancestors(f, c);
    proofs::lemma_same_ancestors(f, g, c);
    let v = s.with_forest(g);
    assert(v.wf()) by {
        assert forall|l: LayoutId| #[trigger] v.roots.contains_key(l) implies g.live(v.roots[l])
            && g.parent(v.roots[l]) is None && g.window(v.roots[l]) is None by {
            assert(s.roots.contains_key(l));
        }
    }
    arrivals::law_selected(v, layout, c);
    boxes::lemma_selected_lists(g, c);
    proofs::lemma_ancestors(g, c);
    proofs::lemma_ancestors(g, p);
    let path = g.ancestors(c);
    assert(path[1] == p);
    assert(path.contains(p));
    assert(path.index_of(p) == 1);
    let t = s.stacking_applied(layout, default);
    assert(t.forest == g.selected(c));
    assert forall|x: NodeId| x != p implies #[trigger] t.forest.kind(x) == f.kind(x) by {
        assert(g.kind(x) == f.kind(x));
    }
    assert forall|x: NodeId| #[trigger] t.forest.window(x) == f.window(x) by {
        assert(g.window(x) == f.window(x));
    }
    assert forall|x: NodeId| #[trigger] t.forest.children(x) == f.children(x) by {
        assert(g.children(x) == f.children(x));
    }
    assert forall|x: NodeId| #[trigger] t.forest.live(x) == f.live(x) by {
        assert(g.live(x) == f.live(x));
    }
    assert(t.forest.kind(p) == g.kind(p));
}

/// Unstacking takes apart the stack that the selected window stands in.
pub proof fn law_unstacked(
    s: TraditionalView,
    layout: LayoutId,
    p: NodeId,
    i: int,
    default: StackDefaultOrientation,
)
    requires
        s.wf(),
        steps::child_at(s.forest, p, i, s.selection(layout)),
        s.selected_window(layout) is Some,
        s.forest.kind(p) is HorizontalStack || s.forest.kind(p) is VerticalStack,
    ensures
        ({
            let t = s.unstacked(layout, default);
            let flat = s.forest.kind(p) is HorizontalStack;
            let kind = if default is Horizontal || (default is Same && flat) || (
            default is Perpendicular && !flat) {
                LayoutKind::Horizontal
            } else {
                LayoutKind::Vertical
            };
            &&& t.roots == s.roots
            &&& refaced(s.forest, t.forest, p, kind)
        }),
{
    let f = s.forest;
    let n = s.selection(layout);
    steps::lemma_child_at(f, p, i, n);
    proofs::lemma_ancestors(f, n);
    proofs::lemma_ancestors(f, p);
    assert(f.ancestors(n)[1] == p);
    assert(f.stack_above(n) == Some(p));
    proofs::lemma_with_kind(f, p, LayoutKind::Horizontal);
    proofs::lemma_with_kind(f, p, LayoutKind::Vertical);
}

/// The windows of the first children, which have no children themselves.
pub open spec fn windows_of_first(f: ForestView, p: NodeId, upto: int) -> Seq<WindowId>
    decreases upto,
{
    if upto <= 0 {
        Seq::empty()
    } else {
        match f.window(f.children(p)[upto - 1]) {
            Some(w) => windows_of_first(f, p, upto - 1).push(w),
            None => windows_of_first(f, p, upto - 1),
        }
    }
}

/// A node without children shows its window.
proof fn lemma_leaf_shows(f: ForestView, n: NodeId)
    requires
        f.wf(),
        f.live(n),
        f.children(n).len() == 0,
    ensures
        f.visible(n) == (match f.window(n) {
            Some(w) => seq![w],
            None => Seq::empty(),
        }),
{
    proofs::lemma_node(f, n);
    assert(f.info(n).pick is None);
    assert(f.visible_below(n, 0) == Seq::<WindowId>::empty());
    assert(f.visible(n) =~= match f.window(n) {
        Some(w) => seq![w],
        None => Seq::empty(),
    });
}

proof fn lemma_row_shows(f: ForestView, p: NodeId, upto: nat)
    requires
        f.wf(),
        f.live(p),
        upto <= f.children(p).len(),
        forall|i: int|
            0 <= i < f.children(p).len() ==> f.children(#[trigger] f.children(p)[i]).len() == 0,
    ensures
        f.visible_below(p, upto) == windows_of_first(f, p, upto as int),
    decreases upto,
{
    if upto > 0 {
        let c = f.children(p)[upto - 1];
        proofs::lemma_node(f, p);
        assert(f.nodes[p].children[upto - 1] == c);
        lemma_leaf_shows(f, c);
        lemma_row_shows(f, p, (upto - 1) as nat);
        assert(f.visible_below(p, upto) =~= windows_of_first(f, p, upto as int));
    }
}

/// A plain container of windows shows them all, in order; a stack of windows shows the
/// one that it leads to.
pub proof fn law_shows(f: ForestView, p: NodeId)
    requires
        f.wf(),
        f.live(p),
        f.window(p) is None,
        forall|i: int|
            0 <= i < f.children(p).len() ==> f.children(#[trigger] f.children(p)[i]).len() == 0,
    ensures
        f.kind(p) is Horizontal || f.kind(p) is Vertical ==> f.visible(p) == windows_of_first(
            f,
            p,
            f.children(p).len() as int,
        ),
        f.kind(p) is HorizontalStack || f.kind(p) is VerticalStack ==> f.visible(p) == (
        match f.info(p).pick {
            Some(pick) => if pick.stop_here {
                Seq::empty()
            } else {
                match f.window(pick.child) {
                    Some(w) => seq![w],
                    None => Seq::empty(),
                }
            },
            None => Seq::empty(),
        }),
{
    lemma_row_shows(f, p, f.children(p).len());
    if f.info(p).pick is Some {
        let c = f.info(p).pick->0.child;
        proofs::lemma_pick(f, p);
        proofs::lemma_node(f, p);
        let i = choose|i: int| 0 <= i < f.nodes[p].children.len() && f.nodes[p].children[i] == c;
        assert(f.children(p)[i] == c);
        lemma_leaf_shows(f, c);
    }
    assert(f.visible(p) =~= if f.kind(p).stacks() {
        match f.local_selection(p) {
            Some(c) => f.visible(c),
            None => Seq::empty(),
        }
    } else {
        windows_of_first(f, p, f.children(p).len() as int)
    });
}

/// Entering a layout from the left or from above meets its first window, from the other
/// sides its last one.
pub proof fn law_first_met(s: TraditionalView, layout: LayoutId, direction: Direction)
    ensures
        s.all_windows(layout).len() == 0 ==> s.first_met(layout, direction) is None,
        s.all_windows(layout).len() > 0 ==> s.first_met(layout, direction) == Some(
            match direction {
                Direction::Right | Direction::Down => s.all_windows(layout)[0],
                Direction::Left | Direction::Up => s.all_windows(layout)[s.all_windows(layout).len()
                    - 1],
            },
        ),
{
}

/// The selected window of a plain container trades size with the next one along it; the
/// last one of a root trades with the one before.
pub proof fn law_trades(
    s: TraditionalView,
    layout: LayoutId,
    p: NodeId,
    i: int,
    orientation: ResizeOrientation,
)
    requires
        s.wf(),
        steps::child_at(s.forest, p, i, s.selection(layout)),
        s.selected_window(layout) is Some,
        s.forest.kind(p) is Horizontal || s.forest.kind(p) is Vertical,
        orientation is Horizontal ==> s.forest.kind(p) is Horizontal,
        orientation is Vertical ==> s.forest.kind(p) is Vertical,
    ensures
        ({
            let n = s.selection(layout);
            let kids = s.forest.children(p);
            let flat = s.forest.kind(p) is Horizontal;
            &&& i + 1 < kids.len() ==> s.resize_choice(layout, orientation) == Some(
                (
                    n,
                    kids[i + 1],
                    if flat {
                        Direction::Right
                    } else {
                        Direction::Down
                    },
                ),
            )
            &&& i + 1 == kids.len() && i > 0 && s.forest.parent(p) is None ==> s.resize_choice(
                layout,
                orientation,
            ) == Some(
                (
                    n,
                    kids[i - 1],
                    if flat {
                        Direction::Left
                    } else {
                        Direction::Up
                    },
                ),
            )
        }),
{
    let f = s.forest;
    let n = s.selection(layout);
    let kids = f.children(p);
    steps::lemma_child_at(f, p, i, n);
    proofs::lemma_ancestors(f, n);
    proofs::lemma_ancestors(f, p);
    assert(f.ancestors(n)[0] == n);
    let (forth, back) = if f.kind(p) is Horizontal {
        (Direction::Right, Direction::Left)
    } else {
        (Direction::Down, Direction::Up)
    };
    if i + 1 < kids.len() {
        assert(f.move_over(n, forth) == Some(kids[i + 1]));
        assert(f.resizing(n, forth) == Some(n));
        assert(s.resize_pair(n, forth) == Some((n, kids[i + 1])));
    } else if i > 0 && f.parent(p) is None {
        assert(f.ancestors(n) =~= seq![n, p]);
        reveal_with_fuel(navigation::find_on, 3);
        assert(f.move_over(n, forth) is None);
        assert(f.resizing(n, forth) is None);
        assert(s.resize_pair(n, forth) is None);
        assert(f.resizing(p, forth) is None) by {
            assert(f.ancestors(p) =~= seq![p]);
        }
        assert(s.resize_towards(n, forth) is None);
        assert(f.move_over(n, back) == Some(kids[i - 1]));
        assert(f.resizing(n, back) == Some(n));
        assert(s.resize_pair(n, back) == Some((n, kids[i - 1])));
    }
}

/// A node covers what its nearest covering ancestor covers, itself first.
pub proof fn law_coverage(f: ForestView, n: NodeId)
    requires
        f.wf(),
        f.live(n),
    ensures
        f.info(n).is_fullscreen ==> f.coverage(n) is Screen,
        !f.info(n).is_fullscreen && f.info(n).is_fullscreen_within_gaps ==> f.coverage(
            n,
        ) is WithinGaps,
        !f.info(n).is_fullscreen && !f.info(n).is_fullscreen_within_gaps ==> f.coverage(n) == (
        match f.parent(n) {
            Some(p) => f.coverage(p),
            None => Coverage::Share,
        }),
{
    proofs::lemma_ancestors(f, n);
    let good = |a: NodeId| f.covers(a);
    if f.parent(n) is Some {
        let p = f.parent(n)->0;
        proofs::lemma_node(f, n);
        proofs::lemma_ancestors(f, p);
        lemma_found_later(f.ancestors(n), f.ancestors(p), 0, good);
    } else {
        reveal_with_fuel(navigation::find_on, 2);
    }
}

/// A search along a path that starts one node earlier.
proof fn lemma_found_later(
    path: Seq<NodeId>,
    up: Seq<NodeId>,
    from: int,
    good: spec_fn(NodeId) -> bool,
)
    requires
        path.len() == up.len() + 1,
        0 <= from <= up.len(),
        forall|j: int| 0 <= j < up.len() ==> #[trigger] up[j] == path[j + 1],
    ensures
        navigation::find_on(path, from + 1, good) == navigation::find_on(up, from, good),
    decreases up.len() - from,
{
    if from < up.len() {
        assert(up[from] == path[from + 1]);
        lemma_found_later(path, up, from + 1, good);
    }
}

/// A window that comes to cover the screen, or the screen within its gaps, is marked so;
/// one that ceases to is not. Any other change is left to the sizes.
pub proof fn law_window_resized(
    s: TraditionalView,
    layout: LayoutId,
    window: WindowId,
    from: Coverage,
    to: Coverage,
    n: NodeId,
)
    requires
        s.wf(),
        s.forest.node_for(layout, window) == Some(n),
        s.forest.live(n),
    ensures
        ({
            let (t, left) = s.window_resized(layout, window, from, to);
            let a = s.forest.info(n);
            let b = t.forest.info(n);
            &&& t.roots == s.roots
            &&& to is Screen ==> b.is_fullscreen && !b.is_fullscreen_within_gaps && left is None
            &&& to is WithinGaps && !(from is Screen) ==> !b.is_fullscreen
                && b.is_fullscreen_within_gaps && left is None
            &&& from is Screen && !(to is Screen) ==> !b.is_fullscreen && b.is_fullscreen_within_gaps
                == a.is_fullscreen_within_gaps && left is None
            &&& from is WithinGaps && to is Share ==> !b.is_fullscreen_within_gaps
                && b.is_fullscreen == a.is_fullscreen && left is None
            &&& from is Share && to is Share ==> t == s && left == Some(n)
            &&& b.kind == a.kind && b.window == a.window && b.pick == a.pick
            &&& forall|x: NodeId| x != n ==> #[trigger] t.forest.info(x) == s.forest.info(x)
            &&& forall|x: NodeId| #[trigger] t.forest.children(x) == s.forest.children(x)
        }),
{
}

} // verus!
