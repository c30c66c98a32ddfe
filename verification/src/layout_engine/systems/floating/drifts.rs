//! Where the focus goes, where windows come and go, and whose frames they take.

use vstd::prelude::*;

use crate::actor::{LayoutId, WindowId};
use crate::common::config::StackDefaultOrientation;
use crate::layout_engine::systems::floating::laws;
use crate::layout_engine::systems::floating::view;
use crate::layout_engine::systems::floating::view::FloatView;
use crate::layout_engine::systems::navigation;
use crate::layout_engine::systems::traditional::arrivals;
use crate::layout_engine::systems::traditional::boxes;
use crate::layout_engine::systems::traditional::steps;
use crate::layout_engine::Direction;
use crate::model::tree::homes;
use crate::model::tree::proofs;
use crate::model::tree::rows;
use crate::model::tree::view::{ForestView, NodeId, Place};

verus! {

/// The selection is window number `i` of a row of windows.
pub open spec fn in_row(
    s: FloatView,
    layout: LayoutId,
    p: NodeId,
    i: int,
    row: Seq<WindowId>,
) -> bool {
    &&& s.inner.wf()
    &&& s.inner.has(layout)
    &&& steps::child_at(s.inner.forest, p, i, s.inner.selection(layout))
    &&& rows::in_one_row(s.inner.forest, p, row)
    &&& row.no_duplicates()
    &&& s.inner.forest.node_for(layout, row[i]) == Some(s.inner.selection(layout))
}

proof fn lemma_place(list: Seq<WindowId>, i: int, from: int)
    requires
        0 <= from <= i < list.len(),
        list.no_duplicates(),
    ensures
        view::place_of(list, list[i], from) == i,
    decreases i - from,
{
    if from < i {
        lemma_place(list, i, from + 1);
    }
}

proof fn lemma_in_row(s: FloatView, layout: LayoutId, p: NodeId, i: int, row: Seq<WindowId>)
    requires
        in_row(s, layout, p, i, row),
    ensures
        s.active(layout) == Some(row[i]),
        s.active_parent(layout) == Some(p),
        s.members(p) == row,
        view::place_of(row, row[i], 0) == i,
{
    steps::lemma_child_at(s.inner.forest, p, i, s.inner.selection(layout));
    rows::lemma_row_windows(s.inner.forest, p, row);
    lemma_place(row, i, 0);
}

/// In a stack that lies along the direction the focus goes to the next member. Otherwise
/// it goes to the nearest window there. Without one it goes on through the stack, from
/// either end to the other. Outside a stack it then stays.
pub proof fn law_focus(
    s: FloatView,
    layout: LayoutId,
    p: NodeId,
    i: int,
    row: Seq<WindowId>,
    direction: Direction,
    nearest: Option<WindowId>,
)
    requires
        in_row(s, layout, p, i, row),
    ensures
        ({
            let kind = s.inner.forest.kind(p);
            let stack = kind is HorizontalStack || kind is VerticalStack;
            let j = i + steps::step(direction);
            let inside = 0 <= j < row.len();
            let reached = s.focus_target(layout, direction, nearest);
            &&& stack && steps::lies_along(kind, direction) && inside ==> reached == Some(row[j])
            &&& !(stack && steps::lies_along(kind, direction) && inside) && nearest is Some
                ==> reached == nearest
            &&& nearest is None && stack && inside ==> reached == Some(row[j])
            &&& nearest is None && stack && !inside ==> reached == Some(
                match direction {
                    Direction::Right | Direction::Down => row[0],
                    Direction::Left | Direction::Up => row[row.len() - 1],
                },
            )
            &&& nearest is None && !stack ==> reached is None
        }),
{
    lemma_in_row(s, layout, p, i, row);
}

/// A new window stands at the top of its layout: behind the selected node where that
/// stands there and the settings say so, else at the end.
pub proof fn law_new_window(s: FloatView, layout: LayoutId, i: int, window: WindowId)
    requires
        s.inner.wf(),
        s.inner.has(layout),
        s.inner.forest.minted <= u64::MAX,
        steps::child_at(s.inner.forest, s.inner.root(layout), i, s.inner.selection(layout)),
    ensures
        ({
            let r = s.inner.root(layout);
            let t = s.window_added(layout, window);
            let added = t.inner.selection(layout);
            &&& t.inner.forest.window(added) == Some(window)
            &&& boxes::one_more(
                s.inner.forest,
                t.inner.forest,
                r,
                if s.inner.point is NextToSelection {
                    i + 1
                } else {
                    s.inner.forest.children(r).len() as int
                },
                added,
            )
        }),
{
    let f = s.inner.forest;
    let r = s.inner.root(layout);
    let n = s.inner.selection(layout);
    assert(s.inner.roots.contains_key(layout));
    steps::lemma_child_at(f, r, i, n);
    homes::lemma_home(f, r);
    proofs::lemma_ancestors(f, n);
    assert(f.ancestors(n)[0] == n);
    assert(s.top_anchor(layout) == Some(n));
    let (place, k) = if s.inner.point is NextToSelection {
        (Place::After(n), i + 1)
    } else {
        (Place::Last(r), f.children(r).len() as int)
    };
    boxes::lemma_new_child(f, r, place, k);
    boxes::lemma_shown(s.inner, layout, f.with_new(place), r, window);
}

/// A window that joins a stack goes to its end, takes the frame of the window in focus
/// and keeps its own for later. One that joins a plain container keeps its frame.
pub proof fn law_joined_container(
    s: FloatView,
    layout: LayoutId,
    p: NodeId,
    i: int,
    row: Seq<WindowId>,
    m: NodeId,
    k: int,
    other: WindowId,
    direction: Direction,
)
    requires
        in_row(s, layout, p, i, row),
        p != s.inner.root(layout),
        s.inner.forest.home(p) == s.inner.root(layout),
        steps::child_at(s.inner.forest, s.inner.root(layout), k, m),
        s.inner.forest.node_for(layout, other) == Some(m),
        s.inner.forest.window(m) == Some(other),
    ensures
        ({
            let f = s.inner.forest;
            let r = s.inner.root(layout);
            let t = s.joined(layout, direction, Some(other));
            let stack = f.kind(p) is HorizontalStack || f.kind(p) is VerticalStack;
            &&& t.inner.selection(layout) == s.inner.selection(layout)
            &&& t.inner.forest.children(p) == f.children(p).push(m)
            &&& t.inner.forest.children(r) == f.children(r).remove(k)
            &&& stack && s.frames.contains_key(row[i]) ==> t.frame_of(other) == s.frame_of(row[i])
            &&& stack && s.frames.contains_key(other) && !s.independent.contains_key(other)
                ==> t.independent.contains_key(other) && t.independent[other] == s.frames[other]
            &&& !stack ==> t.frames == s.frames && !t.independent.contains_key(other)
            &&& forall|w: WindowId| w != other ==> #[trigger] t.frame_of(w) == s.frame_of(w)
        }),
{
    let f = s.inner.forest;
    let r = s.inner.root(layout);
    let n = s.inner.selection(layout);
    lemma_in_row(s, layout, p, i, row);
    steps::lemma_child_at(f, p, i, n);
    steps::lemma_child_at(f, r, k, m);
    assert(s.inner.roots.contains_key(layout));
    homes::lemma_home(f, r);
    assert(s.own_container(layout) == Some(p));
    proofs::lemma_node(f, m);
    assert(!f.above(m, p)) by {
        if f.above(m, p) {
            proofs::lemma_node(f, p);
            lemma_above_a_leaf(f, m, p);
        }
    }
    steps::lemma_to_end(f, m, r, k, p);
    let g = f.moved(m, Place::Last(p));
    assert(g.parent(n) == f.parent(n));
    steps::lemma_child_at(g, p, i, n);
    let v = s.inner.with_forest(g);
    assert(v.wf()) by {
        assert forall|l: LayoutId| #[trigger] v.roots.contains_key(l) implies g.live(v.roots[l])
            && g.parent(v.roots[l]) is None && g.window(v.roots[l]) is None by {
            assert(s.inner.roots.contains_key(l));
            assert(g.live(s.inner.roots[l]) == f.live(s.inner.roots[l]));
            assert(g.window(s.inner.roots[l]) == f.window(s.inner.roots[l]));
            assert(g.parent(s.inner.roots[l]) == f.parent(s.inner.roots[l]));
        }
    }
    lemma_same_home(f, g, m, p);
    homes::lemma_home(g, n);
    arrivals::law_selected(v, layout, n);
    boxes::lemma_selected_lists(g, n);
    reveal_with_fuel(FloatView::aligned, 2);
    assert(seq![other].drop_last() =~= Seq::<WindowId>::empty());
    assert(seq![other].last() == other);
}

/// Only nodes with children lie above others.
proof fn lemma_above_a_leaf(f: ForestView, m: NodeId, p: NodeId)
    requires
        f.wf(),
        f.live(p),
        f.above(m, p),
        m != p,
    ensures
        f.children(m).len() > 0,
{
    proofs::lemma_ancestors(f, p);
    let path = f.ancestors(p);
    let j = choose|j: int| 0 <= j < path.len() && path[j] == m;
    assert(j > 0);
    let c = path[j - 1];
    assert(f.parent(c) == Some(m));
    proofs::lemma_node(f, c);
    assert(f.nodes[m].children.contains(c));
}

/// A node whose path avoids one that moved keeps its root.
proof fn lemma_same_home(f: ForestView, g: ForestView, m: NodeId, p: NodeId)
    requires
        f.wf(),
        g.wf(),
        f.live(p),
        !f.above(m, p),
        steps::same_nodes(f, g),
        forall|x: NodeId| x != m ==> #[trigger] g.parent(x) == f.parent(x),
    ensures
        g.home(p) == f.home(p),
{
    proofs::lemma_ancestors(f, p);
    assert forall|j: int| 0 <= j < f.ancestors(p).len() implies g.live(#[trigger] f.ancestors(p)[j])
        && g.parent(f.ancestors(p)[j]) == f.parent(f.ancestors(p)[j]) by {
        let x = f.ancestors(p)[j];
        assert(f.live(x));
        assert(g.live(x) == f.live(x));
        assert(x != m);
    }
    proofs::lemma_same_ancestors(f, g, p);
}

/// Two windows at the top of a layout that join share a new container along the
/// direction, at the place of the one in focus, and keep their frames.
#[verifier::spinoff_prover]
pub proof fn law_joined_anew(
    s: FloatView,
    layout: LayoutId,
    i: int,
    focused: WindowId,
    m: NodeId,
    k: int,
    other: WindowId,
    direction: Direction,
)
    requires
        s.inner.wf(),
        s.inner.has(layout),
        s.inner.forest.minted <= u64::MAX,
        steps::child_at(s.inner.forest, s.inner.root(layout), i, s.inner.selection(layout)),
        s.inner.forest.window(s.inner.selection(layout)) == Some(focused),
        s.inner.forest.node_for(layout, focused) == Some(s.inner.selection(layout)),
        steps::child_at(s.inner.forest, s.inner.root(layout), k, m),
        i != k,
        s.inner.forest.node_for(layout, other) == Some(m),
        s.inner.forest.window(m) == Some(other),
    ensures
        ({
            let f = s.inner.forest;
            let r = s.inner.root(layout);
            let n = s.inner.selection(layout);
            let t = s.joined(layout, direction, Some(other));
            let sub = t.inner.forest.parent(n)->0;
            &&& t.inner.forest.parent(n) is Some
            &&& !f.live(sub)
            &&& t.inner.forest.children(sub) == seq![n, m]
            &&& t.inner.forest.children(r) == f.children(r).update(i, sub).remove(k)
            &&& t.inner.forest.kind(sub) == boxes::plain_along(direction)
            &&& t.frames == s.frames
        }),
{
    let f = s.inner.forest;
    let r = s.inner.root(layout);
    let n = s.inner.selection(layout);
    let kind = boxes::plain_along(direction);
    assert(s.inner.roots.contains_key(layout));
    steps::lemma_child_at(f, r, i, n);
    steps::lemma_child_at(f, r, k, m);
    proofs::lemma_node(f, r);
    proofs::lemma_node(f, m);
    assert(s.active(layout) == Some(focused));
    assert(s.own_container(layout) is None);
    boxes::law_split(s.inner, layout, n, r, i, kind);
    let (v, sub) = s.inner.nested(layout, n, kind);
    let g = v.forest;
    assert(g.children(r)[k] == m);
    assert(g.children(r)[i] == sub);
    steps::lemma_child_at(g, r, k, m);
    steps::lemma_child_at(g, r, i, sub);
    steps::lemma_child_at(g, sub, 0, n);
    proofs::lemma_above_step(g, m, sub);
    assert(f.parent(r) is None);
    assert(g.parent(r) is None) by {
        if g.parent(r) is Some {
            let x = g.parent(r)->0;
            proofs::lemma_node(g, r);
            let j = g.rank(r);
            assert(g.children(x)[j] == r);
            if x != sub && x != r {
                assert(f.children(x)[j] == r);
                steps::lemma_child_at(f, x, j, r);
            }
        }
    }
    steps::lemma_to_end(g, m, r, k, sub);
    let h = g.moved(m, Place::Last(sub));
    assert(h.children(sub) =~= seq![n, m]);
    assert(!kind.stacks());
    boxes::lemma_selected_lists(h, n);
    let t = s.joined(layout, direction, Some(other));
    assert(t.inner.forest == h.selected(n));
    assert(h.parent(n) == g.parent(n));
    assert(h.kind(sub) == g.kind(sub));
}

/// Taking frames back changes nothing for a window that none is kept for.
proof fn lemma_nothing_kept(s: FloatView, layout: LayoutId, windows: Seq<WindowId>, w: WindowId)
    requires
        !s.independent.contains_key(w),
    ensures
        s.members_restored(layout, windows).inner == s.inner,
        s.members_restored(layout, windows).frame_of(w) == s.frame_of(w),
        !s.members_restored(layout, windows).independent.contains_key(w),
    decreases windows.len(),
{
    if windows.len() > 0 {
        lemma_nothing_kept(s, layout, windows.drop_last(), w);
    }
}

/// The window in focus leaves its container, goes behind it and stays in focus. It takes
/// back the frame that is kept for it.
#[verifier::spinoff_prover]
pub proof fn law_left_container(
    s: FloatView,
    layout: LayoutId,
    p: NodeId,
    i: int,
    row: Seq<WindowId>,
    q: NodeId,
    k: int,
)
    requires
        in_row(s, layout, p, i, row),
        row.len() > 2,
        steps::child_at(s.inner.forest, q, k, p),
    ensures
        ({
            let f = s.inner.forest;
            let n = s.inner.selection(layout);
            let t = s.unjoined(layout);
            &&& t.inner.forest.local_selection(q) == Some(n)
            &&& t.inner.forest.children(p) == f.children(p).remove(i)
            &&& t.inner.forest.children(q) == f.children(q).insert(k + 1, n)
            &&& !t.independent.contains_key(row[i])
            &&& t.frame_of(row[i]) == (if s.independent.contains_key(row[i]) {
                Some(s.independent[row[i]])
            } else {
                s.frame_of(row[i])
            })
        }),
{
    let f = s.inner.forest;
    let n = s.inner.selection(layout);
    let w = row[i];
    lemma_in_row(s, layout, p, i, row);
    steps::lemma_child_at(f, p, i, n);
    steps::lemma_child_at(f, q, k, p);
    assert(s.inner.roots.contains_key(layout));
    assert(s.own_container(layout) == Some(p));
    assert(!f.above(n, q)) by {
        if f.above(n, q) {
            proofs::lemma_above_step(f, n, p);
        }
    }
    steps::lemma_beside(f, n, p, i, p, true);
    let g = f.moved(n, Place::After(p));
    assert(g == f.moved(n, steps::beside(p, true)));
    proofs::lemma_moved(f, n, Place::After(p));
    let u = FloatView { inner: s.inner.with_forest(g), ..s }.taken_back(w);
    lemma_nothing_kept(u, layout, s.members(p), w);
    let v = u.members_restored(layout, s.members(p));
    assert(g.live(n) == f.live(n));
    boxes::lemma_selected_lists(g, n);
    let t = s.unjoined(layout);
    assert(t.inner.forest == g.selected(n));
    assert(t.frames == v.frames);
    proofs::lemma_ancestors(g, n);
    proofs::lemma_node(g, n);
    proofs::lemma_ancestors(g, q);
    let path = g.ancestors(n);
    assert(path[1] == q);
    assert(path.contains(q));
    assert(path.index_of(q) == 1);
}

/// Stacking the container of the window in focus puts its members at that window's
/// frame, and unstacking gives back to the others the frames that they had.
pub proof fn law_stacked_frames(
    s: FloatView,
    layout: LayoutId,
    p: NodeId,
    i: int,
    row: Seq<WindowId>,
    w: WindowId,
    default: StackDefaultOrientation,
)
    requires
        in_row(s, layout, p, i, row),
        p != s.inner.root(layout),
        s.inner.forest.kind(s.inner.selection(layout)) is Horizontal,
        s.frames.contains_key(row[i]),
    ensures
        ({
            let plain = s.inner.forest.kind(p) is Horizontal || s.inner.forest.kind(p) is Vertical;
            let t = s.stacked(layout, default);
            let u = s.unstacked(layout, default);
            &&& plain && row.contains(w) ==> t.frame_of(w) == s.frame_of(row[i])
            &&& plain && row.contains(w) && s.frames.contains_key(w) && !s.independent.contains_key(
                w,
            ) ==> t.independent.contains_key(w) && t.independent[w] == s.frames[w]
            &&& plain && !row.contains(w) ==> t.frame_of(w) == s.frame_of(w)
            &&& !plain && row.contains(w) && w != row[i] && s.independent.contains_key(w)
                ==> u.frame_of(w) == Some(s.independent[w])
            &&& !plain && (w == row[i] || !row.contains(w)) ==> u.frame_of(w) == s.frame_of(w)
        }),
{
    let f = s.inner.forest;
    let n = s.inner.selection(layout);
    lemma_in_row(s, layout, p, i, row);
    steps::lemma_child_at(f, p, i, n);
    if !f.kind(p).stacks() {
        laws::law_aligned(s, row, s.frames[row[i]], w);
    } else {
        proofs::lemma_ancestors(f, n);
        proofs::lemma_ancestors(f, p);
        proofs::lemma_node(f, n);
        reveal_with_fuel(navigation::find_on, 3);
        assert(f.ancestors(n)[0] == n && f.ancestors(n)[1] == p);
        assert(s.stack_of_selection(layout) == Some(p));
        let v = FloatView { inner: s.inner.unstacked(layout, default), ..s };
        laws::law_spread_out(v, row, Some(row[i]), w);
    }
}

} // verus!
