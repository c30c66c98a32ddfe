//! What the commands on floating layouts leave alone, and how frames come back.

use vstd::prelude::*;

use crate::actor::{LayoutId, Pid, WindowId};
use crate::common::config::StackDefaultOrientation;
use crate::geometry::Frame;
use crate::layout_engine::systems;
use crate::layout_engine::systems::floating::view;
use crate::layout_engine::systems::floating::view::FloatView;
use crate::layout_engine::systems::groups;
use crate::layout_engine::systems::navigation;
use crate::layout_engine::systems::traditional::arrivals;
use crate::layout_engine::systems::traditional::filed;
use crate::layout_engine::systems::traditional::follow;
use crate::layout_engine::systems::traditional::laws;
use crate::layout_engine::systems::traditional::membership;
use crate::layout_engine::{Direction, LayoutKind};
use crate::model::tree::homes;
use crate::model::tree::proofs;
use crate::model::tree::view as tree_view;
use crate::model::tree::view::{ForestView, NodeId, Place};

verus! {

// ----- frames -----

/// Frames change; the layouts do not.
proof fn lemma_restored_inner(s: FloatView, layout: LayoutId, windows: Seq<WindowId>)
    ensures
        s.members_restored(layout, windows).inner == s.inner,
    decreases windows.len(),
{
    if windows.len() > 0 {
        lemma_restored_inner(s, layout, windows.drop_last());
    }
}

proof fn lemma_aligned_inner(
    s: FloatView,
    windows: Seq<WindowId>,
    frame: Option<Frame>,
    save: bool,
)
    ensures
        s.aligned(windows, frame, save).inner == s.inner,
    decreases windows.len(),
{
    if windows.len() > 0 {
        lemma_aligned_inner(s, windows.drop_last(), frame, save);
    }
}

proof fn lemma_spread_inner(s: FloatView, windows: Seq<WindowId>, focused: Option<WindowId>)
    ensures
        s.spread_out(windows, focused).inner == s.inner,
    decreases windows.len(),
{
    if windows.len() > 0 {
        lemma_spread_inner(s, windows.drop_last(), focused);
    }
}

/// Windows that take a common frame all have it. The frames that they had are
/// kept, unless older ones are kept already. Other windows keep their frames.
pub proof fn law_aligned(s: FloatView, windows: Seq<WindowId>, frame: Frame, w: WindowId)
    ensures
        ({
            let t = s.aligned(windows, Some(frame), true);
            &&& windows.contains(w) ==> t.frames.contains_key(w) && t.frames[w] == frame
            &&& !windows.contains(w) ==> t.frame_of(w) == s.frame_of(w) && (
            t.independent.contains_key(w) <==> s.independent.contains_key(w))
            &&& s.independent.contains_key(w) ==> t.independent.contains_key(w)
                && t.independent[w] == s.independent[w]
            &&& windows.contains(w) && !s.independent.contains_key(w) && s.frames.contains_key(w)
                ==> t.independent.contains_key(w) && t.independent[w] == s.frames[w]
        }),
    decreases windows.len(),
{
    if windows.len() > 0 {
        let front = windows.drop_last();
        let last = windows.last();
        law_aligned(s, front, frame, w);
        assert(windows.contains(w) <==> front.contains(w) || w == last) by {
            if windows.contains(w) {
                let i = choose|i: int| 0 <= i < windows.len() && windows[i] == w;
                if i < front.len() {
                    assert(front[i] == w);
                }
            }
            if front.contains(w) {
                let i = choose|i: int| 0 <= i < front.len() && front[i] == w;
                assert(windows[i] == w);
            }
            assert(windows[windows.len() - 1] == last);
        }
    }
}

/// Windows of a former stack take back the frames that are kept for them, but
/// for the one in focus, which keeps its frame. Other windows keep theirs.
pub proof fn law_spread_out(
    s: FloatView,
    windows: Seq<WindowId>,
    focused: Option<WindowId>,
    w: WindowId,
)
    ensures
        ({
            let t = s.spread_out(windows, focused);
            &&& windows.contains(w) ==> !t.independent.contains_key(w)
            &&& windows.contains(w) && Some(w) != focused && s.independent.contains_key(w)
                ==> t.frames.contains_key(w) && t.frames[w] == s.independent[w]
            &&& !windows.contains(w) || Some(w) == focused || !s.independent.contains_key(w)
                ==> t.frame_of(w) == s.frame_of(w)
            &&& !windows.contains(w) ==> (t.independent.contains_key(w)
                <==> s.independent.contains_key(w))
            &&& t.independent.contains_key(w) ==> s.independent.contains_key(w)
                && t.independent[w] == s.independent[w]
        }),
    decreases windows.len(),
{
    if windows.len() > 0 {
        let front = windows.drop_last();
        let last = windows.last();
        law_spread_out(s, front, focused, w);
        assert(windows.contains(w) <==> front.contains(w) || w == last) by {
            if windows.contains(w) {
                let i = choose|i: int| 0 <= i < windows.len() && windows[i] == w;
                if i < front.len() {
                    assert(front[i] == w);
                }
            }
            if front.contains(w) {
                let i = choose|i: int| 0 <= i < front.len() && front[i] == w;
                assert(windows[i] == w);
            }
            assert(windows[windows.len() - 1] == last);
        }
    }
}

/// Windows that are put on top of each other at the frame of the one in focus and
/// then spread out again have the frames that they had before.
pub proof fn law_frames_come_back(
    s: FloatView,
    windows: Seq<WindowId>,
    focused: WindowId,
    w: WindowId,
)
    requires
        windows.contains(w),
        s.frames.contains_key(focused),
        s.frames.contains_key(w),
        !s.independent.contains_key(w),
    ensures
        s.aligned(windows, s.frame_of(focused), true).spread_out(
            windows,
            Some(focused),
        ).frame_of(w) == s.frame_of(w),
{
    let frame = s.frames[focused];
    law_aligned(s, windows, frame, w);
    law_spread_out(s.aligned(windows, Some(frame), true), windows, Some(focused), w);
}

proof fn lemma_framed(
    frames: Map<WindowId, Frame>,
    windows: Seq<WindowId>,
    frame: Frame,
    w: WindowId,
)
    ensures
        windows.contains(w) ==> view::framed(frames, windows, frame).contains_key(w)
            && view::framed(frames, windows, frame)[w] == frame,
        !windows.contains(w) ==> (view::framed(frames, windows, frame).contains_key(w)
            <==> frames.contains_key(w)) && (frames.contains_key(w) ==> view::framed(
            frames,
            windows,
            frame,
        )[w] == frames[w]),
        frames.contains_key(w) && frames[w] == frame ==> view::framed(
            frames,
            windows,
            frame,
        ).contains_key(w) && view::framed(frames, windows, frame)[w] == frame,
    decreases windows.len(),
{
    if windows.len() > 0 {
        let front = windows.drop_last();
        lemma_framed(frames, front, frame, w);
        assert(windows[windows.len() - 1] == windows.last());
        if windows.contains(w) {
            let i = choose|i: int| 0 <= i < windows.len() && windows[i] == w;
            if i < front.len() {
                assert(front[i] == w);
            }
        }
        if front.contains(w) {
            let i = choose|i: int| 0 <= i < front.len() && front[i] == w;
            assert(windows[i] == w);
        }
    }
}

/// The stack that a window shares its frame with in a layout.
pub open spec fn mates(s: FloatView, layout: LayoutId, window: WindowId) -> Seq<WindowId> {
    match s.inner.forest.node_for(layout, window) {
        Some(n) => match s.inner.forest.outermost_stack(s.inner.forest.ancestors(n)) {
            Some(stack) => s.members(stack),
            None => Seq::empty(),
        },
        None => Seq::empty(),
    }
}

proof fn lemma_shared(
    s: FloatView,
    layouts: Seq<LayoutId>,
    window: WindowId,
    frame: Frame,
    w: WindowId,
)
    ensures
        ({
            let t = s.shared(layouts, window, frame);
            &&& t.inner == s.inner
            &&& (exists|i: int|
                0 <= i < layouts.len() && mates(s, #[trigger] layouts[i], window).contains(w))
                ==> t.frame_of(w) == Some(frame)
            &&& s.frame_of(w) == Some(frame) ==> t.frame_of(w) == Some(frame)
            &&& (forall|i: int|
                0 <= i < layouts.len() ==> !mates(s, #[trigger] layouts[i], window).contains(w))
                ==> t.frame_of(w) == s.frame_of(w)
        }),
    decreases layouts.len(),
{
    if layouts.len() > 0 {
        let front = layouts.drop_last();
        lemma_shared(s, front, window, frame, w);
        let v = s.shared(front, window, frame);
        let l = layouts.last();
        assert(layouts[layouts.len() - 1] == l);
        lemma_framed(v.frames, mates(s, l, window), frame, w);
        let t = s.shared(layouts, window, frame);
        assert forall|i: int| 0 <= i < front.len() implies #[trigger] front[i] == layouts[i] by {}
        if exists|i: int|
            0 <= i < layouts.len() && mates(s, #[trigger] layouts[i], window).contains(w) {
            let i = choose|i: int|
                0 <= i < layouts.len() && mates(s, #[trigger] layouts[i], window).contains(w);
            if i < front.len() {
                assert(mates(s, front[i], window).contains(w));
            }
        }
        if forall|i: int|
            0 <= i < layouts.len() ==> !mates(s, #[trigger] layouts[i], window).contains(w) {
            assert forall|i: int| 0 <= i < front.len() implies !mates(
                s,
                #[trigger] front[i],
                window,
            ).contains(w) by {
                assert(layouts[i] == front[i]);
            }
        }
    }
}

/// The frame of a window that is shown is stored for it and for those that share
/// a stack with it. All other windows keep their frames.
pub proof fn law_frame_stored(s: FloatView, window: WindowId, frame: Frame, w: WindowId)
    requires
        s.shown_in(s.inner.layouts_for(window), window),
    ensures
        ({
            let layouts = s.inner.layouts_for(window);
            let t = s.frame_stored(window, frame);
            &&& t.inner == s.inner
            &&& t.frame_of(window) == Some(frame)
            &&& (exists|i: int|
                0 <= i < layouts.len() && mates(s, #[trigger] layouts[i], window).contains(w))
                ==> t.frame_of(w) == Some(frame)
            &&& w != window && (forall|i: int|
                0 <= i < layouts.len() ==> !mates(s, #[trigger] layouts[i], window).contains(w))
                ==> t.frame_of(w) == s.frame_of(w)
        }),
{
    let layouts = s.inner.layouts_for(window);
    let v = FloatView { frames: s.frames.insert(window, frame), ..s };
    lemma_shared(v, layouts, window, frame, window);
    lemma_shared(v, layouts, window, frame, w);
    assert forall|l: LayoutId| #[trigger] mates(v, l, window) == mates(s, l, window) by {}
    if exists|i: int|
        0 <= i < layouts.len() && mates(s, #[trigger] layouts[i], window).contains(w) {
        let i = choose|i: int|
            0 <= i < layouts.len() && mates(s, #[trigger] layouts[i], window).contains(w);
        assert(mates(v, layouts[i], window).contains(w));
    }
    if forall|i: int|
        0 <= i < layouts.len() ==> !mates(s, #[trigger] layouts[i], window).contains(w) {
        assert forall|i: int| 0 <= i < layouts.len() implies !mates(
            v,
            #[trigger] layouts[i],
            window,
        ).contains(w) by {
            assert(!mates(s, layouts[i], window).contains(w));
        }
    }
}

/// Giving out first frames changes no frame that a window has.
pub proof fn law_initialized(s: FloatView, placed: Seq<(WindowId, Frame)>, w: WindowId)
    ensures
        s.initialized(placed).inner == s.inner,
        s.frames.contains_key(w) ==> s.initialized(placed).frame_of(w) == s.frame_of(w),
        forall|i: int|
            0 <= i < placed.len() ==> s.initialized(placed).frames.contains_key(
                (#[trigger] placed[i]).0,
            ),
    decreases placed.len(),
{
    if placed.len() > 0 {
        let front = placed.drop_last();
        law_initialized(s, front, w);
        assert forall|i: int| 0 <= i < placed.len() implies s.initialized(
            placed,
        ).frames.contains_key((#[trigger] placed[i]).0) by {
            if i < front.len() {
                assert(front[i] == placed[i]);
                assert(s.initialized(front).frames.contains_key(front[i].0));
            }
        }
    }
}

/// What waits for a frame among the first windows of a list.
proof fn lemma_unframed(s: FloatView, windows: Seq<WindowId>, upto: int)
    requires
        0 <= upto <= windows.len() <= usize::MAX,
    ensures
        ({
            let waiting = s.unframed(windows, upto);
            &&& forall|i: int|
                0 <= i < waiting.len() ==> (#[trigger] waiting[i]).0 < upto
                    && windows[waiting[i].0 as int] == waiting[i].1 && !s.frames.contains_key(
                    waiting[i].1,
                )
            &&& forall|i: int, j: int|
                0 <= i < j < waiting.len() ==> (#[trigger] waiting[i]).0 < (
                #[trigger] waiting[j]).0 && waiting[i].1 != waiting[j].1
            &&& forall|k: int|
                0 <= k < upto && !s.frames.contains_key(#[trigger] windows[k]) ==> exists|i: int|
                    0 <= i < waiting.len() && (#[trigger] waiting[i]).1 == windows[k]
        }),
    decreases upto,
{
    if upto > 0 {
        lemma_unframed(s, windows, upto - 1);
        let rest = s.unframed(windows, upto - 1);
        let waiting = s.unframed(windows, upto);
        let w = windows[upto - 1];
        assert forall|i: int| 0 <= i < rest.len() implies (#[trigger] rest[i]).1 != w
            || windows.take(upto - 1).contains(w) by {
            assert(windows.take(upto - 1)[rest[i].0 as int] == rest[i].1);
        }
        assert forall|k: int| 0 <= k < upto && !s.frames.contains_key(#[trigger] windows[k])
            implies exists|i: int| 0 <= i < waiting.len() && (#[trigger] waiting[i]).1
            == windows[k] by {
            let m = if k < upto - 1 {
                k
            } else if windows.take(upto - 1).contains(w) {
                choose|m: int| 0 <= m < upto - 1 && #[trigger] windows.take(upto - 1)[m] == w
            } else {
                k
            };
            assert(windows[m] == windows[k]);
            if m < upto - 1 {
                let i = choose|i: int|
                    0 <= i < rest.len() && (#[trigger] rest[i]).1 == windows[m];
                assert(waiting[i] == rest[i]);
            } else {
                assert(waiting[rest.len() as int].1 == w);
            }
        }
    }
}

/// The windows that wait for a first frame are those of the layout that have none,
/// each once and at its first place.
pub proof fn law_frameless(s: FloatView, layout: LayoutId)
    requires
        s.inner.all_windows(layout).len() <= usize::MAX,
    ensures
        ({
            let windows = s.inner.all_windows(layout);
            let waiting = s.frameless(layout);
            &&& forall|w: WindowId|
                (exists|i: int| 0 <= i < waiting.len() && (#[trigger] waiting[i]).1 == w)
                    <==> #[trigger] windows.contains(w) && !s.frames.contains_key(w)
            &&& forall|i: int|
                0 <= i < waiting.len() ==> (#[trigger] waiting[i]).0 < windows.len()
                    && windows[waiting[i].0 as int] == waiting[i].1
            &&& forall|i: int, j: int|
                0 <= i < j < waiting.len() ==> (#[trigger] waiting[i]).0 < (
                #[trigger] waiting[j]).0 && waiting[i].1 != waiting[j].1
        }),
{
    let windows = s.inner.all_windows(layout);
    let waiting = s.frameless(layout);
    lemma_unframed(s, windows, windows.len() as int);
    assert forall|w: WindowId|
        (exists|i: int| 0 <= i < waiting.len() && (#[trigger] waiting[i]).1 == w)
            <==> #[trigger] windows.contains(w) && !s.frames.contains_key(w) by {
        if exists|i: int| 0 <= i < waiting.len() && (#[trigger] waiting[i]).1 == w {
            let i = choose|i: int| 0 <= i < waiting.len() && (#[trigger] waiting[i]).1 == w;
            assert(windows[waiting[i].0 as int] == w);
        }
        if windows.contains(w) && !s.frames.contains_key(w) {
            let k = choose|k: int| 0 <= k < windows.len() && windows[k] == w;
            assert(!s.frames.contains_key(windows[k]));
        }
    }
}

/// Frames that different windows without one are given.
proof fn lemma_first_frames(s: FloatView, placed: Seq<(WindowId, Frame)>, w: WindowId)
    requires
        forall|i: int|
            0 <= i < placed.len() ==> !s.frames.contains_key((#[trigger] placed[i]).0),
        forall|i: int, j: int|
            0 <= i < j < placed.len() ==> (#[trigger] placed[i]).0 != (#[trigger] placed[j]).0,
    ensures
        forall|i: int|
            0 <= i < placed.len() ==> s.initialized(placed).frame_of((#[trigger] placed[i]).0)
                == Some(placed[i].1),
        (forall|i: int| 0 <= i < placed.len() ==> (#[trigger] placed[i]).0 != w)
            ==> s.initialized(placed).frame_of(w) == s.frame_of(w)
            && s.initialized(placed).frames.contains_key(w) == s.frames.contains_key(w),
    decreases placed.len(),
{
    if placed.len() > 0 {
        let front = placed.drop_last();
        let last = placed.last();
        assert forall|i: int| 0 <= i < front.len() implies !s.frames.contains_key(
            (#[trigger] front[i]).0,
        ) by {
            assert(front[i] == placed[i]);
        }
        assert forall|i: int, j: int| 0 <= i < j < front.len() implies (#[trigger] front[i]).0 != (
        #[trigger] front[j]).0 by {
            assert(front[i] == placed[i] && front[j] == placed[j]);
        }
        lemma_first_frames(s, front, last.0);
        assert forall|i: int| 0 <= i < front.len() implies (#[trigger] front[i]).0 != last.0 by {
            assert(front[i] == placed[i] && placed[placed.len() - 1] == last);
        }
        lemma_first_frames(s, front, w);
        assert forall|i: int| 0 <= i < placed.len() implies s.initialized(placed).frame_of(
            (#[trigger] placed[i]).0,
        ) == Some(placed[i].1) by {
            if i < front.len() {
                assert(front[i] == placed[i]);
            }
        }
        if forall|i: int| 0 <= i < placed.len() ==> (#[trigger] placed[i]).0 != w {
            assert(placed[placed.len() - 1] == last);
            assert forall|i: int| 0 <= i < front.len() implies (#[trigger] front[i]).0 != w by {
                assert(front[i] == placed[i]);
            }
        }
    }
}

/// Giving out first frames leaves every window of the layout with a frame. One
/// that had a frame keeps it, the others get theirs, and windows elsewhere are not
/// touched. None waits for a frame then: giving out first frames again, whatever
/// they are, changes no frame.
pub proof fn law_first_framed(
    s: FloatView,
    layout: LayoutId,
    frames: Seq<Frame>,
    again: Seq<Frame>,
    w: WindowId,
)
    requires
        s.inner.all_windows(layout).len() <= usize::MAX,
    ensures
        ({
            let t = s.first_framed(layout, frames);
            let waiting = s.frameless(layout);
            &&& t.inner == s.inner
            &&& s.inner.all_windows(layout).contains(w) ==> t.frames.contains_key(w)
            &&& s.frames.contains_key(w) ==> t.frame_of(w) == s.frame_of(w)
            &&& !s.inner.all_windows(layout).contains(w) ==> t.frame_of(w) == s.frame_of(w)
            &&& forall|i: int|
                0 <= i < waiting.len() ==> t.frame_of((#[trigger] waiting[i]).1) == Some(frames[i])
            &&& t.frameless(layout).len() == 0
            &&& t.first_framed(layout, again).frames == t.frames
        }),
{
    let t = s.first_framed(layout, frames);
    let windows = s.inner.all_windows(layout);
    let waiting = s.frameless(layout);
    let placed = Seq::new(waiting.len(), |i: int| (waiting[i].1, frames[i]));
    law_frameless(s, layout);
    law_initialized(s, placed, w);
    lemma_unframed(s, windows, windows.len() as int);
    lemma_first_frames(s, placed, w);
    assert forall|i: int| 0 <= i < waiting.len() implies t.frame_of((#[trigger] waiting[i]).1)
        == Some(frames[i]) by {
        assert(placed[i] == (waiting[i].1, frames[i]));
    }
    assert forall|v: WindowId| windows.contains(v) implies #[trigger] t.frames.contains_key(v) by {
        law_initialized(s, placed, v);
        if !s.frames.contains_key(v) {
            let i = choose|i: int| 0 <= i < waiting.len() && (#[trigger] waiting[i]).1 == v;
            assert(t.frames.contains_key(placed[i].0));
        } else {
            lemma_first_frames(s, placed, v);
        }
    }
    if !windows.contains(w) {
        assert forall|i: int| 0 <= i < placed.len() implies (#[trigger] placed[i]).0 != w by {
            assert(windows.contains(waiting[i].1));
        }
    }
    law_frameless(t, layout);
    let left = t.frameless(layout);
    if left.len() > 0 {
        assert(left[0].1 == left[0].1);
        assert(windows.contains(left[0].1) && !t.frames.contains_key(left[0].1));
    }
    let none = Seq::new(left.len(), |i: int| (left[i].1, again[i]));
    assert(none.len() == 0);
}

// ----- focus -----

/// The window that a node leads to or remembers depends on what is remembered.
proof fn lemma_same_led_window(f: ForestView, g: ForestView, n: NodeId)
    requires
        f.wf(),
        follow::remembers_alike(f, g),
    ensures
        g.led_window(n) == f.led_window(n),
    decreases tree_view::height(f.nodes, n),
{
    assert(g.window(n) == f.window(n));
    assert(g.last_selection(n) == f.last_selection(n) && g.children(n) == f.children(n));
    assert(g.remembered_lead(n) == f.remembered_lead(n));
    if f.window(n) is None && f.remembered_lead(n) is Some {
        groups::lemma_remembered_lead(f, n);
        groups::lemma_remembered_lead(g, n);
        lemma_same_led_window(f, g, f.remembered_lead(n)->0);
    }
}

/// Moving the selection up or down the path of what is remembered keeps the window
/// in focus.
pub proof fn law_focus_stays_with_path(s: FloatView, layout: LayoutId)
    requires
        s.inner.wf(),
        s.inner.has(layout),
    ensures
        (FloatView { inner: s.inner.ascended(layout), ..s }).active(layout) == s.active(layout),
        (FloatView { inner: s.inner.descended(layout), ..s }).active(layout) == s.active(layout),
{
    let f = s.inner.forest;
    let n = s.inner.selection(layout);
    follow::law_path_is_remembered(s.inner, layout);
    if f.parent(n) is Some {
        let p = f.parent(n)->0;
        let g = s.inner.ascended(layout).forest;
        lemma_same_led_window(f, g, n);
        assert(g.last_selection(p) == Some(n));
        groups::lemma_remembered_lead(g, p);
        proofs::lemma_node(g, p);
    }
    if f.last_selection(n) is Some {
        let c = f.last_selection(n)->0;
        groups::lemma_remembered_lead(f, n);
        proofs::lemma_node(f, n);
        lemma_same_led_window(f, s.inner.descended(layout).forest, c);
    }
}

// ----- windows -----

proof fn lemma_same(s: FloatView)
    requires
        s.inner.wf(),
    ensures
        laws::keeps_windows(s.inner, s.inner),
{
    homes::lemma_refl(s.inner.forest);
    laws::lemma_settled(s.inner, s.inner.forest);
    assert(s.inner.with_forest(s.inner.forest) == s.inner);
}

/// A node moves and another one is selected; frames may change in between.
proof fn lemma_moved_selected(s: FloatView, m: NodeId, place: Place, n: NodeId)
    requires
        s.inner.wf(),
    ensures
        laws::keeps_windows(
            s.inner,
            s.inner.with_forest(s.inner.forest.moved(m, place).selected(n)),
        ),
{
    let f = s.inner.forest;
    let g = f.moved(m, place);
    homes::lemma_moved(f, m, place);
    homes::lemma_selected(g, n);
    homes::lemma_trans(f, g, g.selected(n));
    laws::lemma_settled(s.inner, g.selected(n));
}

/// Joining the window in focus with another keeps the windows of every layout.
pub proof fn law_join_keeps_windows(
    s: FloatView,
    layout: LayoutId,
    direction: Direction,
    target: Option<WindowId>,
)
    requires
        s.inner.wf(),
        s.inner.forest.minted <= u64::MAX,
    ensures
        laws::keeps_windows(s.inner, s.joined(layout, direction, target).inner),
{
    lemma_same(s);
    let f = s.inner.forest;
    match (s.active(layout), target) {
        (Some(focused), Some(other)) => match (
            f.node_for(layout, focused),
            f.node_for(layout, other),
        ) {
            (Some(n), Some(m)) => {
                let root = s.inner.root(layout);
                let kind = LayoutKind::along(direction.axis());
                laws::lemma_nested(s.inner, layout, s.inner.selection(layout), kind);
                let v = match s.own_container(layout) {
                    Some(_) => s,
                    None => FloatView {
                        inner: s.inner.nested(layout, s.inner.selection(layout), kind).0,
                        ..s
                    },
                };
                assert(laws::keeps_windows(s.inner, v.inner));
                match v.inner.forest.parent(n) {
                    Some(container) => {
                        lemma_taken_in(v, layout, root, focused, other, n, m, container);
                        laws::lemma_trans(
                            s.inner,
                            v.inner,
                            v.taken_in(layout, root, focused, other, n, m, container).inner,
                        );
                    },
                    None => {},
                }
            },
            _ => {},
        },
        _ => {},
    }
}

proof fn lemma_taken_in(
    s: FloatView,
    layout: LayoutId,
    root: NodeId,
    focused: WindowId,
    other: WindowId,
    n: NodeId,
    m: NodeId,
    container: NodeId,
)
    requires
        s.inner.wf(),
    ensures
        laws::keeps_windows(
            s.inner,
            s.taken_in(layout, root, focused, other, n, m, container).inner,
        ),
{
    let f = s.inner.forest;
    let left = match f.parent(m) {
        Some(p) => if p != root {
            s.members(p)
        } else {
            Seq::empty()
        },
        None => Seq::empty(),
    };
    let v = if f.kind(container).stacks() {
        s.aligned(seq![other], s.frame_of(focused), true)
    } else {
        FloatView { independent: s.independent.remove(other), ..s }
    };
    lemma_aligned_inner(s, seq![other], s.frame_of(focused), true);
    let u = FloatView { inner: v.inner.with_forest(f.moved(m, Place::Last(container))), ..v };
    lemma_restored_inner(u, layout, left);
    lemma_moved_selected(s, m, Place::Last(container), n);
}

/// Taking the window in focus out of its container keeps the windows of every
/// layout.
pub proof fn law_unjoin_keeps_windows(s: FloatView, layout: LayoutId)
    requires
        s.inner.wf(),
    ensures
        laws::keeps_windows(s.inner, s.unjoined(layout).inner),
{
    lemma_same(s);
    let f = s.inner.forest;
    match (s.active(layout), s.own_container(layout)) {
        (Some(w), Some(p)) => {
            let n = f.node_for(layout, w)->0;
            let u = FloatView {
                inner: s.inner.with_forest(f.moved(n, Place::After(p))),
                ..s
            }.taken_back(w);
            lemma_restored_inner(u, layout, s.members(p));
            lemma_moved_selected(s, n, Place::After(p), n);
        },
        _ => {},
    }
}

/// Consuming or expelling keeps the windows of every layout.
pub proof fn law_consume_keeps_windows(
    s: FloatView,
    layout: LayoutId,
    direction: Direction,
    target: Option<WindowId>,
)
    requires
        s.inner.wf(),
        s.inner.forest.minted <= u64::MAX,
    ensures
        laws::keeps_windows(s.inner, s.consumed_or_expelled(layout, direction, target).inner),
{
    law_join_keeps_windows(s, layout, direction, target);
    law_unjoin_keeps_windows(s, layout);
}

proof fn lemma_window_selected(s: FloatView, layout: LayoutId, window: WindowId)
    requires
        s.inner.wf(),
    ensures
        laws::keeps_windows(s.inner, s.inner.window_selected(layout, window)),
{
    lemma_same(s);
    match s.inner.forest.node_for(layout, window) {
        Some(n) => {
            homes::lemma_selected(s.inner.forest, n);
            laws::lemma_settled(s.inner, s.inner.forest.selected(n));
        },
        None => {},
    }
}

/// Stacking and unstacking keep the windows of every layout.
pub proof fn law_stacking_keeps_windows(
    s: FloatView,
    layout: LayoutId,
    default: StackDefaultOrientation,
)
    requires
        s.inner.wf(),
    ensures
        laws::keeps_windows(s.inner, s.stacked(layout, default).inner),
        laws::keeps_windows(s.inner, s.unstacked(layout, default).inner),
{
    lemma_same(s);
    laws::law_stacking_keeps_windows(s.inner, layout, default);
    match (s.active(layout), s.selected_container(layout)) {
        (Some(focused), Some(c)) => {
            lemma_aligned_inner(
                s,
                s.members(c),
                s.frame_of(focused),
                !s.inner.forest.kind(c).stacks(),
            );
            let u = FloatView { inner: s.inner.stacking_applied(layout, default), ..s };
            lemma_window_selected(u, layout, focused);
            laws::lemma_trans(s.inner, u.inner, u.inner.window_selected(layout, focused));
        },
        _ => {},
    }
    match s.stack_of_selection(layout) {
        Some(c) => {
            let u = FloatView { inner: s.inner.unstacked(layout, default), ..s };
            lemma_spread_inner(u, s.members(c), s.active(layout));
            if s.active(layout) is Some {
                let w = s.active(layout)->0;
                lemma_window_selected(u, layout, w);
                laws::lemma_trans(s.inner, u.inner, u.inner.window_selected(layout, w));
            }
        },
        None => {},
    }
}

/// A member of a path that passes a test, as a search finds it.
proof fn lemma_found(list: Seq<NodeId>, from: int, test: spec_fn(NodeId) -> bool)
    requires
        0 <= from,
    ensures
        navigation::find_on(list, from, test) is Some ==> exists|i: int|
            0 <= i < list.len() && Some(#[trigger] list[i]) == navigation::find_on(list, from, test)
                && test(list[i]),
    decreases list.len() - from,
{
    if from < list.len() {
        if !test(list[from]) {
            lemma_found(list, from + 1, test);
        } else {
            assert(Some(list[from]) == navigation::find_on(list, from, test));
        }
    }
}

/// Adding a window to a layout adds it once, at the top of that layout only, and
/// selects it. No frame changes.
pub proof fn law_window_added(s: FloatView, layout: LayoutId, window: WindowId)
    requires
        s.inner.wf(),
        s.inner.has(layout),
        s.inner.forest.minted <= u64::MAX,
    ensures
        ({
            let t = s.window_added(layout, window);
            &&& arrivals::arrived(s.inner, t.inner, layout, window)
            &&& t.inner.selected_window(layout) == Some(window)
            &&& t.frames == s.frames
            &&& t.independent == s.independent
            &&& t.inner.forest.minted <= s.inner.forest.minted + 1
        }),
{
    let f = s.inner.forest;
    let root = s.inner.root(layout);
    assert(s.inner.roots.contains_key(layout));
    homes::lemma_home(f, root);
    let test = |n: NodeId| f.parent(n) == Some(root);
    let path = f.ancestors(s.inner.selection(layout));
    lemma_found(path, 0, test);
    let anchor = if s.inner.point is NextToSelection {
        s.top_anchor(layout)
    } else {
        None
    };
    let place = match anchor {
        Some(n) => Place::After(n),
        None => Place::Last(root),
    };
    assert(f.place_parent(place) == Some(root));
    arrivals::lemma_window_entered(s.inner, layout, place, window, f.with_new(place));
    let n = f.next_id();
    let u = s.inner.window_put(layout, place, window);
    homes::lemma_selected(u.forest, n);
    laws::lemma_settled(u, u.forest.selected(n));
    arrivals::lemma_arrived_before(
        s.inner,
        u,
        u.with_forest(u.forest.selected(n)),
        layout,
        window,
    );
    arrivals::law_selected(u, layout, n);
}

/// Removing a window takes it out of every layout, leaves the other windows, and
/// forgets its frame and no other.
pub proof fn law_window_removed(s: FloatView, window: WindowId)
    requires
        s.inner.wf(),
        filed::filed(s.inner),
    ensures
        filed::thinned(s.inner, s.window_removed(window).inner, |v: WindowId| v != window),
        s.window_removed(window).frame_of(window) is None,
        !s.window_removed(window).independent.contains_key(window),
        forall|w: WindowId|
            w != window ==> #[trigger] s.window_removed(window).frame_of(w) == s.frame_of(w),
{
    filed::law_window_removed(s.inner, window);
}

/// A window that another one replaces hands its frame over.
pub proof fn law_replaced_frames(s: FloatView, from: WindowId, to: WindowId)
    requires
        from != to,
    ensures
        s.with_replaced(from, to).frame_of(to) == s.frame_of(from),
        s.with_replaced(from, to).frame_of(from) is None,
        forall|w: WindowId|
            w != from && w != to ==> #[trigger] s.with_replaced(from, to).frame_of(w)
                == s.frame_of(w),
{
}

/// Removing windows one after the other takes them out of every layout.
proof fn lemma_all_removed(s: FloatView, ws: Seq<WindowId>)
    requires
        s.inner.wf(),
        filed::filed(s.inner),
    ensures
        ({
            let t = s.windows_removed(ws);
            &&& t.inner.wf()
            &&& filed::filed(t.inner)
            &&& t.inner.roots == s.inner.roots
            &&& t.inner.forest.minted == s.inner.forest.minted
            &&& forall|l: LayoutId, v: WindowId|
                s.inner.has(l) ==> #[trigger] t.inner.all_windows(l).to_multiset().count(v) == (
                if ws.contains(v) {
                    0
                } else {
                    s.inner.all_windows(l).to_multiset().count(v)
                })
        }),
    decreases ws.len(),
{
    if ws.len() > 0 {
        let front = ws.drop_last();
        let w = ws.last();
        lemma_all_removed(s, front);
        let u = s.windows_removed(front);
        law_window_removed(u, w);
        filed::lemma_removed_minted(u.inner, w);
        let t = u.window_removed(w);
        let other = |v: WindowId| v != w;
        assert(ws[ws.len() - 1] == w);
        assert forall|l: LayoutId, v: WindowId|
            s.inner.has(l) implies #[trigger] t.inner.all_windows(l).to_multiset().count(v) == (
        if ws.contains(v) {
            0
        } else {
            s.inner.all_windows(l).to_multiset().count(v)
        }) by {
            assert(u.inner.has(l));
            assert(t.inner.all_windows(l).to_multiset() == u.inner.all_windows(l).filter(
                other,
            ).to_multiset());
            systems::lemma_filter_count(u.inner.all_windows(l), other, v);
            if ws.contains(v) && v != w {
                let i = choose|i: int| 0 <= i < ws.len() && ws[i] == v;
                assert(front[i] == v);
            }
            if front.contains(v) {
                let i = choose|i: int| 0 <= i < front.len() && front[i] == v;
                assert(ws[i] == v);
            }
            assert(u.inner.all_windows(l).to_multiset().count(v) == (if front.contains(v) {
                0
            } else {
                s.inner.all_windows(l).to_multiset().count(v)
            }));
        }
    }
}

/// Adding windows one after the other.
proof fn lemma_all_added(s: FloatView, layout: LayoutId, ws: Seq<WindowId>)
    requires
        s.inner.wf(),
        filed::filed(s.inner),
        s.inner.has(layout),
        s.inner.forest.minted + ws.len() <= u64::MAX,
    ensures
        ({
            let t = s.windows_added(layout, ws);
            &&& membership::all_arrived(s.inner, t.inner, layout, ws.to_multiset())
            &&& t.inner.forest.minted <= s.inner.forest.minted + ws.len()
        }),
    decreases ws.len(),
{
    broadcast use vstd::seq_lib::group_to_multiset_ensures;

    if ws.len() == 0 {
        assert(s.inner.all_windows(layout).to_multiset().add(ws.to_multiset())
            =~= s.inner.all_windows(layout).to_multiset());
    } else {
        let front = ws.drop_last();
        let w = ws.last();
        assert(front.push(w) =~= ws);
        lemma_all_added(s, layout, front);
        let v = s.windows_added(layout, front);
        law_window_added(v, layout, w);
        let t = v.window_added(layout, w);
        assert(v.inner.has(layout));
        assert(t.inner.all_windows(layout).to_multiset() == v.inner.all_windows(
            layout,
        ).to_multiset().insert(w));
        assert(t.inner.all_windows(layout).to_multiset() =~= s.inner.all_windows(
            layout,
        ).to_multiset().add(ws.to_multiset()));
        assert forall|l: LayoutId| s.inner.has(l) && l != layout implies #[trigger] t.inner.all_windows(
            l,
        ).to_multiset() == s.inner.all_windows(l).to_multiset() by {
            assert(v.inner.has(l));
            assert(v.inner.all_windows(l).to_multiset() == s.inner.all_windows(l).to_multiset());
        }
    }
}

/// After the windows of a process were set, a layout holds exactly the wanted
/// windows of the process. Windows of other processes stay in all layouts. An
/// unwanted window leaves every layout.
pub proof fn law_windows_set(s: FloatView, layout: LayoutId, pid: Pid, desired: Seq<WindowId>)
    requires
        s.inner.wf(),
        filed::filed(s.inner),
        s.inner.has(layout),
        s.inner.forest.minted + desired.len() <= u64::MAX,
    ensures
        ({
            let t = s.app_set(layout, pid, desired);
            &&& t.inner.wf()
            &&& filed::filed(t.inner)
            &&& t.inner.roots == s.inner.roots
            &&& forall|w: WindowId|
                w.pid == pid ==> (#[trigger] t.inner.all_windows(layout).contains(w)
                    <==> desired.contains(w))
            &&& forall|l: LayoutId, w: WindowId|
                s.inner.has(l) && w.pid != pid ==> #[trigger] t.inner.all_windows(
                    l,
                ).to_multiset().count(w) == s.inner.all_windows(l).to_multiset().count(w)
        }),
{
    broadcast use vstd::seq_lib::group_to_multiset_ensures;

    let all = s.inner.all_windows(layout);
    let own = |w: WindowId| w.pid == pid;
    let current = s.inner.app_windows(layout, pid);
    let gone = systems::missing_from(current, desired);
    let added = systems::newcomers(pid, current, desired);
    lemma_all_removed(s, gone);
    let m = s.windows_removed(gone);
    systems::lemma_newcomers(pid, current, desired, WindowId { pid, idx: 0 });
    lemma_all_added(m, layout, added);
    let t = m.windows_added(layout, added);
    assert forall|w: WindowId| #[trigger] gone.contains(w) <==> w.pid == pid && !desired.contains(w)
        && all.contains(w) by {
        membership::lemma_gone_count(all, pid, desired, w);
    }
    assert forall|w: WindowId| w.pid == pid implies (#[trigger] t.inner.all_windows(
        layout,
    ).contains(w) <==> desired.contains(w)) by {
        systems::lemma_newcomers(pid, current, desired, w);
        systems::lemma_filter_count(all, own, w);
        assert(m.inner.all_windows(layout).to_multiset().count(w) == (if gone.contains(w) {
            0
        } else {
            all.to_multiset().count(w)
        }));
        assert(t.inner.all_windows(layout).to_multiset().count(w) == m.inner.all_windows(
            layout,
        ).to_multiset().count(w) + added.to_multiset().count(w));
        assert(gone.contains(w) <==> !desired.contains(w) && all.contains(w));
        assert(current.contains(w) <==> current.to_multiset().count(w) > 0);
        assert(all.contains(w) <==> all.to_multiset().count(w) > 0);
        assert(added.contains(w) <==> added.to_multiset().count(w) > 0);
    }
    assert forall|l: LayoutId, w: WindowId|
        s.inner.has(l) && w.pid != pid implies #[trigger] t.inner.all_windows(
        l,
    ).to_multiset().count(w) == s.inner.all_windows(l).to_multiset().count(w) by {
        systems::lemma_newcomers(pid, current, desired, w);
        assert(!gone.contains(w));
        assert(m.inner.has(l));
        assert(m.inner.all_windows(l).to_multiset().count(w) == s.inner.all_windows(
            l,
        ).to_multiset().count(w));
        if l == layout {
            assert(t.inner.all_windows(l).to_multiset().count(w) == m.inner.all_windows(
                l,
            ).to_multiset().count(w) + added.to_multiset().count(w));
        } else {
            assert(t.inner.all_windows(l).to_multiset() == m.inner.all_windows(
                l,
            ).to_multiset());
        }
    }
}

} // verus!
