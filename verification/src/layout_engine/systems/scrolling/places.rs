//! Where commands on a strip leave its windows, column by column and row by row.

use vstd::prelude::*;

use crate::actor::WindowId;
use crate::common::config::WindowInsertionPoint;
use crate::layout_engine::systems::scrolling::laws;
use crate::layout_engine::systems::scrolling::view::{ResizePlan, StripView};
use crate::layout_engine::{Direction, ResizeOrientation};

verus! {

/// The windows of a strip, column by column from the left, each column from the top.
pub open spec fn grid(s: StripView) -> Seq<Seq<WindowId>> {
    Seq::new(s.columns.len(), |c: int| s.columns[c].windows)
}

/// A window stands in a row of a column.
pub open spec fn stands(s: StripView, c: int, r: int, w: WindowId) -> bool {
    0 <= c < s.columns.len() && 0 <= r < s.columns[c].windows.len() && s.columns[c].windows[r] == w
}

/// No window stands at two places.
pub open spec fn no_doubles(s: StripView) -> bool {
    forall|c: int, r: int, d: int, q: int, w: WindowId| #[trigger]
        stands(s, c, r, w) && #[trigger] stands(s, d, q, w) ==> c == d && r == q
}

/// A list with two of its elements exchanged.
pub open spec fn traded<T>(list: Seq<T>, i: int, j: int) -> Seq<T> {
    Seq::new(
        list.len(),
        |k: int|
            if k == i {
                list[j]
            } else if k == j {
                list[i]
            } else {
                list[k]
            },
    )
}

/// The columns without the window in a row of one of them. A column that would be
/// empty goes with it.
pub open spec fn thinned(g: Seq<Seq<WindowId>>, c: int, r: int) -> Seq<Seq<WindowId>> {
    if g[c].len() == 1 {
        g.remove(c)
    } else {
        g.update(c, g[c].remove(r))
    }
}

/// A window is found where it stands.
pub proof fn law_found_where_it_stands(s: StripView, c: int, r: int, w: WindowId)
    requires
        no_doubles(s),
        stands(s, c, r, w),
    ensures
        s.locate(w) == Some((c, r)),
{
    laws::law_locate(s.columns, w);
    laws::lemma_flattened_contains(s.columns, w);
    assert(s.columns[c].windows.contains(w));
    let (d, q) = s.locate(w)->0;
    assert(stands(s, d, q, w));
}

/// Moving focus up or down goes to the row above or below; moving it left or right
/// goes to the same row of the next column, or to its last row if it is shorter. At
/// the edge the selection stays. Nothing moves.
pub proof fn law_focus(s: StripView, c: int, r: int, w: WindowId, direction: Direction, niri: bool)
    requires
        no_doubles(s),
        stands(s, c, r, w),
        s.selected == Some(w),
        forall|k: int| 0 <= k < s.columns.len() ==> (#[trigger] s.columns[k]).windows.len() > 0,
    ensures
        ({
            let t = s.focus_moved(direction, niri);
            let after = t.selected_location();
            &&& grid(t) == grid(s)
            &&& direction is Up ==> after == Some(
                if r > 0 {
                    (c, r - 1)
                } else {
                    (c, r)
                },
            )
            &&& direction is Down ==> after == Some(
                if r + 1 < grid(s)[c].len() {
                    (c, r + 1)
                } else {
                    (c, r)
                },
            )
            &&& direction is Left ==> after == Some(
                if c == 0 {
                    (c, r)
                } else if r < grid(s)[c - 1].len() {
                    (c - 1, r)
                } else {
                    (c - 1, grid(s)[c - 1].len() - 1)
                },
            )
            &&& direction is Right ==> after == Some(
                if c + 1 == grid(s).len() {
                    (c, r)
                } else if r < grid(s)[c + 1].len() {
                    (c + 1, r)
                } else {
                    (c + 1, grid(s)[c + 1].len() - 1)
                },
            )
        }),
{
    law_found_where_it_stands(s, c, r, w);
    let t = s.focus_moved(direction, niri);
    assert(t.columns == s.columns);
    let x = t.selected->0;
    let (d, q) = match direction {
        Direction::Up => (
            c,
            if r > 0 {
                r - 1
            } else {
                r
            },
        ),
        Direction::Down => (
            c,
            if r + 1 < s.columns[c].windows.len() {
                r + 1
            } else {
                r
            },
        ),
        Direction::Left => if c == 0 {
            (c, r)
        } else if r < s.columns[c - 1].windows.len() {
            (c - 1, r)
        } else {
            (c - 1, s.columns[c - 1].windows.len() - 1)
        },
        Direction::Right => if c + 1 == s.columns.len() {
            (c, r)
        } else if r < s.columns[c + 1].windows.len() {
            (c + 1, r)
        } else {
            (c + 1, s.columns[c + 1].windows.len() - 1)
        },
    };
    assert(stands(s, d, q, x));
    law_found_where_it_stands(s, d, q, x);
}

/// Moving the selection up or down exchanges it with the window above or below. Moving
/// it left or right takes it out of a column that it shares into a new one on that
/// side, or exchanges its column with the next one. At the edge nothing moves.
pub proof fn law_move(s: StripView, c: int, r: int, w: WindowId, direction: Direction, niri: bool)
    requires
        no_doubles(s),
        stands(s, c, r, w),
        s.selected == Some(w),
    ensures
        ({
            let g = grid(s);
            let after = grid(s.selection_moved(direction, niri));
            let shared = g[c].len() > 1;
            &&& direction is Up ==> after == (if r > 0 {
                g.update(c, traded(g[c], r, r - 1))
            } else {
                g
            })
            &&& direction is Down ==> after == (if r + 1 < g[c].len() {
                g.update(c, traded(g[c], r, r + 1))
            } else {
                g
            })
            &&& direction is Left ==> after == (if shared {
                g.update(c, g[c].remove(r)).insert(c, seq![w])
            } else if c > 0 {
                traded(g, c, c - 1)
            } else {
                g
            })
            &&& direction is Right ==> after == (if shared {
                g.update(c, g[c].remove(r)).insert(c + 1, seq![w])
            } else if c + 1 < g.len() {
                traded(g, c, c + 1)
            } else {
                g
            })
        }),
        s.can_shift(direction) <==> match direction {
            Direction::Up => r > 0,
            Direction::Down => r + 1 < grid(s)[c].len(),
            Direction::Left => grid(s)[c].len() > 1 || c > 0,
            Direction::Right => grid(s)[c].len() > 1 || c + 1 < grid(s).len(),
        },
{
    law_found_where_it_stands(s, c, r, w);
    let g = grid(s);
    let after = grid(s.selection_moved(direction, niri));
    if s.can_shift(direction) {
        assert(s.selection_moved(direction, niri).columns == s.shifted(direction).columns);
        match direction {
            Direction::Up => {
                assert(after[c] =~= traded(g[c], r, r - 1));
                assert(after =~= g.update(c, traded(g[c], r, r - 1)));
            },
            Direction::Down => {
                assert(after[c] =~= traded(g[c], r, r + 1));
                assert(after =~= g.update(c, traded(g[c], r, r + 1)));
            },
            Direction::Left => if g[c].len() > 1 {
                assert(after =~= g.update(c, g[c].remove(r)).insert(c, seq![w]));
            } else {
                assert(after =~= traded(g, c, c - 1));
            },
            Direction::Right => if g[c].len() > 1 {
                assert(after =~= g.update(c, g[c].remove(r)).insert(c + 1, seq![w]));
            } else {
                assert(after =~= traded(g, c, c + 1));
            },
        }
    }
}

/// The columns after a window went to the end of another column.
pub open spec fn rehoused(g: Seq<Seq<WindowId>>, c: int, r: int, d: int) -> Seq<Seq<WindowId>> {
    thinned(g.update(d, g[d].push(g[c][r])), c, r)
}

proof fn lemma_rehoused(s: StripView, c: int, r: int, w: WindowId, d: int)
    requires
        no_doubles(s),
        stands(s, c, r, w),
        0 <= d < s.columns.len(),
        d != c,
    ensures
        grid(s.moved_to_column(w, d)) == rehoused(grid(s), c, r, d),
{
    law_found_where_it_stands(s, c, r, w);
    let g = grid(s);
    let after = grid(s.moved_to_column(w, d));
    assert(after =~= rehoused(g, c, r, d));
}

/// Joining left or right puts the selection at the end of the column on that side.
/// Without one there, and up or down, nothing happens.
pub proof fn law_join(s: StripView, c: int, r: int, w: WindowId, direction: Direction)
    requires
        no_doubles(s),
        stands(s, c, r, w),
        s.selected == Some(w),
    ensures
        ({
            let g = grid(s);
            let after = grid(s.joined(direction));
            &&& direction is Left ==> after == (if c > 0 {
                rehoused(g, c, r, c - 1)
            } else {
                g
            })
            &&& direction is Right ==> after == (if c + 1 < g.len() {
                rehoused(g, c, r, c + 1)
            } else {
                g
            })
            &&& direction is Up || direction is Down ==> after == g
        }),
{
    law_found_where_it_stands(s, c, r, w);
    if direction is Left && c > 0 {
        lemma_rehoused(s, c, r, w, c - 1);
    }
    if direction is Right && c + 1 < s.columns.len() {
        lemma_rehoused(s, c, r, w, c + 1);
    }
}

/// A selection that shares its column is expelled to the side it is sent to; one that
/// stands alone joins the column on that side. Unjoining expels it to the right.
pub proof fn law_consume(
    s: StripView,
    c: int,
    r: int,
    w: WindowId,
    direction: Direction,
    niri: bool,
)
    requires
        no_doubles(s),
        stands(s, c, r, w),
        s.selected == Some(w),
    ensures
        ({
            let g = grid(s);
            let shared = g[c].len() > 1;
            let out = g.update(c, g[c].remove(r));
            let after = grid(s.consumed_or_expelled(direction, niri));
            &&& direction is Left && shared ==> after == out.insert(c, seq![w])
            &&& direction is Right && shared ==> after == out.insert(c + 1, seq![w])
            &&& direction is Left && !shared ==> after == (if c > 0 {
                rehoused(g, c, r, c - 1)
            } else {
                g
            })
            &&& direction is Right && !shared ==> after == (if c + 1 < g.len() {
                rehoused(g, c, r, c + 1)
            } else {
                g
            })
            &&& direction is Up || direction is Down ==> after == g
            &&& grid(s.unjoined(niri)) == (if shared {
                out.insert(c + 1, seq![w])
            } else {
                g
            })
        }),
{
    law_found_where_it_stands(s, c, r, w);
    law_join(s, c, r, w, direction);
    let g = grid(s);
    if g[c].len() > 1 {
        let out = g.update(c, g[c].remove(r));
        assert(grid(s.expelled(true, niri)) =~= out.insert(c, seq![w]));
        assert(grid(s.expelled(false, niri)) =~= out.insert(c + 1, seq![w]));
    }
}

/// A new window gets a column of its own: at the end if windows go to the end, else
/// to the right of the selected column. Without a selected column it goes behind the
/// first. A window that comes from another strip goes to the right of the selected
/// column, or to the end.
pub proof fn law_new_window(
    s: StripView,
    c: int,
    r: int,
    w: WindowId,
    window: WindowId,
    point: WindowInsertionPoint,
    niri: bool,
)
    ensures
        ({
            let g = grid(s);
            let n = g.len() as int;
            let after = grid(s.entered(window, point, niri));
            let end = g.insert(n, seq![window]);
            &&& after == grid(s.window_added(window, point))
            &&& point is EndOfTree ==> after == end
            &&& !(point is EndOfTree) && s.selected is None ==> after == (if n > 0 {
                g.insert(1, seq![window])
            } else {
                end
            })
            &&& no_doubles(s) && stands(s, c, r, w) && s.selected == Some(w) ==> {
                &&& !(point is EndOfTree) ==> after == g.insert(c + 1, seq![window])
                &&& grid(s.received(window, niri)) == g.insert(c + 1, seq![window])
            }
            &&& s.selected is None ==> grid(s.received(window, niri)) == end
        }),
{
    let g = grid(s);
    let n = g.len() as int;
    if no_doubles(s) && stands(s, c, r, w) && s.selected == Some(w) {
        law_found_where_it_stands(s, c, r, w);
        assert(grid(s.column_added_after(c, window)) =~= g.insert(c + 1, seq![window]));
    }
    if n > 0 {
        assert(grid(s.column_added_after(0, window)) =~= g.insert(1, seq![window]));
    }
    assert(grid(s.column_added_at_end(window)) =~= g.insert(n, seq![window]));
}

/// A window that leaves takes no other along. If it was selected, the window that
/// comes to its place is, else the last one of the column there, else the last one of
/// the column to the left.
pub proof fn law_remove(s: StripView, c: int, r: int, w: WindowId)
    requires
        no_doubles(s),
        stands(s, c, r, w),
        forall|k: int| 0 <= k < s.columns.len() ==> (#[trigger] s.columns[k]).windows.len() > 0,
    ensures
        ({
            let t = s.removed(w);
            let after = grid(t);
            &&& after == thinned(grid(s), c, r)
            &&& s.selected != Some(w) ==> t.selected == s.selected
            &&& s.selected == Some(w) ==> t.selected == (if c < after.len() && r < after[c].len() {
                Some(after[c][r])
            } else if c < after.len() {
                Some(after[c].last())
            } else if c > 0 {
                Some(after[c - 1].last())
            } else {
                None
            })
        }),
{
    law_found_where_it_stands(s, c, r, w);
    let after = grid(s.removed(w));
    assert(after =~= thinned(grid(s), c, r));
}

/// Unstacking leaves the selection alone in its column; the others that shared it get
/// columns of their own to the right, in order.
pub proof fn law_unstack(s: StripView, c: int, r: int, w: WindowId)
    requires
        no_doubles(s),
        stands(s, c, r, w),
        s.selected == Some(w),
        s.columns[c].windows.len() > 1,
    ensures
        ({
            let g = grid(s);
            let others = g[c].remove(r);
            grid(s.unstacked()) == g.take(c) + seq![seq![w]] + Seq::new(
                others.len(),
                |i: int| seq![others[i]],
            ) + g.skip(c + 1)
        }),
{
    law_found_where_it_stands(s, c, r, w);
    let windows = s.columns[c].windows;
    assert forall|i: int| 0 <= i < windows.len() && i != r implies windows[i] != w by {
        if windows[i] == w {
            assert(stands(s, c, i, w));
        }
    }
    let same = |v: WindowId| v == w;
    let differs = |v: WindowId| v != w;
    lemma_split(windows, r, same, differs);
    let g = grid(s);
    let others = g[c].remove(r);
    assert(s.unstacking_moves() == windows.filter(differs));
    let t = s.unstacked();
    assert(t.columns[c].windows == windows.filter(same));
    let right = g.take(c) + seq![seq![w]] + Seq::new(others.len(), |i: int| seq![others[i]])
        + g.skip(c + 1);
    assert(grid(t) =~= right);
}

/// The one element of its kind, and the others.
proof fn lemma_split(
    list: Seq<WindowId>,
    r: int,
    same: spec_fn(WindowId) -> bool,
    differs: spec_fn(WindowId) -> bool,
)
    requires
        0 <= r < list.len(),
        forall|i: int| 0 <= i < list.len() && i != r ==> !same(#[trigger] list[i]),
        forall|w: WindowId| #[trigger] differs(w) == !same(w),
        same(list[r]),
    ensures
        list.filter(differs) == list.remove(r),
        list.filter(same) == seq![list[r]],
    decreases list.len(),
{
    reveal(Seq::filter);
    let front = list.drop_last();
    assert(differs(list.last()) == !same(list.last()));
    if r == list.len() - 1 {
        assert forall|i: int| 0 <= i < front.len() implies !same(#[trigger] front[i]) by {
            assert(front[i] == list[i]);
        }
        lemma_all(front, same, differs);
        assert(list.remove(r) =~= front);
        assert(Seq::<WindowId>::empty().push(list[r]) =~= seq![list[r]]);
    } else {
        assert forall|i: int| 0 <= i < front.len() && i != r implies !same(#[trigger] front[i]) by {
            assert(front[i] == list[i]);
        }
        lemma_split(front, r, same, differs);
        assert(front[r] == list[r]);
        assert(!same(list[list.len() - 1]));
        assert(list.remove(r) =~= front.remove(r).push(list.last()));
    }
}

proof fn lemma_all(
    list: Seq<WindowId>,
    same: spec_fn(WindowId) -> bool,
    differs: spec_fn(WindowId) -> bool,
)
    requires
        forall|i: int| 0 <= i < list.len() ==> !same(#[trigger] list[i]),
        forall|w: WindowId| #[trigger] differs(w) == !same(w),
    ensures
        list.filter(differs) == list,
        list.filter(same) == Seq::<WindowId>::empty(),
    decreases list.len(),
{
    reveal(Seq::filter);
    if list.len() > 0 {
        let front = list.drop_last();
        assert forall|i: int| 0 <= i < front.len() implies !same(#[trigger] front[i]) by {
            assert(front[i] == list[i]);
        }
        lemma_all(front, same, differs);
        assert(!same(list[list.len() - 1]));
        assert(differs(list.last()));
        assert(front.push(list.last()) =~= list);
    } else {
        assert(list =~= Seq::empty());
    }
}

/// Covering the screen is switched on for a window that does not cover it, and off for
/// one that does. Covering it in one way ends covering it in the other.
pub proof fn law_cover(s: StripView, w: WindowId, x: WindowId)
    requires
        s.selected == Some(w) || (s.selected is None && s.columns.len() > 0 && s.columns[0].windows
            .len() > 0 && s.columns[0].windows[0] == w),
    ensures
        s.fullscreen_toggled().fullscreen.contains(w) <==> !s.fullscreen.contains(w),
        s.fullscreen_within_gaps_toggled().fullscreen_within_gaps.contains(w)
            <==> !s.fullscreen_within_gaps.contains(w),
        !s.fullscreen.contains(w) ==> !s.fullscreen_toggled().fullscreen_within_gaps.contains(w),
        !s.fullscreen_within_gaps.contains(w)
            ==> !s.fullscreen_within_gaps_toggled().fullscreen.contains(w),
        x != w ==> (s.fullscreen_toggled().fullscreen.contains(x) <==> s.fullscreen.contains(x)),
        x != w ==> (s.fullscreen_within_gaps_toggled().fullscreen_within_gaps.contains(x)
            <==> s.fullscreen_within_gaps.contains(x)),
        grid(s.fullscreen_toggled()) == grid(s),
        grid(s.fullscreen_within_gaps_toggled()) == grid(s),
{
}

/// A resize across the strip changes the width of the selected column, or of all
/// columns where none is selected. One along it, or a smart one in a shared column,
/// changes the height of the selected row; a column with one window has no height to
/// change.
pub proof fn law_resize(s: StripView, c: int, r: int, w: WindowId)
    ensures
        s.selected is None ==> {
            &&& s.resize_plan(ResizeOrientation::Horizontal) == ResizePlan::Strip
            &&& s.resize_plan(ResizeOrientation::Smart) == ResizePlan::Strip
            &&& s.resize_plan(ResizeOrientation::Vertical) == ResizePlan::Nothing
        },
        no_doubles(s) && stands(s, c, r, w) && s.selected == Some(w) && c <= usize::MAX && r
            <= usize::MAX ==> {
            let shared = grid(s)[c].len() > 1;
            let width = ResizePlan::Width { column: c as usize };
            let row = ResizePlan::Row { column: c as usize, row: r as usize };
            &&& s.resize_plan(ResizeOrientation::Horizontal) == width
            &&& s.resize_plan(ResizeOrientation::Vertical) == (if shared {
                row
            } else {
                ResizePlan::Nothing
            })
            &&& s.resize_plan(ResizeOrientation::Smart) == (if shared {
                row
            } else {
                width
            })
        },
{
    if no_doubles(s) && stands(s, c, r, w) && s.selected == Some(w) {
        law_found_where_it_stands(s, c, r, w);
    }
}

/// The columns while the first windows of column `d` have gone to the end of column `c`.
spec fn partly_merged(g: Seq<Seq<WindowId>>, c: int, d: int, upto: int) -> Seq<Seq<WindowId>> {
    let h = g.update(c, g[c] + g[d].take(upto));
    if upto < g[d].len() {
        h.update(d, g[d].skip(upto))
    } else {
        h.remove(d)
    }
}

/// Where a window of partly merged columns stood before.
proof fn lemma_partly_merged(s: StripView, t: StripView, c: int, d: int, upto: int)
    requires
        no_doubles(s),
        0 <= c < s.columns.len(),
        0 <= d < s.columns.len(),
        c != d,
        0 <= upto < s.columns[d].windows.len(),
        grid(t) == partly_merged(grid(s), c, d, upto),
    ensures
        no_doubles(t),
        stands(t, d, 0, s.columns[d].windows[upto]),
{
    let g = grid(s);
    let h = grid(t);
    assert(t.columns.len() == s.columns.len()) by {
        assert(h.len() == g.len());
    }
    let n = g[c].len();
    assert forall|a: int, b: int, x: int, y: int, w: WindowId| #[trigger]
        stands(t, a, b, w) && #[trigger] stands(t, x, y, w) implies a == x && b == y by {
        assert(t.columns[a].windows == h[a]);
        assert(t.columns[x].windows == h[x]);
        let (a2, b2) = if a == c && b >= n {
            (d, b - n)
        } else if a == d {
            (d, b + upto)
        } else {
            (a, b)
        };
        let (x2, y2) = if x == c && y >= n {
            (d, y - n)
        } else if x == d {
            (d, y + upto)
        } else {
            (x, y)
        };
        assert(s.columns[a2].windows == g[a2]);
        assert(s.columns[x2].windows == g[x2]);
        assert(stands(s, a2, b2, w));
        assert(stands(s, x2, y2, w));
    }
    assert(t.columns[d].windows == h[d]);
    assert(h[d] == g[d].skip(upto));
}

proof fn lemma_merged(s: StripView, c: int, d: int, upto: int)
    requires
        no_doubles(s),
        0 <= c < s.columns.len(),
        0 <= d < s.columns.len(),
        c == d + 1 || d == c + 1,
        0 <= upto <= s.columns[d].windows.len(),
        s.columns[d].windows.len() > 0,
    ensures
        grid(s.all_moved_to_column(s.columns[d].windows.take(upto), c)) == partly_merged(
            grid(s),
            c,
            d,
            upto,
        ),
    decreases upto,
{
    let g = grid(s);
    let src = s.columns[d].windows;
    assert(g[d] == src);
    if upto == 0 {
        assert(g[c] + g[d].take(0) =~= g[c]);
        assert(g[d].skip(0) =~= g[d]);
        assert(partly_merged(g, c, d, 0) =~= g);
    } else {
        lemma_merged(s, c, d, upto - 1);
        let t = s.all_moved_to_column(src.take(upto - 1), c);
        lemma_partly_merged(s, t, c, d, upto - 1);
        let w = src[upto - 1];
        assert(src.take(upto).drop_last() =~= src.take(upto - 1));
        assert(src.take(upto).last() == w);
        let h = grid(t);
        assert(h.len() == t.columns.len());
        lemma_rehoused(t, d, 0, w, c);
        assert(h[c] == g[c] + g[d].take(upto - 1));
        assert(h[d] == g[d].skip(upto - 1));
        assert(h[c].push(w) =~= g[c] + g[d].take(upto));
        assert(h[d].remove(0) =~= g[d].skip(upto));
        assert(rehoused(h, d, 0, c) =~= partly_merged(g, c, d, upto));
    }
}

/// Stacking puts the windows of the column on the right, or for the last column those of
/// the one on the left, below those of the selected column, in order. Their own column
/// goes.
pub proof fn law_stack(s: StripView, c: int, r: int, w: WindowId)
    requires
        no_doubles(s),
        stands(s, c, r, w),
        s.selected == Some(w),
        forall|d: int|
            0 <= d < s.columns.len() ==> (#[trigger] s.columns[d]).windows.len() > 0,
    ensures
        ({
            let g = grid(s);
            grid(s.stacked()) == (if c + 1 < g.len() {
                g.update(c, g[c] + g[c + 1]).remove(c + 1)
            } else if c > 0 {
                g.update(c, g[c] + g[c - 1]).remove(c - 1)
            } else {
                g
            })
        }),
{
    law_found_where_it_stands(s, c, r, w);
    let g = grid(s);
    if g.len() > 1 {
        let d = if c + 1 < g.len() {
            c + 1
        } else {
            c - 1
        };
        let src = s.columns[d].windows;
        lemma_merged(s, c, d, src.len() as int);
        assert(src.take(src.len() as int) =~= src);
        assert(g[d] == src);
    }
}

} // verus!
