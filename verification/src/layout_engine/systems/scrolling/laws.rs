//! What the commands on a strip leave alone.

use vstd::multiset::Multiset;
use vstd::prelude::*;

use crate::actor::{Pid, WindowId};
use crate::common::config::WindowInsertionPoint;
use crate::layout_engine::Direction;
use crate::layout_engine::systems;
use crate::layout_engine::systems::scrolling::view;
use crate::layout_engine::systems::scrolling::view::{ColumnView, StripView};

verus! {

/// The windows of columns, counted.
pub open spec fn tally(columns: Seq<ColumnView>) -> Multiset<WindowId> {
    view::flattened(columns).to_multiset()
}

/// No column is empty, and a window of the strip is selected unless there is none.
pub open spec fn tidy(s: StripView) -> bool {
    &&& forall|c: int| 0 <= c < s.columns.len() ==> (#[trigger] s.columns[c]).windows.len() > 0
    &&& s.selected is Some <==> s.columns.len() > 0
    &&& s.selected is Some ==> s.all_windows().contains(s.selected->0)
}

/// The strip holds the same windows, each as often as before, and stays tidy.
pub open spec fn keeps_windows(s: StripView, t: StripView) -> bool {
    &&& t.all_windows().to_multiset() == s.all_windows().to_multiset()
    &&& tidy(s) ==> tidy(t)
}

proof fn lemma_concat(a: Seq<WindowId>, b: Seq<WindowId>)
    ensures
        (a + b).to_multiset() == a.to_multiset().add(b.to_multiset()),
{
    vstd::seq_lib::lemma_multiset_commutative(a, b);
}

proof fn lemma_tally_push(columns: Seq<ColumnView>)
    requires
        columns.len() > 0,
    ensures
        tally(columns) == tally(columns.drop_last()).add(columns.last().windows.to_multiset()),
{
    lemma_concat(view::flattened(columns.drop_last()), columns.last().windows);
}

/// What one column adds to the count.
pub proof fn lemma_tally_remove(columns: Seq<ColumnView>, c: int)
    requires
        0 <= c < columns.len(),
    ensures
        tally(columns) == tally(columns.remove(c)).add(columns[c].windows.to_multiset()),
    decreases columns.len(),
{
    lemma_tally_push(columns);
    if c == columns.len() - 1 {
        assert(columns.remove(c) =~= columns.drop_last());
    } else {
        let front = columns.drop_last();
        lemma_tally_remove(front, c);
        let rest = columns.remove(c);
        assert(rest.drop_last() =~= front.remove(c));
        assert(rest.last() == columns.last());
        lemma_tally_push(rest);
        let mine = columns[c].windows.to_multiset();
        let last = columns.last().windows.to_multiset();
        assert(tally(front.remove(c)).add(mine).add(last) =~= tally(front.remove(c)).add(last).add(
            mine,
        ));
    }
}

pub proof fn lemma_tally_insert(columns: Seq<ColumnView>, at: int, column: ColumnView)
    requires
        0 <= at <= columns.len(),
    ensures
        tally(columns.insert(at, column)) == tally(columns).add(column.windows.to_multiset()),
{
    let more = columns.insert(at, column);
    lemma_tally_remove(more, at);
    assert(more.remove(at) =~= columns);
}

pub proof fn lemma_tally_update(columns: Seq<ColumnView>, c: int, column: ColumnView)
    requires
        0 <= c < columns.len(),
    ensures
        tally(columns.update(c, column)).add(columns[c].windows.to_multiset()) == tally(columns).add(
            column.windows.to_multiset(),
        ),
{
    let changed = columns.update(c, column);
    lemma_tally_remove(columns, c);
    lemma_tally_remove(changed, c);
    assert(changed.remove(c) =~= columns.remove(c));
    let rest = tally(columns.remove(c));
    let old_part = columns[c].windows.to_multiset();
    let new_part = column.windows.to_multiset();
    assert(rest.add(new_part).add(old_part) =~= rest.add(old_part).add(new_part));
}

/// Changing the windows of a column for the same windows in another order.
proof fn lemma_tally_same(columns: Seq<ColumnView>, c: int, column: ColumnView)
    requires
        0 <= c < columns.len(),
        column.windows.to_multiset() == columns[c].windows.to_multiset(),
    ensures
        tally(columns.update(c, column)) == tally(columns),
{
    let changed = columns.update(c, column);
    lemma_tally_remove(columns, c);
    lemma_tally_remove(changed, c);
    assert(changed.remove(c) =~= columns.remove(c));
}

/// A window is found exactly if the strip holds it, and where it is found it is.
pub proof fn law_locate(columns: Seq<ColumnView>, window: WindowId)
    ensures
        view::find_in(columns, window, 0) is Some <==> view::flattened(columns).contains(window),
        view::find_in(columns, window, 0) is Some ==> {
            let (c, row) = view::find_in(columns, window, 0)->0;
            &&& 0 <= c < columns.len()
            &&& 0 <= row < columns[c].windows.len()
            &&& columns[c].windows[row] == window
        },
{
    lemma_find_in(columns, window, 0);
    lemma_flattened_contains(columns, window);
}

proof fn lemma_first_at(list: Seq<WindowId>, window: WindowId, from: int)
    requires
        0 <= from <= list.len(),
    ensures
        view::first_at(list, window, from) is Some <==> exists|i: int|
            from <= i < list.len() && list[i] == window,
        view::first_at(list, window, from) is Some ==> from <= view::first_at(
            list,
            window,
            from,
        )->0 < list.len() && list[view::first_at(list, window, from)->0] == window,
    decreases list.len() - from,
{
    if from < list.len() && list[from] != window {
        lemma_first_at(list, window, from + 1);
    }
}

proof fn lemma_find_in(columns: Seq<ColumnView>, window: WindowId, from: int)
    requires
        0 <= from <= columns.len(),
    ensures
        view::find_in(columns, window, from) is Some <==> exists|c: int|
            from <= c < columns.len() && (#[trigger] columns[c]).windows.contains(window),
        view::find_in(columns, window, from) is Some ==> {
            let (c, row) = view::find_in(columns, window, from)->0;
            &&& from <= c < columns.len()
            &&& 0 <= row < columns[c].windows.len()
            &&& columns[c].windows[row] == window
        },
    decreases columns.len() - from,
{
    if from < columns.len() {
        lemma_first_at(columns[from].windows, window, 0);
        lemma_find_in(columns, window, from + 1);
    }
}

pub proof fn lemma_flattened_contains(columns: Seq<ColumnView>, window: WindowId)
    ensures
        view::flattened(columns).contains(window) <==> exists|c: int|
            0 <= c < columns.len() && (#[trigger] columns[c]).windows.contains(window),
    decreases columns.len(),
{
    if columns.len() > 0 {
        let front = columns.drop_last();
        lemma_flattened_contains(front, window);
        let a = view::flattened(front);
        let b = columns.last().windows;
        let all = view::flattened(columns);
        assert(all == a + b);
        if all.contains(window) {
            let i = choose|i: int| 0 <= i < all.len() && all[i] == window;
            if i < a.len() {
                assert(a[i] == window);
                let c = choose|c: int|
                    0 <= c < front.len() && (#[trigger] front[c]).windows.contains(window);
                assert(columns[c] == front[c]);
            } else {
                assert(b[i - a.len()] == window);
                assert(columns[columns.len() - 1].windows.contains(window));
            }
        }
        if exists|c: int|
            0 <= c < columns.len() && (#[trigger] columns[c]).windows.contains(window) {
            let c = choose|c: int|
                0 <= c < columns.len() && (#[trigger] columns[c]).windows.contains(window);
            if c < front.len() {
                assert(front[c] == columns[c]);
                let i = choose|i: int| 0 <= i < a.len() && a[i] == window;
                assert(all[i] == window);
            } else {
                let i = choose|i: int| 0 <= i < b.len() && b[i] == window;
                assert(all[a.len() + i] == window);
            }
        }
    }
}

/// Scrolling requests touch neither columns nor selection.
pub proof fn lemma_scrolled(s: StripView, t: StripView)
    requires
        t.columns == s.columns,
        t.selected == s.selected,
    ensures
        keeps_windows(s, t),
{
}

proof fn lemma_trans(s: StripView, t: StripView, u: StripView)
    requires
        keeps_windows(s, t),
        keeps_windows(t, u),
    ensures
        keeps_windows(s, u),
{
}

/// Columns that hold the same windows, none of them empty.
proof fn lemma_reordered(s: StripView, t: StripView)
    requires
        tally(t.columns) == tally(s.columns),
        t.selected == s.selected,
        tidy(s) ==> forall|c: int|
            0 <= c < t.columns.len() ==> (#[trigger] t.columns[c]).windows.len() > 0,
    ensures
        keeps_windows(s, t),
{
    if tidy(s) {
        lemma_selection_kept(s, t);
    }
}

/// As `lemma_reordered`, with a window of the strip selected.
proof fn lemma_reordered_selecting(s: StripView, t: StripView, w: WindowId)
    requires
        tally(t.columns) == tally(s.columns),
        t.selected == Some(w),
        s.all_windows().contains(w),
        tidy(s) ==> forall|c: int|
            0 <= c < t.columns.len() ==> (#[trigger] t.columns[c]).windows.len() > 0,
    ensures
        keeps_windows(s, t),
{
    broadcast use vstd::seq_lib::group_to_multiset_ensures;

    assert(t.all_windows().to_multiset().count(w) > 0);
    assert(t.all_windows().contains(w));
    lemma_flattened_contains(t.columns, w);
}

/// Columns with the same windows are empty together.
proof fn lemma_selection_kept(s: StripView, t: StripView)
    requires
        tally(t.columns) == tally(s.columns),
        t.selected == s.selected,
        tidy(s),
        forall|c: int| 0 <= c < t.columns.len() ==> (#[trigger] t.columns[c]).windows.len() > 0,
    ensures
        tidy(t),
{
    broadcast use vstd::seq_lib::group_to_multiset_ensures;

    if s.selected is Some {
        let w = s.selected->0;
        assert(t.all_windows().to_multiset().count(w) > 0);
        lemma_flattened_contains(t.columns, w);
    } else if t.columns.len() > 0 {
        let w = t.columns[0].windows[0];
        assert(t.columns[0].windows.contains(w));
        lemma_flattened_contains(t.columns, w);
        assert(t.all_windows().to_multiset().count(w) > 0);
        assert(s.all_windows().contains(w));
        lemma_flattened_contains(s.columns, w);
    }
}

/// A list without one of its members.
proof fn lemma_removed_count(list: Seq<WindowId>, row: int)
    requires
        0 <= row < list.len(),
    ensures
        list.to_multiset() == list.remove(row).to_multiset().insert(list[row]),
{
    broadcast use vstd::seq_lib::group_to_multiset_ensures;

    assert(list.contains(list[row]));
    assert(list.to_multiset() =~= list.remove(row).to_multiset().insert(list[row]));
}

/// The columns without the window at a place.
proof fn lemma_columns_without(s: StripView, c: int, row: int)
    requires
        0 <= c < s.columns.len(),
        0 <= row < s.columns[c].windows.len(),
    ensures
        tally(s.columns) == tally(s.columns_without(c, row)).insert(s.columns[c].windows[row]),
        tidy(s) ==> forall|k: int|
            0 <= k < s.columns_without(c, row).len() ==> (#[trigger] s.columns_without(
                c,
                row,
            )[k]).windows.len() > 0,
        s.columns[c].windows.len() == 1 ==> s.columns_without(c, row).len() == s.columns.len() - 1,
        s.columns[c].windows.len() > 1 ==> s.columns_without(c, row).len() == s.columns.len(),
{
    broadcast use vstd::seq_lib::group_to_multiset_ensures;

    let w = s.columns[c].windows[row];
    let rest = s.columns[c].without_row(row);
    let after = s.columns_without(c, row);
    lemma_removed_count(s.columns[c].windows, row);
    if rest.windows.len() == 0 {
        lemma_tally_remove(s.columns, c);
        assert(rest.windows.to_multiset() =~= Multiset::empty());
        assert(tally(s.columns) =~= tally(after).insert(w));
    } else {
        lemma_tally_update(s.columns, c, rest);
        let part = rest.windows.to_multiset();
        assert(tally(after).add(part.insert(w)) == tally(s.columns).add(part));
        assert forall|v: WindowId| tally(s.columns).count(v) == tally(after).insert(w).count(v) by {
            assert(tally(after).add(part.insert(w)).count(v) == tally(s.columns).add(part).count(
                v,
            ));
        }
        assert(tally(s.columns) =~= tally(after).insert(w));
    }
}

/// Moving a window to a column keeps the windows of the strip.
pub proof fn lemma_moved_to_column(s: StripView, window: WindowId, target: int)
    requires
        0 <= target,
    ensures
        keeps_windows(s, s.moved_to_column(window, target)),
{
    broadcast use vstd::seq_lib::group_to_multiset_ensures;

    law_locate(s.columns, window);
    match s.locate(window) {
        Some((c, row)) => if c != target {
            lemma_columns_without(s, c, row);
            let columns = s.columns_without(c, row);
            let gone = s.columns[c].windows.len() == 1;
            let weight = s.columns[c].fitted().height_weights[row];
            let at = if gone && c < target {
                target - 1
            } else {
                target
            };
            let placed = if at >= columns.len() {
                columns.push(view::lone_column(window, view::ONE_BITS))
            } else {
                columns.update(at, columns[at].with_row(window, weight))
            };
            if at >= columns.len() {
                let lone = view::lone_column(window, view::ONE_BITS);
                lemma_tally_push(placed);
                assert(placed.drop_last() =~= columns);
                assert(lone.windows =~= Seq::empty().push(window));
                assert(tally(placed) =~= tally(columns).insert(window));
            } else {
                let wider = columns[at].with_row(window, weight);
                let part = columns[at].windows.to_multiset();
                lemma_tally_update(columns, at, wider);
                assert(wider.windows.to_multiset() == part.insert(window));
                assert forall|v: WindowId| tally(placed).count(v) == tally(columns).insert(
                    window,
                ).count(v) by {
                    assert(tally(placed).add(part).count(v) == tally(columns).add(
                        part.insert(window),
                    ).count(v));
                }
                assert(tally(placed) =~= tally(columns).insert(window));
            }
            let t = StripView { columns: placed, selected: Some(window), ..s };
            lemma_reordered_selecting(s, t, window);
            lemma_scrolled(t, t.aligning());
        },
        None => {},
    }
}

pub proof fn lemma_all_moved_to_column(s: StripView, windows: Seq<WindowId>, target: int)
    requires
        0 <= target,
    ensures
        keeps_windows(s, s.all_moved_to_column(windows, target)),
    decreases windows.len(),
{
    if windows.len() > 0 {
        let t = s.all_moved_to_column(windows.drop_last(), target);
        lemma_all_moved_to_column(s, windows.drop_last(), target);
        lemma_moved_to_column(t, windows.last(), target);
    }
}

/// A window of a shared column gets a column of its own.
proof fn lemma_extracted(s: StripView, c: int, row: int, at: int)
    requires
        0 <= c < s.columns.len(),
        0 <= row < s.columns[c].windows.len(),
        s.columns[c].windows.len() > 1,
        0 <= at <= s.columns.len(),
    ensures
        keeps_windows(s, s.extracted(c, row, at)),
{
    broadcast use vstd::seq_lib::group_to_multiset_ensures;

    let w = s.columns[c].windows[row];
    let weight = s.columns[c].fitted().height_weights[row];
    let lone = view::lone_column(w, weight);
    lemma_columns_without(s, c, row);
    let columns = s.columns_without(c, row);
    lemma_tally_insert(columns, at, lone);
    assert(lone.windows =~= Seq::empty().push(w));
    assert(tally(columns.insert(at, lone)) =~= tally(s.columns));
    assert(s.columns[c].windows.contains(w));
    lemma_flattened_contains(s.columns, w);
    lemma_reordered_selecting(s, s.extracted(c, row, at), w);
}

/// Moving the selection keeps the windows of the strip.
pub proof fn law_move_keeps_windows(s: StripView, direction: Direction, niri: bool)
    ensures
        keeps_windows(s, s.selection_moved(direction, niri)),
{
    if s.can_shift(direction) {
        law_locate(s.columns, s.selected->0);
        let (c, row) = s.selected_location()->0;
        let t = s.shifted(direction);
        match direction {
            Direction::Up => {
                systems::lemma_exchanged(s.columns[c].windows, row, row - 1);
                lemma_tally_same(s.columns, c, s.columns[c].with_rows_swapped(row, row - 1));
                lemma_reordered(s, t);
            },
            Direction::Down => {
                systems::lemma_exchanged(s.columns[c].windows, row, row + 1);
                lemma_tally_same(s.columns, c, s.columns[c].with_rows_swapped(row, row + 1));
                lemma_reordered(s, t);
            },
            Direction::Left => if s.columns[c].windows.len() > 1 {
                lemma_extracted(s, c, row, c);
            } else {
                lemma_columns_swapped(s.columns, c, c - 1);
                lemma_reordered(s, t);
            },
            Direction::Right => if s.columns[c].windows.len() > 1 {
                lemma_extracted(s, c, row, c + 1);
            } else {
                lemma_columns_swapped(s.columns, c, c + 1);
                lemma_reordered(s, t);
            },
        }
        lemma_scrolled(t, t.following(niri));
    }
}

proof fn lemma_columns_swapped(columns: Seq<ColumnView>, i: int, j: int)
    requires
        0 <= i < columns.len(),
        0 <= j < columns.len(),
    ensures
        tally(view::swapped(columns, i, j)) == tally(columns),
{
    let once = columns.update(i, columns[j]);
    let twice = view::swapped(columns, i, j);
    lemma_tally_update(columns, i, columns[j]);
    lemma_tally_update(once, j, columns[i]);
    if i == j {
        assert(twice =~= columns);
    } else {
        let a = columns[i].windows.to_multiset();
        let b = columns[j].windows.to_multiset();
        assert forall|v: WindowId| tally(twice).count(v) == tally(columns).count(v) by {
            assert(tally(once).add(a).count(v) == tally(columns).add(b).count(v));
            assert(tally(twice).add(b).count(v) == tally(once).add(a).count(v));
        }
        assert(tally(twice) =~= tally(columns));
    }
}

/// Joining the selection with a neighbouring column keeps the windows of the strip.
pub proof fn law_join_keeps_windows(s: StripView, direction: Direction)
    ensures
        keeps_windows(s, s.joined(direction)),
{
    match s.selected_location() {
        Some((c, row)) => {
            law_locate(s.columns, s.selected->0);
            if c > 0 {
                lemma_moved_to_column(s, s.selected->0, c - 1);
            }
            lemma_moved_to_column(s, s.selected->0, c + 1);
        },
        None => {},
    }
}

/// Consuming or expelling keeps the windows of the strip.
pub proof fn law_consume_keeps_windows(s: StripView, direction: Direction, niri: bool)
    ensures
        keeps_windows(s, s.consumed_or_expelled(direction, niri)),
        keeps_windows(s, s.unjoined(niri)),
{
    law_join_keeps_windows(s, direction);
    if s.selection_is_joined() {
        law_locate(s.columns, s.selected->0);
        let (c, row) = s.selected_location()->0;
        lemma_extracted(s, c, row, c);
        lemma_extracted(s, c, row, c + 1);
        let t = s.extracted(c, row, c);
        lemma_scrolled(t, t.following(niri).settled());
        let u = s.extracted(c, row, c + 1);
        lemma_scrolled(u, u.following(niri).settled());
    }
}

proof fn lemma_tally_concat(a: Seq<ColumnView>, b: Seq<ColumnView>)
    ensures
        tally(a + b) == tally(a).add(tally(b)),
    decreases b.len(),
{
    broadcast use vstd::seq_lib::group_to_multiset_ensures;

    if b.len() == 0 {
        assert(a + b =~= a);
        assert(tally(a).add(tally(b)) =~= tally(a));
    } else {
        let front = b.drop_last();
        lemma_tally_concat(a, front);
        assert((a + b).drop_last() =~= a + front);
        lemma_tally_push(a + b);
        lemma_tally_push(b);
        let last = b.last().windows.to_multiset();
        assert(tally(a).add(tally(front)).add(last) =~= tally(a).add(tally(front).add(last)));
    }
}

/// Columns with one window each.
proof fn lemma_tally_lone(columns: Seq<ColumnView>, windows: Seq<WindowId>)
    requires
        columns.len() == windows.len(),
        forall|i: int| 0 <= i < columns.len() ==> (#[trigger] columns[i]).windows == seq![windows[i]],
    ensures
        tally(columns) == windows.to_multiset(),
    decreases columns.len(),
{
    broadcast use vstd::seq_lib::group_to_multiset_ensures;

    if columns.len() > 0 {
        let front = columns.drop_last();
        let rest = windows.drop_last();
        assert forall|i: int| 0 <= i < front.len() implies (#[trigger] front[i]).windows
            == seq![rest[i]] by {
            assert(front[i] == columns[i]);
        }
        lemma_tally_lone(front, rest);
        lemma_tally_push(columns);
        assert(columns[columns.len() - 1].windows == seq![windows.last()]);
        assert(rest.push(windows.last()) =~= windows);
        assert(seq![windows.last()] =~= Seq::empty().push(windows.last()));
        assert(tally(columns) =~= windows.to_multiset());
    } else {
        assert(view::flattened(columns) =~= windows);
    }
}

/// A list and what two opposite filters keep of it.
proof fn lemma_parted(
    list: Seq<WindowId>,
    keep: spec_fn(WindowId) -> bool,
    other: spec_fn(WindowId) -> bool,
)
    requires
        forall|w: WindowId| #[trigger] other(w) == !keep(w),
    ensures
        list.filter(keep).to_multiset().add(list.filter(other).to_multiset())
            == list.to_multiset(),
    decreases list.len(),
{
    broadcast use vstd::seq_lib::group_to_multiset_ensures;

    reveal(Seq::filter);
    if list.len() > 0 {
        let front = list.drop_last();
        let w = list.last();
        lemma_parted(front, keep, other);
        assert(front.push(w) =~= list);
        let a = front.filter(keep).to_multiset();
        let b = front.filter(other).to_multiset();
        if keep(w) {
            assert(list.filter(keep) == front.filter(keep).push(w));
            assert(list.filter(other) == front.filter(other));
            assert(a.insert(w).add(b) =~= a.add(b).insert(w));
        } else {
            assert(other(w));
            assert(list.filter(keep) == front.filter(keep));
            assert(list.filter(other) == front.filter(other).push(w));
            assert(a.add(b.insert(w)) =~= a.add(b).insert(w));
        }
    } else {
        assert(list.filter(keep) =~= list);
        assert(list.filter(other) =~= list);
        assert(list.to_multiset().add(list.to_multiset()) =~= list.to_multiset());
    }
}

/// Stacking the next column keeps the windows of the strip.
pub proof fn law_stack_keeps_windows(s: StripView)
    ensures
        keeps_windows(s, s.stacked()),
{
    match s.selected_location() {
        Some((c, _)) => {
            law_locate(s.columns, s.selected->0);
            lemma_all_moved_to_column(s, s.stacking_moves(), c);
        },
        None => {},
    }
}

/// Unstacking the selected column keeps the windows of the strip.
pub proof fn law_unstack_keeps_windows(s: StripView)
    ensures
        keeps_windows(s, s.unstacked()),
{
    broadcast use vstd::seq_lib::group_to_multiset_ensures;

    if s.selection_is_joined() {
        law_locate(s.columns, s.selected->0);
        let (c, row) = s.selected_location()->0;
        let column = s.columns[c];
        let chosen = column.windows[row];
        let moved = s.unstacking_moves();
        let same = |w: WindowId| w == chosen;
        let differs = |w: WindowId| w != chosen;
        let weights = StripView::weights_of(column, chosen, false, column.windows.len() as int);
        let t = s.unstacked();
        let kept = t.columns[c];
        let lones = Seq::new(moved.len(), |i: int| view::lone_column(moved[i], weights[i]));
        let front = s.columns.take(c);
        let back = s.columns.skip(c + 1);
        assert(t.columns == front + seq![kept] + lones + back);
        lemma_tally_concat(front + seq![kept] + lones, back);
        lemma_tally_concat(front + seq![kept], lones);
        lemma_tally_concat(front, seq![kept]);
        lemma_tally_lone(lones, moved);
        lemma_parted(column.windows, same, differs);
        assert(seq![kept].drop_last() =~= Seq::empty());
        lemma_tally_push(seq![kept]);
        assert(tally(Seq::<ColumnView>::empty()) =~= Multiset::empty());
        assert(tally(seq![kept]) =~= kept.windows.to_multiset());
        assert(s.columns =~= front + seq![column] + back);
        lemma_tally_concat(front + seq![column], back);
        lemma_tally_concat(front, seq![column]);
        assert(seq![column].drop_last() =~= Seq::empty());
        lemma_tally_push(seq![column]);
        assert(tally(seq![column]) =~= column.windows.to_multiset());
        assert(tally(t.columns) =~= tally(s.columns));
        assert(kept.windows == column.windows.filter(same));
        assert(column.windows.filter(same).contains(chosen)) by {
            broadcast use vstd::seq_lib::group_filter_ensures;

            assert(same(column.windows[row]));
        }
        if tidy(s) {
            assert forall|k: int| 0 <= k < t.columns.len() implies (
            #[trigger] t.columns[k]).windows.len() > 0 by {
                if k < c {
                    assert(t.columns[k] == s.columns[k]);
                } else if k > c + moved.len() {
                    assert(t.columns[k] == s.columns[k - moved.len()]);
                } else if k > c {
                    assert(t.columns[k] == lones[k - c - 1]);
                }
            }
        }
        lemma_reordered(s, t);
    }
}

/// The strip with a window more, which is selected.
pub open spec fn gained(s: StripView, t: StripView, window: WindowId) -> bool {
    &&& t.all_windows().to_multiset() == s.all_windows().to_multiset().insert(window)
    &&& t.selected == Some(window)
    &&& tidy(s) ==> tidy(t)
}

proof fn lemma_column_added(s: StripView, at: int, window: WindowId, t: StripView)
    requires
        0 <= at <= s.columns.len(),
        t.columns == s.columns.insert(at, view::lone_column(window, view::ONE_BITS)),
        t.selected == Some(window),
    ensures
        gained(s, t, window),
{
    broadcast use vstd::seq_lib::group_to_multiset_ensures;

    let lone = view::lone_column(window, view::ONE_BITS);
    lemma_tally_insert(s.columns, at, lone);
    assert(lone.windows =~= Seq::empty().push(window));
    assert(tally(t.columns) =~= tally(s.columns).insert(window));
    assert(t.all_windows().to_multiset().count(window) > 0);
    assert(t.all_windows().contains(window));
    if tidy(s) {
        assert forall|c: int| 0 <= c < t.columns.len() implies (
        #[trigger] t.columns[c]).windows.len() > 0 by {
            if c < at {
                assert(t.columns[c] == s.columns[c]);
            } else if c > at {
                assert(t.columns[c] == s.columns[c - 1]);
            }
        }
    }
}

/// Adding a window to a strip adds it once and selects it.
pub proof fn law_window_added(
    s: StripView,
    window: WindowId,
    point: WindowInsertionPoint,
    niri: bool,
)
    ensures
        gained(s, s.window_added(window, point), window),
        gained(s, s.entered(window, point, niri), window),
        gained(s, s.received(window, niri), window),
{
    let n = s.columns.len() as int;
    lemma_column_added(s, n, window, s.column_added_at_end(window));
    if s.selected_location() is Some {
        law_locate(s.columns, s.selected->0);
        let c = (s.selected_location()->0).0;
        let at = if c + 1 < n { c + 1 } else { n };
        lemma_column_added(s, at, window, s.column_added_after(c, window));
    }
    if n > 0 {
        let at = if 1 < n { 1 } else { n };
        lemma_column_added(s, at, window, s.column_added_after(0, window));
    }
}

/// The strip with one occurrence of a window less.
pub open spec fn lost(s: StripView, t: StripView, window: WindowId) -> bool {
    &&& t.all_windows().to_multiset() == s.all_windows().to_multiset().remove(window)
    &&& tidy(s) ==> tidy(t)
}

/// Removing a window from a strip takes one occurrence of it away and nothing
/// else. If it was selected, a window that is left is selected.
pub proof fn law_window_removed(s: StripView, window: WindowId)
    ensures
        lost(s, s.removed(window), window),
        !s.all_windows().contains(window) ==> s.removed(window) == s,
{
    broadcast use vstd::seq_lib::group_to_multiset_ensures;

    law_locate(s.columns, window);
    match s.locate(window) {
        Some((c, row)) => {
            lemma_columns_without(s, c, row);
            let columns = s.columns_without(c, row);
            let t = s.removed(window);
            assert(t.columns == columns);
            assert(tally(columns) =~= tally(s.columns).remove(window));
            if tidy(s) {
                assert forall|k: int| 0 <= k < columns.len() implies (
                #[trigger] columns[k]).windows.len() > 0 by {}
                if s.selected == Some(window) {
                    assert(t.selected == StripView::heir(columns, c, row));
                    lemma_heir(columns, c, row);
                } else {
                    let w = s.selected->0;
                    assert(s.all_windows().to_multiset().count(w) > 0);
                    assert(t.all_windows().to_multiset().count(w) > 0);
                    assert(t.all_windows().contains(w));
                    lemma_flattened_contains(columns, w);
                }
            }
        },
        None => {
            assert(s.all_windows().to_multiset().count(window) == 0);
            assert(s.all_windows().to_multiset() =~= s.all_windows().to_multiset().remove(window));
        },
    }
}

/// The next selection is a window that is left, if any is.
proof fn lemma_heir(columns: Seq<ColumnView>, c: int, row: int)
    requires
        0 <= c,
        0 <= row,
        forall|k: int| 0 <= k < columns.len() ==> (#[trigger] columns[k]).windows.len() > 0,
    ensures
        StripView::heir(columns, c, row) is Some <==> columns.len() > 0,
        StripView::heir(columns, c, row) is Some ==> view::flattened(columns).contains(
            StripView::heir(columns, c, row)->0,
        ),
{
    if columns.len() > 0 {
        assert(columns[0].windows.len() > 0);
        let w = StripView::heir(columns, c, row)->0;
        let k = if c < columns.len() {
            c
        } else if c - 1 < columns.len() {
            c - 1
        } else {
            0
        };
        let list = columns[k].windows;
        assert(list.len() > 0);
        assert(list.contains(w)) by {
            let i = if c < columns.len() {
                if row < list.len() {
                    row
                } else {
                    list.len() - 1
                }
            } else if c - 1 < columns.len() {
                list.len() - 1
            } else {
                0
            };
            assert(list[i] == w);
        }
        lemma_flattened_contains(columns, w);
    }
}

/// Removing windows one after the other.
pub proof fn lemma_all_removed(s: StripView, windows: Seq<WindowId>)
    requires
        forall|w: WindowId| #[trigger]
            windows.to_multiset().count(w) <= s.all_windows().to_multiset().count(w),
    ensures
        s.all_removed(windows).all_windows().to_multiset().add(windows.to_multiset())
            == s.all_windows().to_multiset(),
        tidy(s) ==> tidy(s.all_removed(windows)),
    decreases windows.len(),
{
    broadcast use vstd::seq_lib::group_to_multiset_ensures;

    if windows.len() == 0 {
        assert(s.all_windows().to_multiset().add(windows.to_multiset())
            =~= s.all_windows().to_multiset());
    } else {
        let front = windows.drop_last();
        let w = windows.last();
        assert(front.push(w) =~= windows);
        assert forall|v: WindowId| #[trigger]
            front.to_multiset().count(v) <= s.all_windows().to_multiset().count(v) by {
            assert(windows.to_multiset().count(v) <= s.all_windows().to_multiset().count(v));
        }
        lemma_all_removed(s, front);
        let t = s.all_removed(front);
        law_window_removed(t, w);
        let u = t.removed(w);
        assert forall|v: WindowId| u.all_windows().to_multiset().add(
            windows.to_multiset(),
        ).count(v) == s.all_windows().to_multiset().count(v) by {
            assert(t.all_windows().to_multiset().add(front.to_multiset()).count(v)
                == s.all_windows().to_multiset().count(v));
            assert(windows.to_multiset().count(v) <= s.all_windows().to_multiset().count(v));
        }
        assert(u.all_windows().to_multiset().add(windows.to_multiset())
            =~= s.all_windows().to_multiset());
    }
}

/// Adding windows one after the other.
pub proof fn lemma_all_added(s: StripView, windows: Seq<WindowId>, point: WindowInsertionPoint)
    ensures
        s.windows_added(windows, point).all_windows().to_multiset()
            == s.all_windows().to_multiset().add(windows.to_multiset()),
        tidy(s) ==> tidy(s.windows_added(windows, point)),
    decreases windows.len(),
{
    broadcast use vstd::seq_lib::group_to_multiset_ensures;

    if windows.len() == 0 {
        assert(s.all_windows().to_multiset().add(windows.to_multiset())
            =~= s.all_windows().to_multiset());
    } else {
        let front = windows.drop_last();
        let w = windows.last();
        assert(front.push(w) =~= windows);
        lemma_all_added(s, front, point);
        let t = s.windows_added(front, point);
        law_window_added(t, w, point, false);
        assert(t.window_added(w, point).all_windows().to_multiset()
            =~= s.all_windows().to_multiset().add(windows.to_multiset()));
    }
}

/// Removing the windows of a process takes all of them away and nothing else.
pub proof fn law_app_removed(s: StripView, pid: Pid)
    ensures
        s.app_removed(pid).all_windows().to_multiset() == s.all_windows().filter(
            |w: WindowId| w.pid != pid,
        ).to_multiset(),
        tidy(s) ==> tidy(s.app_removed(pid)),
{
    broadcast use vstd::seq_lib::group_to_multiset_ensures;

    let all = s.all_windows();
    let own = |w: WindowId| w.pid == pid;
    let foreign = |w: WindowId| w.pid != pid;
    lemma_parted(all, own, foreign);
    let gone = s.app_windows(pid);
    assert(gone == all.filter(own));
    assert forall|w: WindowId| #[trigger]
        gone.to_multiset().count(w) <= all.to_multiset().count(w) by {
        assert(gone.to_multiset().add(all.filter(foreign).to_multiset()).count(w)
            == all.to_multiset().count(w));
    }
    lemma_all_removed(s, gone);
    let left = s.app_removed(pid).all_windows().to_multiset();
    assert forall|w: WindowId| left.count(w) == all.filter(foreign).to_multiset().count(w) by {
        assert(gone.to_multiset().add(all.filter(foreign).to_multiset()).count(w)
            == all.to_multiset().count(w));
        assert(left.add(gone.to_multiset()).count(w) == all.to_multiset().count(w));
    }
    assert(left =~= all.filter(foreign).to_multiset());
}

/// After the windows of a process were set, a strip holds exactly the wanted
/// windows of the process, and the windows of other processes as before.
pub proof fn law_windows_set(
    s: StripView,
    pid: Pid,
    desired: Seq<WindowId>,
    point: WindowInsertionPoint,
    niri: bool,
)
    ensures
        ({
            let t = s.app_set(pid, desired, point, niri);
            &&& tidy(s) ==> tidy(t)
            &&& forall|w: WindowId|
                w.pid == pid ==> (#[trigger] t.all_windows().contains(w) <==> desired.contains(w))
            &&& forall|w: WindowId|
                w.pid != pid ==> #[trigger] t.all_windows().to_multiset().count(w)
                    == s.all_windows().to_multiset().count(w)
        }),
{
    broadcast use vstd::seq_lib::group_to_multiset_ensures;

    let all = s.all_windows();
    let own = |w: WindowId| w.pid == pid;
    let unwanted = |w: WindowId| !desired.contains(w);
    let current = s.app_windows(pid);
    let gone = systems::missing_from(current, desired);
    let added = systems::newcomers(pid, current, desired);
    assert forall|w: WindowId| #[trigger]
        gone.to_multiset().count(w) == (if w.pid == pid && !desired.contains(w) {
            all.to_multiset().count(w)
        } else {
            0
        }) by {
        systems::lemma_filter_count(all, own, w);
        systems::lemma_filter_count(current, unwanted, w);
    }
    lemma_all_removed(s, gone);
    let m = s.all_removed(gone);
    lemma_all_added(m, added, point);
    let u = m.windows_added(added, point);
    let t = s.app_set(pid, desired, point, niri);
    lemma_scrolled(u, u.revealing(view::REVEAL_NEUTRAL));
    assert(t.all_windows() == u.all_windows());
    assert forall|w: WindowId| #[trigger]
        u.all_windows().to_multiset().count(w) + gone.to_multiset().count(w)
            == all.to_multiset().count(w) + added.to_multiset().count(w) by {
        assert(m.all_windows().to_multiset().add(gone.to_multiset()).count(w)
            == all.to_multiset().count(w));
        assert(u.all_windows().to_multiset().count(w) == m.all_windows().to_multiset().add(
            added.to_multiset(),
        ).count(w));
    }
    assert forall|w: WindowId| w.pid == pid implies (#[trigger] t.all_windows().contains(w)
        <==> desired.contains(w)) by {
        systems::lemma_newcomers(pid, current, desired, w);
        systems::lemma_filter_count(all, own, w);
        assert(u.all_windows().to_multiset().count(w) + gone.to_multiset().count(w)
            == all.to_multiset().count(w) + added.to_multiset().count(w));
    }
    assert forall|w: WindowId| w.pid != pid implies #[trigger] t.all_windows().to_multiset().count(
        w,
    ) == s.all_windows().to_multiset().count(w) by {
        systems::lemma_newcomers(pid, current, desired, w);
        assert(u.all_windows().to_multiset().count(w) + gone.to_multiset().count(w)
            == all.to_multiset().count(w) + added.to_multiset().count(w));
    }
}

/// Exchanging two windows keeps the windows of the strip.
pub proof fn law_swap_keeps_windows(s: StripView, a: WindowId, b: WindowId)
    ensures
        keeps_windows(s, s.with_swapped(a, b)),
{
    law_locate(s.columns, a);
    law_locate(s.columns, b);
    if s.can_swap(a, b) {
        let (ac, ar) = s.locate(a)->0;
        let (bc, br) = s.locate(b)->0;
        let t = s.with_swapped(a, b);
        if ac == bc {
            systems::lemma_exchanged(s.columns[ac].windows, ar, br);
            lemma_tally_same(s.columns, ac, s.columns[ac].with_rows_swapped(ar, br));
        } else {
            let x = s.columns[ac];
            let y = s.columns[bc];
            let once = s.columns.update(ac, t.columns[ac]);
            lemma_tally_update(s.columns, ac, t.columns[ac]);
            lemma_tally_update(once, bc, t.columns[bc]);
            assert(once.update(bc, t.columns[bc]) =~= t.columns);
            systems::lemma_update_multiset(x.windows, ar, b);
            systems::lemma_update_multiset(y.windows, br, a);
            let x1 = t.columns[ac].windows.to_multiset();
            let y1 = t.columns[bc].windows.to_multiset();
            let x0 = x.windows.to_multiset();
            let y0 = y.windows.to_multiset();
            assert forall|v: WindowId| tally(t.columns).count(v) == tally(s.columns).count(v) by {
                assert(tally(once).add(x0).count(v) == tally(s.columns).add(x1).count(v));
                assert(tally(t.columns).add(y0).count(v) == tally(once).add(y1).count(v));
                assert(x1.add(Multiset::singleton(a)).count(v) == x0.add(
                    Multiset::singleton(b),
                ).count(v));
                assert(y1.add(Multiset::singleton(b)).count(v) == y0.add(
                    Multiset::singleton(a),
                ).count(v));
            }
            assert(tally(t.columns) =~= tally(s.columns));
        }
        lemma_reordered(s, t);
    }
}

/// The window that takes the place of `w` when `a` and `b` are exchanged.
pub open spec fn exchanged(a: WindowId, b: WindowId, w: WindowId) -> WindowId {
    if w == a {
        b
    } else if w == b {
        a
    } else {
        w
    }
}

/// Each window occurs once.
pub open spec fn each_once(columns: Seq<ColumnView>) -> bool {
    forall|c: int, i: int, d: int, j: int|
        0 <= c < columns.len() && 0 <= i < columns[c].windows.len() && 0 <= d < columns.len() && 0
            <= j < columns[d].windows.len() && #[trigger] columns[c].windows[i]
            == #[trigger] columns[d].windows[j] ==> c == d && i == j
}

/// Exchanging two windows of a strip in which each window occurs once puts each
/// of them where the other was and moves no other window.
pub proof fn law_swapped(s: StripView, a: WindowId, b: WindowId)
    requires
        each_once(s.columns),
        s.can_swap(a, b),
    ensures
        ({
            let t = s.with_swapped(a, b);
            &&& t.columns.len() == s.columns.len()
            &&& forall|c: int|
                0 <= c < s.columns.len() ==> (#[trigger] t.columns[c]).windows
                    == s.columns[c].windows.map_values(|w: WindowId| exchanged(a, b, w))
            &&& each_once(t.columns)
            &&& t.can_swap(a, b)
        }),
{
    law_locate(s.columns, a);
    law_locate(s.columns, b);
    let (ac, ar) = s.locate(a)->0;
    let (bc, br) = s.locate(b)->0;
    let t = s.with_swapped(a, b);
    let change = |w: WindowId| exchanged(a, b, w);
    assert forall|c: int| 0 <= c < s.columns.len() implies (#[trigger] t.columns[c]).windows
        == s.columns[c].windows.map_values(change) && t.columns[c].windows.len()
        == s.columns[c].windows.len() by {
        let before = s.columns[c].windows;
        let after = t.columns[c].windows;
        assert forall|i: int| 0 <= i < before.len() implies after[i] == change(before[i]) by {
            let w = s.columns[c].windows[i];
            if w == a {
                assert(s.columns[ac].windows[ar] == s.columns[c].windows[i]);
                assert(c == ac && i == ar);
            }
            if w == b {
                assert(s.columns[bc].windows[br] == s.columns[c].windows[i]);
                assert(c == bc && i == br);
            }
        }
        assert(after =~= before.map_values(change));
    }
    assert(each_once(t.columns)) by {
        assert forall|c: int, i: int, d: int, j: int|
            0 <= c < t.columns.len() && 0 <= i < t.columns[c].windows.len() && 0 <= d
                < t.columns.len() && 0 <= j < t.columns[d].windows.len()
                && #[trigger] t.columns[c].windows[i] == #[trigger] t.columns[d].windows[j] implies c
            == d && i == j by {
            let v = s.columns[c].windows[i];
            let w = s.columns[d].windows[j];
            assert(t.columns[c].windows[i] == change(v));
            assert(t.columns[d].windows[j] == change(w));
            assert(v == w);
        }
    }
    law_swap_keeps_windows(s, a, b);
    law_locate(t.columns, a);
    law_locate(t.columns, b);
    assert(t.all_windows().to_multiset().count(a) > 0 && t.all_windows().to_multiset().count(b)
        > 0) by {
        broadcast use vstd::seq_lib::group_to_multiset_ensures;

        assert(s.all_windows().contains(a) && s.all_windows().contains(b));
    }
    assert(t.all_windows().contains(a) && t.all_windows().contains(b)) by {
        broadcast use vstd::seq_lib::group_to_multiset_ensures;

    }
}

/// Exchanging two windows twice puts every window back.
pub proof fn law_swapped_back(s: StripView, a: WindowId, b: WindowId)
    requires
        each_once(s.columns),
    ensures
        ({
            let t = s.with_swapped(a, b).with_swapped(a, b);
            &&& t.columns.len() == s.columns.len()
            &&& forall|c: int|
                0 <= c < s.columns.len() ==> (#[trigger] t.columns[c]).windows
                    == s.columns[c].windows
        }),
{
    if s.can_swap(a, b) {
        let once = s.with_swapped(a, b);
        law_swapped(s, a, b);
        law_swapped(once, a, b);
        let t = once.with_swapped(a, b);
        assert forall|c: int| 0 <= c < s.columns.len() implies (#[trigger] t.columns[c]).windows
            == s.columns[c].windows by {
            assert(once.columns[c].windows == s.columns[c].windows.map_values(
                |w: WindowId| exchanged(a, b, w),
            ));
            assert(t.columns[c].windows =~= s.columns[c].windows);
        }
    }
}

/// Replacing a window puts the new one wherever the old one was.
pub proof fn law_replaced(s: StripView, from: WindowId, to: WindowId)
    ensures
        s.with_replaced(from, to).all_windows() == s.all_windows().map_values(
            |w: WindowId|
                if w == from {
                    to
                } else {
                    w
                },
        ),
        tidy(s) ==> tidy(s.with_replaced(from, to)),
{
    let t = s.with_replaced(from, to);
    lemma_flattened_renamed(s.columns, from, to);
    if tidy(s) {
        assert forall|c: int| 0 <= c < t.columns.len() implies (
        #[trigger] t.columns[c]).windows.len() > 0 by {
            assert(s.columns[c].windows.len() > 0);
        }
        if s.selected is Some {
            let w = s.selected->0;
            let all = s.all_windows();
            let i = choose|i: int| 0 <= i < all.len() && all[i] == w;
            assert(t.all_windows()[i] == t.selected->0);
        }
    }
}

proof fn lemma_flattened_renamed(columns: Seq<ColumnView>, from: WindowId, to: WindowId)
    ensures
        view::flattened(columns.map_values(|c: ColumnView| c.renamed(from, to)))
            == view::flattened(columns).map_values(
            |w: WindowId|
                if w == from {
                    to
                } else {
                    w
                },
        ),
    decreases columns.len(),
{
    let rename = |c: ColumnView| c.renamed(from, to);
    let change = |w: WindowId|
        if w == from {
            to
        } else {
            w
        };
    let after = columns.map_values(rename);
    if columns.len() > 0 {
        let front = columns.drop_last();
        lemma_flattened_renamed(front, from, to);
        assert(after.drop_last() =~= front.map_values(rename));
        let a = view::flattened(front);
        let b = columns.last().windows;
        assert((a + b).map_values(change) =~= a.map_values(change) + b.map_values(change));
    } else {
        assert(view::flattened(after) =~= view::flattened(columns).map_values(change));
    }
}

/// Selecting a window of the strip makes it the selection and moves no window.
pub proof fn law_window_selected(s: StripView, window: WindowId, niri: bool)
    requires
        s.all_windows().contains(window),
    ensures
        s.window_selected(window, niri).selected == Some(window),
        keeps_windows(s, s.window_selected(window, niri)),
{
    law_locate(s.columns, window);
    lemma_flattened_contains(s.columns, window);
}

/// Moving the focus selects a window of the strip and moves no window.
pub proof fn law_focus_keeps_windows(s: StripView, direction: Direction, niri: bool)
    ensures
        s.focus_moved(direction, niri).columns == s.columns,
        keeps_windows(s, s.focus_moved(direction, niri)),
        s.neighbour(direction) is Some ==> s.focus_moved(direction, niri).selected == s.neighbour(
            direction,
        ),
{
    let t = s.focus_moved(direction, niri);
    if s.neighbour(direction) is Some {
        let w = s.neighbour(direction)->0;
        law_locate(s.columns, s.selected->0);
        let (c, row) = s.selected_location()->0;
        let (d, i) = match direction {
            Direction::Up => (c, row - 1),
            Direction::Down => (c, row + 1),
            Direction::Left => (
                c - 1,
                if row < s.columns[c - 1].windows.len() {
                    row
                } else {
                    s.columns[c - 1].windows.len() - 1
                },
            ),
            Direction::Right => (
                c + 1,
                if row < s.columns[c + 1].windows.len() {
                    row
                } else {
                    s.columns[c + 1].windows.len() - 1
                },
            ),
        };
        assert(s.columns[d].windows[i] == w);
        assert(s.columns[d].windows.contains(w));
        lemma_flattened_contains(s.columns, w);
    }
}

/// A window that enters the strip is the selection.
pub proof fn law_entered_window_is_selected(
    s: StripView,
    window: WindowId,
    point: WindowInsertionPoint,
    niri: bool,
)
    ensures
        s.window_added(window, point).selected == Some(window),
        s.entered(window, point, niri).selected == Some(window),
        s.received(window, niri).selected == Some(window),
{
}

/// A selection that moves, joins or leaves a column stays the selection, and so
/// it does when its column is unstacked.
pub proof fn law_moved_window_stays_selected(s: StripView, direction: Direction, niri: bool)
    ensures
        s.selection_moved(direction, niri).selected == s.selected,
        s.joined(direction).selected == s.selected,
        s.consumed_or_expelled(direction, niri).selected == s.selected,
        s.unjoined(niri).selected == s.selected,
        s.unstacked().selected == s.selected,
{
    if s.selected is Some {
        law_locate(s.columns, s.selected->0);
    }
}

/// Snapping selects a window of the column that the strip snaps to.
pub proof fn law_snap_keeps_windows(s: StripView, c: int, offset: u64)
    requires
        0 <= c < s.columns.len(),
    ensures
        keeps_windows(s, s.snapped(c, offset)),
        s.snapped(c, offset).columns == s.columns,
        s.columns[c].windows.len() > 0 ==> s.snapped(c, offset).selected is Some
            && s.columns[c].windows.contains(s.snapped(c, offset).selected->0),
{
    let t = s.snapped(c, offset);
    if s.columns[c].windows.len() > 0 {
        if s.selected_location() is Some {
            law_locate(s.columns, s.selected->0);
        }
        let row = match s.selected_location() {
            Some((_, r)) => r,
            None => 0,
        };
        let i = if row < s.columns[c].windows.len() {
            row
        } else {
            s.columns[c].windows.len() - 1
        };
        assert(s.columns[c].windows[i] == t.selected->0);
        lemma_flattened_contains(s.columns, t.selected->0);
    }
}

/// The node of a window is odd, that of a column that a window started is even
/// unless the process number is negative, and different windows have different
/// nodes unless they differ in the sign of the process number alone.
pub proof fn law_nodes(a: WindowId, b: WindowId)
    ensures
        view::window_node(a) & 1 == 1,
        0 <= a.pid ==> view::column_node(a) & 1 == 0,
        0 <= a.pid && 0 <= b.pid && view::window_node(a) == view::window_node(b) ==> a == b,
        view::column_node(a) == view::column_node(b) ==> a == b,
{
    let x = view::packed(a);
    let y = view::packed(b);
    lemma_packed(a);
    lemma_packed(b);
    assert((((x << 1) | (x >> 63)) | 1) & 1 == 1) by (bit_vector);
    assert(x < 0x8000000000000000 ==> ((x << 1) | (x >> 63)) & 1 == 0) by (bit_vector);
    assert(x < 0x8000000000000000 && y < 0x8000000000000000 && (((x << 1) | (x >> 63)) | 1) == (((y
        << 1) | (y >> 63)) | 1) ==> x == y) by (bit_vector);
    assert(((x << 1) | (x >> 63)) == ((y << 1) | (y >> 63)) ==> x == y) by (bit_vector);
    if x == y {
        lemma_packed_apart(a, b);
    }
}

proof fn lemma_packed(w: WindowId)
    ensures
        0 <= w.pid ==> view::packed(w) < 0x8000000000000000,
{
    let p = w.pid;
    let i = w.idx;
    assert(0 <= p ==> (((p as u32 as u64) << 32) | (i as u64)) < 0x8000000000000000) by (bit_vector);
}

proof fn lemma_packed_apart(a: WindowId, b: WindowId)
    requires
        view::packed(a) == view::packed(b),
    ensures
        a == b,
{
    let p = a.pid;
    let i = a.idx;
    let q = b.pid;
    let j = b.idx;
    assert((((p as u32 as u64) << 32) | (i as u64)) == (((q as u32 as u64) << 32) | (j as u64))
        ==> p == q && i == j) by (bit_vector);
}

} // verus!
