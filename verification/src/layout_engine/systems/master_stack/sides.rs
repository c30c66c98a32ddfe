//! On which side the areas lie, and which way windows go between them.

use vstd::prelude::*;

use crate::actor::{LayoutId, WindowId};
use crate::common::config::MasterStackSide;
use crate::layout_engine::systems::master_stack::focus;
use crate::layout_engine::systems::master_stack::laws;
use crate::layout_engine::systems::master_stack::view;
use crate::layout_engine::systems::master_stack::view::MasterView;
use crate::layout_engine::{Direction, LayoutKind, Orientation};
use crate::model::tree::proofs;
use crate::model::tree::view::NodeId;

verus! {

/// The way from the stack to the master area.
pub open spec fn towards(side: MasterStackSide) -> Direction {
    match side {
        MasterStackSide::Left => Direction::Left,
        MasterStackSide::Right => Direction::Right,
        MasterStackSide::Top => Direction::Up,
        MasterStackSide::Bottom => Direction::Down,
    }
}

/// The way from the master area to the stack.
pub open spec fn away(side: MasterStackSide) -> Direction {
    match side {
        MasterStackSide::Left => Direction::Right,
        MasterStackSide::Right => Direction::Left,
        MasterStackSide::Top => Direction::Down,
        MasterStackSide::Bottom => Direction::Up,
    }
}

/// Areas on the left and at the top come first.
pub open spec fn comes_first(side: MasterStackSide) -> bool {
    side is Left || side is Top
}

/// The axis that a direction follows.
pub open spec fn follows(direction: Direction) -> Orientation {
    if direction is Left || direction is Right {
        Orientation::Horizontal
    } else {
        Orientation::Vertical
    }
}

/// The axis along which an area lays out its windows: the one that the settings name,
/// else across the side that the master area lies on.
pub open spec fn arranged(s: MasterView, master: bool) -> Orientation {
    let named = if master {
        s.settings.master_arrangement
    } else {
        s.settings.stack_arrangement
    };
    match named {
        Some(axis) => axis,
        None => if s.settings.master_side is Left || s.settings.master_side is Right {
            Orientation::Vertical
        } else {
            Orientation::Horizontal
        },
    }
}

/// The master area, or the stack: a child of the root.
pub open spec fn area(s: MasterView, layout: LayoutId, master: bool) -> NodeId {
    s.forest().children(s.inner.root(layout))[if master == comes_first(s.settings.master_side) {
        0
    } else {
        1
    }]
}

/// The windows of the master area, or of the stack.
pub open spec fn held(s: MasterView, layout: LayoutId, master: bool) -> Seq<WindowId> {
    s.forest().windows_under(area(s, layout, master))
}

/// The layout has its two areas, and the master area holds as many windows as the
/// settings ask for, or all there are. No window occurs twice.
pub open spec fn in_shape(s: MasterView, layout: LayoutId) -> bool {
    let total = held(s, layout, true).len() + held(s, layout, false).len();
    &&& s.settings.master_count > 0
    &&& s.valid(layout)
    &&& held(s, layout, true).len() == (if total < s.settings.master_count {
        total as int
    } else {
        s.settings.master_count as int
    })
    &&& (held(s, layout, true) + held(s, layout, false)).no_duplicates()
}

pub proof fn lemma_areas(s: MasterView, layout: LayoutId)
    requires
        s.valid(layout),
    ensures
        s.areas(layout, s.master_first()) == Some(
            (area(s, layout, true), area(s, layout, false)),
        ),
        s.listing(layout) == held(s, layout, true) + held(s, layout, false),
{
}

proof fn lemma_place(list: Seq<WindowId>, i: int)
    requires
        0 <= i < list.len(),
        list.no_duplicates(),
    ensures
        view::place_of(list, list[i], 0) == i,
{
    laws::lemma_place_of(list, list[i], 0);
    assert(list.skip(0) =~= list);
    assert(list.contains(list[i]));
    laws::lemma_placed(list, list[i], 0);
}

/// What a layout in shape is before a move: its areas are in place, and hold what they
/// held.
pub proof fn lemma_before(s: MasterView, layout: LayoutId)
    requires
        s.inner.wf(),
        s.inner.has(layout),
        in_shape(s, layout),
        s.forest().minted + laws::room(s, layout) <= u64::MAX,
    ensures
        ({
            let v = s.ensured(layout).0;
            &&& v.settings == s.settings
            &&& v.inner.wf()
            &&& v.inner.has(layout)
            &&& v.listing(layout) == held(s, layout, true) + held(s, layout, false)
            &&& v.forest().minted <= s.forest().minted + laws::room(s, layout)
            &&& v.inner.all_windows(layout).len() == s.inner.all_windows(layout).len()
            &&& v.inner.selected_window(layout) == s.inner.selected_window(layout)
            &&& held(v, layout, true) == held(s, layout, true)
            &&& held(v, layout, false) == held(s, layout, false)
        }),
{
    broadcast use vstd::seq_lib::group_to_multiset_ensures;

    lemma_areas(s, layout);
    reveal(MasterView::ensured);
    focus::lemma_redressed(s, layout, area(s, layout, true), area(s, layout, false));
    laws::law_ensured(s, layout);
    laws::law_ensured_keeps_order(s, layout);
    let v = s.ensured(layout).0;
    assert(v.inner.all_windows(layout).to_multiset() == s.inner.all_windows(layout).to_multiset());
    assert(v.inner.all_windows(layout).to_multiset().len()
        == s.inner.all_windows(layout).to_multiset().len());
}

/// What a layout is after its windows were put in a new order.
proof fn lemma_after(v: MasterView, layout: LayoutId, order: Seq<WindowId>)
    requires
        v.inner.wf(),
        v.inner.has(layout),
        v.settings.master_count > 0,
        v.forest().minted + order.len() + 2 <= u64::MAX,
    ensures
        ({
            let t = v.rebuilt_with(layout, order);
            let m = laws::master_share(v, order.len());
            &&& t.valid(layout)
            &&& held(t, layout, true) == order.take(m)
            &&& held(t, layout, false) == order.skip(m)
        }),
{
    laws::law_rebuilt(v, layout, order);
    lemma_areas(v.rebuilt_with(layout, order), layout);
}

/// The window at place `k` of an area lies next to the other area, or the area is laid
/// out across the way between them.
pub open spec fn at_crossing(s: MasterView, layout: LayoutId, master: bool, k: int) -> bool {
    let side = s.settings.master_side;
    let way = if master {
        away(side)
    } else {
        towards(side)
    };
    ||| arranged(s, master) != follows(way)
    ||| k == (if master == comes_first(side) {
        held(s, layout, master).len() - 1
    } else {
        0
    })
}

/// A window of the stack next to the master area goes into it when it is moved towards
/// it, whichever side it lies on. A master window next to the stack goes into the stack
/// when it is moved the other way, and one of the stack takes its place; where the
/// stack is empty it stays in the master area, as the last one. Both moves are accepted.
pub proof fn law_crossing(s: MasterView, layout: LayoutId, master: bool, k: int)
    requires
        s.inner.wf(),
        s.inner.has(layout),
        in_shape(s, layout),
        0 <= k < held(s, layout, master).len(),
        s.inner.selected_window(layout) == Some(held(s, layout, master)[k]),
        at_crossing(s, layout, master, k),
        master ==> held(s, layout, true).len() == s.settings.master_count,
        s.forest().minted + 2 * laws::room(s, layout) <= u64::MAX,
    ensures
        ({
            let w = held(s, layout, master)[k];
            let way = if master {
                away(s.settings.master_side)
            } else {
                towards(s.settings.master_side)
            };
            let t = s.selection_moved(layout, way);
            &&& s.can_shift(layout, way)
            &&& t.valid(layout)
            &&& !master ==> held(t, layout, true).contains(w) && !held(t, layout, false).contains(w)
            &&& master && held(s, layout, false).len() > 0 ==> held(t, layout, false).contains(w)
                && !held(t, layout, true).contains(w)
            &&& master && held(s, layout, false).len() == 0 ==> held(t, layout, true).last() == w
            &&& held(t, layout, true).len() == held(s, layout, true).len()
            &&& held(t, layout, false).len() == held(s, layout, false).len()
        }),
{
    lemma_before(s, layout);
    let v = s.ensured(layout).0;
    let m = held(s, layout, true);
    let n = held(s, layout, false);
    let all = m + n;
    let count = s.settings.master_count as int;
    let w = held(s, layout, master)[k];
    let i = if master {
        k
    } else {
        m.len() + k
    };
    assert(all[i] == w);
    lemma_place(all, i);
    assert(v.focus_place(layout) == Some(i));
    laws::law_listing(s, layout);
    lemma_areas(s, layout);
    let way = if master {
        away(s.settings.master_side)
    } else {
        towards(s.settings.master_side)
    };
    let order = v.order_after(layout, i, way)->0;
    assert(v.order_after(layout, i, way) is Some);
    assert(order.len() == all.len());
    lemma_after(v, layout, order);
    let t = v.rebuilt_with(layout, order);
    let share = laws::master_share(v, order.len());
    assert(share == m.len());
    if !master {
        let j = if comes_first(s.settings.master_side) {
            count - 1
        } else {
            0
        };
        assert(order =~= view::exchanged(all, i, j));
        assert(order.take(share)[j] == w);
        assert forall|q: int| 0 <= q < order.skip(share).len() implies order.skip(share)[q] != w by {
            let x = share + q;
            assert(order.skip(share)[q] == order[x]);
            if x == i {
                assert(order[x] == all[j]);
            }
        }
    } else if n.len() > 0 {
        let j = if comes_first(s.settings.master_side) {
            count
        } else {
            all.len() - 1
        };
        assert(order =~= view::exchanged(all, i, j));
        assert(order.skip(share)[j - share] == w);
        assert forall|q: int| 0 <= q < order.take(share).len() implies order.take(share)[q] != w by {
            assert(order.take(share)[q] == order[q]);
            if q == i {
                assert(order[q] == all[j]);
            }
        }
    } else {
        assert(order =~= all.remove(i).push(all[i]));
    }
}

/// A window that moves along the way its area is laid out changes places with the next
/// one there. At the end of its area it stays, unless the other area lies beyond. Across
/// the way its area is laid out it stays, unless the other area lies on that side.
pub proof fn law_within(s: MasterView, layout: LayoutId, master: bool, k: int, direction: Direction)
    requires
        s.inner.wf(),
        s.inner.has(layout),
        in_shape(s, layout),
        0 <= k < held(s, layout, master).len(),
        s.inner.selected_window(layout) == Some(held(s, layout, master)[k]),
        master ==> held(s, layout, true).len() == s.settings.master_count,
        s.forest().minted + 2 * laws::room(s, layout) <= u64::MAX,
        direction != (if master {
            away(s.settings.master_side)
        } else {
            towards(s.settings.master_side)
        }) || !at_crossing(s, layout, master, k),
    ensures
        ({
            let list = held(s, layout, master);
            let along = arranged(s, master) == follows(direction);
            let d = if direction is Right || direction is Down {
                k + 1
            } else {
                k - 1
            };
            let t = s.selection_moved(layout, direction);
            &&& held(t, layout, !master) == held(s, layout, !master)
            &&& along && 0 <= d < list.len() ==> {
                &&& s.can_shift(layout, direction)
                &&& held(t, layout, master) == list.update(k, list[d]).update(d, list[k])
            }
            &&& !(along && 0 <= d < list.len()) ==> {
                &&& !s.can_shift(layout, direction)
                &&& held(t, layout, master) == list
            }
        }),
{
    lemma_before(s, layout);
    let v = s.ensured(layout).0;
    let m = held(s, layout, true);
    let n = held(s, layout, false);
    let all = m + n;
    let w = held(s, layout, master)[k];
    let i = if master {
        k
    } else {
        m.len() + k
    };
    assert(all[i] == w);
    lemma_place(all, i);
    assert(v.focus_place(layout) == Some(i));
    laws::law_listing(s, layout);
    lemma_areas(s, layout);
    match v.order_after(layout, i, direction) {
        Some(order) => {
            assert(order.len() == all.len());
            lemma_after(v, layout, order);
            let share = laws::master_share(v, order.len());
            assert(share == m.len());
            let j = if direction is Right || direction is Down {
                i + 1
            } else {
                i - 1
            };
            assert(order =~= view::exchanged(all, i, j));
            let d = if direction is Right || direction is Down {
                k + 1
            } else {
                k - 1
            };
            if master {
                assert(order.take(share) =~= m.update(k, m[d]).update(d, m[k]));
                assert(order.skip(share) =~= n);
            } else {
                assert(order.skip(share) =~= n.update(k, n[d]).update(d, n[k]));
                assert(order.take(share) =~= m);
            }
        },
        None => {},
    }
}

/// The plain kind that lays children out along an axis.
pub open spec fn plain(axis: Orientation) -> LayoutKind {
    if axis is Horizontal {
        LayoutKind::Horizontal
    } else {
        LayoutKind::Vertical
    }
}

/// The areas lie beside each other where the master area is on the left or right, and
/// above each other where it is at the top or bottom. It comes first on the left and
/// at the top. Each area is laid out as the settings say.
pub proof fn law_sides(s: MasterView, layout: LayoutId)
    requires
        s.inner.wf(),
        s.inner.has(layout),
        s.settings.master_count > 0,
        s.forest().minted + laws::room(s, layout) <= u64::MAX,
    ensures
        ({
            let (t, root, master, stack) = s.ensured(layout);
            let side = s.settings.master_side;
            let f = t.forest();
            &&& root == t.inner.root(layout)
            &&& f.children(root) == (if side is Left || side is Top {
                seq![master, stack]
            } else {
                seq![stack, master]
            })
            &&& f.kind(root) == (if side is Left || side is Right {
                LayoutKind::Horizontal
            } else {
                LayoutKind::Vertical
            })
            &&& f.kind(master) == plain(arranged(s, true))
            &&& f.kind(stack) == plain(arranged(s, false))
        }),
{
    laws::law_ensured(s, layout);
    reveal(MasterView::ensured);
    let (t, root, master, stack) = s.ensured(layout);
    lemma_areas(t, layout);
    laws::lemma_valid_areas(t, layout, master, stack);
    let f = t.forest();
    assert(t.inner.roots.contains_key(layout));
    proofs::lemma_node(f, root);
    let kids = f.children(root);
    assert(f.nodes[root].children == kids);
    assert(f.parent(kids[0]) == Some(root) && f.parent(kids[1]) == Some(root));
    assert(kids[0] != kids[1]);
    assert(f.children(root) =~= (if s.settings.master_side is Left || s.settings.master_side is Top {
        seq![master, stack]
    } else {
        seq![stack, master]
    }));
    assert(f.live(root) && f.live(master) && f.live(stack));
    assert(root != master && root != stack && master != stack);
    laws::law_listing(s, layout);
    if !s.valid(layout) {
        laws::law_rebuilt(s, layout, s.listing(layout));
    }
}

/// The child of an area that it leads to or remembers, else its first.
pub open spec fn focuses(s: MasterView, a: NodeId, i: int) -> bool {
    match s.forest().info(a).pick {
        Some(p) => p.child == s.forest().children(a)[i],
        None => i == 0,
    }
}

/// The focused window of an area of windows.
proof fn lemma_focuses(s: MasterView, a: NodeId, i: int)
    requires
        s.inner.wf(),
        s.forest().live(a),
        s.forest().window(a) is None,
        s.flat(a),
        0 <= i < s.forest().children(a).len(),
        focuses(s, a, i),
    ensures
        s.area_focus(a) == Some(s.windows_in(a)[i]),
{
    let f = s.forest();
    laws::lemma_flat_windows(s, a);
    proofs::lemma_node(f, a);
    let c = f.children(a)[i];
    assert(f.nodes[a].children[i] == c);
    assert(f.window(c) is Some);
    proofs::lemma_node(f, c);
    assert(f.children(c).len() == 0);
    assert(f.preorder_below(c, 0) =~= Seq::empty());
    assert(f.preorder(c) =~= seq![c]);
    assert(seq![c].drop_last() =~= Seq::empty());
    assert(f.windows_of(Seq::<NodeId>::empty()) =~= Seq::empty());
    assert(f.windows_of(seq![c]) =~= seq![f.window(c)->0]);
}

/// Exchanging the areas exchanges the focused window of the master area with that of
/// the stack, and moves no other.
pub proof fn law_exchange(s: MasterView, layout: LayoutId, i: int, j: int)
    requires
        s.inner.wf(),
        s.inner.has(layout),
        in_shape(s, layout),
        0 <= i < held(s, layout, true).len(),
        0 <= j < held(s, layout, false).len(),
        focuses(s, area(s, layout, true), i),
        focuses(s, area(s, layout, false), j),
        s.forest().minted + 2 * laws::room(s, layout) <= u64::MAX,
    ensures
        ({
            let t = s.areas_swapped(layout);
            let m = held(s, layout, true);
            let n = held(s, layout, false);
            &&& held(t, layout, true) == m.update(i, n[j])
            &&& held(t, layout, false) == n.update(j, m[i])
        }),
{
    lemma_before(s, layout);
    let (v, _, master, stack) = s.ensured(layout);
    laws::law_ensured(s, layout);
    laws::law_ensured_keeps_order(s, layout);
    laws::law_listing(s, layout);
    lemma_areas(s, layout);
    lemma_areas(v, layout);
    laws::lemma_valid_areas(s, layout, master, stack);
    laws::lemma_flat_windows(s, master);
    laws::lemma_flat_windows(s, stack);
    lemma_still_focused(s, layout);
    lemma_focuses(v, master, i);
    lemma_focuses(v, stack, j);
    let m = held(s, layout, true);
    let n = held(s, layout, false);
    let all = m + n;
    assert(all[i] == m[i] && all[m.len() + j] == n[j]);
    lemma_place(all, i);
    lemma_place(all, m.len() + j);
    let order = view::exchanged(all, i, m.len() + j);
    lemma_after(v, layout, order);
    let share = laws::master_share(v, order.len());
    assert(share == m.len());
    assert(order.take(share) =~= m.update(i, n[j]));
    assert(order.skip(share) =~= n.update(j, m[i]));
}

/// Putting areas that are there in place changes nothing that they remember.
pub proof fn lemma_still_focused(s: MasterView, layout: LayoutId)
    requires
        s.inner.wf(),
        s.inner.has(layout),
        s.valid(layout),
        s.settings.master_count > 0,
        s.forest().minted + laws::room(s, layout) <= u64::MAX,
    ensures
        ({
            let v = s.ensured(layout).0;
            &&& v.valid(layout)
            &&& v.areas(layout, v.master_first()) == s.areas(layout, s.master_first())
            &&& forall|x: NodeId| #[trigger] v.forest().live(x) == s.forest().live(x)
            &&& forall|x: NodeId| #[trigger] v.forest().children(x) == s.forest().children(x)
            &&& forall|x: NodeId| #[trigger] v.forest().window(x) == s.forest().window(x)
            &&& forall|x: NodeId| (#[trigger] v.forest().info(x)).pick == s.forest().info(x).pick
        }),
{
    laws::law_ensured(s, layout);
    reveal(MasterView::ensured);
    let (master, stack) = s.areas(layout, s.master_first())->0;
    laws::lemma_redressed(s, layout, master, stack);
    let v = s.ensured(layout).0;
    let root = s.inner.root(layout);
    let f = s.forest();
    let f1 = f.with_kind(root, LayoutKind::along(s.root_axis()));
    let f2 = f1.with_kind(master, LayoutKind::along(s.master_axis()));
    let f3 = f2.with_kind(stack, LayoutKind::along(s.stack_axis()));
    assert(v.forest().nodes == f3.nodes);
    assert forall|x: NodeId| (#[trigger] v.forest().info(x)).pick == f.info(x).pick by {
        assert(f1.info(x).pick == f.info(x).pick && f2.info(x).pick == f1.info(x).pick
            && f3.info(x).pick == f2.info(x).pick);
    }
}

} // verus!
