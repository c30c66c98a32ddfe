//! The selected window stays selected while the areas are put in order.

use vstd::prelude::*;

use crate::actor::{LayoutId, WindowId};
use crate::layout_engine::systems;
use crate::layout_engine::systems::groups;
use crate::layout_engine::systems::master_stack::laws;
use crate::layout_engine::systems::master_stack::view;
use crate::layout_engine::systems::master_stack::view::MasterView;
use crate::layout_engine::systems::traditional::arrivals;
use crate::layout_engine::systems::traditional::filed;
use crate::layout_engine::systems::traditional::follow;
use crate::layout_engine::systems::traditional::laws as tree_laws;
use crate::layout_engine::systems::traditional::toggles;
use crate::layout_engine::{Direction, LayoutKind};
use crate::model::tree::homes;
use crate::model::tree::led;
use crate::model::tree::proofs;
use crate::model::tree::view::{ForestView, NodeId, Place, SizeChange};

verus! {

/// A layout leads to a node that shows a window.
spec fn focused(s: MasterView, layout: LayoutId, x: NodeId, window: WindowId) -> bool {
    &&& s.forest().window(x) == Some(window)
    &&& s.forest().home(x) == s.inner.root(layout)
    &&& led::led(s.forest(), x)
}

/// What holds while the areas are put in order.
spec fn in_order(s: MasterView, layout: LayoutId) -> bool {
    &&& s.inner.wf()
    &&& s.inner.has(layout)
    &&& filed::filed(s.inner)
}

/// The window that a layout leads to is the selected one.
proof fn lemma_focused(s: MasterView, layout: LayoutId, x: NodeId, window: WindowId)
    requires
        s.inner.wf(),
        focused(s, layout, x, window),
    ensures
        s.inner.selected_window(layout) == Some(window),
{
    let f = s.forest();
    proofs::lemma_node(f, x);
    proofs::lemma_ancestors(f, x);
    if f.info(x).pick is Some {
        proofs::lemma_pick(f, x);
    }
    led::lemma_led_is_selected(f, x, f.ancestors(x).len() - 1);
}

/// A layout leads to its selected window.
proof fn lemma_led_to(s: MasterView, layout: LayoutId, window: WindowId)
    requires
        s.inner.wf(),
        s.inner.has(layout),
        s.inner.selected_window(layout) == Some(window),
    ensures
        focused(s, layout, s.inner.selection(layout), window),
{
    let f = s.forest();
    let root = s.inner.root(layout);
    assert(s.inner.roots.contains_key(layout));
    led::lemma_selection_led(f, root);
    arrivals::lemma_selected_below(f, root);
    homes::lemma_home(f, root);
}

/// Moving a window to another place, and selecting it if it was selected.
proof fn lemma_put(
    s: MasterView,
    layout: LayoutId,
    w: WindowId,
    place: Option<Place>,
    window: WindowId,
    x: NodeId,
) -> (y: NodeId)
    requires
        in_order(s, layout),
        focused(s, layout, x, window),
        s.forest().node_for(layout, w) is Some,
    ensures
        ({
            let n = s.forest().node_for(layout, w)->0;
            let v = match place {
                Some(p) => s.with(s.forest().moved(n, p)),
                None => s,
            };
            focused(
                if w == window {
                    v.selecting(n)
                } else {
                    v
                },
                layout,
                y,
                window,
            )
        }),
{
    let f = s.forest();
    filed::law_contains(s.inner, layout, w);
    let n = f.node_for(layout, w)->0;
    let g = match place {
        Some(p) => f.moved(n, p),
        None => f,
    };
    homes::lemma_refl(f);
    match place {
        Some(p) => {
            homes::lemma_moved(f, n, p);
            proofs::lemma_moved(f, n, p);
        },
        None => {},
    }
    assert(f.live(n) && f.live(x));
    assert(g.window(n) == f.window(n));
    if w == window {
        led::lemma_selected_led(g, n);
        homes::lemma_selected(g, n);
        assert(g.live(n));
        let h = g.selected(n);
        assert(h.window(n) == g.window(n));
        n
    } else {
        match place {
            Some(p) => {
                led::lemma_moved(f, n, p, x);
            },
            None => {},
        }
        assert(g.window(x) == f.window(x));
        x
    }
}

proof fn lemma_relocated(
    s: MasterView,
    layout: LayoutId,
    w: WindowId,
    container: NodeId,
    front: bool,
    window: WindowId,
    x: NodeId,
) -> (y: NodeId)
    requires
        in_order(s, layout),
        focused(s, layout, x, window),
    ensures
        in_order(s.relocated(layout, w, container, front, Some(window)), layout),
        focused(s.relocated(layout, w, container, front, Some(window)), layout, y, window),
{
    laws::lemma_relocated(s, layout, w, container, front, Some(window));
    reveal(MasterView::relocated);
    match s.slot(layout, w, container, front) {
        Some((n, place)) => lemma_put(s, layout, w, place, window, x),
        None => x,
    }
}

proof fn lemma_shed(
    s: MasterView,
    layout: LayoutId,
    stack: NodeId,
    windows: Seq<WindowId>,
    keep: Option<WindowId>,
    window: WindowId,
    x: NodeId,
) -> (y: NodeId)
    requires
        in_order(s, layout),
        focused(s, layout, x, window),
    ensures
        in_order(s.shed(layout, stack, windows, keep, Some(window)).0, layout),
        focused(s.shed(layout, stack, windows, keep, Some(window)).0, layout, y, window),
    decreases windows.len(),
{
    let i = view::last_other(windows, keep, windows.len() as int);
    if windows.len() > s.settings.master_count && 0 <= i < windows.len() {
        let u = s.relocated(layout, windows[i], stack, s.master_first(), Some(window));
        let z = lemma_relocated(s, layout, windows[i], stack, s.master_first(), window, x);
        lemma_shed(u, layout, stack, windows.remove(i), keep, window, z)
    } else {
        x
    }
}

proof fn lemma_drawn(
    s: MasterView,
    layout: LayoutId,
    master: NodeId,
    windows: Seq<WindowId>,
    window: WindowId,
    x: NodeId,
) -> (y: NodeId)
    requires
        in_order(s, layout),
        focused(s, layout, x, window),
    ensures
        in_order(s.drawn(layout, master, windows, Some(window)), layout),
        focused(s.drawn(layout, master, windows, Some(window)), layout, y, window),
    decreases windows.len(),
{
    if windows.len() > 0 {
        let front = windows.drop_last();
        let z = lemma_drawn(s, layout, master, front, window, x);
        let u = s.drawn(layout, master, front, Some(window));
        lemma_relocated(u, layout, windows.last(), master, !s.master_first(), window, z)
    } else {
        x
    }
}

/// Keeping the master area at its size keeps the selected window selected.
pub proof fn law_enforced_keeps_selection(
    s: MasterView,
    layout: LayoutId,
    master: NodeId,
    stack: NodeId,
    keep: Option<WindowId>,
)
    requires
        s.inner.wf(),
        s.inner.has(layout),
        filed::filed(s.inner),
        s.inner.selected_window(layout) is Some,
    ensures
        s.enforced(layout, master, stack, keep).inner.selected_window(layout)
            == s.inner.selected_window(layout),
{
    reveal(MasterView::enforced);
    let window = s.inner.selected_window(layout)->0;
    let inside = s.windows_in(master);
    let outside = s.windows_in(stack);
    let first = s.master_first();
    let empty = inside.len() == 0 && outside.len() > 0;
    let lead = if first {
        outside[0]
    } else {
        outside.last()
    };
    let x = s.inner.selection(layout);
    lemma_led_to(s, layout, window);
    let x1 = lemma_relocated(s, layout, lead, master, !first, window, x);
    let v = if empty {
        s.relocated(layout, lead, master, !first, Some(window))
    } else {
        s
    };
    let y = if empty {
        x1
    } else {
        x
    };
    let held = if empty {
        seq![lead]
    } else {
        inside
    };
    let rest = if !empty {
        outside
    } else if first {
        outside.drop_first()
    } else {
        outside.drop_last()
    };
    let kept = if s.settings.master_count > 0 {
        keep
    } else {
        None
    };
    let (w, left) = v.shed(layout, stack, held, kept, Some(window));
    let z = lemma_shed(v, layout, stack, held, kept, window, y);
    let more = view::supply(rest, s.settings.master_count - left.len(), first);
    let end = lemma_drawn(w, layout, master, more, window, z);
    lemma_focused(w, layout, z, window);
    lemma_focused(w.drawn(layout, master, more, Some(window)), layout, end, window);
    assert(w.inner.wf());
}

/// A window that is added to a layout is the selected one.
pub proof fn law_window_added_is_selected(s: MasterView, layout: LayoutId, window: WindowId)
    requires
        s.inner.wf(),
        s.inner.has(layout),
        filed::filed(s.inner),
        s.settings.master_count > 0,
        s.forest().minted + laws::room(s, layout) < u64::MAX,
    ensures
        s.window_added(layout, window).inner.selected_window(layout) == Some(window),
{
    reveal(MasterView::window_added);
    reveal(MasterView::settled);
    laws::law_ensured(s, layout);
    let (v, _, master, stack) = s.ensured(layout);
    laws::lemma_valid_areas(v, layout, master, stack);
    let target = v.target(layout, master, stack);
    assert(target == master || target == stack);
    let place = v.entry(layout, target);
    laws::lemma_entry(v, layout, target);
    let f = v.forest();
    arrivals::lemma_window_entered(v.inner, layout, place, window, f.with_new(place));
    let put = MasterView { inner: v.inner.window_put(layout, place, window), ..v };
    let n = f.next_id();
    let chosen = put.selecting(n);
    homes::lemma_selected(put.forest(), n);
    laws::lemma_settled(put, put.forest().selected(n));
    arrivals::law_selected(put.inner, layout, n);
    assert(chosen.inner.selected_window(layout) == Some(window));
    let keep = if target == master {
        Some(window)
    } else {
        None
    };
    law_enforced_keeps_selection(chosen, layout, master, stack, keep);
    law_enforced_keeps_selection(chosen, layout, master, stack, None);
    laws::law_enforced_keeps_windows(chosen, layout, master, stack, None);
    let plain = chosen.enforced(layout, master, stack, None);
    lemma_led_to(plain, layout, window);
    match plain.forest().node_for(layout, window) {
        Some(m) => match plain.forest().parent(m) {
            Some(p) => {
                let y = lemma_put(
                    plain,
                    layout,
                    window,
                    Some(Place::Last(p)),
                    window,
                    plain.inner.selection(layout),
                );
                laws::lemma_sent_to_end(plain, layout, window);
                lemma_focused(plain.sent_to_end(layout, window), layout, y, window);
            },
            None => {},
        },
        None => {},
    }
}

/// The selected window is listed.
proof fn lemma_listed(s: MasterView, layout: LayoutId, window: WindowId)
    requires
        s.inner.wf(),
        s.inner.has(layout),
        s.inner.selected_window(layout) == Some(window),
    ensures
        s.listing(layout).contains(window),
{
    broadcast use vstd::seq_lib::group_to_multiset_ensures;

    let f = s.forest();
    let root = s.inner.root(layout);
    let x = s.inner.selection(layout);
    assert(s.inner.roots.contains_key(layout));
    lemma_led_to(s, layout, window);
    assert(homes::shown_in(f, root, x));
    homes::lemma_windows_contain(f, root, window);
    laws::law_listing(s, layout);
    assert(s.inner.all_windows(layout).to_multiset().contains(window));
}

/// Where nothing on the path to the selected window changes, it stays selected.
proof fn lemma_untouched(s: MasterView, t: MasterView, layout: LayoutId)
    requires
        s.inner.wf(),
        s.inner.has(layout),
        s.inner.selected_window(layout) is Some,
        t.inner.wf(),
        t.inner.roots == s.inner.roots,
        homes::settled(s.forest(), t.forest()),
        forall|x: NodeId| #[trigger]
            s.forest().live(x) ==> t.forest().live(x) && t.forest().parent(x) == s.forest().parent(x)
                && t.forest().local_selection(x) == s.forest().local_selection(x),
    ensures
        t.inner.selected_window(layout) == s.inner.selected_window(layout),
{
    let window = s.inner.selected_window(layout)->0;
    let x = s.inner.selection(layout);
    lemma_led_to(s, layout, window);
    assert(s.forest().live(x));
    proofs::lemma_ancestors(s.forest(), x);
    led::lemma_led_same(s.forest(), t.forest(), x);
    assert(t.forest().window(x) == s.forest().window(x));
    lemma_focused(t, layout, x, window);
}

/// A layout made anew from windows among which the selected one is keeps it
/// selected.
pub proof fn law_rebuilt_keeps_selection(s: MasterView, layout: LayoutId, windows: Seq<WindowId>)
    requires
        s.inner.wf(),
        s.inner.has(layout),
        filed::filed(s.inner),
        s.inner.selected_window(layout) is Some,
        windows.contains(s.inner.selected_window(layout)->0),
        s.forest().minted + windows.len() + 2 <= u64::MAX,
    ensures
        s.rebuilt_with(layout, windows).inner.selected_window(layout)
            == s.inner.selected_window(layout),
{
    reveal(MasterView::rebuilt_with);
    let (u, master, stack) = laws::refilled(s, layout, windows);
    laws::lemma_refilled(s, layout, windows);
    law_enforced_keeps_selection(u, layout, master, stack, None);
}

/// New areas behind the children of a root.
proof fn lemma_with_areas(s: MasterView, layout: LayoutId)
    requires
        s.inner.wf(),
        s.inner.has(layout),
        s.inner.selected_window(layout) is Some,
        s.forest().minted < u64::MAX,
    ensures
        ({
            let root = s.inner.root(layout);
            let (w, master, stack) = s.with_areas(root);
            w.rationed(root, master, stack).inner.selected_window(layout)
                == s.inner.selected_window(layout)
        }),
{
    let root = s.inner.root(layout);
    let (w, master, stack) = s.with_areas(root);
    let t = w.rationed(root, master, stack);
    laws::lemma_with_areas(s, root);
    let change = SizeChange::Rationed {
        parent: root,
        master,
        stack,
        ratio: w.settings.master_ratio,
    };
    homes::lemma_noting(w.forest(), change);
    homes::lemma_trans(s.forest(), w.forest(), t.forest());
    laws::lemma_settled(s, t.forest());
    reveal(MasterView::with_areas);
    let f = s.forest().with_kind(root, LayoutKind::along(s.root_axis()));
    homes::lemma_with_kind(s.forest(), root, LayoutKind::along(s.root_axis()));
    let g = f.with_new(Place::Last(root));
    proofs::lemma_with_new(f, Place::Last(root));
    proofs::lemma_with_new(g, Place::Last(root));
    lemma_untouched(s, t, layout);
}

/// The kind of a node is no part of any path.
proof fn lemma_kind_kept(f: ForestView, n: NodeId, kind: LayoutKind, x: NodeId)
    ensures
        f.with_kind(n, kind).live(x) == f.live(x),
        f.with_kind(n, kind).parent(x) == f.parent(x),
        f.with_kind(n, kind).info(x).pick == f.info(x).pick,
{
}

/// The areas get the kinds and sizes that the settings ask for.
pub proof fn lemma_redressed(v: MasterView, layout: LayoutId, master: NodeId, stack: NodeId)
    requires
        v.inner.wf(),
        v.inner.has(layout),
    ensures
        ({
            let root = v.inner.root(layout);
            v.with(v.forest().with_kind(root, LayoutKind::along(v.root_axis()))).with_kinds(
                master,
                stack,
            ).rationed(root, master, stack).inner.selected_window(layout)
        }) == v.inner.selected_window(layout),
{
    let root = v.inner.root(layout);
    let f = v.forest();
    let f1 = f.with_kind(root, LayoutKind::along(v.root_axis()));
    let f2 = f1.with_kind(master, LayoutKind::along(v.master_axis()));
    let f3 = f2.with_kind(stack, LayoutKind::along(v.stack_axis()));
    let t = v.with(f1).with_kinds(master, stack).rationed(root, master, stack);
    let g = t.forest();
    laws::lemma_redressed(v, layout, master, stack);
    assert(v.inner.roots.contains_key(layout));
    assert forall|x: NodeId|
        g.live(x) == f.live(x) && #[trigger] g.parent(x) == f.parent(x) && g.info(x).pick == f.info(
            x,
        ).pick by {
        lemma_kind_kept(f, root, LayoutKind::along(v.root_axis()), x);
        lemma_kind_kept(f1, master, LayoutKind::along(v.master_axis()), x);
        lemma_kind_kept(f2, stack, LayoutKind::along(v.stack_axis()), x);
        assert(g.nodes == f3.nodes);
    }
    assert(toggles::same_paths(f, g)) by {
        assert forall|x: NodeId| #[trigger] g.live(x) <==> f.live(x) by {
            assert(g.parent(x) == f.parent(x));
        }
        assert forall|x: NodeId| (#[trigger] g.info(x)).pick == f.info(x).pick by {
            assert(g.parent(x) == f.parent(x));
        }
    }
    toggles::lemma_same_selection(f, g, root);
    assert(g.window(v.inner.selection(layout)) == f.window(v.inner.selection(layout)));
}

/// Putting the areas of a layout in place keeps the selected window selected.
pub proof fn law_ensured_keeps_selection(s: MasterView, layout: LayoutId)
    requires
        s.inner.wf(),
        s.inner.has(layout),
        filed::filed(s.inner),
        s.inner.selected_window(layout) is Some,
        s.forest().minted + laws::room(s, layout) <= u64::MAX,
    ensures
        s.ensured(layout).0.inner.selected_window(layout) == s.inner.selected_window(layout),
{
    reveal(MasterView::ensured);
    let window = s.inner.selected_window(layout)->0;
    let v = if s.valid(layout) {
        s
    } else {
        s.rebuilt(layout)
    };
    lemma_listed(s, layout, window);
    laws::law_listing(s, layout);
    if !s.valid(layout) {
        laws::law_rebuilt(s, layout, s.listing(layout));
        law_rebuilt_keeps_selection(s, layout, s.listing(layout));
    }
    match v.areas(layout, v.master_first()) {
        Some((master, stack)) => {
            lemma_redressed(v, layout, master, stack);
        },
        None => {
            lemma_with_areas(v, layout);
        },
    }
}

/// Putting the areas of a layout in place selects no window where none was
/// selected.
pub proof fn law_ensured_selects_nothing(s: MasterView, layout: LayoutId)
    requires
        s.inner.wf(),
        s.inner.has(layout),
        s.settings.master_count > 0,
        s.inner.selected_window(layout) is None,
        s.forest().minted + laws::room(s, layout) <= u64::MAX,
    ensures
        s.ensured(layout).0.inner.selected_window(layout) is None,
{
    laws::law_ensured(s, layout);
    laws::law_listing(s, layout);
    reveal(MasterView::ensured);
    let v = if s.valid(layout) {
        s
    } else {
        s.rebuilt(layout)
    };
    if !s.valid(layout) {
        let windows = s.listing(layout);
        reveal(MasterView::rebuilt_with);
        let (u, master, stack) = laws::refilled(s, layout, windows);
        laws::lemma_refilled(s, layout, windows);
        laws::lemma_enforced_divided(u, layout, master, stack, windows);
        laws::law_rebuilt(s, layout, windows);
        assert(v == u);
    }
    assert(v.inner.selected_window(layout) is None);
    let (master, stack) = v.areas(layout, v.master_first())->0;
    lemma_redressed(v, layout, master, stack);
}

/// A layout in order, made anew from a reordering of its windows.
proof fn lemma_reordered(s: MasterView, layout: LayoutId, windows: Seq<WindowId>)
    requires
        s.inner.wf(),
        s.inner.has(layout),
        filed::filed(s.inner),
        s.inner.selected_window(layout) is Some,
        s.forest().minted + 2 * laws::room(s, layout) <= u64::MAX,
        windows.to_multiset() == s.ensured(layout).0.listing(layout).to_multiset(),
    ensures
        s.ensured(layout).0.rebuilt_with(layout, windows).inner.selected_window(layout)
            == s.inner.selected_window(layout),
{
    broadcast use vstd::seq_lib::group_to_multiset_ensures;

    let v = s.ensured(layout).0;
    let window = s.inner.selected_window(layout)->0;
    laws::law_ensured(s, layout);
    law_ensured_keeps_selection(s, layout);
    laws::law_listing(v, layout);
    lemma_listed(v, layout, window);
    assert(v.inner.all_windows(layout).to_multiset() == s.inner.all_windows(layout).to_multiset());
    assert(windows.to_multiset().len() == s.inner.all_windows(layout).to_multiset().len());
    assert(windows.to_multiset().contains(window));
    law_rebuilt_keeps_selection(v, layout, windows);
}

/// Promoting the selected window keeps it selected. It is listed first then, and
/// the others follow in the order they had.
pub proof fn law_promoted(s: MasterView, layout: LayoutId)
    requires
        s.inner.wf(),
        s.inner.has(layout),
        filed::filed(s.inner),
        s.inner.selected_window(layout) is Some,
        s.forest().minted + 2 * laws::room(s, layout) <= u64::MAX,
    ensures
        s.promoted(layout).inner.selected_window(layout) == s.inner.selected_window(layout),
        s.settings.master_count > 0 ==> {
            let w = s.inner.selected_window(layout)->0;
            let before = s.ensured(layout).0.listing(layout);
            let after = s.promoted(layout).listing(layout);
            &&& after == seq![w] + before.remove(view::place_of(before, w, 0))
            &&& before[view::place_of(before, w, 0)] == w
        },
{
    broadcast use vstd::seq_lib::group_to_multiset_ensures;

    let v = s.ensured(layout).0;
    let w = s.inner.selected_window(layout)->0;
    laws::law_ensured(s, layout);
    law_ensured_keeps_selection(s, layout);
    let windows = v.listing(layout);
    lemma_listed(v, layout, w);
    let i = view::place_of(windows, w, 0);
    laws::lemma_place_of(windows, w, 0);
    assert(windows.skip(0) =~= windows);
    laws::lemma_placed(windows, w, 0);
    let rest = windows.remove(i);
    let order = rest.insert(0, w);
    assert(order =~= seq![w] + rest);
    if 0 < i {
        assert(order.remove(0) =~= rest);
        assert(order.to_multiset() =~= windows.to_multiset()) by {
            assert(order.remove(0).to_multiset() =~= order.to_multiset().remove(w));
            assert(windows.remove(i).to_multiset() =~= windows.to_multiset().remove(w));
        }
        lemma_reordered(s, layout, order);
        laws::law_listing(v, layout);
        assert(v.inner.all_windows(layout).to_multiset() == s.inner.all_windows(
            layout,
        ).to_multiset());
        assert(order.to_multiset().len() == s.inner.all_windows(layout).to_multiset().len());
        laws::law_rebuilt(v, layout, order);
    } else {
        assert(order =~= windows);
    }
}

/// Exchanging the focused windows of the areas keeps the selected window selected.
pub proof fn law_area_swap_keeps_selection(s: MasterView, layout: LayoutId)
    requires
        s.inner.wf(),
        s.inner.has(layout),
        filed::filed(s.inner),
        s.inner.selected_window(layout) is Some,
        s.forest().minted + 2 * laws::room(s, layout) <= u64::MAX,
    ensures
        s.areas_swapped(layout).inner.selected_window(layout) == s.inner.selected_window(layout),
{
    law_ensured_keeps_selection(s, layout);
    let (v, _, master, stack) = s.ensured(layout);
    match (v.area_focus(master), v.area_focus(stack)) {
        (Some(a), Some(b)) => {
            let windows = v.listing(layout);
            let i = view::place_of(windows, a, 0);
            let j = view::place_of(windows, b, 0);
            laws::lemma_place_of(windows, a, 0);
            laws::lemma_place_of(windows, b, 0);
            if i < windows.len() && j < windows.len() {
                systems::lemma_exchanged(windows, i, j);
                lemma_reordered(s, layout, view::exchanged(windows, i, j));
            }
        },
        _ => {},
    }
}

/// Moving the selection up or down the path of what is remembered keeps the
/// focused window of every area.
pub proof fn law_area_focus_stays_with_path(s: MasterView, layout: LayoutId, area: NodeId)
    requires
        s.inner.wf(),
        s.inner.has(layout),
    ensures
        (MasterView { inner: s.inner.ascended(layout), ..s }).area_focus(area) == s.area_focus(
            area,
        ),
        (MasterView { inner: s.inner.descended(layout), ..s }).area_focus(area) == s.area_focus(
            area,
        ),
{
    follow::law_path_is_remembered(s.inner, layout);
    lemma_same_area_focus(s, MasterView { inner: s.inner.ascended(layout), ..s }, area);
    lemma_same_area_focus(s, MasterView { inner: s.inner.descended(layout), ..s }, area);
}

proof fn lemma_same_area_focus(s: MasterView, t: MasterView, area: NodeId)
    requires
        s.inner.wf(),
        follow::remembers_alike(s.forest(), t.forest()),
    ensures
        t.area_focus(area) == s.area_focus(area),
{
    let f = s.forest();
    let g = t.forest();
    assert(g.last_selection(area) == f.last_selection(area));
    assert(g.children(area) == f.children(area));
    if f.remembered_lead(area) is Some {
        let c = f.remembered_lead(area)->0;
        groups::lemma_remembered_lead(f, area);
        homes::lemma_same_preorder(f, g, c);
        homes::lemma_same_windows_of(f, g, f.preorder(c));
    }
}

/// Moving the selected window keeps it selected.
pub proof fn law_moved_window_stays_selected(
    s: MasterView,
    layout: LayoutId,
    direction: Direction,
)
    requires
        s.inner.wf(),
        s.inner.has(layout),
        filed::filed(s.inner),
        s.inner.selected_window(layout) is Some,
        s.shift_exists(layout, direction),
        s.forest().minted + 2 * laws::room(s, layout) <= u64::MAX,
    ensures
        s.selection_moved(layout, direction).inner.selected_window(layout)
            == s.inner.selected_window(layout),
{
    law_ensured_keeps_selection(s, layout);
    let v = s.ensured(layout).0;
    if v.focus_place(layout) is Some {
        let i = v.focus_place(layout)->0;
        if v.order_after(layout, i, direction) is Some {
            laws::lemma_order_after(v, layout, i, direction);
            lemma_reordered(s, layout, v.order_after(layout, i, direction)->0);
        }
    }
}

/// A move loses, adds and doubles no window. Where the index agrees with the
/// trees, it leaves the selection with the window that had it. A refused move
/// leaves the windows in their order. Without a selected window a move is refused,
/// and none is selected.
pub proof fn law_moved(s: MasterView, layout: LayoutId, direction: Direction)
    requires
        s.inner.wf(),
        s.inner.has(layout),
        s.settings.master_count > 0,
        s.shift_exists(layout, direction),
        s.forest().minted + 2 * laws::room(s, layout) <= u64::MAX,
    ensures
        ({
            let t = s.selection_moved(layout, direction);
            &&& t.listing(layout).to_multiset() == s.listing(layout).to_multiset()
            &&& filed::filed(s.inner) || s.inner.selected_window(layout) is None
                ==> t.inner.selected_window(layout) == s.inner.selected_window(layout)
            &&& !s.can_shift(layout, direction) ==> t.listing(layout) == s.listing(layout)
            &&& s.inner.selected_window(layout) is None ==> !s.can_shift(layout, direction)
        }),
{
    let t = s.selection_moved(layout, direction);
    laws::law_ensured(s, layout);
    laws::law_ensured_keeps_order(s, layout);
    laws::law_move_keeps_windows(s, layout, direction);
    laws::law_listing(s, layout);
    laws::law_listing(t, layout);
    assert(tree_laws::keeps_windows(s.inner, t.inner));
    assert(t.inner.all_windows(layout).to_multiset() == s.inner.all_windows(layout).to_multiset());
    if s.inner.selected_window(layout) is None {
        law_ensured_selects_nothing(s, layout);
    } else if filed::filed(s.inner) {
        law_moved_window_stays_selected(s, layout, direction);
    }
}

} // verus!
