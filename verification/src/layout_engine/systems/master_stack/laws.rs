//! What the commands on master-stack layouts leave alone, and how a layout is
//! divided when it is made anew.

use vstd::multiset::Multiset;
use vstd::prelude::*;

use crate::actor::{LayoutId, Pid, WindowId};
use crate::layout_engine::systems;
use crate::layout_engine::{Direction, LayoutKind};
use crate::layout_engine::systems::master_stack::view;
use crate::layout_engine::systems::master_stack::view::MasterView;
use crate::layout_engine::systems::traditional::arrivals;
use crate::layout_engine::systems::traditional::filed;
use crate::layout_engine::systems::traditional::laws;
use crate::layout_engine::systems::traditional::membership;
use crate::model::tree::homes;
use crate::model::tree::proofs;
use crate::model::tree::rows;
use crate::model::tree::view::{ForestView, NodeId, Place, SizeChange};

verus! {

/// Only the forest changes, and its windows stay in their trees.
pub proof fn lemma_settled(s: MasterView, forest: ForestView)
    requires
        s.inner.wf(),
        homes::settled(s.forest(), forest),
    ensures
        laws::keeps_windows(s.inner, s.with(forest).inner),
{
    laws::lemma_settled(s.inner, forest);
}

proof fn lemma_same(s: MasterView)
    requires
        s.inner.wf(),
    ensures
        laws::keeps_windows(s.inner, s.inner),
{
    homes::lemma_refl(s.forest());
    laws::lemma_settled(s.inner, s.forest());
    assert(s.inner.with_forest(s.forest()) == s.inner);
}

pub proof fn lemma_relocated(
    s: MasterView,
    layout: LayoutId,
    window: WindowId,
    container: NodeId,
    front: bool,
    selected: Option<WindowId>,
)
    requires
        s.inner.wf(),
    ensures
        ({
            let t = s.relocated(layout, window, container, front, selected);
            &&& laws::keeps_windows(s.inner, t.inner)
            &&& t.settings == s.settings
            &&& t.inner.roots == s.inner.roots
            &&& t.forest().minted == s.forest().minted
        }),
{
    reveal(MasterView::relocated);
    lemma_same(s);
    match s.slot(layout, window, container, front) {
        Some((n, place)) => {
            let f = s.forest();
            let g = match place {
                Some(p) => f.moved(n, p),
                None => f,
            };
            homes::lemma_refl(f);
            match place {
                Some(p) => {
                    homes::lemma_moved(f, n, p);
                    proofs::lemma_moved(f, n, p);
                },
                None => {},
            }
            assert(homes::settled(f, g));
            lemma_settled(s, g);
            homes::lemma_selected(g, n);
            homes::lemma_trans(f, g, g.selected(n));
            lemma_settled(s, g.selected(n));
        },
        None => {},
    }
}

pub proof fn lemma_shed(
    s: MasterView,
    layout: LayoutId,
    stack: NodeId,
    windows: Seq<WindowId>,
    keep: Option<WindowId>,
    selected: Option<WindowId>,
)
    requires
        s.inner.wf(),
    ensures
        ({
            let t = s.shed(layout, stack, windows, keep, selected).0;
            &&& laws::keeps_windows(s.inner, t.inner)
            &&& t.settings == s.settings
            &&& t.inner.roots == s.inner.roots
            &&& t.forest().minted == s.forest().minted
        }),
    decreases windows.len(),
{
    let i = view::last_other(windows, keep, windows.len() as int);
    lemma_same(s);
    if windows.len() > s.settings.master_count && 0 <= i < windows.len() {
        let u = s.relocated(layout, windows[i], stack, s.master_first(), selected);
        lemma_relocated(s, layout, windows[i], stack, s.master_first(), selected);
        lemma_shed(u, layout, stack, windows.remove(i), keep, selected);
        let t = u.shed(layout, stack, windows.remove(i), keep, selected).0;
        laws::lemma_trans(s.inner, u.inner, t.inner);
    }
}

pub proof fn lemma_drawn(
    s: MasterView,
    layout: LayoutId,
    master: NodeId,
    windows: Seq<WindowId>,
    selected: Option<WindowId>,
)
    requires
        s.inner.wf(),
    ensures
        ({
            let t = s.drawn(layout, master, windows, selected);
            &&& laws::keeps_windows(s.inner, t.inner)
            &&& t.settings == s.settings
            &&& t.inner.roots == s.inner.roots
            &&& t.forest().minted == s.forest().minted
        }),
    decreases windows.len(),
{
    lemma_same(s);
    if windows.len() > 0 {
        let front = windows.drop_last();
        lemma_drawn(s, layout, master, front, selected);
        let u = s.drawn(layout, master, front, selected);
        lemma_relocated(u, layout, windows.last(), master, !s.master_first(), selected);
        let t = u.relocated(layout, windows.last(), master, !s.master_first(), selected);
        laws::lemma_trans(s.inner, u.inner, t.inner);
    }
}

/// Keeping the master area at its size keeps the windows of every layout.
pub proof fn law_enforced_keeps_windows(
    s: MasterView,
    layout: LayoutId,
    master: NodeId,
    stack: NodeId,
    keep: Option<WindowId>,
)
    requires
        s.inner.wf(),
    ensures
        laws::keeps_windows(s.inner, s.enforced(layout, master, stack, keep).inner),
        s.enforced(layout, master, stack, keep).settings == s.settings,
        s.enforced(layout, master, stack, keep).inner.roots == s.inner.roots,
        s.enforced(layout, master, stack, keep).forest().minted == s.forest().minted,
{
    reveal(MasterView::enforced);
    let inside = s.windows_in(master);
    let outside = s.windows_in(stack);
    let selected = s.inner.selected_window(layout);
    let first = s.master_first();
    let empty = inside.len() == 0 && outside.len() > 0;
    let lead = if first {
        outside[0]
    } else {
        outside.last()
    };
    let v = if empty {
        s.relocated(layout, lead, master, !first, selected)
    } else {
        s
    };
    let held = if empty {
        seq![lead]
    } else {
        inside
    };
    let rest = if !empty {
        outside
    } else if first {
        outside.drop_first()
    } else {
        outside.drop_last()
    };
    let kept = if s.settings.master_count > 0 {
        keep
    } else {
        None
    };
    lemma_same(s);
    lemma_relocated(s, layout, lead, master, !first, selected);
    let (w, left) = v.shed(layout, stack, held, kept, selected);
    lemma_shed(v, layout, stack, held, kept, selected);
    laws::lemma_trans(s.inner, v.inner, w.inner);
    let more = view::supply(rest, s.settings.master_count - left.len(), first);
    lemma_drawn(w, layout, master, more, selected);
    laws::lemma_trans(s.inner, w.inner, w.drawn(layout, master, more, selected).inner);
}

/// Where the master area holds as many windows as the settings ask for, or all
/// there are, keeping it at its size changes nothing.
pub proof fn law_enforced_in_order(
    s: MasterView,
    layout: LayoutId,
    master: NodeId,
    stack: NodeId,
    keep: Option<WindowId>,
)
    requires
        s.settings.master_count > 0,
        s.windows_in(master).len() == master_share(
            s,
            s.windows_in(master).len() + s.windows_in(stack).len(),
        ),
    ensures
        s.enforced(layout, master, stack, keep) == s,
{
    reveal(MasterView::enforced);
    let inside = s.windows_in(master);
    let outside = s.windows_in(stack);
    let selected = s.inner.selected_window(layout);
    assert(!(inside.len() == 0 && outside.len() > 0));
    assert(s.shed(layout, stack, inside, keep, selected) == (s, inside));
    if inside.len() < s.settings.master_count {
        let more = view::supply(
            outside,
            s.settings.master_count - inside.len(),
            s.master_first(),
        );
        assert(more.len() == 0);
        assert(s.drawn(layout, master, more, selected) == s);
    }
}

/// The areas get kinds and sizes; no window is touched.
proof fn lemma_dressed(s: MasterView, root: NodeId, master: NodeId, stack: NodeId)
    requires
        s.inner.wf(),
    ensures
        homes::settled(s.forest(), s.with_kinds(master, stack).forest()),
        homes::settled(s.forest(), s.rationed(root, master, stack).forest()),
        homes::settled(
            s.forest(),
            s.forest().with_kind(root, LayoutKind::along(s.root_axis())),
        ),
{
    let f = s.forest();
    let f1 = f.with_kind(master, LayoutKind::along(s.master_axis()));
    homes::lemma_with_kind(f, master, LayoutKind::along(s.master_axis()));
    homes::lemma_with_kind(f1, stack, LayoutKind::along(s.stack_axis()));
    homes::lemma_trans(f, f1, f1.with_kind(stack, LayoutKind::along(s.stack_axis())));
    homes::lemma_noting(
        f,
        SizeChange::Rationed { parent: root, master, stack, ratio: s.settings.master_ratio },
    );
    homes::lemma_with_kind(f, root, LayoutKind::along(s.root_axis()));
}

/// The root of a layout gets two containers.
pub proof fn lemma_with_areas(s: MasterView, root: NodeId)
    requires
        s.inner.wf(),
        s.forest().minted < u64::MAX,
    ensures
        ({
            let (t, master, stack) = s.with_areas(root);
            &&& homes::settled(s.forest(), t.forest())
            &&& laws::keeps_windows(s.inner, t.inner)
            &&& t.settings == s.settings
            &&& t.inner.roots == s.inner.roots
            &&& t.forest().minted <= s.forest().minted + 2
        }),
{
    reveal(MasterView::with_areas);
    let f0 = s.forest();
    let kind = LayoutKind::along(s.root_axis());
    let f = f0.with_kind(root, kind);
    homes::lemma_with_kind(f0, root, kind);
    let g = f.with_new(Place::Last(root));
    proofs::lemma_with_new(f, Place::Last(root));
    homes::lemma_with_new(f, Place::Last(root));
    homes::lemma_trans(f0, f, g);
    let h = g.with_new(Place::Last(root));
    proofs::lemma_with_new(g, Place::Last(root));
    homes::lemma_with_new(g, Place::Last(root));
    homes::lemma_trans(f0, g, h);
    let (t, master, stack) = s.with_areas(root);
    let m = s.with(h);
    lemma_settled(s, h);
    lemma_dressed(m, root, master, stack);
    homes::lemma_trans(f0, h, t.forest());
    lemma_settled(s, t.forest());
}

/// How many of `count` windows the master area takes.
pub open spec fn master_share(s: MasterView, count: nat) -> int {
    if count < s.settings.master_count {
        count as int
    } else {
        s.settings.master_count as int
    }
}

/// The root holds the two areas, in the order of the settings, and the areas hold
/// a list of windows: the first ones in the master area, the others in the stack.
pub open spec fn divided(
    s: MasterView,
    layout: LayoutId,
    master: NodeId,
    stack: NodeId,
    windows: Seq<WindowId>,
) -> bool {
    let f = s.forest();
    let root = s.inner.root(layout);
    let m = master_share(s, windows.len());
    &&& s.inner.wf()
    &&& s.inner.has(layout)
    &&& f.children(root) == (if s.master_first() {
        seq![master, stack]
    } else {
        seq![stack, master]
    })
    &&& master != stack
    &&& f.window(master) is None
    &&& f.window(stack) is None
    &&& rows::in_one_row(f, master, windows.take(m))
    &&& rows::in_one_row(f, stack, windows.skip(m))
}

/// Areas lie below the root of their layout.
proof fn lemma_areas_home(
    s: MasterView,
    layout: LayoutId,
    master: NodeId,
    stack: NodeId,
    windows: Seq<WindowId>,
)
    requires
        divided(s, layout, master, stack, windows),
    ensures
        s.forest().live(master),
        s.forest().live(stack),
        s.forest().home(master) == s.inner.root(layout),
        s.forest().home(stack) == s.inner.root(layout),
        master != s.inner.root(layout),
        stack != s.inner.root(layout),
        s.forest().live(s.inner.root(layout)),
        s.areas(layout, s.master_first()) == Some((master, stack)),
{
    let f = s.forest();
    let root = s.inner.root(layout);
    assert(s.inner.roots.contains_key(layout));
    proofs::lemma_node(f, root);
    let kids = f.children(root);
    assert(f.nodes[root].children == kids);
    assert(f.live(kids[0]) && f.parent(kids[0]) == Some(root));
    assert(f.live(kids[1]) && f.parent(kids[1]) == Some(root));
    homes::lemma_home(f, root);
    homes::lemma_home(f, kids[0]);
    homes::lemma_home(f, kids[1]);
}

/// A row is not touched by edits elsewhere.
proof fn lemma_row_kept(f: ForestView, g: ForestView, area: NodeId, row: Seq<WindowId>)
    requires
        f.wf(),
        f.live(area),
        rows::in_one_row(f, area, row),
        g.children(area) == f.children(area),
        forall|x: NodeId|
            f.live(x) && f.window(x) is Some ==> #[trigger] g.window(x) == f.window(x)
                && g.children(x) == f.children(x),
    ensures
        rows::in_one_row(g, area, row),
{
    proofs::lemma_node(f, area);
    assert forall|i: int| 0 <= i < row.len() implies g.window(#[trigger] g.children(area)[i])
        == Some(row[i]) && g.children(g.children(area)[i]).len() == 0 by {
        let c = f.children(area)[i];
        assert(f.nodes[area].children[i] == c);
        assert(f.window(c) == Some(row[i]));
        assert(g.window(c) == f.window(c));
    }
}

/// Selecting a node leaves the areas as they are.
proof fn lemma_divided_selecting(
    s: MasterView,
    layout: LayoutId,
    master: NodeId,
    stack: NodeId,
    windows: Seq<WindowId>,
    n: NodeId,
)
    requires
        divided(s, layout, master, stack, windows),
    ensures
        divided(s.selecting(n), layout, master, stack, windows),
        laws::keeps_windows(s.inner, s.selecting(n).inner),
        s.selecting(n).forest().minted == s.forest().minted,
{
    let f = s.forest();
    let g = f.selected(n);
    homes::lemma_selected(f, n);
    lemma_settled(s, g);
    assert forall|x: NodeId| #[trigger] g.window(x) == f.window(x) && g.children(x) == f.children(
        x,
    ) by {}
    lemma_areas_home(s, layout, master, stack, windows);
    let m = master_share(s, windows.len());
    lemma_row_kept(f, g, master, windows.take(m));
    lemma_row_kept(f, g, stack, windows.skip(m));
    assert(g.window(master) == f.window(master) && g.window(stack) == f.window(stack));
    let root = s.inner.root(layout);
    assert(g.window(root) == f.window(root));
}

/// Layouts after windows came to one of them.
pub open spec fn stocked(
    s: MasterView,
    t: MasterView,
    layout: LayoutId,
    added: Multiset<WindowId>,
) -> bool {
    &&& t.inner.wf()
    &&& t.inner.roots == s.inner.roots
    &&& t.settings == s.settings
    &&& filed::filed(s.inner) ==> filed::filed(t.inner)
    &&& t.inner.all_windows(layout).to_multiset() == s.inner.all_windows(layout).to_multiset().add(
        added,
    )
    &&& forall|l: LayoutId|
        s.inner.has(l) && l != layout ==> #[trigger] t.inner.all_windows(l).to_multiset()
            == s.inner.all_windows(l).to_multiset()
}

/// One more window goes to its area.
proof fn lemma_filled_step(
    s: MasterView,
    layout: LayoutId,
    master: NodeId,
    stack: NodeId,
    windows: Seq<WindowId>,
    w: WindowId,
)
    requires
        divided(s, layout, master, stack, windows),
        s.forest().minted <= u64::MAX,
    ensures
        ({
            let area = if windows.len() < s.settings.master_count {
                master
            } else {
                stack
            };
            let t = MasterView {
                inner: s.inner.window_put(layout, Place::Last(area), w),
                ..s
            };
            &&& divided(t, layout, master, stack, windows.push(w))
            &&& arrivals::arrived(s.inner, t.inner, layout, w)
            &&& t.forest().minted == s.forest().minted + 1
            &&& t.forest().info(s.inner.root(layout)) == s.forest().info(s.inner.root(layout))
        }),
{
    let in_master = windows.len() < s.settings.master_count;
    let area = if in_master {
        master
    } else {
        stack
    };
    let other = if in_master {
        stack
    } else {
        master
    };
    let m = master_share(s, windows.len());
    let row = if in_master {
        windows.take(m)
    } else {
        windows.skip(m)
    };
    let other_row = if in_master {
        windows.skip(m)
    } else {
        windows.take(m)
    };
    let root = s.inner.root(layout);
    lemma_areas_home(s, layout, master, stack, windows);
    let f = s.forest();
    arrivals::lemma_put_in(s.inner, layout, area, row, w);
    let t = MasterView { inner: s.inner.window_put(layout, Place::Last(area), w), ..s };
    let g = t.forest();
    assert(g.live(root) && g.live(master) && g.live(stack));
    assert forall|x: NodeId| f.live(x) && f.window(x) is Some implies #[trigger] g.window(x)
        == f.window(x) && g.children(x) == f.children(x) by {
        assert(g.live(x));
    }
    assert(g.children(other) == f.children(other));
    lemma_row_kept(f, g, other, other_row);
    let more = windows.push(w);
    let k = master_share(s, more.len());
    if in_master {
        assert(more.take(k) =~= row.push(w));
        assert(more.skip(k) =~= other_row);
    } else {
        assert(more.take(k) =~= other_row);
        assert(more.skip(k) =~= row.push(w));
    }
    assert(g.children(root) == f.children(root));
}

/// Windows go to the areas in order.
proof fn lemma_filled(
    s: MasterView,
    layout: LayoutId,
    windows: Seq<WindowId>,
    master: NodeId,
    stack: NodeId,
    selected: Option<WindowId>,
)
    requires
        divided(s, layout, master, stack, Seq::empty()),
        s.forest().minted + windows.len() <= u64::MAX,
    ensures
        ({
            let t = s.filled(layout, windows, master, stack, selected);
            &&& divided(t, layout, master, stack, windows)
            &&& stocked(s, t, layout, windows.to_multiset())
            &&& t.forest().minted == s.forest().minted + windows.len()
            &&& selected is None ==> t.forest().info(s.inner.root(layout)) == s.forest().info(
                s.inner.root(layout),
            )
        }),
    decreases windows.len(),
{
    broadcast use vstd::seq_lib::group_to_multiset_ensures;

    if windows.len() == 0 {
        assert(windows =~= Seq::empty());
        assert(s.inner.all_windows(layout).to_multiset().add(windows.to_multiset())
            =~= s.inner.all_windows(layout).to_multiset());
    } else {
        let front = windows.drop_last();
        let w = windows.last();
        assert(front.push(w) =~= windows);
        lemma_filled(s, layout, front, master, stack, selected);
        let v = s.filled(layout, front, master, stack, selected);
        lemma_filled_step(v, layout, master, stack, front, w);
        let area = if front.len() < s.settings.master_count {
            master
        } else {
            stack
        };
        let put = MasterView { inner: v.inner.window_put(layout, Place::Last(area), w), ..v };
        let n = v.forest().next_id();
        lemma_divided_selecting(put, layout, master, stack, windows, n);
        let t = s.filled(layout, windows, master, stack, selected);
        assert(t == put || t == put.selecting(n));
        lemma_same(put);
        assert(laws::keeps_windows(put.inner, t.inner));
        assert(v.inner.has(layout) && put.inner.has(layout));
        assert(put.inner.all_windows(layout).to_multiset() == v.inner.all_windows(
            layout,
        ).to_multiset().insert(w));
        assert(t.inner.all_windows(layout).to_multiset() == put.inner.all_windows(
            layout,
        ).to_multiset());
        assert(t.inner.all_windows(layout).to_multiset() =~= s.inner.all_windows(
            layout,
        ).to_multiset().add(windows.to_multiset()));
        assert forall|l: LayoutId| s.inner.has(l) && l != layout implies #[trigger] t.inner.all_windows(
            l,
        ).to_multiset() == s.inner.all_windows(l).to_multiset() by {
            assert(v.inner.has(l) && put.inner.has(l));
            assert(v.inner.all_windows(l).to_multiset() == s.inner.all_windows(l).to_multiset());
            assert(put.inner.all_windows(l).to_multiset() == v.inner.all_windows(
                l,
            ).to_multiset());
        }
    }
}

/// A root without children gets two empty areas.
proof fn lemma_areas_on_bare(s: MasterView, layout: LayoutId)
    requires
        s.inner.wf(),
        s.inner.has(layout),
        s.forest().children(s.inner.root(layout)).len() == 0,
        s.forest().minted < u64::MAX,
    ensures
        ({
            let (t, master, stack) = s.with_areas(s.inner.root(layout));
            &&& divided(t, layout, master, stack, Seq::empty())
            &&& t.forest().minted == s.forest().minted + 2
            &&& t.forest().local_selection(s.inner.root(layout)) == s.forest().local_selection(
                s.inner.root(layout),
            )
        }),
{
    let root = s.inner.root(layout);
    assert(s.inner.roots.contains_key(layout));
    lemma_with_areas(s, root);
    reveal(MasterView::with_areas);
    let f0 = s.forest();
    let kind = LayoutKind::along(s.root_axis());
    let f = f0.with_kind(root, kind);
    homes::lemma_with_kind(f0, root, kind);
    let first = f.next_id();
    let g = f.with_new(Place::Last(root));
    proofs::lemma_created(f);
    proofs::lemma_with_new(f, Place::Last(root));
    assert(f.children(root) =~= Seq::empty());
    assert(g.children(root) =~= seq![first]);
    let second = g.next_id();
    let h = g.with_new(Place::Last(root));
    homes::lemma_with_new(f, Place::Last(root));
    proofs::lemma_created(g);
    proofs::lemma_with_new(g, Place::Last(root));
    assert(h.children(root) =~= seq![first, second]);
    assert(first != second);
    assert(h.window(first) is None && h.children(first).len() == 0);
    assert(h.window(second) is None && h.children(second).len() == 0);
    let (t, master, stack) = s.with_areas(root);
    let none = Seq::<WindowId>::empty();
    assert(none.take(0) =~= none && none.skip(0) =~= none);
    assert(rows::in_one_row(t.forest(), master, none));
    assert(rows::in_one_row(t.forest(), stack, none));
}

/// The state of the rebuild before the master area is brought to its size.
pub open spec fn refilled(s: MasterView, layout: LayoutId, windows: Seq<WindowId>) -> (
    MasterView,
    NodeId,
    NodeId,
) {
    let selected = s.inner.selected_window(layout);
    let root = s.inner.root(layout);
    let bare = s.with(s.forest().all_removed(s.forest().children(root)));
    let (v, master, stack) = bare.with_areas(root);
    let full = v.filled(layout, windows, master, stack, selected).rationed(root, master, stack);
    let chosen = match selected {
        Some(w) => MasterView { inner: full.inner.window_selected(layout, w), ..full },
        None => full,
    };
    (chosen, master, stack)
}

/// A layout made anew from a list of windows, the others as they were.
pub open spec fn renewed(
    s: MasterView,
    t: MasterView,
    layout: LayoutId,
    windows: Seq<WindowId>,
) -> bool {
    &&& t.inner.wf()
    &&& t.inner.roots == s.inner.roots
    &&& t.settings == s.settings
    &&& filed::filed(s.inner) ==> filed::filed(t.inner)
    &&& t.inner.all_windows(layout).to_multiset() == windows.to_multiset()
    &&& forall|l: LayoutId|
        s.inner.has(l) && l != layout ==> #[trigger] t.inner.all_windows(l).to_multiset()
            == s.inner.all_windows(l).to_multiset()
}

pub proof fn lemma_refilled(s: MasterView, layout: LayoutId, windows: Seq<WindowId>)
    requires
        s.inner.wf(),
        s.inner.has(layout),
        s.forest().minted + windows.len() + 2 <= u64::MAX,
    ensures
        ({
            let (t, master, stack) = refilled(s, layout, windows);
            &&& renewed(s, t, layout, windows)
            &&& divided(t, layout, master, stack, windows)
            &&& t.forest().minted == s.forest().minted + windows.len() + 2
            &&& filed::filed(s.inner) && s.inner.selected_window(layout) is Some
                && windows.contains(s.inner.selected_window(layout)->0)
                ==> t.inner.selected_window(layout) == s.inner.selected_window(layout)
            &&& s.inner.selected_window(layout) is None ==> t.inner.selected_window(layout) is None
        }),
{
    let f = s.forest();
    let root = s.inner.root(layout);
    let selected = s.inner.selected_window(layout);
    assert(s.inner.roots.contains_key(layout));
    let kids = f.children(root);
    rows::lemma_cleared(f, root, kids, kids.len() as int);
    assert(kids.take(kids.len() as int) =~= kids);
    assert(kids.skip(kids.len() as int) =~= Seq::empty());
    let h = f.all_removed(kids);
    filed::lemma_pruned(s.inner, h);
    arrivals::lemma_others_kept(s.inner, layout, h);
    let bare = s.with(h);
    arrivals::lemma_bare_selection(bare.inner, layout);
    lemma_areas_on_bare(bare, layout);
    lemma_with_areas(bare, root);
    let (v, master, stack) = bare.with_areas(root);
    lemma_filled(v, layout, windows, master, stack, selected);
    let full0 = v.filled(layout, windows, master, stack, selected);
    let full = full0.rationed(root, master, stack);
    lemma_dressed(full0, root, master, stack);
    lemma_settled(full0, full.forest());
    lemma_areas_home(full0, layout, master, stack, windows);
    let m = master_share(full0, windows.len());
    lemma_row_kept(full0.forest(), full.forest(), master, windows.take(m));
    lemma_row_kept(full0.forest(), full.forest(), stack, windows.skip(m));
    assert(divided(full, layout, master, stack, windows));
    let (t, _, _) = refilled(s, layout, windows);
    lemma_same(full);
    if selected is Some && full.forest().node_for(layout, selected->0) is Some {
        let n = full.forest().node_for(layout, selected->0)->0;
        lemma_divided_selecting(full, layout, master, stack, windows, n);
        assert(t == full.selecting(n));
    } else {
        assert(t == full);
    }
    assert(laws::keeps_windows(full.inner, t.inner));
    assert(bare.inner.has(layout) && v.inner.has(layout) && full0.inner.has(layout)
        && full.inner.has(layout));
    assert(v.inner.all_windows(layout).to_multiset() == bare.inner.all_windows(
        layout,
    ).to_multiset());
    assert(full.inner.all_windows(layout).to_multiset() == full0.inner.all_windows(
        layout,
    ).to_multiset());
    assert(t.inner.all_windows(layout).to_multiset() == full.inner.all_windows(
        layout,
    ).to_multiset());
    assert(t.inner.all_windows(layout).to_multiset() =~= windows.to_multiset()) by {
        broadcast use vstd::seq_lib::group_to_multiset_ensures;

        assert(Seq::<WindowId>::empty().to_multiset() =~= Multiset::empty());
    }
    if filed::filed(s.inner) && selected is Some && windows.contains(selected->0) {
        broadcast use vstd::seq_lib::group_to_multiset_ensures;

        assert(windows.to_multiset().contains(selected->0));
        assert(full.inner.all_windows(layout).contains(selected->0));
        arrivals::law_window_selected(full.inner, layout, selected->0);
    }
    if selected is None {
        assert(h.local_selection(root) is None) by {
            if h.local_selection(root) is Some {
                proofs::lemma_pick(h, root);
                proofs::lemma_node(h, root);
            }
        }
        assert(full.forest().local_selection(root) is None);
        proofs::lemma_node(full.forest(), root);
    }
    assert forall|l: LayoutId| s.inner.has(l) && l != layout implies #[trigger] t.inner.all_windows(
        l,
    ).to_multiset() == s.inner.all_windows(l).to_multiset() by {
        assert(bare.inner.has(l) && v.inner.has(l) && full0.inner.has(l) && full.inner.has(l));
        assert(bare.inner == s.inner.with_forest(h));
        assert(bare.inner.all_windows(l).to_multiset() == s.inner.all_windows(l).to_multiset());
        assert(v.inner.all_windows(l).to_multiset() == bare.inner.all_windows(l).to_multiset());
        assert(full0.inner.all_windows(l).to_multiset() == v.inner.all_windows(l).to_multiset());
        assert(full.inner.all_windows(l).to_multiset() == full0.inner.all_windows(
            l,
        ).to_multiset());
    }
}

/// A layout that is divided as the settings ask for lists its windows in order.
pub proof fn lemma_divided(
    s: MasterView,
    layout: LayoutId,
    master: NodeId,
    stack: NodeId,
    windows: Seq<WindowId>,
)
    requires
        divided(s, layout, master, stack, windows),
    ensures
        s.valid(layout),
        s.listing(layout) == windows,
        s.windows_in(master) == windows.take(master_share(s, windows.len())),
        s.windows_in(stack) == windows.skip(master_share(s, windows.len())),
{
    lemma_areas_home(s, layout, master, stack, windows);
    let f = s.forest();
    let m = master_share(s, windows.len());
    rows::lemma_row_windows(f, master, windows.take(m));
    rows::lemma_row_windows(f, stack, windows.skip(m));
    assert(windows.take(m) + windows.skip(m) =~= windows);
    assert(s.flat(master)) by {
        let kids = f.children(master);
        assert forall|i: int| 0 <= i < kids.len() implies f.window(#[trigger] kids[i]) is Some by {
            assert(f.window(f.children(master)[i]) == Some(windows.take(m)[i]));
        }
    }
    assert(s.flat(stack)) by {
        let kids = f.children(stack);
        assert forall|i: int| 0 <= i < kids.len() implies f.window(#[trigger] kids[i]) is Some by {
            assert(f.window(f.children(stack)[i]) == Some(windows.skip(m)[i]));
        }
    }
}

/// A master area of the right size is left as it is.
pub proof fn lemma_enforced_divided(
    s: MasterView,
    layout: LayoutId,
    master: NodeId,
    stack: NodeId,
    windows: Seq<WindowId>,
)
    requires
        divided(s, layout, master, stack, windows),
        s.settings.master_count > 0,
    ensures
        s.enforced(layout, master, stack, None) == s,
{
    lemma_divided(s, layout, master, stack, windows);
    law_enforced_in_order(s, layout, master, stack, None);
}

/// A layout that is made anew from a list of windows holds exactly these windows.
/// Other layouts keep theirs, and the index still agrees with the trees. If the
/// master area is to hold any windows, it holds the first ones of the list, as
/// many as the settings ask for, and the stack holds the others, in order.
pub proof fn law_rebuilt(s: MasterView, layout: LayoutId, windows: Seq<WindowId>)
    requires
        s.inner.wf(),
        s.inner.has(layout),
        s.forest().minted + windows.len() + 2 <= u64::MAX,
    ensures
        ({
            let t = s.rebuilt_with(layout, windows);
            &&& renewed(s, t, layout, windows)
            &&& t.forest().minted == s.forest().minted + windows.len() + 2
            &&& s.settings.master_count > 0 ==> {
                &&& t.valid(layout)
                &&& t.listing(layout) == windows
                &&& t.areas(layout, t.master_first()) is Some
                &&& t.windows_in((t.areas(layout, t.master_first())->0).0) == windows.take(
                    master_share(s, windows.len()),
                )
                &&& t.windows_in((t.areas(layout, t.master_first())->0).1) == windows.skip(
                    master_share(s, windows.len()),
                )
            }
        }),
{
    reveal(MasterView::rebuilt_with);
    let (u, master, stack) = refilled(s, layout, windows);
    lemma_refilled(s, layout, windows);
    let t = s.rebuilt_with(layout, windows);
    assert(t == u.enforced(layout, master, stack, None));
    law_enforced_keeps_windows(u, layout, master, stack, None);
    assert(u.inner.has(layout));
    assert(t.inner.all_windows(layout).to_multiset() == u.inner.all_windows(layout).to_multiset());
    assert forall|l: LayoutId| s.inner.has(l) && l != layout implies #[trigger] t.inner.all_windows(
        l,
    ).to_multiset() == s.inner.all_windows(l).to_multiset() by {
        assert(u.inner.has(l));
        assert(u.inner.all_windows(l).to_multiset() == s.inner.all_windows(l).to_multiset());
    }
    if s.settings.master_count > 0 {
        lemma_enforced_divided(u, layout, master, stack, windows);
        lemma_divided(u, layout, master, stack, windows);
        lemma_areas_home(u, layout, master, stack, windows);
    }
}

/// The windows of a layout, listed by area, are the windows of its tree.
pub proof fn law_listing(s: MasterView, layout: LayoutId)
    requires
        s.inner.wf(),
        s.inner.has(layout),
    ensures
        s.listing(layout).to_multiset() == s.inner.all_windows(layout).to_multiset(),
        s.listing(layout).len() == s.inner.all_windows(layout).len(),
        forall|first: bool|
            s.ordered(layout, first) is Some ==> (#[trigger] s.ordered(layout, first))->0
                .to_multiset() == s.inner.all_windows(layout).to_multiset(),
{
    let f = s.forest();
    let root = s.inner.root(layout);
    assert(s.inner.roots.contains_key(layout));
    let kids = f.children(root);
    if kids.len() == 2 {
        proofs::lemma_node(f, root);
        assert(f.nodes[root].children == kids);
        let a = f.preorder(kids[0]);
        let b = f.preorder(kids[1]);
        assert(f.live(kids[0]) && f.live(kids[1]));
        assert(f.preorder_below(root, 0) =~= Seq::empty());
        assert(f.preorder_below(root, 1) =~= a);
        assert(f.preorder_below(root, 2) =~= a + b);
        assert(f.preorder(root) =~= seq![root] + (a + b));
        homes::lemma_windows_of_concat(f, seq![root], a + b);
        homes::lemma_windows_of_concat(f, a, b);
        assert(seq![root].drop_last() =~= Seq::empty());
        assert(f.windows_of(Seq::<NodeId>::empty()) =~= Seq::empty());
        assert(f.windows_of(seq![root]) =~= Seq::empty());
        let x = f.windows_of(a);
        let y = f.windows_of(b);
        assert(s.inner.all_windows(layout) =~= x + y);
        vstd::seq_lib::lemma_multiset_commutative(x, y);
        vstd::seq_lib::lemma_multiset_commutative(y, x);
        assert(x.to_multiset().add(y.to_multiset()) =~= y.to_multiset().add(x.to_multiset()));
    }
    assert forall|first: bool| s.ordered(layout, first) is Some implies (#[trigger] s.ordered(
        layout,
        first,
    ))->0.to_multiset() == s.inner.all_windows(layout).to_multiset() by {}
}

/// A layout made anew from a reordering of its windows keeps them.
proof fn lemma_renewed(s: MasterView, t: MasterView, layout: LayoutId, windows: Seq<WindowId>)
    requires
        s.inner.has(layout),
        renewed(s, t, layout, windows),
        windows.to_multiset() == s.inner.all_windows(layout).to_multiset(),
    ensures
        laws::keeps_windows(s.inner, t.inner),
{
    assert forall|l: LayoutId| s.inner.has(l) implies #[trigger] t.inner.all_windows(
        l,
    ).to_multiset() == s.inner.all_windows(l).to_multiset() by {
        if l != layout {
            assert(t.inner.all_windows(l).to_multiset() == s.inner.all_windows(l).to_multiset());
        }
    }
}

/// The number of identifiers that putting a layout in order takes at most.
pub open spec fn room(s: MasterView, layout: LayoutId) -> nat {
    s.inner.all_windows(layout).len() + 4
}

/// A forest with the same windows and children.
pub open spec fn same_shape(f: ForestView, g: ForestView) -> bool {
    &&& g.minted == f.minted
    &&& forall|x: NodeId| #[trigger] g.window(x) == f.window(x)
    &&& forall|x: NodeId| #[trigger] g.children(x) == f.children(x)
}

proof fn lemma_kind_shape(f: ForestView, n: NodeId, kind: LayoutKind)
    ensures
        same_shape(f, f.with_kind(n, kind)),
{
}

/// Areas read the same in a forest of the same shape.
proof fn lemma_same_areas(v: MasterView, t: MasterView, layout: LayoutId)
    requires
        same_shape(v.forest(), t.forest()),
        t.inner.roots == v.inner.roots,
        t.settings == v.settings,
    ensures
        v.valid(layout) ==> t.valid(layout),
        t.areas(layout, t.master_first()) == v.areas(layout, v.master_first()),
{
    let f = v.forest();
    let g = t.forest();
    let root = v.inner.root(layout);
    assert(g.children(root) == f.children(root));
    if v.valid(layout) {
        let (a, b) = v.areas(layout, true)->0;
        assert(g.window(a) == f.window(a) && g.window(b) == f.window(b));
        assert(g.children(a) == f.children(a) && g.children(b) == f.children(b));
        lemma_flat_kept(v, t, a);
        lemma_flat_kept(v, t, b);
    }
}

/// The areas get the kinds and sizes that the settings ask for.
pub proof fn lemma_redressed(v: MasterView, layout: LayoutId, master: NodeId, stack: NodeId)
    requires
        v.inner.wf(),
        v.inner.has(layout),
    ensures
        ({
            let root = v.inner.root(layout);
            let t = v.with(
                v.forest().with_kind(root, LayoutKind::along(v.root_axis())),
            ).with_kinds(master, stack).rationed(root, master, stack);
            &&& homes::settled(v.forest(), t.forest())
            &&& same_shape(v.forest(), t.forest())
            &&& laws::keeps_windows(v.inner, t.inner)
            &&& t.inner.roots == v.inner.roots
            &&& t.settings == v.settings
            &&& t.forest().minted == v.forest().minted
            &&& v.valid(layout) ==> t.valid(layout)
            &&& t.areas(layout, t.master_first()) == v.areas(layout, v.master_first())
        }),
{
    let root = v.inner.root(layout);
    let f = v.forest();
    let f1 = f.with_kind(root, LayoutKind::along(v.root_axis()));
    lemma_kind_shape(f, root, LayoutKind::along(v.root_axis()));
    homes::lemma_with_kind(f, root, LayoutKind::along(v.root_axis()));
    let f2 = f1.with_kind(master, LayoutKind::along(v.master_axis()));
    lemma_kind_shape(f1, master, LayoutKind::along(v.master_axis()));
    homes::lemma_with_kind(f1, master, LayoutKind::along(v.master_axis()));
    homes::lemma_trans(f, f1, f2);
    let f3 = f2.with_kind(stack, LayoutKind::along(v.stack_axis()));
    lemma_kind_shape(f2, stack, LayoutKind::along(v.stack_axis()));
    homes::lemma_with_kind(f2, stack, LayoutKind::along(v.stack_axis()));
    homes::lemma_trans(f, f2, f3);
    let change = SizeChange::Rationed {
        parent: root,
        master,
        stack,
        ratio: v.settings.master_ratio,
    };
    let f4 = f3.noting(change);
    homes::lemma_noting(f3, change);
    homes::lemma_trans(f, f3, f4);
    let t = v.with(f1).with_kinds(master, stack).rationed(root, master, stack);
    assert(t == v.with(f4));
    lemma_settled(v, f4);
    assert(same_shape(f, f4)) by {
        assert forall|x: NodeId| #[trigger] f4.window(x) == f.window(x) by {
            assert(f4.window(x) == f3.window(x) && f3.window(x) == f2.window(x) && f2.window(x)
                == f1.window(x) && f1.window(x) == f.window(x));
        }
        assert forall|x: NodeId| #[trigger] f4.children(x) == f.children(x) by {
            assert(f4.children(x) == f3.children(x) && f3.children(x) == f2.children(x)
                && f2.children(x) == f1.children(x) && f1.children(x) == f.children(x));
        }
    }
    lemma_same_areas(v, t, layout);
}

proof fn lemma_flat_kept(v: MasterView, t: MasterView, a: NodeId)
    requires
        v.flat(a),
        t.forest().children(a) == v.forest().children(a),
        forall|x: NodeId| #[trigger] t.forest().window(x) == v.forest().window(x),
    ensures
        t.flat(a),
{
    let kids = t.forest().children(a);
    assert forall|i: int| 0 <= i < kids.len() implies t.forest().window(#[trigger] kids[i])
        is Some by {
        assert(v.forest().window(v.forest().children(a)[i]) is Some);
    }
}

/// Putting the areas of a layout in place keeps the windows of every layout. The
/// layout is valid then, if the master area is to hold any windows.
pub proof fn law_ensured(s: MasterView, layout: LayoutId)
    requires
        s.inner.wf(),
        s.inner.has(layout),
        s.forest().minted + room(s, layout) <= u64::MAX,
    ensures
        ({
            let (t, root, master, stack) = s.ensured(layout);
            &&& laws::keeps_windows(s.inner, t.inner)
            &&& t.inner.roots == s.inner.roots
            &&& t.settings == s.settings
            &&& t.forest().minted <= s.forest().minted + room(s, layout)
            &&& s.settings.master_count > 0 ==> {
                &&& t.valid(layout)
                &&& t.areas(layout, t.master_first()) == Some((master, stack))
            }
        }),
{
    reveal(MasterView::ensured);
    let root = s.inner.root(layout);
    assert(s.inner.roots.contains_key(layout));
    law_listing(s, layout);
    lemma_same(s);
    let v = if s.valid(layout) {
        s
    } else {
        s.rebuilt(layout)
    };
    if !s.valid(layout) {
        law_rebuilt(s, layout, s.listing(layout));
        lemma_renewed(s, v, layout, s.listing(layout));
    }
    assert(laws::keeps_windows(s.inner, v.inner));
    match v.areas(layout, v.master_first()) {
        Some((master, stack)) => {
            lemma_redressed(v, layout, master, stack);
            laws::lemma_trans(s.inner, v.inner, s.ensured(layout).0.inner);
        },
        None => {
            lemma_with_areas(v, root);
            let (w, master, stack) = v.with_areas(root);
            laws::lemma_trans(s.inner, v.inner, w.inner);
            lemma_dressed(w, root, master, stack);
            let t = w.rationed(root, master, stack);
            lemma_settled(w, t.forest());
            laws::lemma_trans(s.inner, w.inner, t.inner);
        },
    }
}

/// The windows of a container that holds nothing else.
pub proof fn lemma_flat_windows(s: MasterView, a: NodeId)
    requires
        s.inner.wf(),
        s.forest().live(a),
        s.forest().window(a) is None,
        s.flat(a),
    ensures
        s.windows_in(a) == Seq::new(
            s.forest().children(a).len(),
            |i: int| s.forest().window(s.forest().children(a)[i])->0,
        ),
{
    let f = s.forest();
    let kids = f.children(a);
    let row = Seq::new(kids.len(), |i: int| f.window(kids[i])->0);
    proofs::lemma_node(f, a);
    assert forall|i: int| 0 <= i < row.len() implies f.window(#[trigger] f.children(a)[i]) == Some(
        row[i],
    ) && f.children(f.children(a)[i]).len() == 0 by {
        assert(f.window(kids[i]) is Some);
        assert(f.nodes[a].children[i] == kids[i]);
        assert(f.live(kids[i]));
        proofs::lemma_node(f, kids[i]);
    }
    rows::lemma_row_windows(f, a, row);
}

/// Putting the areas of a layout in place keeps the order of its windows.
pub proof fn law_ensured_keeps_order(s: MasterView, layout: LayoutId)
    requires
        s.inner.wf(),
        s.inner.has(layout),
        s.settings.master_count > 0,
        s.forest().minted + room(s, layout) <= u64::MAX,
    ensures
        s.ensured(layout).0.listing(layout) == s.listing(layout),
        s.valid(layout) ==> {
            let kids = s.forest().children(s.inner.root(layout));
            let t = s.ensured(layout).0;
            &&& t.forest().children(s.inner.root(layout)) == kids
            &&& t.windows_in(kids[0]) == s.windows_in(kids[0])
            &&& t.windows_in(kids[1]) == s.windows_in(kids[1])
        },
{
    law_ensured(s, layout);
    law_listing(s, layout);
    reveal(MasterView::ensured);
    let v = if s.valid(layout) {
        s
    } else {
        s.rebuilt(layout)
    };
    if !s.valid(layout) {
        law_rebuilt(s, layout, s.listing(layout));
    }
    assert(v.inner.wf() && v.valid(layout) && v.listing(layout) == s.listing(layout));
    let t = s.ensured(layout).0;
    let (master, stack) = v.areas(layout, v.master_first())->0;
    lemma_redressed(v, layout, master, stack);
    lemma_valid_areas(v, layout, master, stack);
    lemma_valid_areas(t, layout, master, stack);
    let f = v.forest();
    let g = t.forest();
    assert(f.window(master) == g.window(master) && f.window(stack) == g.window(stack));
    assert forall|a: NodeId| a == master || a == stack implies #[trigger] t.windows_in(a)
        == v.windows_in(a) by {
        lemma_flat_windows(v, a);
        lemma_flat_windows(t, a);
        assert(g.children(a) == f.children(a));
        assert forall|i: int| 0 <= i < f.children(a).len() implies g.window(
            #[trigger] f.children(a)[i],
        ) == f.window(f.children(a)[i]) by {}
        assert(t.windows_in(a) =~= v.windows_in(a));
    }
    let root = s.inner.root(layout);
    assert(g.children(root) == f.children(root));
    assert(t.windows_in(master) == v.windows_in(master));
    assert(t.windows_in(stack) == v.windows_in(stack));
}

/// Bringing a layout in order keeps the windows of every layout.
pub proof fn law_normalized(s: MasterView, layout: LayoutId)
    requires
        s.inner.wf(),
        s.inner.has(layout),
        s.forest().minted + room(s, layout) <= u64::MAX,
    ensures
        laws::keeps_windows(s.inner, s.normalized(layout).inner),
        s.normalized(layout).inner.roots == s.inner.roots,
        s.normalized(layout).settings == s.settings,
        s.normalized(layout).forest().minted <= s.forest().minted + room(s, layout),
{
    reveal(MasterView::normalized);
    law_ensured(s, layout);
    let (v, _, master, stack) = s.ensured(layout);
    law_enforced_keeps_windows(v, layout, master, stack, None);
    laws::lemma_trans(s.inner, v.inner, s.normalized(layout).inner);
}

pub proof fn lemma_place_of(list: Seq<WindowId>, window: WindowId, from: int)
    requires
        0 <= from <= list.len(),
    ensures
        from <= view::place_of(list, window, from) <= list.len(),
        view::place_of(list, window, from) < list.len() ==> list[view::place_of(
            list,
            window,
            from,
        )] == window,
    decreases list.len() - from,
{
    if from < list.len() && list[from] != window {
        lemma_place_of(list, window, from + 1);
    }
}

/// What a list contains has a place in it.
pub proof fn lemma_placed(list: Seq<WindowId>, window: WindowId, from: int)
    requires
        0 <= from <= list.len(),
        list.skip(from).contains(window),
    ensures
        view::place_of(list, window, from) < list.len(),
    decreases list.len() - from,
{
    let i = choose|i: int| 0 <= i < list.skip(from).len() && list.skip(from)[i] == window;
    assert(list[from + i] == window);
    if list[from] != window {
        assert(list.skip(from + 1)[i - 1] == window);
        lemma_placed(list, window, from + 1);
    }
}

/// A rebuild of a layout that is in order, from a reordering of its windows.
proof fn lemma_reordered(s: MasterView, layout: LayoutId, v: MasterView, windows: Seq<WindowId>)
    requires
        s.inner.wf(),
        s.inner.has(layout),
        v == s.ensured(layout).0,
        s.forest().minted + 2 * room(s, layout) <= u64::MAX,
        windows.to_multiset() == v.listing(layout).to_multiset(),
    ensures
        laws::keeps_windows(s.inner, v.rebuilt_with(layout, windows).inner),
{
    broadcast use vstd::seq_lib::group_to_multiset_ensures;

    law_ensured(s, layout);
    law_listing(v, layout);
    assert(v.inner.all_windows(layout).to_multiset() == s.inner.all_windows(layout).to_multiset());
    assert(windows.to_multiset().len() == s.inner.all_windows(layout).to_multiset().len());
    law_rebuilt(v, layout, windows);
    let t = v.rebuilt_with(layout, windows);
    lemma_renewed(v, t, layout, windows);
    laws::lemma_trans(s.inner, v.inner, t.inner);
}

/// Promoting the focused window keeps the windows of every layout.
pub proof fn law_promote_keeps_windows(s: MasterView, layout: LayoutId)
    requires
        s.inner.wf(),
        s.inner.has(layout),
        s.forest().minted + 2 * room(s, layout) <= u64::MAX,
    ensures
        laws::keeps_windows(s.inner, s.promoted(layout).inner),
{
    broadcast use vstd::seq_lib::group_to_multiset_ensures;

    law_ensured(s, layout);
    let v = s.ensured(layout).0;
    if v.inner.selected_window(layout) is Some {
        let w = v.inner.selected_window(layout)->0;
        let windows = v.listing(layout);
        lemma_place_of(windows, w, 0);
        let i = view::place_of(windows, w, 0);
        if 0 < i < windows.len() {
            let rest = windows.remove(i);
            let order = rest.insert(0, w);
            assert(order.remove(0) =~= rest);
            assert(order[0] == w);
            assert(order.contains(w) && windows.contains(w));
            assert(order.to_multiset() =~= windows.to_multiset()) by {
                assert(order.remove(0).to_multiset() =~= order.to_multiset().remove(w));
                assert(windows.remove(i).to_multiset() =~= windows.to_multiset().remove(w));
            }
            lemma_reordered(s, layout, v, order);
        }
    }
}

/// Exchanging the focused windows of the areas keeps the windows of every layout.
pub proof fn law_area_swap_keeps_windows(s: MasterView, layout: LayoutId)
    requires
        s.inner.wf(),
        s.inner.has(layout),
        s.forest().minted + 2 * room(s, layout) <= u64::MAX,
    ensures
        laws::keeps_windows(s.inner, s.areas_swapped(layout).inner),
{
    law_ensured(s, layout);
    let (v, _, master, stack) = s.ensured(layout);
    match (v.area_focus(master), v.area_focus(stack)) {
        (Some(a), Some(b)) => {
            let windows = v.listing(layout);
            lemma_place_of(windows, a, 0);
            lemma_place_of(windows, b, 0);
            let i = view::place_of(windows, a, 0);
            let j = view::place_of(windows, b, 0);
            if i < windows.len() && j < windows.len() {
                systems::lemma_exchanged(windows, i, j);
                lemma_reordered(s, layout, v, view::exchanged(windows, i, j));
            }
        },
        _ => {},
    }
}

/// The windows after a move are those before it.
pub proof fn lemma_order_after(v: MasterView, layout: LayoutId, i: int, direction: Direction)
    requires
        v.focus_place(layout) == Some(i),
        v.order_exists(layout, i, direction),
        v.order_after(layout, i, direction) is Some,
    ensures
        (v.order_after(layout, i, direction)->0).to_multiset() == v.listing(layout).to_multiset(),
{
    broadcast use vstd::seq_lib::group_to_multiset_ensures;

    let windows = v.listing(layout);
    lemma_place_of(windows, v.inner.selected_window(layout)->0, 0);
    let count = v.settings.master_count as int;
    if 0 <= count - 1 < windows.len() {
        systems::lemma_exchanged(windows, i, count - 1);
    }
    systems::lemma_exchanged(windows, i, 0);
    if count < windows.len() {
        systems::lemma_exchanged(windows, i, count);
    }
    systems::lemma_exchanged(windows, i, windows.len() - 1);
    if i + 1 < windows.len() {
        systems::lemma_exchanged(windows, i, i + 1);
    }
    if i > 0 {
        systems::lemma_exchanged(windows, i, i - 1);
    }
    let rest = windows.remove(i);
    assert(windows.contains(windows[i]));
    assert(rest.push(windows[i]).to_multiset() =~= windows.to_multiset()) by {
        assert(rest.to_multiset() =~= windows.to_multiset().remove(windows[i]));
    }
}

/// Moving the selected window keeps the windows of every layout.
pub proof fn law_move_keeps_windows(s: MasterView, layout: LayoutId, direction: Direction)
    requires
        s.inner.wf(),
        s.inner.has(layout),
        s.shift_exists(layout, direction),
        s.forest().minted + 2 * room(s, layout) <= u64::MAX,
    ensures
        laws::keeps_windows(s.inner, s.selection_moved(layout, direction).inner),
{
    law_ensured(s, layout);
    let v = s.ensured(layout).0;
    if v.focus_place(layout) is Some {
        let i = v.focus_place(layout)->0;
        if v.order_after(layout, i, direction) is Some {
            lemma_order_after(v, layout, i, direction);
            lemma_reordered(s, layout, v, v.order_after(layout, i, direction)->0);
        }
    }
}

/// A valid layout has live areas below its root.
pub proof fn lemma_valid_areas(s: MasterView, layout: LayoutId, master: NodeId, stack: NodeId)
    requires
        s.inner.wf(),
        s.inner.has(layout),
        s.valid(layout),
        s.areas(layout, s.master_first()) == Some((master, stack)),
    ensures
        s.forest().live(master),
        s.forest().live(stack),
        s.forest().window(master) is None,
        s.forest().window(stack) is None,
        s.forest().home(master) == s.inner.root(layout),
        s.forest().home(stack) == s.inner.root(layout),
{
    let f = s.forest();
    let root = s.inner.root(layout);
    assert(s.inner.roots.contains_key(layout));
    let kids = f.children(root);
    proofs::lemma_node(f, root);
    assert(f.nodes[root].children == kids);
    assert(f.live(kids[0]) && f.live(kids[1]));
    homes::lemma_home(f, root);
    homes::lemma_home(f, kids[0]);
    homes::lemma_home(f, kids[1]);
}

/// A new window is put into the area.
pub proof fn lemma_entry(s: MasterView, layout: LayoutId, container: NodeId)
    requires
        s.inner.wf(),
        s.forest().live(container),
        s.forest().window(container) is None,
    ensures
        s.forest().open_place(s.entry(layout, container)),
        s.forest().place_parent(s.entry(layout, container)) == Some(container),
{
    let f = s.forest();
    if f.first_child(container) is Some {
        proofs::lemma_node(f, container);
        let c = f.children(container)[0];
        assert(f.nodes[container].children[0] == c);
    }
}

/// Adding a window to a layout adds it once, and to that layout only.
pub proof fn law_window_added(s: MasterView, layout: LayoutId, window: WindowId)
    requires
        s.inner.wf(),
        s.inner.has(layout),
        s.settings.master_count > 0,
        s.forest().minted + room(s, layout) < u64::MAX,
    ensures
        arrivals::arrived(s.inner, s.window_added(layout, window).inner, layout, window),
        s.window_added(layout, window).settings == s.settings,
        s.window_added(layout, window).forest().minted <= s.forest().minted + room(s, layout) + 1,
{
    reveal(MasterView::window_added);
    reveal(MasterView::settled);
    law_ensured(s, layout);
    let (v, _, master, stack) = s.ensured(layout);
    lemma_valid_areas(v, layout, master, stack);
    let target = v.target(layout, master, stack);
    assert(target == master || target == stack);
    let place = v.entry(layout, target);
    lemma_entry(v, layout, target);
    let f = v.forest();
    arrivals::lemma_window_entered(v.inner, layout, place, window, f.with_new(place));
    let put = MasterView { inner: v.inner.window_put(layout, place, window), ..v };
    arrivals::lemma_arrived_after(s.inner, v.inner, put.inner, layout, window);
    let n = f.next_id();
    let chosen = put.selecting(n);
    homes::lemma_selected(put.forest(), n);
    lemma_settled(put, put.forest().selected(n));
    arrivals::lemma_arrived_before(s.inner, put.inner, chosen.inner, layout, window);
    let keep = if target == master {
        Some(window)
    } else {
        None
    };
    law_enforced_keeps_windows(chosen, layout, master, stack, keep);
    law_enforced_keeps_windows(chosen, layout, master, stack, None);
    let kept = chosen.enforced(layout, master, stack, keep);
    let plain = chosen.enforced(layout, master, stack, None);
    lemma_sent_to_end(plain, layout, window);
    laws::lemma_trans(chosen.inner, plain.inner, plain.sent_to_end(layout, window).inner);
    let t = s.window_added(layout, window);
    assert(laws::keeps_windows(chosen.inner, t.inner));
    arrivals::lemma_arrived_before(s.inner, chosen.inner, t.inner, layout, window);
}

pub proof fn lemma_sent_to_end(s: MasterView, layout: LayoutId, window: WindowId)
    requires
        s.inner.wf(),
    ensures
        laws::keeps_windows(s.inner, s.sent_to_end(layout, window).inner),
        s.sent_to_end(layout, window).inner.roots == s.inner.roots,
        s.sent_to_end(layout, window).settings == s.settings,
        s.sent_to_end(layout, window).forest().minted == s.forest().minted,
{
    lemma_same(s);
    let f = s.forest();
    match f.node_for(layout, window) {
        Some(n) => match f.parent(n) {
            Some(p) => {
                let g = f.moved(n, Place::Last(p));
                homes::lemma_moved(f, n, Place::Last(p));
                proofs::lemma_moved(f, n, Place::Last(p));
                homes::lemma_selected(g, n);
                homes::lemma_trans(f, g, g.selected(n));
                lemma_settled(s, g.selected(n));
            },
            None => {},
        },
        None => {},
    }
}

/// A layout is put in order after a window has left it.
proof fn lemma_closed_up(s: MasterView, layout: LayoutId, windows: Seq<WindowId>, bound: nat)
    requires
        s.inner.wf(),
        s.inner.has(layout),
        windows.to_multiset() == s.inner.all_windows(layout).to_multiset(),
        s.inner.all_windows(layout).len() <= bound,
        s.forest().minted + bound + 4 <= u64::MAX,
    ensures
        ({
            let t = s.normalized_keeping(layout, windows);
            &&& laws::keeps_windows(s.inner, t.inner)
            &&& t.inner.roots == s.inner.roots
            &&& t.settings == s.settings
            &&& t.forest().minted <= s.forest().minted + bound + 4
        }),
{
    broadcast use vstd::seq_lib::group_to_multiset_ensures;

    vstd::seq_lib::to_multiset_len(windows);
    vstd::seq_lib::to_multiset_len(s.inner.all_windows(layout));
    assert(windows.len() == s.inner.all_windows(layout).len());
    law_normalized(s, layout);
    law_rebuilt(s, layout, windows);
    lemma_renewed(s, s.rebuilt_with(layout, windows), layout, windows);
}

/// Layouts are put in order, one after the other, after a window has left them.
proof fn lemma_all_closed_up(
    s: MasterView,
    before: MasterView,
    layouts: Seq<LayoutId>,
    window: WindowId,
    bound: nat,
)
    requires
        s.inner.wf(),
        before.inner.wf(),
        s.inner.roots == before.inner.roots,
        forall|i: int| 0 <= i < layouts.len() ==> s.inner.has(#[trigger] layouts[i]),
        forall|l: LayoutId|
            s.inner.has(l) ==> #[trigger] s.inner.all_windows(l).to_multiset()
                == before.inner.all_windows(l).filter(|v: WindowId| v != window).to_multiset(),
        forall|l: LayoutId| s.inner.has(l) ==> #[trigger] s.inner.all_windows(l).len() <= bound,
        s.forest().minted + layouts.len() * (bound + 4) <= u64::MAX,
    ensures
        ({
            let t = s.all_closed_up(before, layouts, window);
            &&& laws::keeps_windows(s.inner, t.inner)
            &&& t.inner.roots == s.inner.roots
            &&& t.settings == s.settings
            &&& t.forest().minted <= s.forest().minted + layouts.len() * (bound + 4)
        }),
    decreases layouts.len(),
{
    broadcast use vstd::seq_lib::group_to_multiset_ensures;

    lemma_same(s);
    if layouts.len() > 0 {
        let front = layouts.drop_last();
        let l = layouts.last();
        assert(layouts[layouts.len() - 1] == l);
        assert(layouts.len() * (bound + 4) == front.len() * (bound + 4) + (bound + 4))
            by (nonlinear_arith)
            requires
                layouts.len() == front.len() + 1,
        ;
        assert forall|i: int| 0 <= i < front.len() implies s.inner.has(#[trigger] front[i]) by {
            assert(layouts[i] == front[i]);
        }
        lemma_all_closed_up(s, before, front, window, bound);
        let u = s.all_closed_up(before, front, window);
        let other = |v: WindowId| v != window;
        let list = view::without(before.listing(l), window);
        law_listing(before, l);
        assert(before.inner.has(l) && u.inner.has(l));
        lemma_filter_same(before.listing(l), before.inner.all_windows(l), other);
        lemma_without(before.listing(l), window, other);
        assert(u.inner.all_windows(l).to_multiset() == s.inner.all_windows(l).to_multiset());
        assert(s.inner.all_windows(l).to_multiset() == before.inner.all_windows(l).filter(
            other,
        ).to_multiset());
        vstd::seq_lib::to_multiset_len(u.inner.all_windows(l));
        vstd::seq_lib::to_multiset_len(s.inner.all_windows(l));
        lemma_closed_up(u, l, list, bound);
        laws::lemma_trans(s.inner, u.inner, u.normalized_keeping(l, list).inner);
    }
}

proof fn lemma_without(
    list: Seq<WindowId>,
    window: WindowId,
    other: spec_fn(WindowId) -> bool,
)
    requires
        forall|w: WindowId| #[trigger] other(w) == (w != window),
    ensures
        view::without(list, window) == list.filter(other),
    decreases list.len(),
{
    reveal(Seq::filter);
    if list.len() > 0 {
        lemma_without(list.drop_last(), window, other);
        assert(other(list.last()) == (list.last() != window));
    }
}

/// Lists with the same members keep the same members through a filter.
proof fn lemma_filter_same(
    a: Seq<WindowId>,
    b: Seq<WindowId>,
    keep: spec_fn(WindowId) -> bool,
)
    requires
        a.to_multiset() == b.to_multiset(),
    ensures
        a.filter(keep).to_multiset() == b.filter(keep).to_multiset(),
{
    assert forall|w: WindowId| a.filter(keep).to_multiset().count(w) == b.filter(
        keep,
    ).to_multiset().count(w) by {
        systems::lemma_filter_count(a, keep, w);
        systems::lemma_filter_count(b, keep, w);
    }
    assert(a.filter(keep).to_multiset() =~= b.filter(keep).to_multiset());
}

/// Removing a window takes it out of every layout and leaves the other windows.
/// No layout may hold more windows than `bound`, which limits how many nodes are
/// made when the layouts are put in order.
pub proof fn law_window_removed(s: MasterView, window: WindowId, bound: nat)
    requires
        s.inner.wf(),
        filed::filed(s.inner),
        forall|l: LayoutId| s.inner.has(l) ==> #[trigger] s.inner.all_windows(l).len() <= bound,
        s.forest().minted + s.holders(window).len() * (bound + 4) <= u64::MAX,
    ensures
        filed::thinned(s.inner, s.window_removed(window).inner, |v: WindowId| v != window),
{
    broadcast use vstd::seq_lib::group_to_multiset_ensures;

    let other = |v: WindowId| v != window;
    filed::law_window_removed(s.inner, window);
    let u = s.with(s.forest().window_removed(window));
    let layouts = s.holders(window);
    assert forall|i: int| 0 <= i < layouts.len() implies u.inner.has(#[trigger] layouts[i]) by {
        broadcast use vstd::seq_lib::group_filter_ensures;

        let test = |l: LayoutId| s.inner.has(l);
        assert(test(s.inner.layouts_for(window).filter(test)[i]));
    }
    assert forall|l: LayoutId| u.inner.has(l) implies #[trigger] u.inner.all_windows(l).len()
        <= bound by {
        assert(s.inner.has(l));
        assert(u.inner.all_windows(l).to_multiset() == s.inner.all_windows(l).filter(
            other,
        ).to_multiset());
        assert(u.inner.all_windows(l).to_multiset().len() == s.inner.all_windows(l).filter(
            other,
        ).to_multiset().len());
        s.inner.all_windows(l).lemma_filter_len(other);
        assert(s.inner.all_windows(l).len() <= bound);
    }
    assert forall|l: LayoutId| u.inner.has(l) implies #[trigger] u.inner.all_windows(
        l,
    ).to_multiset() == s.inner.all_windows(l).filter(other).to_multiset() by {
        assert(s.inner.has(l));
    }
    filed::lemma_removed_minted(s.inner, window);
    lemma_all_closed_up(u, s, layouts, window, bound);
    let t = s.window_removed(window);
    assert(laws::keeps_windows(u.inner, t.inner));
    assert forall|l: LayoutId| s.inner.has(l) implies #[trigger] t.inner.all_windows(
        l,
    ).to_multiset() == s.inner.all_windows(l).filter(other).to_multiset() by {
        assert(u.inner.has(l));
        assert(u.inner.all_windows(l).to_multiset() == s.inner.all_windows(l).filter(
            other,
        ).to_multiset());
    }
}

/// Adding windows one after the other. `bound` limits how many windows the layout
/// holds in the end.
proof fn lemma_all_added(s: MasterView, layout: LayoutId, ws: Seq<WindowId>, bound: nat)
    requires
        s.inner.wf(),
        filed::filed(s.inner),
        s.inner.has(layout),
        s.settings.master_count > 0,
        s.inner.all_windows(layout).len() + ws.len() <= bound,
        s.forest().minted + ws.len() * (bound + 5) <= u64::MAX,
    ensures
        ({
            let t = s.windows_added(layout, ws);
            &&& membership::all_arrived(s.inner, t.inner, layout, ws.to_multiset())
            &&& t.settings == s.settings
            &&& t.forest().minted <= s.forest().minted + ws.len() * (bound + 5)
        }),
    decreases ws.len(),
{
    broadcast use vstd::seq_lib::group_to_multiset_ensures;

    if ws.len() == 0 {
        assert(s.inner.all_windows(layout).to_multiset().add(ws.to_multiset())
            =~= s.inner.all_windows(layout).to_multiset());
    } else {
        let front = ws.drop_last();
        let w = ws.last();
        assert(front.push(w) =~= ws);
        assert(ws.len() * (bound + 5) == front.len() * (bound + 5) + (bound + 5))
            by (nonlinear_arith)
            requires
                ws.len() == front.len() + 1,
        ;
        lemma_all_added(s, layout, front, bound);
        let v = s.windows_added(layout, front);
        vstd::seq_lib::to_multiset_len(v.inner.all_windows(layout));
        vstd::seq_lib::to_multiset_len(s.inner.all_windows(layout));
        vstd::seq_lib::to_multiset_len(front);
        assert(v.inner.all_windows(layout).len() == s.inner.all_windows(layout).len()
            + front.len());
        law_window_added(v, layout, w);
        let t = v.window_added(layout, w);
        assert(v.inner.has(layout));
        assert(t.inner.all_windows(layout).to_multiset() == v.inner.all_windows(
            layout,
        ).to_multiset().insert(w));
        assert(t.inner.all_windows(layout).to_multiset() =~= s.inner.all_windows(
            layout,
        ).to_multiset().add(ws.to_multiset()));
        assert forall|l: LayoutId| s.inner.has(l) && l != layout implies #[trigger] t.inner.all_windows(
            l,
        ).to_multiset() == s.inner.all_windows(l).to_multiset() by {
            assert(v.inner.has(l));
            assert(v.inner.all_windows(l).to_multiset() == s.inner.all_windows(l).to_multiset());
        }
    }
}

/// After the windows of a process were set, a layout holds exactly the wanted
/// windows of the process. Other windows and other layouts keep what they had.
/// A window that covers the screen is not dismissed, so none that does may be
/// unwanted once the areas are in place. `bound` limits how many windows the
/// layout holds at any time.
pub proof fn law_windows_set(
    s: MasterView,
    layout: LayoutId,
    pid: Pid,
    desired: Seq<WindowId>,
    bound: nat,
)
    requires
        s.inner.wf(),
        filed::filed(s.inner),
        s.inner.has(layout),
        s.settings.master_count > 0,
        forall|w: WindowId| #[trigger]
            membership::covering(s.ensured(layout).0.inner, layout, w) && w.pid == pid
                ==> desired.contains(w),
        s.inner.all_windows(layout).len() + desired.len() <= bound,
        s.forest().minted + (desired.len() + 1) * (bound + 5) <= u64::MAX,
    ensures
        membership::reconciled(
            s.inner,
            s.app_set(layout, pid, desired).inner,
            layout,
            pid,
            desired,
        ),
{
    broadcast use vstd::seq_lib::group_to_multiset_ensures;

    assert((desired.len() + 1) * (bound + 5) == desired.len() * (bound + 5) + (bound + 5))
        by (nonlinear_arith);
    assert(desired.len() * (bound + 5) >= 0) by (nonlinear_arith);
    law_ensured(s, layout);
    let (v, _, master, stack) = s.ensured(layout);
    let current = v.inner.app_windows(layout, pid);
    let gone = systems::missing_from(current, desired);
    let added = systems::newcomers(pid, current, desired);
    membership::lemma_unwanted_dismissed(v.inner, layout, pid, desired);
    let m = MasterView { inner: v.inner.windows_dismissed(layout, gone), ..v };
    systems::lemma_newcomers(pid, current, desired, WindowId { pid, idx: 0 });
    assert(added.len() * (bound + 5) <= desired.len() * (bound + 5)) by (nonlinear_arith)
        requires
            added.len() <= desired.len(),
    ;
    vstd::seq_lib::to_multiset_len(m.inner.all_windows(layout));
    vstd::seq_lib::to_multiset_len(v.inner.all_windows(layout));
    vstd::seq_lib::to_multiset_len(s.inner.all_windows(layout));
    assert(v.inner.all_windows(layout).to_multiset() == s.inner.all_windows(layout).to_multiset());
    assert(m.inner.all_windows(layout).to_multiset().add(gone.to_multiset()).len()
        == v.inner.all_windows(layout).to_multiset().len());
    assert(m.inner.all_windows(layout).len() <= s.inner.all_windows(layout).len());
    lemma_all_added(m, layout, added, bound);
    let u = m.windows_added(layout, added);
    membership::lemma_gone_and_come(v.inner, m.inner, u.inner, layout, pid, desired);
    law_enforced_keeps_windows(u, layout, master, stack, None);
    membership::lemma_reconciled_between(
        s.inner,
        v.inner,
        u.inner,
        s.app_set(layout, pid, desired).inner,
        layout,
        pid,
        desired,
    );
}

} // verus!
