//! Windows that go from one layout to another.

use vstd::prelude::*;

use crate::actor::LayoutId;
use crate::layout_engine::systems::traditional::arrivals;
use crate::layout_engine::systems::traditional::view::TraditionalView;
use crate::model::tree::homes;
use crate::model::tree::kept;
use crate::model::tree::proofs;
use crate::model::tree::view;
use crate::model::tree::view::{ForestView, NodeId, Place};

verus! {

/// Where nodes belong after a child was hung up in another tree.
proof fn lemma_shifted_home(s: ForestView, n: NodeId, place: Place, x: NodeId)
    requires
        s.wf(),
        s.can_move(n, place),
        s.live(x),
    ensures
        s.shifted(n, place).live(x),
        s.shifted(n, place).home(x) == (if s.above(n, x) {
            s.home(s.place_parent(place)->0)
        } else {
            s.home(x)
        }),
    decreases view::depth(s.shifted(n, place).nodes, x),
{
    let t = s.shifted(n, place);
    let p = s.place_parent(place)->0;
    proofs::lemma_shifted(s, n, place);
    proofs::lemma_detached(s, n);
    assert(t.nodes.dom().contains(x));
    homes::lemma_home(s, x);
    homes::lemma_home(t, x);
    proofs::lemma_above_step(s, n, x);
    proofs::lemma_node(t, x);
    if x == n {
        lemma_shifted_home(s, n, place, p);
    } else {
        let loose = s.detached(n);
        assert(t.parent(x) == loose.parent(x));
        assert(loose.parent(x) == s.parent(x));
        if s.parent(x) is Some {
            proofs::lemma_node(s, x);
            lemma_shifted_home(s, n, place, s.parent(x)->0);
        }
    }
}

/// Sending the selection of a layout to another one moves windows from the first
/// to the second: together they hold the same windows as before, and all other
/// layouts keep theirs.
pub proof fn law_sent(s: TraditionalView, from: LayoutId, to: LayoutId)
    requires
        s.wf(),
        s.has(from),
        s.has(to),
        from != to,
    ensures
        ({
            let t = s.sent(from, to);
            &&& t.wf()
            &&& t.roots == s.roots
            &&& t.all_windows(from).to_multiset().add(t.all_windows(to).to_multiset())
                == s.all_windows(from).to_multiset().add(s.all_windows(to).to_multiset())
            &&& forall|l: LayoutId|
                s.has(l) && l != from && l != to ==> #[trigger] t.all_windows(l).to_multiset()
                    == s.all_windows(l).to_multiset()
        }),
{
    let f = s.forest;
    let t = s.sent(from, to);
    let g = t.forest;
    let n = s.selection(from);
    let target = s.selection(to);
    let rf = s.root(from);
    let rt = s.root(to);
    assert(s.roots.contains_key(from) && s.roots.contains_key(to));
    arrivals::lemma_selected_below(f, rf);
    arrivals::lemma_selected_below(f, rt);
    homes::lemma_home(f, rf);
    homes::lemma_home(f, rt);
    homes::lemma_home(f, target);
    proofs::lemma_node(f, target);
    let place = if f.parent(target) is None {
        Place::Last(target)
    } else {
        Place::After(target)
    };
    homes::lemma_refl(f);
    if f.parent(n) is Some {
        lemma_sent_facts(f, n, place, rf, rt);
        let h = f.grafted(n, place);
        let p = f.parent(n)->0;
        homes::lemma_path_selected(h, n, p);
        homes::lemma_refl(h);
        assert(g == h || g == h.path_selected(n, p));
        assert(homes::settled(h, g));
        kept::lemma_trans(f, h, g);
        assert forall|x: NodeId| (#[trigger] f.window(x)) is Some implies g.window(x) == f.window(x)
            && (g.home(x) == f.home(x) || (f.home(x) == rf && g.home(x) == rt)) by {
            assert(h.window(x) == f.window(x));
            assert(h.live(x) && g.live(x));
            assert(g.home(x) == h.home(x));
        }
    } else {
        assert(g == f);
        assert(kept::rearranged(f, g));
    }
    kept::lemma_roots(f, g);
    assert forall|l: LayoutId| #[trigger] t.roots.contains_key(l) implies {
        &&& l.issued()
        &&& g.live(t.roots[l])
        &&& g.parent(t.roots[l]) is None
        &&& g.window(t.roots[l]) is None
    } by {
        assert(s.roots.contains_key(l));
        assert(f.live(s.roots[l]));
    }
    assert(rf != rt);
    assert forall|l: LayoutId| s.has(l) && l != from && l != to implies #[trigger] t.all_windows(
        l,
    ).to_multiset() == s.all_windows(l).to_multiset() by {
        let r = s.root(l);
        assert(s.roots.contains_key(l) && t.roots.contains_key(l));
        assert(s.roots[l] != s.roots[from] && s.roots[l] != s.roots[to]);
        assert forall|x: NodeId| #[trigger] homes::shown_in(f, r, x) == homes::shown_in(
            g,
            r,
            x,
        ) by {
            if g.window(x) is Some {
                assert(f.window(x) == g.window(x));
            }
            if f.window(x) is Some {
                assert(g.window(x) == f.window(x));
            }
        }
        homes::lemma_same_windows(f, r, g, r);
    }
    assert(t.roots.contains_key(from) && t.roots.contains_key(to));
    lemma_pair(f, g, rf, rt);
}

/// Together two trees show the windows that they showed before.
proof fn lemma_pair(f: ForestView, g: ForestView, rf: NodeId, rt: NodeId)
    requires
        f.wf(),
        g.wf(),
        f.live(rf) && f.parent(rf) is None && g.live(rf) && g.parent(rf) is None,
        f.live(rt) && f.parent(rt) is None && g.live(rt) && g.parent(rt) is None,
        rf != rt,
        forall|x: NodeId|
            (#[trigger] f.window(x)) is Some ==> g.window(x) == f.window(x) && (g.home(x) == f.home(
                x,
            ) || (f.home(x) == rf && g.home(x) == rt)),
        forall|x: NodeId| (#[trigger] g.window(x)) is Some ==> f.window(x) == g.window(x),
    ensures
        g.windows_under(rf).to_multiset().add(g.windows_under(rt).to_multiset())
            == f.windows_under(rf).to_multiset().add(f.windows_under(rt).to_multiset()),
{
    let a = f.preorder(rf) + f.preorder(rt);
    let b = g.preorder(rf) + g.preorder(rt);
    lemma_both(f, rf, rt);
    lemma_both(g, rf, rt);
    assert forall|x: NodeId| #[trigger] homes::same_showing(f, a, g, b, x) by {
        if f.window(x) is Some {
            assert(g.window(x) == f.window(x));
        }
        if g.window(x) is Some {
            assert(f.window(x) == g.window(x));
        }
        assert(a.contains(x) && f.window(x) is Some <==> homes::shown_in(f, rf, x)
            || homes::shown_in(f, rt, x));
        assert(b.contains(x) && g.window(x) is Some <==> homes::shown_in(g, rf, x)
            || homes::shown_in(g, rt, x));
    }
    homes::lemma_census_same(f, a, g, b);
    homes::lemma_windows_of_concat(f, f.preorder(rf), f.preorder(rt));
    homes::lemma_windows_of_concat(g, g.preorder(rf), g.preorder(rt));
    vstd::seq_lib::lemma_multiset_commutative(f.windows_under(rf), f.windows_under(rt));
    vstd::seq_lib::lemma_multiset_commutative(g.windows_under(rf), g.windows_under(rt));
}

/// The traversals of two trees, one after the other.
proof fn lemma_both(f: ForestView, rf: NodeId, rt: NodeId)
    requires
        f.wf(),
        f.live(rf) && f.parent(rf) is None,
        f.live(rt) && f.parent(rt) is None,
        rf != rt,
    ensures
        (f.preorder(rf) + f.preorder(rt)).no_duplicates(),
        forall|x: NodeId|
            ((#[trigger] (f.preorder(rf) + f.preorder(rt)).contains(x)) && f.window(x) is Some)
                == (homes::shown_in(f, rf, x) || homes::shown_in(f, rt, x)),
{
    let a = f.preorder(rf);
    let b = f.preorder(rt);
    let all = a + b;
    homes::lemma_shown_in(f, rf, rf);
    homes::lemma_shown_in(f, rt, rt);
    assert forall|x: NodeId| all.contains(x) <==> a.contains(x) || b.contains(x) by {
        if all.contains(x) {
            let i = choose|i: int| 0 <= i < all.len() && all[i] == x;
            if i < a.len() {
                assert(a[i] == x);
            } else {
                assert(b[i - a.len()] == x);
            }
        }
        if a.contains(x) {
            let i = choose|i: int| 0 <= i < a.len() && a[i] == x;
            assert(all[i] == x);
        }
        if b.contains(x) {
            let i = choose|i: int| 0 <= i < b.len() && b[i] == x;
            assert(all[a.len() + i] == x);
        }
    }
    assert forall|i: int, j: int| 0 <= i < all.len() && 0 <= j < all.len() && i != j implies all[i]
        != all[j] by {
        if i < a.len() && j >= a.len() {
            assert(a.contains(a[i]) && b.contains(b[j - a.len()]));
            homes::lemma_shown_in(f, rf, all[i]);
            homes::lemma_shown_in(f, rt, all[j]);
        } else if j < a.len() && i >= a.len() {
            assert(a.contains(a[j]) && b.contains(b[i - a.len()]));
            homes::lemma_shown_in(f, rf, all[j]);
            homes::lemma_shown_in(f, rt, all[i]);
        }
    }
    assert forall|x: NodeId|
        ((#[trigger] all.contains(x)) && f.window(x) is Some) == (homes::shown_in(f, rf, x)
            || homes::shown_in(f, rt, x)) by {
        homes::lemma_shown_in(f, rf, x);
        homes::lemma_shown_in(f, rt, x);
    }
}

/// What hanging up a child in another tree does to the windows.
proof fn lemma_sent_facts(f: ForestView, n: NodeId, place: Place, rf: NodeId, rt: NodeId)
    requires
        f.wf(),
        f.parent(n) is Some,
        f.home(n) == rf,
        f.place_parent(place) is Some ==> f.home(f.place_parent(place)->0) == rt,
    ensures
        ({
            let h = f.grafted(n, place);
            &&& h.wf()
            &&& kept::rearranged(f, h)
            &&& forall|x: NodeId|
                (#[trigger] f.window(x)) is Some ==> h.home(x) == f.home(x) || (f.home(x) == rf
                    && h.home(x) == rt)
        }),
{
    let h = f.grafted(n, place);
    proofs::lemma_moved(f, n, place);
    kept::lemma_moved(f, n, place);
    if f.can_move(n, place) {
        let u = f.shifted(n, place);
        let p = f.parent(n)->0;
        proofs::lemma_shifted(f, n, place);
        kept::lemma_shifted(f, n, place);
        proofs::lemma_node(f, n);
        assert(u.window(p) is None) by {
            if u.window(p) is Some {
                assert(f.window(p) == u.window(p));
            }
        }
        homes::lemma_collapsed(u, p);
        assert forall|x: NodeId| (#[trigger] f.window(x)) is Some implies h.home(x) == f.home(x)
            || (f.home(x) == rf && h.home(x) == rt) by {
            lemma_shifted_home(f, n, place, x);
            assert(u.window(x) == f.window(x));
            assert(h.window(x) == f.window(x));
            assert(u.live(x) && h.live(x));
            assert(h.home(x) == u.home(x));
            if f.above(n, x) {
                homes::lemma_above_home(f, n, x);
            }
        }
    }
}

} // verus!
