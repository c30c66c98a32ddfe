//! The systems that arrange windows.

use vstd::multiset::Multiset;
use vstd::prelude::*;

use crate::actor::{LayoutId, Pid, WindowId};

pub mod arrangement;
pub mod floating;
pub mod groups;
pub mod layout_roots;
pub mod master_stack;
pub mod navigation;
pub mod scrolling;
pub mod snapshot;
pub mod stack;
pub mod traditional;

verus! {

/// A system that makes layouts.
pub trait LayoutSystem: View {
    /// What holds of a system between calls.
    spec fn ready(&self) -> bool;

    /// The layouts that a system has.
    spec fn known_layouts(system: Self::V) -> Set<LayoutId>;

    /// Whether a layout can be copied.
    spec fn copyable(system: Self::V, layout: LayoutId) -> bool;

    /// The system with a new layout.
    spec fn with_fresh(system: Self::V, layout: LayoutId) -> Self::V;

    /// The system with a copy of a layout.
    spec fn with_copy(system: Self::V, source: LayoutId, layout: LayoutId) -> Self::V;

    fn create_layout(&mut self) -> (r: LayoutId)
        requires
            old(self).ready(),
            Self::known_layouts(old(self)@).len() < 4294967294,
        ensures
            final(self).ready(),
            !Self::known_layouts(old(self)@).contains(r),
            Self::known_layouts(final(self)@) == Self::known_layouts(old(self)@).insert(r),
            final(self)@ == Self::with_fresh(old(self)@, r),
            forall|l: LayoutId| #[trigger]
                Self::copyable(old(self)@, l) ==> Self::copyable(final(self)@, l),
    ;

    fn clone_layout(&mut self, layout: LayoutId) -> (r: LayoutId)
        requires
            old(self).ready(),
            Self::copyable(old(self)@, layout),
            Self::known_layouts(old(self)@).len() < 4294967294,
        ensures
            final(self).ready(),
            !Self::known_layouts(old(self)@).contains(r),
            Self::known_layouts(final(self)@) == Self::known_layouts(old(self)@).insert(r),
            final(self)@ == Self::with_copy(old(self)@, layout, r),
            forall|l: LayoutId| #[trigger]
                Self::copyable(old(self)@, l) ==> Self::copyable(final(self)@, l),
    ;

    /// A system has finitely many layouts, and can copy each of them.
    proof fn layouts_known(&self)
        requires
            self.ready(),
        ensures
            Self::known_layouts(self@).finite(),
            forall|l: LayoutId| #[trigger]
                Self::known_layouts(self@).contains(l) ==> Self::copyable(self@, l),
    ;
}

/// What has to happen for a layout to hold the windows that a process has.
pub struct MembershipDelta {
    pub removals: Vec<WindowId>,
    pub additions: Vec<WindowId>,
}

/// The windows of `list` that are not in `other`.
pub open spec fn missing_from(list: Seq<WindowId>, other: Seq<WindowId>) -> Seq<WindowId> {
    list.filter(|w: WindowId| !other.contains(w))
}

/// The windows of a process in `desired`, each once, that are not in `current`.
pub open spec fn newcomers(pid: Pid, current: Seq<WindowId>, desired: Seq<WindowId>) -> Seq<
    WindowId,
>
    decreases desired.len(),
{
    if desired.len() == 0 {
        Seq::empty()
    } else {
        let rest = newcomers(pid, current, desired.drop_last());
        let w = desired.last();
        if w.pid == pid && !current.contains(w) && !rest.contains(w) {
            rest.push(w)
        } else {
            rest
        }
    }
}

/// Whether a list holds a window.
pub fn holds(list: &Vec<WindowId>, window: WindowId) -> (r: bool)
    ensures
        r == list@.contains(window),
{
    let mut i: usize = 0;
    while i < list.len()
        invariant
            i <= list.len(),
            forall|j: int| 0 <= j < i ==> list@[j] != window,
        decreases list.len() - i,
    {
        if list[i] == window {
            return true;
        }
        i += 1;
    }
    false
}

/// Compares the windows that a layout holds of a process with those it should
/// hold. Removals keep the order of `current`, additions that of `desired`.
pub fn reconcile_app_membership(
    pid: Pid,
    current: Vec<WindowId>,
    desired: Vec<WindowId>,
) -> (r: MembershipDelta)
    ensures
        r.removals@ == missing_from(current@, desired@),
        r.additions@ == newcomers(pid, current@, desired@),
{
    let ghost gone = |w: WindowId| !desired@.contains(w);
    let mut removals: Vec<WindowId> = Vec::new();
    let mut i: usize = 0;
    while i < current.len()
        invariant
            i <= current.len(),
            gone == (|w: WindowId| !desired@.contains(w)),
            removals@ == current@.take(i as int).filter(gone),
        decreases current.len() - i,
    {
        proof {
            assert(current@.take(i + 1).drop_last() =~= current@.take(i as int));
            reveal(Seq::filter);
        }
        let w = current[i];
        if !holds(&desired, w) {
            removals.push(w);
        }
        i += 1;
    }
    assert(current@.take(i as int) =~= current@);
    let mut additions: Vec<WindowId> = Vec::new();
    let mut k: usize = 0;
    assert(desired@.take(0) =~= Seq::empty());
    while k < desired.len()
        invariant
            k <= desired.len(),
            additions@ == newcomers(pid, current@, desired@.take(k as int)),
        decreases desired.len() - k,
    {
        assert(desired@.take(k + 1).drop_last() =~= desired@.take(k as int));
        let w = desired[k];
        if w.pid == pid && !holds(&current, w) && !holds(&additions, w) {
            additions.push(w);
        }
        k += 1;
    }
    assert(desired@.take(k as int) =~= desired@);
    MembershipDelta { removals, additions }
}

/// A filter keeps every occurrence of what passes it.
pub proof fn lemma_filter_count(
    list: Seq<WindowId>,
    keep: spec_fn(WindowId) -> bool,
    w: WindowId,
)
    ensures
        list.filter(keep).to_multiset().count(w) == (if keep(w) {
            list.to_multiset().count(w)
        } else {
            0
        }),
    decreases list.len(),
{
    broadcast use vstd::seq_lib::group_to_multiset_ensures;

    reveal(Seq::filter);
    if list.len() > 0 {
        let front = list.drop_last();
        lemma_filter_count(front, keep, w);
        assert(front.push(list.last()) =~= list);
        if keep(list.last()) {
            assert(list.filter(keep) == front.filter(keep).push(list.last()));
        } else {
            assert(list.filter(keep) == front.filter(keep));
        }
    } else {
        assert(list.filter(keep) =~= list);
    }
}

/// The windows that a process has and a layout lacks.
pub proof fn lemma_newcomers(pid: Pid, current: Seq<WindowId>, desired: Seq<WindowId>, w: WindowId)
    ensures
        newcomers(pid, current, desired).contains(w) <==> w.pid == pid
            && desired.contains(w) && !current.contains(w),
        newcomers(pid, current, desired).len() <= desired.len(),
        newcomers(pid, current, desired).no_duplicates(),
    decreases desired.len(),
{
    if desired.len() > 0 {
        let front = desired.drop_last();
        let last = desired.last();
        lemma_newcomers(pid, current, front, w);
        lemma_newcomers(pid, current, front, last);
        let rest = newcomers(pid, current, front);
        let all = newcomers(pid, current, desired);
        assert(desired.contains(w) <==> front.contains(w) || w == last) by {
            if desired.contains(w) {
                let i = choose|i: int| 0 <= i < desired.len() && desired[i] == w;
                if i < front.len() {
                    assert(front[i] == w);
                }
            }
            if front.contains(w) {
                let i = choose|i: int| 0 <= i < front.len() && front[i] == w;
                assert(desired[i] == w);
            }
            assert(desired[desired.len() - 1] == last);
        }
        if all != rest {
            assert(all == rest.push(last));
            assert(all[rest.len() as int] == last);
            if rest.contains(w) {
                let i = choose|i: int| 0 <= i < rest.len() && rest[i] == w;
                assert(all[i] == w);
            }
            if all.contains(w) {
                let i = choose|i: int| 0 <= i < all.len() && all[i] == w;
                if i < rest.len() {
                    assert(rest[i] == w);
                }
            }
        }
    }
}

/// Exchanging two members of a list keeps its members.
pub proof fn lemma_exchanged<T>(list: Seq<T>, i: int, j: int)
    requires
        0 <= i < list.len(),
        0 <= j < list.len(),
    ensures
        list.update(i, list[j]).update(j, list[i]).to_multiset() == list.to_multiset(),
{
    broadcast use vstd::seq_lib::group_to_multiset_ensures;

    let once = list.update(i, list[j]);
    let twice = list.update(i, list[j]).update(j, list[i]);
    lemma_update_multiset(list, i, list[j]);
    lemma_update_multiset(once, j, list[i]);
    if i == j {
        assert(twice =~= list);
    } else {
        assert(twice.to_multiset() =~= list.to_multiset()) by {
            assert forall|v: T| twice.to_multiset().count(v) == list.to_multiset().count(v) by {
                let a = Multiset::singleton(list[i]);
                let b = Multiset::singleton(list[j]);
                assert(twice.to_multiset().add(b).add(a).count(v) == list.to_multiset().add(b).add(
                    a,
                ).count(v)) by {
                    assert(twice.to_multiset().add(b) == once.to_multiset().add(a));
                    assert(once.to_multiset().add(a) == list.to_multiset().add(b));
                }
            }
        }
    }
}

/// Putting another member in the place of one.
pub proof fn lemma_update_multiset<T>(list: Seq<T>, i: int, x: T)
    requires
        0 <= i < list.len(),
    ensures
        list.update(i, x).to_multiset().add(Multiset::singleton(list[i])) == list.to_multiset().add(
            Multiset::singleton(x),
        ),
{
    broadcast use vstd::seq_lib::group_to_multiset_ensures;

    let changed = list.update(i, x);
    assert(changed.remove(i) =~= list.remove(i));
    assert(list.contains(list[i]));
    assert(changed[i] == x);
    assert(changed.contains(x));
    assert(changed.to_multiset() =~= changed.remove(i).to_multiset().insert(x));
    assert(list.to_multiset() =~= list.remove(i).to_multiset().insert(list[i]));
    assert(changed.to_multiset().add(Multiset::singleton(list[i])) =~= list.to_multiset().add(
        Multiset::singleton(x),
    ));
}

} // verus!
