//! What a workspace shows when it comes to a display.

use vstd::prelude::*;

use crate::actor::{LayoutId, WindowId};
use crate::layout_engine::systems::floating::system::FloatingLayoutSystem;
use crate::layout_engine::systems::floating::view::FloatView;
use crate::layout_engine::systems::master_stack::laws as master_laws;
use crate::layout_engine::systems::master_stack::system::MasterStackLayoutSystem;
use crate::layout_engine::systems::master_stack::view::MasterView;
use crate::layout_engine::systems::scrolling::system::{ScrollingLayoutSystem, ScrollingView};
use crate::layout_engine::systems::stack::laws as stack_laws;
use crate::layout_engine::systems::stack::{StackLayoutSystem, StackView};
use crate::layout_engine::systems::traditional::lifecycle;
use crate::layout_engine::systems::traditional::system::TraditionalLayoutSystem;
use crate::layout_engine::systems::traditional::view::TraditionalView;
use crate::layout_engine::systems::LayoutSystem;
use crate::layout_engine::workspaces::view;
use crate::layout_engine::workspaces::view::{LayoutsView, Size};
use crate::model::window_store::view::WindowWorkspaceInfo;

verus! {

/// The layout that a workspace has for displays of a size.
pub open spec fn layout_for(m: LayoutsView, at: WindowWorkspaceInfo, size: Size) -> Option<
    LayoutId,
> {
    if m.contains_key(at) && m[at].configurations.contains_key(size) {
        Some(m[at].configurations[size])
    } else {
        None
    }
}

/// The layout that a workspace uses.
pub open spec fn in_use(m: LayoutsView, at: WindowWorkspaceInfo) -> Option<LayoutId> {
    if m.contains_key(at) {
        layout_for(m, at, m[at].active_size)
    } else {
        None
    }
}

/// The layout that a workspace saved last.
pub open spec fn saved(m: LayoutsView, at: WindowWorkspaceInfo) -> Option<LayoutId> {
    if m.contains_key(at) {
        m[at].last_saved
    } else {
        None
    }
}

/// The layout after which a workspace gets one for a display that it has none for: the
/// one it uses, else the one it saved last.
pub open spec fn model_for(m: LayoutsView, at: WindowWorkspaceInfo) -> Option<LayoutId> {
    if in_use(m, at) is Some {
        in_use(m, at)
    } else {
        saved(m, at)
    }
}

/// A workspace that comes to a display uses afterwards the layout it has for that size,
/// and the system of layouts is left alone. One that has none uses a copy of the layout
/// that it used, else of the one that it saved last; only one that had neither uses a
/// new layout.
pub proof fn law_shown<T: LayoutSystem>(
    tree: T::V,
    m: LayoutsView,
    at: WindowWorkspaceInfo,
    size: Size,
    layout: LayoutId,
)
    requires
        layout_for(m, at, size) is Some ==> layout == layout_for(m, at, size)->0,
    ensures
        ({
            let after = view::settled(m, at, size, layout);
            let served = view::served::<T>(tree, view::info_at(m, at, size).source(size), layout);
            &&& in_use(after, at) == Some(layout)
            &&& after[at].active_size == size
            &&& layout_for(m, at, size) is Some ==> served == tree && saved(after, at) == Some(
                layout,
            )
            &&& forall|other: Size|
                other != size ==> #[trigger] layout_for(after, at, other) == layout_for(m, at, other)
            &&& layout_for(m, at, size) is None ==> {
                &&& saved(after, at) == saved(m, at)
                &&& served == match model_for(m, at) {
                    Some(model) => T::with_copy(tree, model, layout),
                    None => T::with_fresh(tree, layout),
                }
            }
        }),
{
}

/// A tree layout that a workspace uses on a new display holds the windows of the one
/// that it used before, in order, and the other layouts keep theirs. Only a workspace
/// that had no layout shows no windows.
pub proof fn law_tree_shown(
    s: TraditionalView,
    m: LayoutsView,
    at: WindowWorkspaceInfo,
    size: Size,
    layout: LayoutId,
)
    requires
        s.wf(),
        layout.issued(),
        !s.has(layout),
        layout_for(m, at, size) is None,
        model_for(m, at) matches Some(model) ==> s.has(model) && s.forest.minted
            + s.forest.preorder(s.root(model)).len() <= u64::MAX,
        s.forest.minted <= u64::MAX,
    ensures
        ({
            let source = view::info_at(m, at, size).source(size);
            let t = view::served::<TraditionalLayoutSystem>(s, source, layout);
            let after = view::settled(m, at, size, layout);
            &&& in_use(after, at) == Some(layout)
            &&& t.has(layout)
            &&& t.all_windows(layout) == match model_for(m, at) {
                Some(model) => s.all_windows(model),
                None => Seq::<WindowId>::empty(),
            }
            &&& lifecycle::others_keep(s, t)
        }),
{
    law_shown::<TraditionalLayoutSystem>(s, m, at, size, layout);
    match model_for(m, at) {
        Some(model) => lifecycle::law_cloned(s, model, layout),
        None => lifecycle::law_created(s, layout),
    }
}

/// A copy of a floating layout holds the same windows in the same order, and every
/// window keeps its frame.
pub proof fn law_floating_copied(s: FloatView, layout: LayoutId, copy: LayoutId)
    requires
        s.inner.wf(),
        s.inner.has(layout),
        !s.inner.has(copy),
        copy.issued(),
        s.inner.forest.minted + s.inner.forest.preorder(s.inner.root(layout)).len() <= u64::MAX,
    ensures
        ({
            let t = <FloatingLayoutSystem as LayoutSystem>::with_copy(s, layout, copy);
            &&& t.inner.all_windows(copy) == s.inner.all_windows(layout)
            &&& t.frames == s.frames
            &&& t.independent == s.independent
        }),
{
    lifecycle::law_cloned(s.inner, layout, copy);
}

/// A copy of a strip holds the same windows in the same columns, with the same one
/// selected. A new strip is empty.
pub proof fn law_strip_copied(s: ScrollingView, layout: LayoutId, copy: LayoutId)
    ensures
        ({
            let t = <ScrollingLayoutSystem as LayoutSystem>::with_copy(s, layout, copy);
            &&& t.strips.contains_key(copy)
            &&& s.strips.contains_key(layout) ==> {
                &&& t.strips[copy].columns == s.strips[layout].columns
                &&& t.strips[copy].selected == s.strips[layout].selected
            }
            &&& forall|l: LayoutId|
                s.strips.contains_key(l) && l != copy ==> #[trigger] t.strips[l] == s.strips[l]
        }),
        ({
            let t = <ScrollingLayoutSystem as LayoutSystem>::with_fresh(s, copy);
            &&& t.strips.contains_key(copy)
            &&& t.strips[copy].columns.len() == 0
        }),
{
}

/// A copy of a stack holds the same windows in the same order.
pub proof fn law_stack_copied(s: StackView, layout: LayoutId, copy: LayoutId)
    requires
        s.inner.wf(),
        s.inner.has(layout),
        !s.inner.has(copy),
        copy.issued(),
        s.inner.forest.minted + s.inner.forest.preorder(s.inner.root(layout)).len()
            + s.inner.all_windows(layout).len() <= u64::MAX,
    ensures
        <StackLayoutSystem as LayoutSystem>::with_copy(s, layout, copy).inner.all_windows(
            copy,
        ) == s.inner.all_windows(layout),
{
    lifecycle::law_cloned(s.inner, layout, copy);
    let t = StackView { inner: s.inner.with_clone(layout, copy), ..s };
    lifecycle::lemma_cloned_minted(s.inner, layout, copy);
    stack_laws::law_normalized(t, copy);
}

/// A copy of a master-stack layout holds the same windows, each as often.
pub proof fn law_master_copied(s: MasterView, layout: LayoutId, copy: LayoutId)
    requires
        s.inner.wf(),
        s.inner.has(layout),
        !s.inner.has(copy),
        copy.issued(),
        s.forest().minted + s.forest().preorder(s.inner.root(layout)).len() + master_laws::room(
            s,
            layout,
        ) <= u64::MAX,
    ensures
        <MasterStackLayoutSystem as LayoutSystem>::with_copy(s, layout, copy).inner.all_windows(
            copy,
        ).to_multiset() == s.inner.all_windows(layout).to_multiset(),
{
    lifecycle::law_cloned(s.inner, layout, copy);
    let t = MasterView { inner: s.inner.with_clone(layout, copy), ..s };
    lifecycle::lemma_cloned_minted(s.inner, layout, copy);
    master_laws::law_normalized(t, copy);
}

} // verus!
