//! The tree layout system.

use vstd::prelude::*;

use crate::actor::{LayoutId, Pid, WindowId};
use crate::common::config::{StackDefaultOrientation, WindowInsertionPoint};
use crate::layout_engine::systems::LayoutSystem;
use crate::layout_engine::systems::groups::GroupInfo;
use crate::layout_engine::systems::groups;
use crate::layout_engine::systems::layout_roots::LayoutRoots;
use crate::layout_engine::systems::navigation::Coverage;
use crate::layout_engine::systems::navigation;
use crate::layout_engine::systems::snapshot::{RoleEntry, TreeSnapshot};
use crate::layout_engine::systems::traditional::edits;
use crate::layout_engine::systems::traditional::view::TraditionalView;
use crate::layout_engine::systems;
use crate::layout_engine::{Direction, LayoutKind, Orientation, ResizeOrientation};
use crate::model::tree::forest::Forest;
use crate::model::tree::kept;
use crate::model::tree::proofs;
use crate::model::tree::view::{ForestView, NodeId, Place, SizeChange};
use crate::model::tree::view;

verus! {

/// Layouts whose windows are arranged by a tree of containers.
pub struct TraditionalLayoutSystem {
    tree: Forest,
    layout_roots: LayoutRoots,
    window_insertion_point: WindowInsertionPoint,
    equalize_nodes: bool,
}

impl View for TraditionalLayoutSystem {
    type V = TraditionalView;

    closed spec fn view(&self) -> TraditionalView {
        TraditionalView {
            forest: self.tree@,
            roots: self.layout_roots@,
            point: self.window_insertion_point,
            equalize: self.equalize_nodes,
        }
    }
}

impl Default for TraditionalLayoutSystem {
    fn default() -> (r: TraditionalLayoutSystem)
        ensures
            r.wf(),
            r@ == TraditionalView::fresh(WindowInsertionPoint::NextToSelection, true),
    {
        TraditionalLayoutSystem::new(WindowInsertionPoint::NextToSelection, true)
    }
}

impl TraditionalLayoutSystem {
    pub open spec fn wf(&self) -> bool {
        self@.wf()
    }

    /// A system without layouts.
    pub fn new(window_insertion_point: WindowInsertionPoint, equalize_nodes: bool) -> (r: Self)
        ensures
            r.wf(),
            r@ == TraditionalView::fresh(window_insertion_point, equalize_nodes),
    {
        let r = TraditionalLayoutSystem {
            tree: Forest::new(),
            layout_roots: LayoutRoots::new(),
            window_insertion_point,
            equalize_nodes,
        };
        assert(r@.roots =~= Map::empty());
        r
    }

    pub fn set_window_insertion_point(&mut self, value: WindowInsertionPoint)
        requires
            old(self).wf(),
        ensures
            final(self).wf(),
            final(self)@ == (TraditionalView { point: value, ..old(self)@ }),
    {
        self.window_insertion_point = value;
    }

    pub fn set_equalize_nodes(&mut self, value: bool)
        requires
            old(self).wf(),
        ensures
            final(self).wf(),
            final(self)@ == (TraditionalView { equalize: value, ..old(self)@ }),
    {
        self.equalize_nodes = value;
    }

    pub fn window_insertion_point(&self) -> (r: WindowInsertionPoint)
        ensures
            r == self@.point,
    {
        self.window_insertion_point
    }

    /// How many layouts there are.
    pub fn layout_count(&self) -> (r: usize)
        ensures
            r == self@.roots.dom().len(),
    {
        self.layout_roots.len()
    }

    pub fn contains_layout(&self, layout: LayoutId) -> (r: bool)
        requires
            self.wf(),
        ensures
            r == self@.has(layout),
    {
        layout.is_issued() && self.layout_roots.get(layout).is_some()
    }

    /// The layouts, in an order that the table chooses.
    pub fn layouts(&self) -> (r: Vec<LayoutId>)
        ensures
            r@.no_duplicates(),
            forall|l: LayoutId| r@.contains(l) <==> self@.has(l),
    {
        self.layout_roots.keys()
    }

    /// The child that a container leads to or remembers.
    pub fn local_selection(&self, node: NodeId) -> (r: Option<NodeId>)
        ensures
            r == self@.forest.last_selection(node),
    {
        self.tree.last_selection(node)
    }

    pub fn root(&self, layout: LayoutId) -> (r: NodeId)
        requires
            self.wf(),
            self@.has(layout),
        ensures
            r == self@.root(layout),
            self@.forest.live(r),
            self@.forest.parent(r) is None,
            self@.forest.window(r) is None,
    {
        assert(self@.roots.contains_key(layout));
        self.layout_roots.get(layout).unwrap()
    }

    pub fn selection(&self, layout: LayoutId) -> (r: NodeId)
        requires
            self.wf(),
            self@.has(layout),
        ensures
            r == self@.selection(layout),
    {
        self.tree.selected_below(self.root(layout))
    }

    /// Hands out the size steps noted so far, oldest first.
    pub fn take_size_changes(&mut self) -> (r: Vec<SizeChange>)
        requires
            old(self).wf(),
        ensures
            final(self).wf(),
            r@ == old(self)@.forest.changes,
            final(self)@ == old(self)@.with_forest(
                (ForestView { changes: Seq::empty(), ..old(self)@.forest }),
            ),
    {
        self.tree.take_size_changes()
    }

    // ----- queries -----

    pub fn window_at(&self, node: NodeId) -> (r: Option<WindowId>)
        ensures
            r == self@.forest.window(node),
    {
        self.tree.window_at(node)
    }

    pub fn layout(&self, node: NodeId) -> (r: LayoutKind)
        ensures
            r == self@.forest.kind(node),
    {
        self.tree.kind(node)
    }

    pub fn window_node(&self, layout: LayoutId, wid: WindowId) -> (r: Option<NodeId>)
        ensures
            r == self@.forest.node_for(layout, wid),
    {
        self.tree.node_for(layout, wid)
    }

    pub fn contains_window(&self, layout: LayoutId, wid: WindowId) -> (r: bool)
        ensures
            r == (self@.forest.node_for(layout, wid) is Some),
    {
        self.tree.node_for(layout, wid).is_some()
    }

    /// The stacks on the way to the selection, from the top down. None where
    /// something on the way covers the screen.
    pub fn collect_group_containers_in_selection_path(&self, layout: LayoutId) -> (r: Vec<
        GroupInfo,
    >)
        requires
            self.wf(),
            self@.has(layout),
        ensures
            groups::describe_all(
                r@,
                self@.forest,
                self@.forest.groups_on_path(self@.root(layout)),
            ),
    {
        self.tree.groups_on_path(self.root(layout))
    }

    /// The root and the nodes that lead from it to the selection.
    pub fn lead_path(&self, layout: LayoutId) -> (r: Vec<NodeId>)
        requires
            self.wf(),
            self@.has(layout),
        ensures
            r@ == self@.forest.lead_path(self@.root(layout)),
    {
        self.tree.lead_path(self.root(layout))
    }

    /// All stacks in view, parents before children.
    pub fn collect_group_containers(&self, layout: LayoutId) -> (r: Vec<GroupInfo>)
        requires
            self.wf(),
            self@.has(layout),
        ensures
            groups::describe_all(r@, self@.forest, self@.forest.groups_below(self@.root(layout))),
    {
        self.tree.groups_below(self.root(layout))
    }

    /// A picture of the layout.
    pub fn container_tree(&self, layout: LayoutId) -> (r: TreeSnapshot)
        requires
            self.wf(),
            self@.has(layout),
        ensures
            r.shows(self@.forest, self@.root(layout), self@.selection(layout), Seq::empty()),
    {
        let roles: Vec<RoleEntry> = Vec::new();
        assert(roles@ =~= Seq::empty());
        self.container_tree_with_roles(layout, &roles)
    }

    /// A picture of the layout, with roles of containers.
    pub fn container_tree_with_roles(&self, layout: LayoutId, roles: &Vec<RoleEntry>) -> (r:
        TreeSnapshot)
        requires
            self.wf(),
            self@.has(layout),
        ensures
            r.shows(self@.forest, self@.root(layout), self@.selection(layout), roles@),
    {
        self.tree.snapshot(self.root(layout), self.selection(layout), roles)
    }

    pub fn contains_any_window(&self, wid: WindowId) -> (r: bool)
        ensures
            r == (self@.forest.entries_for(wid).len() > 0),
    {
        self.tree.entries_for(wid).len() > 0
    }

    /// The layouts that a window was added to, in the order of its nodes.
    pub fn layouts_for_window(&self, wid: WindowId) -> (r: Vec<LayoutId>)
        ensures
            r@ == self@.layouts_for(wid),
    {
        let entries = self.tree.entries_for(wid);
        let mut out: Vec<LayoutId> = Vec::new();
        let mut i: usize = 0;
        while i < entries.len()
            invariant
                i <= entries.len(),
                out@.len() == i,
                forall|j: int| 0 <= j < i ==> out@[j] == entries@[j].layout,
            decreases entries.len() - i,
        {
            out.push(entries[i].layout);
            i += 1;
        }
        assert(out@ =~= self@.layouts_for(wid));
        out
    }

    /// Whether all stacks around a window of a layout lead towards it.
    pub fn window_is_visible(&self, layout: LayoutId, wid: WindowId) -> (r: bool)
        requires
            self.wf(),
        ensures
            r == match self@.forest.node_for(layout, wid) {
                Some(n) => self@.forest.on_display(n),
                None => false,
            },
    {
        match self.tree.node_for(layout, wid) {
            Some(n) => self.tree.is_on_display(n),
            None => false,
        }
    }

    pub fn selected_window(&self, layout: LayoutId) -> (r: Option<WindowId>)
        requires
            self.wf(),
            self@.has(layout),
        ensures
            r == self@.selected_window(layout),
    {
        self.tree.window_at(self.selection(layout))
    }

    pub fn all_windows_in_layout(&self, layout: LayoutId) -> (r: Vec<WindowId>)
        requires
            self.wf(),
            self@.has(layout),
        ensures
            r@ == self@.all_windows(layout),
    {
        self.tree.windows_under(self.root(layout))
    }

    pub fn windows_for_app(&self, layout: LayoutId, pid: Pid) -> (r: Vec<WindowId>)
        requires
            self.wf(),
            self@.has(layout),
        ensures
            r@ == self@.app_windows(layout, pid),
    {
        let all = self.all_windows_in_layout(layout);
        let ghost own = |w: WindowId| w.pid == pid;
        let mut out: Vec<WindowId> = Vec::new();
        let mut i: usize = 0;
        while i < all.len()
            invariant
                i <= all.len(),
                own == (|w: WindowId| w.pid == pid),
                out@ == all@.take(i as int).filter(own),
            decreases all.len() - i,
        {
            proof {
                assert(all@.take(i + 1).drop_last() =~= all@.take(i as int));
                reveal(Seq::filter);
            }
            if all[i].pid == pid {
                out.push(all[i]);
            }
            i += 1;
        }
        assert(all@.take(i as int) =~= all@);
        out
    }

    pub fn has_windows_for_app(&self, layout: LayoutId, pid: Pid) -> (r: bool)
        requires
            self.wf(),
            self@.has(layout),
        ensures
            r == (self@.app_windows(layout, pid).len() > 0),
    {
        self.windows_for_app(layout, pid).len() > 0
    }

    pub fn visible_windows_in_layout(&self, layout: LayoutId) -> (r: Vec<WindowId>)
        requires
            self.wf(),
            self@.has(layout),
        ensures
            r@ == self@.forest.visible(self@.root(layout)),
    {
        self.tree.visible_windows(self.root(layout))
    }

    pub fn visible_windows_under_selection(&self, layout: LayoutId) -> (r: Vec<WindowId>)
        requires
            self.wf(),
            self@.has(layout),
        ensures
            r@ == self@.forest.visible(self@.selection(layout)),
    {
        self.tree.visible_windows(self.selection(layout))
    }

    /// The first window of a layout when entered forwards, the last one when
    /// entered backwards.
    pub fn window_in_direction(&self, layout: LayoutId, direction: Direction) -> (r: Option<
        WindowId,
    >)
        requires
            self.wf(),
            self@.has(layout),
        ensures
            r == self@.first_met(layout, direction),
    {
        let all = self.all_windows_in_layout(layout);
        if all.len() == 0 {
            None
        } else if direction.forward() {
            Some(all[0])
        } else {
            Some(all[all.len() - 1])
        }
    }

    pub fn has_any_fullscreen_node(&self, layout: LayoutId) -> (r: bool)
        requires
            self.wf(),
            self@.has(layout),
        ensures
            r == self@.has_fullscreen(layout),
    {
        let nodes = self.tree.preorder(self.root(layout));
        let mut i: usize = 0;
        while i < nodes.len()
            invariant
                i <= nodes.len(),
                nodes@ == self@.forest.preorder(self@.root(layout)),
                forall|j: int| 0 <= j < i ==> !self@.forest.covers(#[trigger] nodes@[j]),
            decreases nodes.len() - i,
        {
            let info = self.tree.info(nodes[i]);
            if info.is_fullscreen || info.is_fullscreen_within_gaps {
                assert(self@.forest.covers(nodes@[i as int]));
                return true;
            }
            i += 1;
        }
        false
    }

    /// How much of the screen a node covers, by itself or with an ancestor.
    pub fn coverage(&self, node: NodeId) -> (r: Coverage)
        requires
            self.wf(),
        ensures
            r == self@.forest.coverage(node),
    {
        self.tree.coverage(node)
    }

    pub fn parent_of_selection_is_stacked(&self, layout: LayoutId) -> (r: bool)
        requires
            self.wf(),
            self@.has(layout),
        ensures
            r == (self@.unstacking_target(layout) is Some),
    {
        self.unstacking_target(layout).is_some()
    }

    fn unstacking_target(&self, layout: LayoutId) -> (r: Option<NodeId>)
        requires
            self.wf(),
            self@.has(layout),
        ensures
            r == self@.unstacking_target(layout),
    {
        let n = self.selection(layout);
        if self.tree.window_at(n).is_some() {
            self.tree.stack_above(n)
        } else if self.tree.kind(n).is_stacked() {
            Some(n)
        } else {
            self.tree.stack_below(n)
        }
    }

    // ----- layouts -----

    /// Adds a layout without windows.
    pub fn create_layout(&mut self) -> (r: LayoutId)
        requires
            old(self).wf(),
            old(self)@.roots.dom().len() < 4294967294,
        ensures
            final(self).wf(),
            !old(self)@.has(r),
            final(self)@ == old(self)@.with_layout(r),
    {
        let root = self.tree.create();
        let r = self.layout_roots.insert(root);
        assert(self@.wf()) by {
            assert forall|l: LayoutId| #[trigger] self@.roots.contains_key(l) implies {
                &&& l.issued()
                &&& self@.forest.live(self@.roots[l])
                &&& self@.forest.parent(self@.roots[l]) is None
                &&& self@.forest.window(self@.roots[l]) is None
            } by {
                if l != r {
                    assert(old(self)@.roots.contains_key(l));
                }
            }
        }
        r
    }

    /// Adds a layout that is a copy of another one, with the same windows.
    pub fn clone_layout(&mut self, layout: LayoutId) -> (r: LayoutId)
        requires
            old(self).wf(),
            old(self)@.has(layout),
            old(self)@.roots.dom().len() < 4294967294,
        ensures
            final(self).wf(),
            !old(self)@.has(r),
            final(self)@ == old(self)@.with_clone(layout, r),
    {
        let source = self.root(layout);
        let copy = self.tree.next_id();
        let r = self.layout_roots.insert(copy);
        self.tree.copy_tree(source, r);
        assert(self@.wf()) by {
            assert forall|l: LayoutId| #[trigger] self@.roots.contains_key(l) implies {
                &&& l.issued()
                &&& self@.forest.live(self@.roots[l])
                &&& self@.forest.parent(self@.roots[l]) is None
                &&& self@.forest.window(self@.roots[l]) is None
            } by {
                if l != r {
                    assert(old(self)@.roots.contains_key(l));
                    assert(old(self)@.forest.live(old(self)@.roots[l]));
                }
            }
            assert forall|l: LayoutId| #[trigger] old(self)@.roots.contains_key(l) implies old(
                self,
            )@.roots[l] != copy by {
                proofs::lemma_node(old(self)@.forest, old(self)@.roots[l]);
            }
        }
        r
    }

    /// Removes a layout with its tree.
    pub fn remove_layout(&mut self, layout: LayoutId)
        requires
            old(self).wf(),
            old(self)@.has(layout),
        ensures
            final(self).wf(),
            final(self)@ == old(self)@.without_layout(layout),
    {
        let root = self.root(layout);
        let _ = self.layout_roots.remove(layout);
        self.tree.fell(root);
        assert(self@.wf()) by {
            assert forall|l: LayoutId| #[trigger] self@.roots.contains_key(l) implies {
                &&& l.issued()
                &&& self@.forest.live(self@.roots[l])
                &&& self@.forest.parent(self@.roots[l]) is None
                &&& self@.forest.window(self@.roots[l]) is None
            } by {
                assert(old(self)@.roots.contains_key(l));
                assert(old(self)@.forest.live(old(self)@.roots[l]));
            }
        }
    }

    // ----- selection -----

    pub fn select(&mut self, node: NodeId)
        requires
            old(self).wf(),
        ensures
            final(self).wf(),
            final(self)@ == old(self)@.with_forest(old(self)@.forest.selected(node)),
    {
        self.tree.select(node);
    }

    /// Selects a window of a layout. Says whether it is there.
    pub fn select_window(&mut self, layout: LayoutId, wid: WindowId) -> (r: bool)
        requires
            old(self).wf(),
        ensures
            final(self).wf(),
            r == (old(self)@.forest.node_for(layout, wid) is Some),
            final(self)@ == old(self)@.window_selected(layout, wid),
    {
        match self.tree.node_for(layout, wid) {
            Some(n) => {
                self.tree.select(n);
                true
            },
            None => false,
        }
    }

    /// Moves the selection to its parent. Says whether there is one.
    pub fn ascend_selection(&mut self, layout: LayoutId) -> (r: bool)
        requires
            old(self).wf(),
            old(self)@.has(layout),
        ensures
            final(self).wf(),
            r == (old(self)@.forest.parent(old(self)@.selection(layout)) is Some),
            final(self)@ == old(self)@.ascended(layout),
    {
        match self.tree.parent(self.selection(layout)) {
            Some(p) => {
                self.tree.select(p);
                true
            },
            None => false,
        }
    }

    /// Moves the selection to the child that it remembers. Says whether there is one.
    pub fn descend_selection(&mut self, layout: LayoutId) -> (r: bool)
        requires
            old(self).wf(),
            old(self)@.has(layout),
        ensures
            final(self).wf(),
            r == (old(self)@.forest.last_selection(old(self)@.selection(layout)) is Some),
            final(self)@ == old(self)@.descended(layout),
    {
        match self.tree.last_selection(self.selection(layout)) {
            Some(c) => {
                self.tree.select(c);
                true
            },
            None => false,
        }
    }

    /// Moves focus in a direction. Returns the window it reaches and the
    /// windows to raise.
    pub fn move_focus(&mut self, layout: LayoutId, direction: Direction) -> (r: (
        Option<WindowId>,
        Vec<WindowId>,
    ))
        requires
            old(self).wf(),
            old(self)@.has(layout),
        ensures
            final(self).wf(),
            (final(self)@, r.0, r.1@) == old(self)@.focus_moved(layout, direction),
    {
        let selection = self.selection(layout);
        match self.tree.traverse(selection, direction) {
            Some(next) => match self.tree.find_best_focus_target(next) {
                Some((n, window)) => {
                    proof {
                        lemma_focus_live(self@.forest, next);
                    }
                    let highest = self.tree.reveal_path(n);
                    let raise = self.tree.visible_windows(highest);
                    (Some(window), raise)
                },
                None => (None, Vec::new()),
            },
            None => (None, Vec::new()),
        }
    }

    // ----- windows -----

    /// Puts a container around a node. A lone child keeps its parent.
    fn nest(&mut self, layout: LayoutId, n: NodeId, kind: LayoutKind) -> (r: NodeId)
        requires
            old(self).wf(),
        ensures
            final(self).wf(),
            (final(self)@, r) == old(self)@.nested(layout, n, kind),
            final(self)@.roots.dom() == old(self)@.roots.dom(),
    {
        match self.tree.parent(n) {
            Some(p) => {
                if self.tree.child_count(p) == 1 {
                    self.tree.set_kind(p, kind);
                    return p;
                }
                let leads = match self.tree.local_selection(p) {
                    Some(c) => c == n,
                    None => false,
                };
                let box_id = self.tree.insert_new(Place::Before(n));
                self.tree.note_size(SizeChange::Inherited { node: box_id, from: n });
                self.tree.move_to(n, Place::Last(box_id));
                if leads {
                    self.tree.select_locally(box_id);
                }
                self.tree.select_locally(n);
                self.tree.set_kind(box_id, kind);
                box_id
            },
            None => {
                if self.contains_layout(layout) && self.root(layout) == n {
                    let ghost before = self@;
                    let root = self.root(layout);
                    let box_id = self.tree.wrap(root);
                    self.layout_roots.set(layout, box_id);
                    let ghost wrapped = self@.forest;
                    self.tree.select_locally(n);
                    self.tree.set_kind(box_id, kind);
                    proof {
                        assert(self@.roots.dom() =~= before.roots.dom());
                        lemma_wrapped_wf(before, layout, wrapped, self@);
                    }
                    box_id
                } else {
                    n
                }
            },
        }
    }

    /// Notes what a new sibling does to sizes.
    fn split_new_sibling_from_selection(&mut self, n: NodeId, added: NodeId)
        requires
            old(self).wf(),
        ensures
            final(self).wf(),
            final(self)@ == old(self)@.split_share(n, added),
    {
        match (self.tree.parent(n), self.tree.parent(added)) {
            (Some(p), Some(q)) => {
                if p == q {
                    if self.equalize_nodes {
                        self.tree.note_size(SizeChange::Totalled { parent: p });
                    } else {
                        self.tree.note_size(SizeChange::Halved { node: n, added });
                    }
                }
            },
            _ => {},
        }
    }

    /// Adds a node with a window at a place.
    pub(crate) fn put_window(&mut self, layout: LayoutId, place: Place, wid: WindowId) -> (r:
        NodeId)
        requires
            old(self).wf(),
        ensures
            final(self).wf(),
            r == old(self)@.forest.next_id(),
            final(self)@ == old(self)@.window_put(layout, place, wid),
    {
        let ghost before = self@;
        let node = self.tree.insert_new(place);
        proof {
            lemma_not_a_root(before, node);
        }
        self.tree.set_window(layout, node, wid);
        node
    }

    /// Adds a window at the end of a container.
    pub fn add_window_under(&mut self, layout: LayoutId, parent: NodeId, wid: WindowId) -> (r:
        NodeId)
        requires
            old(self).wf(),
        ensures
            final(self).wf(),
            r == old(self)@.forest.next_id(),
            final(self)@ == old(self)@.window_put(layout, Place::Last(parent), wid),
    {
        self.put_window(layout, Place::Last(parent), wid)
    }

    /// Adds a window beside a node.
    fn smart_window_insertion(&mut self, layout: LayoutId, n: NodeId, wid: WindowId) -> (r: NodeId)
        requires
            old(self).wf(),
        ensures
            final(self).wf(),
            (final(self)@, r) == old(self)@.window_beside(layout, n, wid),
            final(self)@.roots.dom() == old(self)@.roots.dom(),
    {
        let crowded = match self.tree.parent(n) {
            Some(p) => self.tree.child_count(p) >= 4 && !self.tree.kind(p).is_group(),
            None => false,
        };
        let place = if crowded {
            let kind = self.tree.kind(self.tree.parent(n).unwrap());
            let sub = self.nest(layout, n, kind);
            Place::Last(sub)
        } else {
            Place::After(n)
        };
        let ghost base = self@;
        let node = self.tree.insert_new(place);
        proof {
            lemma_not_a_root(base, node);
        }
        self.split_new_sibling_from_selection(n, node);
        self.tree.set_window(layout, node, wid);
        node
    }

    /// Adds a window to a layout and selects it.
    pub fn add_window_after_selection(&mut self, layout: LayoutId, wid: WindowId)
        requires
            old(self).wf(),
            old(self)@.has(layout),
        ensures
            final(self).wf(),
            final(self)@ == old(self)@.window_added(layout, wid),
            final(self)@.roots.dom() == old(self)@.roots.dom(),
    {
        let end_of_tree = match self.window_insertion_point {
            WindowInsertionPoint::EndOfTree => true,
            WindowInsertionPoint::NextToSelection => false,
        };
        if end_of_tree {
            let root = self.root(layout);
            let node = self.add_window_under(layout, root, wid);
            self.tree.select(node);
            return;
        }
        let selection = self.selection(layout);
        let anchor = if self.tree.parent(selection).is_some() {
            Some(selection)
        } else {
            match self.tree.last_selection(selection) {
                Some(c) => Some(c),
                None => self.tree.last_child(selection),
            }
        };
        let node = match anchor {
            Some(n) => self.smart_window_insertion(layout, n, wid),
            None => self.add_window_under(layout, selection, wid),
        };
        self.tree.select(node);
    }

    /// Every node that shows `from` shows `to` instead.
    pub fn replace_window(&mut self, from: WindowId, to: WindowId)
        requires
            old(self).wf(),
        ensures
            final(self).wf(),
            final(self)@ == old(self)@.with_forest(old(self)@.forest.with_replaced(from, to)),
    {
        self.tree.replace_window(from, to);
    }

    /// Removes a window from all layouts.
    pub fn remove_window(&mut self, wid: WindowId)
        requires
            old(self).wf(),
        ensures
            final(self).wf(),
            final(self)@ == old(self)@.with_forest(old(self)@.forest.window_removed(wid)),
    {
        self.tree.remove_window(wid);
    }

    /// Removes a window from all layouts and evens the sizes where it was.
    pub fn remove_window_and_rebalance_parent(&mut self, wid: WindowId)
        requires
            old(self).wf(),
        ensures
            final(self).wf(),
            final(self)@ == old(self)@.with_forest(old(self)@.forest.window_removed_evenly(wid)),
    {
        self.tree.remove_window_evenly(wid);
    }

    /// Removes the windows of a process from all layouts.
    pub fn remove_windows_for_app(&mut self, pid: Pid)
        requires
            old(self).wf(),
        ensures
            final(self).wf(),
            final(self)@ == old(self)@.with_forest(old(self)@.forest.app_removed(pid)),
    {
        self.tree.remove_app(pid);
    }

    /// Removes a window from a layout, unless it covers the screen.
    pub(crate) fn dismiss_window(&mut self, layout: LayoutId, wid: WindowId)
        requires
            old(self).wf(),
        ensures
            final(self).wf(),
            final(self)@ == old(self)@.window_dismissed(layout, wid),
    {
        match self.tree.node_for(layout, wid) {
            Some(n) => {
                if !self.tree.info(n).is_fullscreen {
                    self.tree.remove(n);
                }
            },
            None => {},
        }
    }

    /// Makes a layout hold the windows that a process has.
    pub fn set_windows_for_app(&mut self, layout: LayoutId, pid: Pid, desired: Vec<WindowId>)
        requires
            old(self).wf(),
            old(self)@.has(layout),
        ensures
            final(self).wf(),
            final(self)@ == old(self)@.app_set(layout, pid, desired@),
            final(self)@.roots.dom() == old(self)@.roots.dom(),
    {
        let current = self.windows_for_app(layout, pid);
        let ghost held = current@;
        let delta = systems::reconcile_app_membership(pid, current, desired);
        let ghost before = self@;
        let gone = delta.removals;
        let mut i: usize = 0;
        assert(gone@.take(0) =~= Seq::empty());
        while i < gone.len()
            invariant
                i <= gone.len(),
                self.wf(),
                self@.roots.dom() == before.roots.dom(),
                self@ == before.windows_dismissed(layout, gone@.take(i as int)),
            decreases gone.len() - i,
        {
            assert(gone@.take(i + 1).drop_last() =~= gone@.take(i as int));
            self.dismiss_window(layout, gone[i]);
            i += 1;
        }
        assert(gone@.take(i as int) =~= gone@);
        let ghost between = self@;
        let added = delta.additions;
        let mut k: usize = 0;
        assert(added@.take(0) =~= Seq::empty());
        while k < added.len()
            invariant
                k <= added.len(),
                self.wf(),
                before.has(layout),
                self@.roots.dom() == before.roots.dom(),
                self@ == between.windows_added(layout, added@.take(k as int)),
            decreases added.len() - k,
        {
            assert(added@.take(k + 1).drop_last() =~= added@.take(k as int));
            assert(self@.has(layout));
            self.add_window_after_selection(layout, added[k]);
            k += 1;
        }
        assert(added@.take(k as int) =~= added@);
    }

    /// Two windows of a layout change places. Says whether both are there.
    pub fn swap_windows(&mut self, layout: LayoutId, a: WindowId, b: WindowId) -> (r: bool)
        requires
            old(self).wf(),
        ensures
            final(self).wf(),
            r == old(self)@.forest.can_swap(layout, a, b),
            final(self)@ == old(self)@.with_forest(
                old(self)@.forest.with_swapped(layout, a, b),
            ),
    {
        self.tree.swap_windows(layout, a, b)
    }
}

impl TraditionalLayoutSystem {
    /// Whether a node can move in a direction.
    fn can_shift(&self, layout: LayoutId, n: NodeId, direction: Direction) -> (r: bool)
        requires
            self.wf(),
        ensures
            r == self@.can_shift(layout, n, direction),
    {
        if self.tree.parent(n).is_none() {
            return false;
        }
        if self.tree.move_over(n, direction).is_some() || self.tree.aligned_ancestor(
            n,
            direction,
        ).is_some() {
            return true;
        }
        let path = self.tree.ancestors(n);
        let top = path[path.len() - 1];
        !(self.tree.kind(top).orientation() == direction.orientation() && self.tree.sibling(
            n,
            direction.forward(),
        ).is_some())
    }

    /// Finds where a node moves to. A root that lies across the direction gets
    /// a new root.
    fn destination(&mut self, layout: LayoutId, n: NodeId, direction: Direction) -> (r: Place)
        requires
            old(self).wf(),
            old(self)@.destination(layout, n, direction) is Some,
        ensures
            final(self).wf(),
            Some((final(self)@, r)) == old(self)@.destination(layout, n, direction),
            final(self)@.roots.dom() == old(self)@.roots.dom(),
    {
        let forward = direction.forward();
        match self.tree.move_over(n, direction) {
            Some(sibling) => {
                let target = self.tree.landing(sibling, direction);
                if target == sibling {
                    if forward {
                        Place::After(sibling)
                    } else {
                        Place::Before(sibling)
                    }
                } else if forward {
                    Place::Before(target)
                } else {
                    Place::After(target)
                }
            },
            None => match self.tree.aligned_ancestor(n, direction) {
                Some(a) => if forward {
                    Place::After(a)
                } else {
                    Place::Before(a)
                },
                None => {
                    let path = self.tree.ancestors(n);
                    let top = path[path.len() - 1];
                    let kind = LayoutKind::for_orientation(direction.orientation());
                    self.nest(layout, top, kind);
                    if forward {
                        Place::After(top)
                    } else {
                        Place::Before(top)
                    }
                },
            },
        }
    }

    /// Moves a node in a direction. Says whether it could move.
    pub fn move_node(&mut self, layout: LayoutId, n: NodeId, direction: Direction) -> (r: bool)
        requires
            old(self).wf(),
        ensures
            final(self).wf(),
            r == old(self)@.can_shift(layout, n, direction),
            final(self)@ == old(self)@.node_shifted(layout, n, direction),
            final(self)@.roots.dom() == old(self)@.roots.dom(),
    {
        if !self.can_shift(layout, n, direction) {
            return false;
        }
        let p = self.tree.parent(n).unwrap();
        let kids = self.tree.children(p);
        let leads = match self.tree.local_selection(p) {
            Some(c) => c == n,
            None => false,
        };
        let place = self.destination(layout, n, direction);
        self.tree.remember_sizes(&kids);
        self.tree.move_to(n, place);
        let reordered = match self.tree.parent(n) {
            Some(q) => q == p,
            None => false,
        };
        if reordered {
            self.tree.recall_sizes(&kids);
            self.tree.note_size(SizeChange::Totalled { parent: p });
        }
        if leads {
            self.tree.select_path(n, p);
        }
        true
    }

    /// Moves the selection in a direction. Says whether it could move.
    pub fn move_selection(&mut self, layout: LayoutId, direction: Direction) -> (r: bool)
        requires
            old(self).wf(),
            old(self)@.has(layout),
        ensures
            final(self).wf(),
            r == old(self)@.can_shift(layout, old(self)@.selection(layout), direction),
            final(self)@ == old(self)@.node_shifted(
                layout,
                old(self)@.selection(layout),
                direction,
            ),
            final(self)@.roots.dom() == old(self)@.roots.dom(),
    {
        let n = self.selection(layout);
        self.move_node(layout, n, direction)
    }

    /// Moves the selection of a layout behind that of another one.
    pub fn move_selection_to_layout_after_selection(&mut self, from: LayoutId, to: LayoutId)
        requires
            old(self).wf(),
            old(self)@.has(from),
            old(self)@.has(to),
        ensures
            final(self).wf(),
            final(self)@ == old(self)@.sent(from, to),
    {
        let n = self.selection(from);
        let target = self.selection(to);
        match self.tree.parent(n) {
            Some(p) => {
                let leads = match self.tree.local_selection(p) {
                    Some(c) => c == n,
                    None => false,
                };
                let place = if self.tree.parent(target).is_none() {
                    Place::Last(target)
                } else {
                    Place::After(target)
                };
                self.tree.graft(n, place);
                if leads {
                    self.tree.select_path(n, p);
                }
            },
            None => {},
        }
    }

    /// Puts a container of a kind around the selection.
    pub fn split_selection(&mut self, layout: LayoutId, kind: LayoutKind)
        requires
            old(self).wf(),
            old(self)@.has(layout),
        ensures
            final(self).wf(),
            final(self)@ == old(self)@.nested(layout, old(self)@.selection(layout), kind).0,
            final(self)@.roots.dom() == old(self)@.roots.dom(),
    {
        let n = self.selection(layout);
        self.nest(layout, n, kind);
    }

    /// The selection covers the screen, or no longer does. Returns the windows
    /// that it shows if it does now.
    pub fn toggle_fullscreen_of_selection(&mut self, layout: LayoutId) -> (r: Vec<WindowId>)
        requires
            old(self).wf(),
            old(self)@.has(layout),
        ensures
            final(self).wf(),
            final(self)@ == old(self)@.fullscreen_toggled(layout),
            r@ == (if old(self)@.selection_info(layout).is_fullscreen {
                Seq::empty()
            } else {
                final(self)@.forest.visible(old(self)@.selection(layout))
            }),
    {
        let n = self.selection(layout);
        let info = self.tree.info(n);
        self.tree.set_fullscreen(
            n,
            !info.is_fullscreen,
            info.is_fullscreen && info.is_fullscreen_within_gaps,
        );
        if !info.is_fullscreen {
            self.tree.visible_windows(n)
        } else {
            Vec::new()
        }
    }

    /// The selection covers the screen within its gaps, or no longer does.
    /// Returns the windows that it shows if it does now.
    pub fn toggle_fullscreen_within_gaps_of_selection(&mut self, layout: LayoutId) -> (r: Vec<
        WindowId,
    >)
        requires
            old(self).wf(),
            old(self)@.has(layout),
        ensures
            final(self).wf(),
            final(self)@ == old(self)@.fullscreen_within_gaps_toggled(layout),
            r@ == (if old(self)@.selection_info(layout).is_fullscreen_within_gaps {
                Seq::empty()
            } else {
                final(self)@.forest.visible(old(self)@.selection(layout))
            }),
    {
        let n = self.selection(layout);
        let info = self.tree.info(n);
        self.tree.set_fullscreen(
            n,
            info.is_fullscreen_within_gaps && info.is_fullscreen,
            !info.is_fullscreen_within_gaps,
        );
        if !info.is_fullscreen_within_gaps {
            self.tree.visible_windows(n)
        } else {
            Vec::new()
        }
    }

    /// Joins the selection with its neighbour in a direction.
    pub fn join_selection_with_direction(&mut self, layout: LayoutId, direction: Direction)
        requires
            old(self).wf(),
            old(self)@.has(layout),
        ensures
            final(self).wf(),
            final(self)@ == old(self)@.selection_joined(layout, direction),
    {
        let selection = self.selection(layout);
        match self.tree.find_natural_join_target(selection, direction) {
            Some(target) => {
                let n = self.tree.join_source(selection, target, direction);
                if self.tree.absorbs(n, target, direction) {
                    self.tree.take_in(target, n, direction.forward());
                    self.tree.select(n);
                    return;
                }
                self.tree.perform_natural_join(n, target, direction);
                if self.tree.window_at(n).is_some() {
                    self.tree.select(n);
                } else {
                    self.descend_selection(layout);
                }
            },
            None => {},
        }
    }

    /// Takes the container around the selection apart.
    pub fn unjoin_selection(&mut self, layout: LayoutId)
        requires
            old(self).wf(),
            old(self)@.has(layout),
        ensures
            final(self).wf(),
            final(self)@ == old(self)@.selection_unjoined(layout),
    {
        match self.tree.parent(self.selection(layout)) {
            Some(p) => {
                if self.tree.parent(p).is_some() {
                    self.tree.dissolve(p);
                }
            },
            None => {},
        }
    }

    /// Takes a joined selection out of its container, else joins it.
    pub fn consume_or_expel_selection(&mut self, layout: LayoutId, direction: Direction)
        requires
            old(self).wf(),
            old(self)@.has(layout),
        ensures
            final(self).wf(),
            final(self)@ == old(self)@.consumed_or_expelled(layout, direction),
    {
        let joined = match self.tree.parent(self.selection(layout)) {
            Some(p) => self.tree.parent(p).is_some(),
            None => false,
        };
        if joined {
            self.unjoin_selection(layout);
        } else {
            self.join_selection_with_direction(layout, direction);
        }
    }

    /// Turns the container around a selected window, or the selected
    /// container, into a stack. Returns the windows that it shows.
    pub fn apply_stacking_to_parent_of_selection(
        &mut self,
        layout: LayoutId,
        default_orientation: StackDefaultOrientation,
    ) -> (r: Vec<WindowId>)
        requires
            old(self).wf(),
            old(self)@.has(layout),
        ensures
            final(self).wf(),
            final(self)@ == old(self)@.stacking_applied(layout, default_orientation),
            r@ == match old(self)@.stacking_target(layout) {
                Some(c) => final(self)@.forest.visible(c),
                None => Seq::empty(),
            },
    {
        let n = self.selection(layout);
        let target = if self.tree.window_at(n).is_some() {
            self.tree.parent(n)
        } else {
            Some(n)
        };
        match target {
            Some(c) => {
                let kind = edits::stacked_kind(self.tree.kind(c), default_orientation);
                self.tree.set_kind(c, kind);
                match self.tree.first_child(c) {
                    Some(first) => {
                        self.tree.select(first);
                    },
                    None => {},
                }
                self.tree.visible_windows(c)
            },
            None => Vec::new(),
        }
    }

    /// Takes the stack at the selection apart. Returns the windows that the
    /// container shows then.
    pub fn unstack_parent_of_selection(
        &mut self,
        layout: LayoutId,
        default_orientation: StackDefaultOrientation,
    ) -> (r: Vec<WindowId>)
        requires
            old(self).wf(),
            old(self)@.has(layout),
        ensures
            final(self).wf(),
            final(self)@ == old(self)@.unstacked(layout, default_orientation),
            r@ == match old(self)@.unstacking_target(layout) {
                Some(c) => final(self)@.forest.visible(c),
                None => Seq::empty(),
            },
    {
        match self.unstacking_target(layout) {
            Some(c) => {
                let kind = edits::unstacked_kind(self.tree.kind(c), default_orientation);
                self.tree.set_kind(c, kind);
                self.tree.visible_windows(c)
            },
            None => Vec::new(),
        }
    }

    /// Turns the container around the selection, unless it is a stack.
    pub fn toggle_tile_orientation(&mut self, layout: LayoutId)
        requires
            old(self).wf(),
            old(self)@.has(layout),
        ensures
            final(self).wf(),
            final(self)@ == old(self)@.tile_toggled(layout),
    {
        let n = match self.tree.parent(self.selection(layout)) {
            Some(p) => p,
            None => self.root(layout),
        };
        match self.tree.kind(n) {
            LayoutKind::Horizontal => {
                self.tree.set_kind(n, LayoutKind::Vertical);
            },
            LayoutKind::Vertical => {
                self.tree.set_kind(n, LayoutKind::Horizontal);
            },
            _ => {},
        }
    }

    /// Evens the sizes in a layout.
    pub fn rebalance(&mut self, layout: LayoutId)
        requires
            old(self).wf(),
            old(self)@.has(layout),
        ensures
            final(self).wf(),
            final(self)@ == old(self)@.with_forest(
                old(self)@.forest.noting(SizeChange::Evened { node: old(self)@.root(layout) }),
            ),
    {
        let root = self.root(layout);
        self.tree.note_size(SizeChange::Evened { node: root });
    }

    pub fn set_layout(&mut self, node: NodeId, kind: LayoutKind)
        requires
            old(self).wf(),
        ensures
            final(self).wf(),
            final(self)@ == old(self)@.with_forest(old(self)@.forest.with_kind(node, kind)),
    {
        self.tree.set_kind(node, kind);
    }

    // ----- single nodes -----

    /// The nodes.
    pub fn tree(&self) -> (r: &Forest)
        ensures
            r@ == self@.forest,
    {
        &self.tree
    }

    /// Moves a node to a place, if it can go there.
    pub fn relocate(&mut self, node: NodeId, place: Place)
        requires
            old(self).wf(),
        ensures
            final(self).wf(),
            final(self)@ == old(self)@.with_forest(old(self)@.forest.moved(node, place)),
    {
        self.tree.move_to(node, place);
    }

    /// Removes nodes with what lies below them, one after the other.
    pub fn remove_nodes(&mut self, nodes: &Vec<NodeId>)
        requires
            old(self).wf(),
        ensures
            final(self).wf(),
            final(self)@ == old(self)@.with_forest(old(self)@.forest.all_removed(nodes@)),
    {
        let mut i: usize = 0;
        assert(nodes@.take(0) =~= Seq::empty());
        while i < nodes.len()
            invariant
                i <= nodes.len(),
                self.wf(),
                self@ == old(self)@.with_forest(
                    old(self)@.forest.all_removed(nodes@.take(i as int)),
                ),
            decreases nodes.len() - i,
        {
            assert(nodes@.take(i + 1).drop_last() =~= nodes@.take(i as int));
            self.tree.remove(nodes[i]);
            i += 1;
        }
        assert(nodes@.take(i as int) =~= nodes@);
    }

    /// Adds a node without a window at a place.
    pub fn insert_container(&mut self, place: Place) -> (r: NodeId)
        requires
            old(self).wf(),
        ensures
            final(self).wf(),
            r == old(self)@.forest.next_id(),
            final(self)@ == old(self)@.with_forest(old(self)@.forest.with_new(place)),
    {
        self.tree.insert_new(place)
    }

    /// Notes a size step.
    pub fn note_size(&mut self, change: SizeChange)
        requires
            old(self).wf(),
        ensures
            final(self).wf(),
            final(self)@ == old(self)@.with_forest(old(self)@.forest.noting(change)),
    {
        self.tree.note_size(change);
    }

    // ----- resizing -----

    /// The node whose size changes when `n` grows in a direction, and the
    /// sibling that it takes size from.
    pub fn resize_pair(&self, n: NodeId, direction: Direction) -> (r: Option<(NodeId, NodeId)>)
        requires
            self.wf(),
        ensures
            r == self@.resize_pair(n, direction),
    {
        match self.tree.resizing(n, direction) {
            Some(a) => {
                proof {
                    navigation::lemma_find_on(
                        self@.forest.ancestors(n),
                        0,
                        |a: NodeId| self@.forest.resizable(a, direction),
                    );
                }
                Some((a, self.tree.move_over(a, direction).unwrap()))
            },
            None => None,
        }
    }

    /// The ancestors through which a change of the screen's share at `n`
    /// translates: those whose parents lie along the direction and are no stacks.
    pub fn exchange_nodes(&self, n: NodeId, direction: Direction) -> (r: Vec<NodeId>)
        requires
            self.wf(),
        ensures
            r@ == self@.exchange_nodes(n, direction),
    {
        let path = self.tree.ancestors(n);
        let ghost good = |a: NodeId| self@.exchanges(a, direction);
        let ghost tail = path@.skip(1);
        let mut out: Vec<NodeId> = Vec::new();
        let mut i: usize = 1;
        assert(tail.take(0) =~= Seq::empty());
        assert(tail.take(0).filter(good) =~= Seq::empty()) by {
            reveal(Seq::filter);
        }
        while i < path.len()
            invariant
                1 <= i <= path.len(),
                path@ == self@.forest.ancestors(n),
                tail == path@.skip(1),
                good == (|a: NodeId| self@.exchanges(a, direction)),
                out@ == tail.take(i - 1).filter(good),
            decreases path.len() - i,
        {
            proof {
                assert(tail.take(i as int).drop_last() =~= tail.take(i - 1));
                assert(tail.take(i as int).last() == path@[i as int]);
                reveal(Seq::filter);
            }
            let exchanges = match self.tree.parent(path[i]) {
                Some(p) => {
                    let kind = self.tree.kind(p);
                    kind.orientation() == direction.orientation() && !kind.is_group()
                },
                None => false,
            };
            if exchanges {
                out.push(path[i]);
            }
            i += 1;
        }
        assert(tail.take(i - 1) =~= tail);
        out
    }

    /// What a resize command trades size between, if the selection is a window.
    pub fn resize_choice(&self, layout: LayoutId, orientation: ResizeOrientation) -> (r: Option<
        (NodeId, NodeId, Direction),
    >)
        requires
            self.wf(),
            self@.has(layout),
        ensures
            r == self@.resize_choice(layout, orientation),
    {
        let n = self.selection(layout);
        if self.tree.window_at(n).is_none() {
            return None;
        }
        match orientation {
            ResizeOrientation::Smart => self.smart_resize(n),
            ResizeOrientation::Horizontal => self.resize_along(n, Orientation::Horizontal),
            ResizeOrientation::Vertical => self.resize_along(n, Orientation::Vertical),
        }
    }

    /// The first trade along an axis among the nodes above `n` outside stacks.
    fn resize_along(&self, n: NodeId, axis: Orientation) -> (r: Option<
        (NodeId, NodeId, Direction),
    >)
        requires
            self.wf(),
        ensures
            r == self@.resize_along(n, axis),
    {
        let (first, second) = match axis {
            Orientation::Horizontal => (Direction::Right, Direction::Left),
            Orientation::Vertical => (Direction::Down, Direction::Up),
        };
        let forward = self.resize_towards(n, first);
        if forward.is_some() {
            return forward;
        }
        self.resize_towards(n, second)
    }

    fn resize_towards(&self, n: NodeId, direction: Direction) -> (r: Option<
        (NodeId, NodeId, Direction),
    >)
        requires
            self.wf(),
        ensures
            r == self@.resize_towards(n, direction),
    {
        let path = self.tree.ancestors(n);
        let ghost good = |a: NodeId|
            self@.free_standing(a) && self@.resize_pair(a, direction) is Some;
        let mut i: usize = 0;
        while i < path.len()
            invariant
                self.wf(),
                path@ == self@.forest.ancestors(n),
                good == (|a: NodeId|
                    self@.free_standing(a) && self@.resize_pair(a, direction) is Some),
                navigation::find_on(path@, 0, good) == navigation::find_on(path@, i as int, good),
            decreases path.len() - i,
        {
            if self.is_free_standing(path[i]) {
                match self.resize_pair(path[i], direction) {
                    Some((a, b)) => {
                        return Some((a, b, direction));
                    },
                    None => {},
                }
            }
            i += 1;
        }
        None
    }

    /// The first trade along the axis of its parent among the nodes above `n`.
    fn smart_resize(&self, n: NodeId) -> (r: Option<(NodeId, NodeId, Direction)>)
        requires
            self.wf(),
        ensures
            r == self@.smart_resize(n),
    {
        let path = self.tree.ancestors(n);
        let ghost good = |a: NodeId| self@.free_standing(a) && self@.own_axis_trade(a) is Some;
        let mut i: usize = 0;
        while i < path.len()
            invariant
                self.wf(),
                path@ == self@.forest.ancestors(n),
                good == (|a: NodeId| self@.free_standing(a) && self@.own_axis_trade(a) is Some),
                navigation::find_on(path@, 0, good) == navigation::find_on(path@, i as int, good),
            decreases path.len() - i,
        {
            if self.is_free_standing(path[i]) {
                let p = self.tree.parent(path[i]).unwrap();
                let (first, second) = match self.tree.kind(p).orientation() {
                    Orientation::Horizontal => (Direction::Right, Direction::Left),
                    Orientation::Vertical => (Direction::Down, Direction::Up),
                };
                match self.resize_pair(path[i], first) {
                    Some((a, b)) => {
                        return Some((a, b, first));
                    },
                    None => {},
                }
                match self.resize_pair(path[i], second) {
                    Some((a, b)) => {
                        return Some((a, b, second));
                    },
                    None => {},
                }
            }
            i += 1;
        }
        None
    }

    fn is_free_standing(&self, n: NodeId) -> (r: bool)
        ensures
            r == self@.free_standing(n),
    {
        match self.tree.parent(n) {
            Some(p) => !self.tree.kind(p).is_group(),
            None => false,
        }
    }

    /// Of two opposite edges that moved, the one that a drag resizes at: the
    /// one that moved more, if the node can grow there, else the other one.
    pub fn drag_direction(
        &self,
        node: NodeId,
        primary: Direction,
        primary_moved: bool,
        secondary: Direction,
        secondary_moved: bool,
    ) -> (r: Option<Direction>)
        requires
            self.wf(),
        ensures
            r == (if primary_moved && self@.forest.resizing(node, primary) is Some {
                Some(primary)
            } else if secondary_moved && self@.forest.resizing(node, secondary) is Some {
                Some(secondary)
            } else {
                None
            }),
    {
        if primary_moved && self.tree.can_resize_towards(node, primary) {
            Some(primary)
        } else if secondary_moved && self.tree.can_resize_towards(node, secondary) {
            Some(secondary)
        } else {
            None
        }
    }

    /// A window was resized from outside. `to` and `from` say what the new and
    /// the old frame cover. Returns the node whose sizes have to follow a plain
    /// change of frame.
    pub fn on_window_resized(
        &mut self,
        layout: LayoutId,
        wid: WindowId,
        from: navigation::Coverage,
        to: navigation::Coverage,
    ) -> (r: Option<NodeId>)
        requires
            old(self).wf(),
        ensures
            final(self).wf(),
            (final(self)@, r) == old(self)@.window_resized(layout, wid, from, to),
    {
        match self.tree.node_for(layout, wid) {
            Some(n) => {
                let info = self.tree.info(n);
                match (from, to) {
                    (_, navigation::Coverage::Screen) => {
                        self.tree.set_fullscreen(n, true, false);
                        None
                    },
                    (navigation::Coverage::Screen, _) => {
                        self.tree.set_fullscreen(n, false, info.is_fullscreen_within_gaps);
                        None
                    },
                    (_, navigation::Coverage::WithinGaps) => {
                        self.tree.set_fullscreen(n, false, true);
                        None
                    },
                    (navigation::Coverage::WithinGaps, _) => {
                        self.tree.set_fullscreen(n, info.is_fullscreen, false);
                        None
                    },
                    (navigation::Coverage::Share, navigation::Coverage::Share) => Some(n),
                }
            },
            None => None,
        }
    }
}

/// A focus target of a live forest is live.
pub proof fn lemma_focus_live(f: ForestView, n: NodeId)
    requires
        f.best_focus(n) is Some,
    ensures
        f.live((f.best_focus(n)->0).0),
    decreases view::height(f.nodes, n), f.children(n).len() + 1,
{
    if f.window(n) is None {
        let c = f.last_selection(n);
        if c is Some && view::height(f.nodes, c->0) < view::height(f.nodes, n) && f.best_focus(
            c->0,
        ) is Some {
            lemma_focus_live(f, c->0);
        } else {
            lemma_focus_among_live(f, n, f.children(n).len());
        }
    }
}

proof fn lemma_focus_among_live(f: ForestView, n: NodeId, left: nat)
    requires
        f.best_focus_among(n, left) is Some,
    ensures
        f.live((f.best_focus_among(n, left)->0).0),
    decreases view::height(f.nodes, n), left,
{
    let c = f.children(n)[f.children(n).len() - left];
    if view::height(f.nodes, c) < view::height(f.nodes, n) && f.best_focus(c) is Some {
        lemma_focus_live(f, c);
    } else {
        lemma_focus_among_live(f, n, (left - 1) as nat);
    }
}

/// An identifier that has not been given out belongs to no root.
pub proof fn lemma_not_a_root(s: TraditionalView, n: NodeId)
    requires
        s.wf(),
        n == s.forest.next_id(),
        s.forest.minted <= u64::MAX,
    ensures
        forall|l: LayoutId| #[trigger] s.roots.contains_key(l) ==> s.roots[l] != n,
{
    assert forall|l: LayoutId| #[trigger] s.roots.contains_key(l) implies s.roots[l] != n by {
        proofs::lemma_node(s.forest, s.roots[l]);
    }
}

/// Giving a layout a new root above the old one.
pub proof fn lemma_wrapped_wf(
    s: TraditionalView,
    layout: LayoutId,
    wrapped: ForestView,
    t: TraditionalView,
)
    requires
        s.wf(),
        s.has(layout),
        s.forest.minted <= u64::MAX,
        t.forest.wf(),
        t.roots == s.roots.insert(layout, s.forest.next_id()),
        kept::other_roots_kept(s.forest, wrapped, s.root(layout)),
        kept::rearranged(wrapped, t.forest),
        wrapped.live(s.forest.next_id()),
        wrapped.parent(s.forest.next_id()) is None,
        wrapped.window(s.forest.next_id()) is None,
    ensures
        t.wf(),
{
    let n = s.forest.next_id();
    lemma_not_a_root(s, n);
    kept::lemma_roots(wrapped, t.forest);
    assert forall|l: LayoutId| #[trigger] t.roots.contains_key(l) implies {
        &&& l.issued()
        &&& t.forest.live(t.roots[l])
        &&& t.forest.parent(t.roots[l]) is None
        &&& t.forest.window(t.roots[l]) is None
    } by {
        assert(s.roots.contains_key(l));
        if l != layout {
            assert(s.forest.live(s.roots[l]));
            assert(s.roots[l] != s.roots[layout]);
        }
        assert(wrapped.live(t.roots[l]));
    }
}

impl LayoutSystem for TraditionalLayoutSystem {
    open spec fn ready(&self) -> bool {
        self.wf()
    }

    open spec fn known_layouts(system: TraditionalView) -> Set<LayoutId> {
        system.roots.dom()
    }

    open spec fn copyable(system: TraditionalView, layout: LayoutId) -> bool {
        system.has(layout)
    }

    open spec fn with_fresh(system: TraditionalView, layout: LayoutId) -> TraditionalView {
        system.with_layout(layout)
    }

    open spec fn with_copy(system: TraditionalView, source: LayoutId, layout: LayoutId) -> TraditionalView {
        system.with_clone(source, layout)
    }

    fn create_layout(&mut self) -> (r: LayoutId) {
        let r = TraditionalLayoutSystem::create_layout(self);
        assert(Self::known_layouts(self@) =~= Self::known_layouts(old(self)@).insert(r));
        r
    }

    fn clone_layout(&mut self, layout: LayoutId) -> (r: LayoutId) {
        let r = TraditionalLayoutSystem::clone_layout(self, layout);
        assert(Self::known_layouts(self@) =~= Self::known_layouts(old(self)@).insert(r));
        r
    }

    proof fn layouts_known(&self) {
    }
}

} // verus!
