//! The forest as a mathematical object, and the edits on it.

use vstd::prelude::*;

use crate::actor::{LayoutId, Pid, WindowId};
use crate::layout_engine::LayoutKind;

verus! {

/// A node. Identifiers are never reused within a forest.
pub type NodeId = u64;

/// The child that a container shows or leads to. With `stop_here` the
/// container itself is selected and `child` is only remembered.
#[derive(Clone, Copy, Debug, PartialEq, Eq, Structural)]
pub struct Pick {
    pub child: NodeId,
    pub stop_here: bool,
}

/// What a node holds besides its place in the forest.
#[derive(Clone, Copy, Debug, PartialEq, Eq, Structural)]
pub struct NodeInfo {
    pub window: Option<WindowId>,
    pub pick: Option<Pick>,
    pub kind: LayoutKind,
    pub last_ungrouped_kind: LayoutKind,
    pub is_fullscreen: bool,
    pub is_fullscreen_within_gaps: bool,
}

/// One occurrence of a window: the layout it was added to and its node.
#[derive(Clone, Copy, Debug, PartialEq, Eq, Structural)]
pub struct WindowEntry {
    pub window: WindowId,
    pub layout: LayoutId,
    pub node: NodeId,
}

/// A step that the keeper of node sizes has to follow. Sizes are weights among
/// siblings; the forest only says, in order, what happens to them.
#[derive(Clone, Copy, Debug, PartialEq, Eq, Structural)]
pub enum SizeChange {
    /// The node exists now; its weights start at zero.
    Created { node: NodeId },
    /// The node became child number `index` of `parent` with weight one.
    Attached { node: NodeId, parent: NodeId, index: u64 },
    /// The node is about to leave `parent`. Siblings of a window share its weight.
    Detached { node: NodeId, parent: NodeId, is_window: bool },
    /// The node is gone.
    Dropped { node: NodeId },
    /// `dest` takes over all weights of `src`.
    Copied { src: NodeId, dest: NodeId },
    /// `node` takes over the weight of its sibling `from`, which is left with none.
    Inherited { node: NodeId, from: NodeId },
    /// The total of `parent` is the sum of its children's weights again.
    Totalled { parent: NodeId },
    /// `node` and its new sibling `added` halve the weight of `node`.
    Halved { node: NodeId, added: NodeId },
    /// All weights below `node` become equal.
    Evened { node: NodeId },
    /// The current weight of `node` is remembered.
    Remembered { node: NodeId },
    /// `node` gets its remembered weight back.
    Recalled { node: NodeId },
    /// `node` gets the sum of the remembered weights of `first` and `second`.
    Summed { node: NodeId, first: NodeId, second: NodeId },
    /// The weights of the children of `parent`, scaled to its own weight, are remembered.
    Promoted { parent: NodeId },
    /// `master` and `stack` divide `parent`. The ratio is the bits of a
    /// double-precision number.
    Rationed { parent: NodeId, master: NodeId, stack: NodeId, ratio: u64 },
}

/// A node with its place in the forest.
pub struct NodeView {
    pub parent: Option<NodeId>,
    pub children: Seq<NodeId>,
    pub info: NodeInfo,
}

/// A forest: its nodes, how many identifiers it has given out, where windows
/// are, and the size steps not yet collected.
pub struct ForestView {
    pub nodes: Map<NodeId, NodeView>,
    pub minted: nat,
    pub index: Seq<WindowEntry>,
    pub changes: Seq<SizeChange>,
}

/// A position for a node.
#[derive(Clone, Copy, Debug, PartialEq, Eq, Structural)]
pub enum Place {
    Before(NodeId),
    After(NodeId),
    Last(NodeId),
}

pub open spec fn blank_info() -> NodeInfo {
    NodeInfo {
        window: None,
        pick: None,
        kind: LayoutKind::Horizontal,
        last_ungrouped_kind: LayoutKind::Horizontal,
        is_fullscreen: false,
        is_fullscreen_within_gaps: false,
    }
}

/// Each node ranks above its parent, and no rank exceeds `bound`.
pub open spec fn ranked(
    nodes: Map<NodeId, NodeView>,
    rank: spec_fn(NodeId) -> nat,
    bound: nat,
) -> bool {
    forall|n: NodeId| #[trigger]
        nodes.contains_key(n) ==> rank(n) <= bound && (nodes[n].parent is Some ==> rank(
            nodes[n].parent->0,
        ) < rank(n))
}

/// No node is its own ancestor.
pub open spec fn acyclic(nodes: Map<NodeId, NodeView>) -> bool {
    exists|r: (spec_fn(NodeId) -> nat, nat)| #[trigger] ranked(nodes, r.0, r.1)
}

pub open spec fn ranking(nodes: Map<NodeId, NodeView>) -> (spec_fn(NodeId) -> nat, nat) {
    choose|r: (spec_fn(NodeId) -> nat, nat)| #[trigger] ranked(nodes, r.0, r.1)
}

/// Grows from a root to its descendants.
pub open spec fn depth(nodes: Map<NodeId, NodeView>, n: NodeId) -> nat {
    (ranking(nodes).0)(n)
}

/// Shrinks from a root to its descendants.
pub open spec fn height(nodes: Map<NodeId, NodeView>, n: NodeId) -> nat {
    if depth(nodes, n) <= ranking(nodes).1 {
        (ranking(nodes).1 - depth(nodes, n)) as nat
    } else {
        0
    }
}

/// The links and the record of one node agree with its neighbours'.
#[verifier::opaque]
pub open spec fn node_ok(nodes: Map<NodeId, NodeView>, n: NodeId) -> bool {
    let v = nodes[n];
    &&& v.parent is Some ==> nodes.contains_key(v.parent->0) && nodes[v.parent->0].children.contains(
        n,
    )
    &&& forall|i: int|
        0 <= i < v.children.len() ==> nodes.contains_key(#[trigger] v.children[i])
            && nodes[v.children[i]].parent == Some(n)
    &&& v.children.no_duplicates()
    &&& v.info.pick is Some ==> v.children.contains(v.info.pick->0.child)
    &&& v.info.window is Some ==> v.children.len() == 0
}

/// The entry list puts the entries of one window next to each other, in the
/// order of windows. A new entry goes behind those of its window.
pub open spec fn entry_slot(index: Seq<WindowEntry>, window: WindowId, from: int) -> int
    decreases index.len() - from,
{
    if 0 <= from < index.len() && index[from].window.le(window) {
        entry_slot(index, window, from + 1)
    } else {
        from
    }
}

pub open spec fn index_with(index: Seq<WindowEntry>, entry: WindowEntry) -> Seq<WindowEntry> {
    index.insert(entry_slot(index, entry.window, 0), entry)
}

pub open spec fn entry_nodes(entries: Seq<WindowEntry>) -> Seq<NodeId> {
    Seq::new(entries.len(), |i: int| entries[i].node)
}

pub open spec fn redirect_entry(
    e: WindowEntry,
    layout: LayoutId,
    window: WindowId,
    n: NodeId,
) -> WindowEntry {
    if e.window == window && e.layout == layout {
        WindowEntry { node: n, ..e }
    } else {
        e
    }
}

/// The position of `stop` in a path, or that of the last node.
pub open spec fn stop_at(path: Seq<NodeId>, stop: NodeId, from: int) -> int
    decreases path.len() - from,
{
    if 0 <= from < path.len() - 1 && path[from] != stop {
        stop_at(path, stop, from + 1)
    } else {
        from
    }
}

impl ForestView {
    pub open spec fn empty() -> ForestView {
        ForestView {
            nodes: Map::empty(),
            minted: 0,
            index: Seq::empty(),
            changes: Seq::empty(),
        }
    }

    /// A forest is well formed if links agree, no node is its own ancestor,
    /// picks name children, windows are leaves and identifiers are old.
    pub open spec fn wf(self) -> bool {
        &&& self.nodes.dom().finite()
        &&& acyclic(self.nodes)
        &&& forall|n: NodeId| self.nodes.contains_key(n) ==> #[trigger] node_ok(self.nodes, n)
        &&& forall|n: NodeId| #[trigger] self.nodes.contains_key(n) ==> n < self.minted
    }

    pub open spec fn live(self, n: NodeId) -> bool {
        self.nodes.contains_key(n)
    }

    pub open spec fn parent(self, n: NodeId) -> Option<NodeId> {
        if self.live(n) {
            self.nodes[n].parent
        } else {
            None
        }
    }

    pub open spec fn children(self, n: NodeId) -> Seq<NodeId> {
        if self.live(n) {
            self.nodes[n].children
        } else {
            Seq::empty()
        }
    }

    pub open spec fn info(self, n: NodeId) -> NodeInfo {
        if self.live(n) {
            self.nodes[n].info
        } else {
            blank_info()
        }
    }

    pub open spec fn window(self, n: NodeId) -> Option<WindowId> {
        self.info(n).window
    }

    pub open spec fn kind(self, n: NodeId) -> LayoutKind {
        self.info(n).kind
    }

    pub open spec fn first_child(self, n: NodeId) -> Option<NodeId> {
        if self.children(n).len() > 0 {
            Some(self.children(n)[0])
        } else {
            None
        }
    }

    pub open spec fn last_child(self, n: NodeId) -> Option<NodeId> {
        if self.children(n).len() > 0 {
            Some(self.children(n).last())
        } else {
            None
        }
    }

    /// The position of a node among its siblings.
    pub open spec fn rank(self, n: NodeId) -> int {
        self.children(self.parent(n)->0).index_of(n)
    }

    pub open spec fn next_sibling(self, n: NodeId) -> Option<NodeId> {
        if self.parent(n) is Some && self.rank(n) + 1 < self.children(self.parent(n)->0).len() {
            Some(self.children(self.parent(n)->0)[self.rank(n) + 1])
        } else {
            None
        }
    }

    pub open spec fn prev_sibling(self, n: NodeId) -> Option<NodeId> {
        if self.parent(n) is Some && self.rank(n) > 0 {
            Some(self.children(self.parent(n)->0)[self.rank(n) - 1])
        } else {
            None
        }
    }

    /// The node that comes next in a direction among siblings.
    pub open spec fn sibling(self, n: NodeId, forward: bool) -> Option<NodeId> {
        if forward {
            self.next_sibling(n)
        } else {
            self.prev_sibling(n)
        }
    }

    /// The child a container leads to, unless the container itself is selected.
    pub open spec fn local_selection(self, n: NodeId) -> Option<NodeId> {
        match self.info(n).pick {
            Some(p) => if p.stop_here {
                None
            } else {
                Some(p.child)
            },
            None => None,
        }
    }

    /// The child a container leads to or remembers.
    pub open spec fn last_selection(self, n: NodeId) -> Option<NodeId> {
        match self.info(n).pick {
            Some(p) => Some(p.child),
            None => None,
        }
    }

    /// The node, its parent, and so on up to the root.
    pub open spec fn ancestors(self, n: NodeId) -> Seq<NodeId>
        decreases depth(self.nodes, n),
    {
        if self.parent(n) is Some && depth(self.nodes, self.parent(n)->0) < depth(self.nodes, n) {
            seq![n] + self.ancestors(self.parent(n)->0)
        } else {
            seq![n]
        }
    }

    /// Whether `a` is `n` or one of its ancestors.
    pub open spec fn above(self, a: NodeId, n: NodeId) -> bool {
        self.ancestors(n).contains(a)
    }

    /// The root of the tree that a node belongs to.
    pub open spec fn home(self, n: NodeId) -> NodeId {
        self.ancestors(n).last()
    }

    /// The node and its descendants, parents before children, children in order.
    pub open spec fn preorder(self, n: NodeId) -> Seq<NodeId>
        decreases height(self.nodes, n), self.children(n).len() + 1,
    {
        seq![n] + self.preorder_below(n, self.children(n).len())
    }

    /// The first `upto` children with their descendants.
    pub open spec fn preorder_below(self, n: NodeId, upto: nat) -> Seq<NodeId>
        decreases height(self.nodes, n), upto,
    {
        if upto == 0 || upto > self.children(n).len() {
            Seq::empty()
        } else {
            let child = self.children(n)[upto - 1];
            self.preorder_below(n, (upto - 1) as nat) + if height(self.nodes, child) < height(
                self.nodes,
                n,
            ) {
                self.preorder(child)
            } else {
                Seq::empty()
            }
        }
    }

    /// The windows below a node, in order.
    pub open spec fn windows_under(self, n: NodeId) -> Seq<WindowId> {
        self.windows_of(self.preorder(n))
    }

    pub open spec fn windows_of(self, nodes: Seq<NodeId>) -> Seq<WindowId>
        decreases nodes.len(),
    {
        if nodes.len() == 0 {
            Seq::empty()
        } else {
            let rest = self.windows_of(nodes.drop_last());
            match self.window(nodes.last()) {
                Some(w) => rest.push(w),
                None => rest,
            }
        }
    }

    /// The windows that a node shows: of a stack, those below the child it leads to.
    pub open spec fn visible(self, n: NodeId) -> Seq<WindowId>
        decreases height(self.nodes, n), self.children(n).len() + 1,
    {
        let own = match self.window(n) {
            Some(w) => seq![w],
            None => Seq::empty(),
        };
        own + if self.kind(n).stacks() {
            match self.local_selection(n) {
                Some(c) => if height(self.nodes, c) < height(self.nodes, n) {
                    self.visible(c)
                } else {
                    Seq::empty()
                },
                None => Seq::empty(),
            }
        } else {
            self.visible_below(n, self.children(n).len())
        }
    }

    /// The windows that the first `upto` children show.
    pub open spec fn visible_below(self, n: NodeId, upto: nat) -> Seq<WindowId>
        decreases height(self.nodes, n), upto,
    {
        if upto == 0 || upto > self.children(n).len() {
            Seq::empty()
        } else {
            let child = self.children(n)[upto - 1];
            self.visible_below(n, (upto - 1) as nat) + if height(self.nodes, child) < height(
                self.nodes,
                n,
            ) {
                self.visible(child)
            } else {
                Seq::empty()
            }
        }
    }

    /// The node of the first entry of a window in a layout.
    pub open spec fn entry_node(
        index: Seq<WindowEntry>,
        layout: LayoutId,
        window: WindowId,
    ) -> Option<NodeId>
        decreases index.len(),
    {
        if index.len() == 0 {
            None
        } else if index[0].window == window && index[0].layout == layout {
            Some(index[0].node)
        } else {
            Self::entry_node(index.skip(1), layout, window)
        }
    }

    pub open spec fn node_for(self, layout: LayoutId, window: WindowId) -> Option<NodeId> {
        Self::entry_node(self.index, layout, window)
    }

    /// Where a window occurs.
    pub open spec fn entries_for(self, window: WindowId) -> Seq<WindowEntry> {
        self.index.filter(|e: WindowEntry| e.window == window)
    }

    /// Where the windows of a process occur.
    pub open spec fn entries_for_app(self, pid: Pid) -> Seq<WindowEntry> {
        self.index.filter(|e: WindowEntry| e.window.pid == pid)
    }

    /// The node that holds the selection below `n`.
    pub open spec fn selected_below(self, n: NodeId) -> NodeId
        decreases height(self.nodes, n),
    {
        match self.local_selection(n) {
            Some(c) => if height(self.nodes, c) < height(self.nodes, n) {
                self.selected_below(c)
            } else {
                c
            },
            None => n,
        }
    }

    // ----- edits -----

    pub open spec fn noting(self, change: SizeChange) -> ForestView {
        ForestView { changes: self.changes.push(change), ..self }
    }

    pub open spec fn with_info(self, n: NodeId, info: NodeInfo) -> ForestView {
        if self.live(n) {
            ForestView {
                nodes: self.nodes.insert(n, NodeView { info, ..self.nodes[n] }),
                ..self
            }
        } else {
            self
        }
    }

    /// The identifier that the next node gets.
    pub open spec fn next_id(self) -> NodeId {
        self.minted as u64
    }

    /// A new root without children.
    pub open spec fn created(self) -> ForestView {
        ForestView {
            nodes: self.nodes.insert(
                self.next_id(),
                NodeView { parent: None, children: Seq::empty(), info: blank_info() },
            ),
            minted: self.minted + 1,
            ..self
        }.noting(SizeChange::Created { node: self.next_id() })
    }

    /// The root `n` becomes child number `i` of `p`.
    pub open spec fn attached(self, n: NodeId, p: NodeId, i: int) -> ForestView {
        ForestView {
            nodes: self.nodes.insert(
                p,
                NodeView { children: self.nodes[p].children.insert(i, n), ..self.nodes[p] },
            ).insert(n, NodeView { parent: Some(p), ..self.nodes[n] }),
            ..self
        }.noting(SizeChange::Attached { node: n, parent: p, index: i as u64 })
    }

    /// The pick of a container that is about to lose the child `n`.
    pub open spec fn pick_without(self, n: NodeId) -> Option<Pick> {
        match self.nodes[self.parent(n)->0].info.pick {
            Some(p) => if p.child == n {
                match self.next_sibling(n) {
                    Some(c) => Some(Pick { child: c, ..p }),
                    None => match self.prev_sibling(n) {
                        Some(c) => Some(Pick { child: c, ..p }),
                        None => None,
                    },
                }
            } else {
                Some(p)
            },
            None => None,
        }
    }

    /// The child `n` leaves its parent and becomes a root.
    pub open spec fn detached(self, n: NodeId) -> ForestView {
        let p = self.parent(n)->0;
        ForestView {
            nodes: self.nodes.insert(
                p,
                NodeView {
                    children: self.nodes[p].children.remove(self.rank(n)),
                    info: NodeInfo { pick: self.pick_without(n), ..self.nodes[p].info },
                    ..self.nodes[p]
                },
            ).insert(n, NodeView { parent: None, ..self.nodes[n] }),
            ..self
        }.noting(
            SizeChange::Detached { node: n, parent: p, is_window: self.window(n) is Some },
        )
    }

    /// The entries that do not point at `n`.
    pub open spec fn index_without(index: Seq<WindowEntry>, n: NodeId) -> Seq<WindowEntry> {
        index.filter(|e: WindowEntry| e.node != n)
    }

    /// The childless root `n` disappears, with the entry of its window.
    pub open spec fn dropped(self, n: NodeId) -> ForestView {
        ForestView {
            nodes: self.nodes.remove(n),
            index: Self::index_without(self.index, n),
            ..self
        }.noting(SizeChange::Dropped { node: n })
    }

    /// The node leaves its parent and takes its descendants out of the forest.
    pub open spec fn discarded(self, ns: Seq<NodeId>) -> ForestView
        decreases ns.len(),
    {
        if ns.len() == 0 {
            self
        } else {
            self.discarded(ns.drop_last()).dropped(ns.last())
        }
    }

    /// What follows when the container `p` has lost a child: an inner container
    /// without children disappears, one with a single child gives way to it,
    /// and its own parent is looked at in turn.
    pub open spec fn collapsed(self, p: NodeId) -> ForestView
        decreases self.nodes.dom().len(),
    {
        if self.parent(p) is None || self.children(p).len() > 1 {
            self
        } else {
            let above = self.parent(p)->0;
            let next = if self.children(p).len() == 1 {
                self.hoisted(self.children(p)[0], p).detached(p).dropped(p)
            } else {
                self.detached(p).dropped(p)
            };
            if next.nodes.dom().len() < self.nodes.dom().len() {
                next.collapsed(above)
            } else {
                next
            }
        }
    }

    /// The only child `c` of `p` moves behind `p` and takes over its size.
    pub open spec fn hoisted(self, c: NodeId, p: NodeId) -> ForestView {
        let loose = self.detached(c);
        loose.attached(c, loose.parent(p)->0, loose.rank(p) + 1).noting(
            SizeChange::Inherited { node: c, from: p },
        )
    }

    /// The container that a place lies in.
    pub open spec fn place_parent(self, place: Place) -> Option<NodeId> {
        match place {
            Place::Before(s) => self.parent(s),
            Place::After(s) => self.parent(s),
            Place::Last(p) => if self.live(p) {
                Some(p)
            } else {
                None
            },
        }
    }

    /// The number that a child put at a place gets.
    pub open spec fn place_rank(self, place: Place) -> int {
        match place {
            Place::Before(s) => self.rank(s),
            Place::After(s) => self.rank(s) + 1,
            Place::Last(p) => self.children(p).len() as int,
        }
    }

    pub open spec fn place_anchor(place: Place) -> NodeId {
        match place {
            Place::Before(s) => s,
            Place::After(s) => s,
            Place::Last(p) => p,
        }
    }

    /// A place that exists and can hold children.
    pub open spec fn open_place(self, place: Place) -> bool {
        &&& self.place_parent(place) is Some
        &&& self.window(self.place_parent(place)->0) is None
    }

    /// A new node is put at a place. Nothing happens at a place that cannot hold it.
    pub open spec fn with_new(self, place: Place) -> ForestView {
        if self.open_place(place) {
            let c = self.created();
            c.attached(self.next_id(), c.place_parent(place)->0, c.place_rank(place))
        } else {
            self
        }
    }

    /// A child can move to a place outside its own subtree.
    pub open spec fn can_move(self, n: NodeId, place: Place) -> bool {
        &&& self.parent(n) is Some
        &&& self.open_place(place)
        &&& !self.above(n, self.place_parent(place)->0)
        &&& Self::place_anchor(place) != n
    }

    /// The child `n` is put at another place, before its old parent is looked at.
    pub open spec fn shifted(self, n: NodeId, place: Place) -> ForestView {
        let loose = self.detached(n);
        loose.attached(n, loose.place_parent(place)->0, loose.place_rank(place))
    }

    /// The child can move, and the place lies in its own tree.
    pub open spec fn can_move_at_home(self, n: NodeId, place: Place) -> bool {
        &&& self.can_move(n, place)
        &&& self.home(self.place_parent(place)->0) == self.home(n)
    }

    /// The child `n` is put at another place of its tree, if it can move there.
    /// Its old parent stays, however few children it has left.
    pub open spec fn reseated(self, n: NodeId, place: Place) -> ForestView {
        if self.can_move_at_home(n, place) {
            self.shifted(n, place)
        } else {
            self
        }
    }

    /// The child `n` moves to another place of its tree, if it can.
    pub open spec fn moved(self, n: NodeId, place: Place) -> ForestView {
        if self.can_move_at_home(n, place) {
            self.shifted(n, place).collapsed(self.parent(n)->0)
        } else {
            self
        }
    }

    /// The child `n` moves to another place, of its own tree or another one, if
    /// it can.
    pub open spec fn grafted(self, n: NodeId, place: Place) -> ForestView {
        if self.can_move(n, place) {
            self.shifted(n, place).collapsed(self.parent(n)->0)
        } else {
            self
        }
    }

    /// The child `n` and its descendants leave the forest.
    pub open spec fn removed(self, n: NodeId) -> ForestView {
        if self.parent(n) is Some {
            let loose = self.detached(n);
            loose.discarded(loose.preorder(n).reverse()).collapsed(self.parent(n)->0)
        } else {
            self
        }
    }

    /// The tree with root `n` leaves the forest.
    pub open spec fn felled(self, n: NodeId) -> ForestView {
        if self.live(n) && self.parent(n) is None {
            self.discarded(self.preorder(n).reverse())
        } else {
            self
        }
    }

    /// A new root takes the root `n` as its only child.
    pub open spec fn wrapped(self, n: NodeId) -> ForestView {
        if self.live(n) && self.parent(n) is None {
            self.created().attached(n, self.next_id(), 0)
        } else {
            self
        }
    }

    /// The removal of a list of nodes, one after the other.
    pub open spec fn all_removed(self, ns: Seq<NodeId>) -> ForestView
        decreases ns.len(),
    {
        if ns.len() == 0 {
            self
        } else {
            self.all_removed(ns.drop_last()).removed(ns.last())
        }
    }

    /// Each of the first `upto` nodes of a path to the root becomes the pick of
    /// the next one.
    pub open spec fn path_picked(self, path: Seq<NodeId>, upto: int) -> ForestView {
        ForestView {
            nodes: Map::new(
                |k: NodeId| self.nodes.contains_key(k),
                |k: NodeId|
                    {
                        let i = path.index_of(k);
                        if path.contains(k) && 0 < i <= upto {
                            NodeView {
                                info: NodeInfo {
                                    pick: Some(Pick { child: path[i - 1], stop_here: false }),
                                    ..self.nodes[k].info
                                },
                                ..self.nodes[k]
                            }
                        } else {
                            self.nodes[k]
                        }
                    },
            ),
            ..self
        }
    }

    /// The node itself is selected rather than the child it leads to.
    pub open spec fn stopping_at(self, n: NodeId) -> ForestView {
        self.with_info(
            n,
            NodeInfo {
                pick: match self.info(n).pick {
                    Some(p) => Some(Pick { stop_here: true, ..p }),
                    None => None,
                },
                ..self.info(n)
            },
        )
    }

    /// The selection lies on `n`: its ancestors lead to it, and it leads no further.
    pub open spec fn selected(self, n: NodeId) -> ForestView {
        if self.live(n) {
            self.stopping_at(n).path_picked(self.ancestors(n), self.ancestors(n).len() - 1)
        } else {
            self
        }
    }

    /// The nodes on the path from `n` to the root lead to it, up to `stop`.
    pub open spec fn path_selected(self, n: NodeId, stop: NodeId) -> ForestView {
        if self.live(n) {
            self.path_picked(self.ancestors(n), stop_at(self.ancestors(n), stop, 0))
        } else {
            self
        }
    }

    /// The parent of `n` leads to it.
    pub open spec fn selected_locally(self, n: NodeId) -> ForestView {
        if self.parent(n) is Some {
            let p = self.parent(n)->0;
            self.with_info(
                p,
                NodeInfo {
                    pick: Some(Pick { child: n, stop_here: false }),
                    ..self.info(p)
                },
            )
        } else {
            self
        }
    }

    pub open spec fn with_kind(self, n: NodeId, kind: LayoutKind) -> ForestView {
        self.with_info(
            n,
            NodeInfo {
                kind,
                last_ungrouped_kind: if kind.stacks() {
                    self.info(n).last_ungrouped_kind
                } else {
                    kind
                },
                ..self.info(n)
            },
        )
    }

    /// The childless node `n` shows a window, which is entered in the index.
    pub open spec fn with_window(self, layout: LayoutId, n: NodeId, window: WindowId) -> ForestView {
        if self.live(n) && self.children(n).len() == 0 && self.window(n) is None {
            ForestView {
                index: index_with(self.index, WindowEntry { window, layout, node: n }),
                ..self.with_info(n, NodeInfo { window: Some(window), ..self.info(n) })
            }
        } else {
            self
        }
    }

    pub open spec fn with_fullscreen(self, n: NodeId, full: bool, within: bool) -> ForestView {
        self.with_info(
            n,
            NodeInfo { is_fullscreen: full, is_fullscreen_within_gaps: within, ..self.info(n) },
        )
    }

    /// A node that shows a window shows another one.
    pub open spec fn renamed(self, n: NodeId, window: WindowId) -> ForestView {
        if self.window(n) is Some {
            self.with_info(n, NodeInfo { window: Some(window), ..self.info(n) })
        } else {
            self
        }
    }

    /// The index loses the entries of a window.
    pub open spec fn forgetting(self, window: WindowId) -> ForestView {
        ForestView { index: self.index.filter(|e: WindowEntry| e.window != window), ..self }
    }

    /// The index loses the entries of a process.
    pub open spec fn forgetting_app(self, pid: Pid) -> ForestView {
        ForestView { index: self.index.filter(|e: WindowEntry| e.window.pid != pid), ..self }
    }

    /// The nodes of a list of entries show `window` and are entered again under it.
    pub open spec fn entered(self, entries: Seq<WindowEntry>, window: WindowId) -> ForestView
        decreases entries.len(),
    {
        if entries.len() == 0 {
            self
        } else {
            let e = entries.last();
            let t = self.entered(entries.drop_last(), window).renamed(e.node, window);
            ForestView {
                index: index_with(t.index, WindowEntry { window, layout: e.layout, node: e.node }),
                ..t
            }
        }
    }

    /// Every node that showed `from` shows `to`.
    pub open spec fn with_replaced(self, from: WindowId, to: WindowId) -> ForestView {
        if from == to {
            self
        } else {
            self.forgetting(from).entered(self.entries_for(from), to)
        }
    }

    /// The nodes of a window are gone.
    pub open spec fn window_removed(self, window: WindowId) -> ForestView {
        self.forgetting(window).all_removed(entry_nodes(self.entries_for(window)))
    }

    /// A node is gone, and the weights below its old parent are equal.
    pub open spec fn removed_evenly(self, n: NodeId) -> ForestView {
        let t = self.removed(n);
        match self.parent(n) {
            Some(p) => if t.live(p) {
                t.noting(SizeChange::Evened { node: p })
            } else {
                t
            },
            None => t,
        }
    }

    pub open spec fn all_removed_evenly(self, ns: Seq<NodeId>) -> ForestView
        decreases ns.len(),
    {
        if ns.len() == 0 {
            self
        } else {
            self.all_removed_evenly(ns.drop_last()).removed_evenly(ns.last())
        }
    }

    /// The nodes of a window are gone, with equal weights where they were.
    pub open spec fn window_removed_evenly(self, window: WindowId) -> ForestView {
        self.forgetting(window).all_removed_evenly(entry_nodes(self.entries_for(window)))
    }

    /// The nodes of the windows of a process are gone.
    pub open spec fn app_removed(self, pid: Pid) -> ForestView {
        self.forgetting_app(pid).all_removed(entry_nodes(self.entries_for_app(pid)))
    }

    /// The entries of a window in a layout point at `n`.
    pub open spec fn redirected(self, layout: LayoutId, window: WindowId, n: NodeId) -> ForestView {
        ForestView {
            index: Seq::new(
                self.index.len(),
                |i: int| redirect_entry(self.index[i], layout, window, n),
            ),
            ..self
        }
    }

    /// Both windows occur in the layout, at different nodes.
    pub open spec fn can_swap(self, layout: LayoutId, a: WindowId, b: WindowId) -> bool {
        &&& self.node_for(layout, a) is Some
        &&& self.node_for(layout, b) is Some
        &&& self.node_for(layout, a) != self.node_for(layout, b)
        &&& self.window(self.node_for(layout, a)->0) is Some
        &&& self.window(self.node_for(layout, b)->0) is Some
    }

    /// Two windows of a layout change places.
    pub open spec fn with_swapped(self, layout: LayoutId, a: WindowId, b: WindowId) -> ForestView {
        if self.can_swap(layout, a, b) {
            let na = self.node_for(layout, a)->0;
            let nb = self.node_for(layout, b)->0;
            self.renamed(nb, self.window(na)->0).renamed(na, self.window(nb)->0).redirected(
                layout,
                a,
                nb,
            ).redirected(layout, b, na)
        } else {
            self
        }
    }

    // ----- copies -----

    /// The identifier of the copy of `x`, a node of the traversal `src`.
    pub open spec fn copy_id(self, src: Seq<NodeId>, x: NodeId) -> NodeId {
        (self.minted + src.index_of(x)) as u64
    }

    /// The copy of `x` in a copy of the tree that `src` traverses.
    pub open spec fn copy_node(self, src: Seq<NodeId>, x: NodeId) -> NodeView {
        let v = self.nodes[x];
        NodeView {
            parent: if x == src[0] {
                None
            } else {
                Some(self.copy_id(src, v.parent->0))
            },
            children: Seq::new(v.children.len(), |i: int| self.copy_id(src, v.children[i])),
            info: NodeInfo {
                pick: match v.info.pick {
                    Some(p) => Some(Pick { child: self.copy_id(src, p.child), ..p }),
                    None => None,
                },
                ..v.info
            },
        }
    }

    /// The nodes after the first `upto` nodes of `src` have been copied.
    pub open spec fn copy_nodes(self, src: Seq<NodeId>, upto: nat) -> Map<NodeId, NodeView> {
        Map::new(
            |m: NodeId| self.nodes.contains_key(m) || self.minted <= m < self.minted + upto,
            |m: NodeId|
                if self.nodes.contains_key(m) {
                    self.nodes[m]
                } else {
                    self.copy_node(src, src[m - self.minted])
                },
        )
    }

    /// The index after the windows of the first `upto` copies have been entered.
    pub open spec fn copy_index(
        self,
        src: Seq<NodeId>,
        layout: LayoutId,
        upto: nat,
    ) -> Seq<WindowEntry>
        decreases upto,
    {
        if upto == 0 {
            self.index
        } else {
            let t = self.copy_index(src, layout, (upto - 1) as nat);
            match self.window(src[upto - 1]) {
                Some(window) => index_with(
                    t,
                    WindowEntry { window, layout, node: (self.minted + upto - 1) as u64 },
                ),
                None => t,
            }
        }
    }

    /// The size steps of a copy: all nodes appear, then they are hung up, then
    /// they take over the weights.
    pub open spec fn copy_changes(self, src: Seq<NodeId>) -> Seq<SizeChange> {
        self.changes + Seq::new(
            src.len(),
            |k: int| SizeChange::Created { node: (self.minted + k) as u64 },
        ) + Seq::new(
            (src.len() - 1) as nat,
            |k: int|
                SizeChange::Attached {
                    node: (self.minted + k + 1) as u64,
                    parent: self.copy_id(src, self.nodes[src[k + 1]].parent->0),
                    index: self.rank(src[k + 1]) as u64,
                },
        ) + Seq::new(
            src.len(),
            |k: int| SizeChange::Copied { src: src[k], dest: (self.minted + k) as u64 },
        )
    }

    /// The tree with root `n` is copied; the windows of the copy belong to `layout`.
    pub open spec fn copied(self, n: NodeId, layout: LayoutId) -> ForestView {
        let src = self.preorder(n);
        ForestView {
            nodes: self.copy_nodes(src, src.len()),
            minted: self.minted + src.len(),
            index: self.copy_index(src, layout, src.len()),
            changes: self.copy_changes(src),
        }
    }
}

} // verus!
