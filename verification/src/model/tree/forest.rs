//! The executable forest.

use std::collections::HashMap;

use vstd::prelude::*;

use crate::actor::{LayoutId, Pid, WindowId};
use crate::layout_engine::LayoutKind;
use crate::model::tree::kept;
use crate::model::tree::proofs;
use crate::model::tree::view;
use crate::model::tree::view::{
    ForestView, NodeId, NodeInfo, NodeView, Pick, Place, SizeChange, WindowEntry,
};

verus! {

broadcast use vstd::std_specs::hash::group_hash_axioms;

/// A node with its links.
pub struct Node {
    parent: Option<NodeId>,
    children: Vec<NodeId>,
    info: NodeInfo,
}

impl View for Node {
    type V = NodeView;

    closed spec fn view(&self) -> NodeView {
        NodeView { parent: self.parent, children: self.children@, info: self.info }
    }
}

/// Nodes in trees, the windows they show, and the size steps to follow.
pub struct Forest {
    nodes: HashMap<u64, Node>,
    /// One element for each identifier given out. The elements take no space:
    /// only the length is kept.
    minted: Vec<()>,
    index: Vec<WindowEntry>,
    changes: Vec<SizeChange>,
}

impl View for Forest {
    type V = ForestView;

    closed spec fn view(&self) -> ForestView {
        ForestView {
            nodes: self.nodes@.map_values(|n: Node| n@),
            minted: self.minted@.len(),
            index: self.index@,
            changes: self.changes@,
        }
    }
}

impl Forest {
    pub open spec fn wf(&self) -> bool {
        self@.wf()
    }

    /// A forest without nodes.
    pub fn new() -> (r: Forest)
        ensures
            r.wf(),
            r@ == ForestView::empty(),
    {
        let r = Forest {
            nodes: HashMap::new(),
            minted: Vec::new(),
            index: Vec::new(),
            changes: Vec::new(),
        };
        proof {
            assert(r@.nodes =~= Map::empty());
            let w = (|n: NodeId| 0nat, 0nat);
            assert(view::ranked(r@.nodes, w.0, w.1));
            assert(r@ =~= ForestView::empty());
        }
        r
    }

    fn node(&self, n: NodeId) -> (r: Option<&Node>)
        ensures
            r is Some <==> self@.live(n),
            r matches Some(v) ==> v@ == self@.nodes[n],
    {
        self.nodes.get(&n)
    }

    pub fn is_live(&self, n: NodeId) -> (r: bool)
        ensures
            r == self@.live(n),
    {
        self.nodes.contains_key(&n)
    }

    pub fn parent(&self, n: NodeId) -> (r: Option<NodeId>)
        ensures
            r == self@.parent(n),
    {
        match self.node(n) {
            Some(v) => v.parent,
            None => None,
        }
    }

    pub fn info(&self, n: NodeId) -> (r: NodeInfo)
        ensures
            r == self@.info(n),
    {
        match self.node(n) {
            Some(v) => v.info,
            None => NodeInfo {
                window: None,
                pick: None,
                kind: LayoutKind::Horizontal,
                last_ungrouped_kind: LayoutKind::Horizontal,
                is_fullscreen: false,
                is_fullscreen_within_gaps: false,
            },
        }
    }

    pub fn window_at(&self, n: NodeId) -> (r: Option<WindowId>)
        ensures
            r == self@.window(n),
    {
        self.info(n).window
    }

    pub fn kind(&self, n: NodeId) -> (r: LayoutKind)
        ensures
            r == self@.kind(n),
    {
        self.info(n).kind
    }

    pub fn child_count(&self, n: NodeId) -> (r: usize)
        ensures
            r == self@.children(n).len(),
    {
        match self.node(n) {
            Some(v) => v.children.len(),
            None => 0,
        }
    }

    pub fn children(&self, n: NodeId) -> (r: Vec<NodeId>)
        ensures
            r@ == self@.children(n),
    {
        match self.node(n) {
            Some(v) => {
                let r = v.children.clone();
                assert(r@ =~= v.children@);
                r
            },
            None => Vec::new(),
        }
    }

    pub fn first_child(&self, n: NodeId) -> (r: Option<NodeId>)
        ensures
            r == self@.first_child(n),
    {
        match self.node(n) {
            Some(v) => if v.children.len() > 0 {
                Some(v.children[0])
            } else {
                None
            },
            None => None,
        }
    }

    pub fn last_child(&self, n: NodeId) -> (r: Option<NodeId>)
        ensures
            r == self@.last_child(n),
    {
        match self.node(n) {
            Some(v) => if v.children.len() > 0 {
                Some(v.children[v.children.len() - 1])
            } else {
                None
            },
            None => None,
        }
    }

    pub fn local_selection(&self, n: NodeId) -> (r: Option<NodeId>)
        ensures
            r == self@.local_selection(n),
    {
        match self.info(n).pick {
            Some(p) => if p.stop_here {
                None
            } else {
                Some(p.child)
            },
            None => None,
        }
    }

    pub fn last_selection(&self, n: NodeId) -> (r: Option<NodeId>)
        ensures
            r == self@.last_selection(n),
    {
        match self.info(n).pick {
            Some(p) => Some(p.child),
            None => None,
        }
    }

    /// The position of a child among its siblings.
    pub fn rank(&self, n: NodeId) -> (r: usize)
        requires
            self.wf(),
            self@.parent(n) is Some,
        ensures
            r == self@.rank(n),
            r < self@.children(self@.parent(n)->0).len(),
            r < usize::MAX,
    {
        let p = self.parent(n).unwrap();
        proof {
            proofs::lemma_node(self@, n);
        }
        let siblings = &self.node(p).unwrap().children;
        let ghost all = self@.nodes[p].children;
        let mut i: usize = 0;
        while i < siblings.len()
            invariant
                siblings@ == all,
                all.contains(n),
                i <= siblings.len(),
                forall|j: int| 0 <= j < i ==> all[j] != n,
                all == self@.children(self@.parent(n)->0),
                0 <= self@.rank(n) < all.len(),
                all[self@.rank(n)] == n,
                self.wf(),
                self@.live(p),
                all == self@.nodes[p].children,
            decreases siblings.len() - i,
        {
            if siblings[i] == n {
                proof {
                    proofs::lemma_node(self@, p);
                    assert(all.no_duplicates());
                }
                return i;
            }
            i += 1;
        }
        assert(false);
        0
    }

    pub fn next_sibling(&self, n: NodeId) -> (r: Option<NodeId>)
        requires
            self.wf(),
        ensures
            r == self@.next_sibling(n),
    {
        match self.parent(n) {
            Some(p) => {
                let i = self.rank(n);
                proof {
                    proofs::lemma_node(self@, n);
                }
                let siblings = &self.node(p).unwrap().children;
                if siblings.len() - i > 1 {
                    Some(siblings[i + 1])
                } else {
                    None
                }
            },
            None => None,
        }
    }

    pub fn prev_sibling(&self, n: NodeId) -> (r: Option<NodeId>)
        requires
            self.wf(),
        ensures
            r == self@.prev_sibling(n),
    {
        match self.parent(n) {
            Some(p) => {
                let i = self.rank(n);
                proof {
                    proofs::lemma_node(self@, n);
                }
                let siblings = &self.node(p).unwrap().children;
                if i > 0 {
                    Some(siblings[i - 1])
                } else {
                    None
                }
            },
            None => None,
        }
    }

    pub fn sibling(&self, n: NodeId, forward: bool) -> (r: Option<NodeId>)
        requires
            self.wf(),
        ensures
            r == self@.sibling(n, forward),
    {
        if forward {
            self.next_sibling(n)
        } else {
            self.prev_sibling(n)
        }
    }

    /// The path from a node to its root.
    pub fn ancestors(&self, n: NodeId) -> (r: Vec<NodeId>)
        requires
            self.wf(),
        ensures
            r@ == self@.ancestors(n),
            r@.len() > 0,
    {
        let mut path: Vec<NodeId> = Vec::new();
        path.push(n);
        let mut at = n;
        let mut up = self.parent(n);
        while up.is_some()
            invariant
                self.wf(),
                up == self@.parent(at),
                path@.len() > 0,
                path@.last() == at,
                path@.drop_last() + self@.ancestors(at) == self@.ancestors(n),
            decreases view::depth(self@.nodes, at),
        {
            let p = up.unwrap();
            proof {
                proofs::lemma_node(self@, at);
                proofs::lemma_ancestors(self@, at);
                assert(path@.push(p).drop_last() == path@);
                assert(path@ + self@.ancestors(p) =~= path@.drop_last() + self@.ancestors(at));
            }
            path.push(p);
            at = p;
            up = self.parent(p);
        }
        assert(path@ =~= path@.drop_last() + self@.ancestors(at));
        path
    }

    /// Whether `a` is `n` or lies above it.
    pub fn is_above(&self, a: NodeId, n: NodeId) -> (r: bool)
        requires
            self.wf(),
        ensures
            r == self@.above(a, n),
    {
        let path = self.ancestors(n);
        let mut i: usize = 0;
        while i < path.len()
            invariant
                i <= path.len(),
                path@ == self@.ancestors(n),
                forall|j: int| 0 <= j < i ==> path@[j] != a,
            decreases path.len() - i,
        {
            if path[i] == a {
                return true;
            }
            i += 1;
        }
        false
    }

    /// The root of the tree that a node belongs to.
    pub fn home(&self, n: NodeId) -> (r: NodeId)
        requires
            self.wf(),
        ensures
            r == self@.home(n),
    {
        let path = self.ancestors(n);
        path[path.len() - 1]
    }

    // ----- edits -----

    fn note(&mut self, change: SizeChange)
        ensures
            final(self)@ == old(self)@.noting(change),
    {
        self.changes.push(change);
    }

    fn take_node(&mut self, n: NodeId) -> (r: Node)
        requires
            old(self)@.live(n),
        ensures
            r@ == old(self)@.nodes[n],
            final(self)@ == (ForestView { nodes: old(self)@.nodes.remove(n), ..old(self)@ }),
    {
        let ghost before = self@;
        let r = self.nodes.remove(&n).unwrap();
        assert(self@.nodes =~= before.nodes.remove(n));
        r
    }

    fn put_node(&mut self, n: NodeId, node: Node)
        ensures
            final(self)@ == (ForestView {
                nodes: old(self)@.nodes.insert(n, node@),
                ..old(self)@
            }),
    {
        let ghost before = self@;
        self.nodes.insert(n, node);
        assert(self@.nodes =~= before.nodes.insert(n, node@));
    }

    /// Exchanges what a node holds. Nothing happens to a node that is gone.
    fn set_info(&mut self, n: NodeId, info: NodeInfo)
        ensures
            final(self)@ == old(self)@.with_info(n, info),
    {
        if self.is_live(n) {
            let ghost before = self@;
            let mut node = self.take_node(n);
            node.info = info;
            self.put_node(n, node);
            assert(self@.nodes =~= before.with_info(n, info).nodes);
        }
    }

    /// Adds a root without children.
    pub fn create(&mut self) -> (r: NodeId)
        requires
            old(self).wf(),
        ensures
            final(self).wf(),
            r == old(self)@.next_id(),
            final(self)@ == old(self)@.created(),
            old(self)@.minted <= u64::MAX,
    {
        let n = self.minted.len() as u64;
        proof {
            proofs::lemma_created(self@);
        }
        self.minted.push(());
        self.put_node(
            n,
            Node {
                parent: None,
                children: Vec::new(),
                info: NodeInfo {
                    window: None,
                    pick: None,
                    kind: LayoutKind::Horizontal,
                    last_ungrouped_kind: LayoutKind::Horizontal,
                    is_fullscreen: false,
                    is_fullscreen_within_gaps: false,
                },
            },
        );
        self.note(SizeChange::Created { node: n });
        assert(self@ == old(self)@.created());
        n
    }

    /// Hangs the root `n` below `p` as child number `i`.
    fn attach(&mut self, n: NodeId, p: NodeId, i: usize)
        requires
            old(self)@.live(n),
            old(self)@.live(p),
            n != p,
            0 <= i <= old(self)@.children(p).len(),
        ensures
            final(self)@ == old(self)@.attached(n, p, i as int),
    {
        let ghost before = self@;
        let mut above = self.take_node(p);
        above.children.insert(i, n);
        self.put_node(p, above);
        let mut node = self.take_node(n);
        node.parent = Some(p);
        self.put_node(n, node);
        self.note(SizeChange::Attached { node: n, parent: p, index: i as u64 });
        assert(self@.nodes =~= before.attached(n, p, i as int).nodes);
    }

    /// Takes the child `n` off its parent.
    fn detach(&mut self, n: NodeId)
        requires
            old(self).wf(),
            old(self)@.parent(n) is Some,
        ensures
            final(self).wf(),
            final(self)@ == old(self)@.detached(n),
    {
        let ghost before = self@;
        let p = self.parent(n).unwrap();
        proof {
            proofs::lemma_node(before, n);
            proofs::lemma_detached(before, n);
        }
        let i = self.rank(n);
        let next = self.next_sibling(n);
        let prev = self.prev_sibling(n);
        let is_window = self.window_at(n).is_some();
        let mut above = self.take_node(p);
        above.info.pick = match above.info.pick {
            Some(pick) => if pick.child == n {
                match next {
                    Some(c) => Some(Pick { child: c, stop_here: pick.stop_here }),
                    None => match prev {
                        Some(c) => Some(Pick { child: c, stop_here: pick.stop_here }),
                        None => None,
                    },
                }
            } else {
                Some(pick)
            },
            None => None,
        };
        above.children.remove(i);
        self.put_node(p, above);
        let mut node = self.take_node(n);
        node.parent = None;
        self.put_node(n, node);
        self.note(SizeChange::Detached { node: n, parent: p, is_window });
        assert(self@.nodes =~= before.detached(n).nodes);
    }

    /// Takes a node out of the forest, with the index entries that point at it.
    fn drop_node(&mut self, n: NodeId)
        ensures
            final(self)@ == old(self)@.dropped(n),
    {
        let ghost before = self@;
        let _ = self.nodes.remove(&n);
        self.forget_node(n);
        self.note(SizeChange::Dropped { node: n });
        assert(self@.nodes =~= before.dropped(n).nodes);
    }

    /// Removes the index entries that point at a node.
    fn forget_node(&mut self, n: NodeId)
        ensures
            final(self)@ == (ForestView {
                index: ForestView::index_without(old(self)@.index, n),
                ..old(self)@
            }),
    {
        let ghost before = self@;
        let ghost keep = |e: WindowEntry| e.node != n;
        let mut kept: Vec<WindowEntry> = Vec::new();
        let mut i: usize = 0;
        while i < self.index.len()
            invariant
                i <= self.index.len(),
                self@ == before,
                keep == |e: WindowEntry| e.node != n,
                kept@ == self.index@.take(i as int).filter(keep),
            decreases self.index.len() - i,
        {
            let e = self.index[i];
            proof {
                let head = self.index@.take(i as int);
                assert(self.index@.take(i + 1) =~= head.push(e));
                reveal(Seq::filter);
                assert(head.push(e).drop_last() =~= head);
            }
            if e.node != n {
                kept.push(e);
            }
            i += 1;
        }
        assert(self.index@.take(i as int) =~= self.index@);
        self.index = kept;
        assert(self@.nodes =~= before.nodes);
    }

    /// Looks after a container that has lost a child.
    fn collapse(&mut self, p: NodeId)
        requires
            old(self).wf(),
        ensures
            final(self).wf(),
            final(self)@ == old(self)@.collapsed(p),
        decreases old(self)@.nodes.dom().len(),
    {
        let above = match self.parent(p) {
            Some(above) => above,
            None => {
                return;
            },
        };
        let count = self.child_count(p);
        if count > 1 {
            return;
        }
        let ghost before = self@;
        proof {
            proofs::lemma_node(before, p);
            proofs::lemma_collapsed(before, p);
        }
        if count == 1 {
            let c = self.first_child(p).unwrap();
            proof {
                proofs::lemma_hoisted(before, p);
            }
            self.detach(c);
            let i = self.rank(p);
            self.attach(c, above, i + 1);
            self.note(SizeChange::Inherited { node: c, from: p });
            assert(self@ == before.hoisted(c, p));
        }
        let ghost ready = self@;
        proof {
            proofs::lemma_detached(ready, p);
            proofs::lemma_dropped(ready.detached(p), p);
        }
        self.detach(p);
        self.drop_node(p);
        self.collapse(above);
    }

    /// Adds a node at a place that can hold one.
    pub fn insert_new(&mut self, place: Place) -> (r: NodeId)
        requires
            old(self).wf(),
        ensures
            final(self).wf(),
            r == old(self)@.next_id(),
            final(self)@ == old(self)@.with_new(place),
            kept::rearranged(old(self)@, final(self)@),
            old(self)@.minted <= u64::MAX,
    {
        let ghost before = self@;
        let id = self.minted.len() as u64;
        proof {
            proofs::lemma_with_new(before, place);
            kept::lemma_with_new(before, place);
        }
        let p = match self.place_parent(place) {
            Some(p) => p,
            None => {
                return id;
            },
        };
        if self.window_at(p).is_some() {
            return id;
        }
        let n = self.create();
        let i = self.place_rank(place);
        self.attach(n, p, i);
        n
    }

    fn place_parent(&self, place: Place) -> (r: Option<NodeId>)
        ensures
            r == self@.place_parent(place),
    {
        match place {
            Place::Before(s) => self.parent(s),
            Place::After(s) => self.parent(s),
            Place::Last(p) => if self.is_live(p) {
                Some(p)
            } else {
                None
            },
        }
    }

    fn place_rank(&self, place: Place) -> (r: usize)
        requires
            self.wf(),
            self@.place_parent(place) is Some,
        ensures
            r == self@.place_rank(place),
    {
        match place {
            Place::Before(s) => self.rank(s),
            Place::After(s) => self.rank(s) + 1,
            Place::Last(p) => self.child_count(p),
        }
    }

    /// Whether the child `n` can move to a place.
    fn can_move(&self, n: NodeId, place: Place) -> (r: bool)
        requires
            self.wf(),
        ensures
            r == self@.can_move(n, place),
    {
        let anchor = match place {
            Place::Before(s) => s,
            Place::After(s) => s,
            Place::Last(p) => p,
        };
        match self.place_parent(place) {
            Some(p) => self.parent(n).is_some() && self.window_at(p).is_none() && !self.is_above(
                n,
                p,
            ) && anchor != n,
            None => false,
        }
    }

    /// Whether the child `n` can move to a place of its own tree.
    fn can_move_at_home(&self, n: NodeId, place: Place) -> (r: bool)
        requires
            self.wf(),
        ensures
            r == self@.can_move_at_home(n, place),
    {
        if self.can_move(n, place) {
            match self.place_parent(place) {
                Some(p) => self.home(p) == self.home(n),
                None => false,
            }
        } else {
            false
        }
    }

    /// Moves the child `n` to a place of its tree outside its own subtree.
    /// Containers that lose their last or last but one child give way. Nothing
    /// happens where the move is impossible.
    pub fn move_to(&mut self, n: NodeId, place: Place)
        requires
            old(self).wf(),
        ensures
            final(self).wf(),
            final(self)@ == old(self)@.moved(n, place),
            kept::rearranged(old(self)@, final(self)@),
    {
        proof {
            kept::lemma_moved(self@, n, place);
        }
        if !self.can_move_at_home(n, place) {
            return;
        }
        let from = self.parent(n).unwrap();
        self.shift(n, place);
        self.collapse(from);
    }

    /// Moves the child `n` as `move_to` does, but to a place of any tree.
    pub fn graft(&mut self, n: NodeId, place: Place)
        requires
            old(self).wf(),
        ensures
            final(self).wf(),
            final(self)@ == old(self)@.grafted(n, place),
            kept::rearranged(old(self)@, final(self)@),
    {
        proof {
            kept::lemma_moved(self@, n, place);
        }
        if !self.can_move(n, place) {
            return;
        }
        let from = self.parent(n).unwrap();
        self.shift(n, place);
        self.collapse(from);
    }

    /// Moves the child `n` to a place of its tree outside its own subtree and
    /// leaves its old parent where it is. Nothing happens where the move is
    /// impossible.
    pub fn reseat(&mut self, n: NodeId, place: Place)
        requires
            old(self).wf(),
        ensures
            final(self).wf(),
            final(self)@ == old(self)@.reseated(n, place),
            kept::rearranged(old(self)@, final(self)@),
    {
        if self.can_move_at_home(n, place) {
            proof {
                kept::lemma_shifted(self@, n, place);
            }
            self.shift(n, place);
        }
    }

    /// Moves the child `n` without looking after its old parent.
    fn shift(&mut self, n: NodeId, place: Place)
        requires
            old(self).wf(),
            old(self)@.can_move(n, place),
        ensures
            final(self).wf(),
            final(self)@ == old(self)@.shifted(n, place),
    {
        proof {
            proofs::lemma_shifted(self@, n, place);
        }
        self.detach(n);
        let p = self.place_parent(place).unwrap();
        let i = self.place_rank(place);
        self.attach(n, p, i);
    }

    /// Each of the first `upto` nodes of a path becomes the pick of the next one.
    fn pick_path(&mut self, path: &Vec<NodeId>, upto: usize)
        requires
            old(self).wf(),
            upto < path@.len(),
            path@.no_duplicates(),
            forall|i: int| 0 <= i < path@.len() ==> old(self)@.live(#[trigger] path@[i]),
        ensures
            final(self)@ == old(self)@.path_picked(path@, upto as int),
    {
        let ghost before = self@;
        let mut i: usize = 0;
        assert(self@.nodes =~= before.path_picked(path@, 0).nodes);
        while i < upto
            invariant
                i <= upto < path@.len(),
                path@.no_duplicates(),
                forall|j: int| 0 <= j < path@.len() ==> before.live(#[trigger] path@[j]),
                self@ == before.path_picked(path@, i as int),
            decreases upto - i,
        {
            let k = path[i + 1];
            assert(before.live(path@[i + 1]));
            assert(path@.index_of(k) == i + 1) by {
                assert(path@.contains(k));
            }
            assert(self@.live(k));
            let mut info = self.info(k);
            info.pick = Some(Pick { child: path[i], stop_here: false });
            self.set_info(k, info);
            proof {
                let want = before.path_picked(path@, i + 1).nodes;
                assert(self@.nodes.dom() =~= want.dom());
                assert forall|m: NodeId| self@.nodes.contains_key(m) implies #[trigger] self@.nodes[m]
                    == want[m] by {
                    if m == k {
                    } else if path@.contains(m) {
                        let j = path@.index_of(m);
                        assert(path@[j] == m);
                        assert(j != i + 1);
                    }
                }
                assert(self@.nodes =~= want);
            }
            i += 1;
        }
    }

    /// Puts the selection on a node: every ancestor leads to it.
    pub fn select(&mut self, n: NodeId)
        requires
            old(self).wf(),
        ensures
            final(self).wf(),
            final(self)@ == old(self)@.selected(n),
            kept::rearranged(old(self)@, final(self)@),
    {
        proof {
            kept::lemma_selected(self@, n);
        }
        if !self.is_live(n) {
            return;
        }
        proof {
            proofs::lemma_selected(self@, n);
            proofs::lemma_ancestors(self@, n);
        }
        let path = self.ancestors(n);
        let mut info = self.info(n);
        info.pick = match info.pick {
            Some(p) => Some(Pick { child: p.child, stop_here: true }),
            None => None,
        };
        self.set_info(n, info);
        assert(self@ == old(self)@.stopping_at(n));
        proof {
            proofs::lemma_ancestors(self@, n);
        }
        self.pick_path(&path, path.len() - 1);
    }

    /// Leads the parent of `n` to it, and says whether it led elsewhere before.
    pub fn select_locally(&mut self, n: NodeId) -> (r: bool)
        requires
            old(self).wf(),
        ensures
            final(self).wf(),
            final(self)@ == old(self)@.selected_locally(n),
            kept::rearranged(old(self)@, final(self)@),
            r == (old(self)@.parent(n) is Some && old(self)@.last_selection(
                old(self)@.parent(n)->0,
            ) != Some(n)),
    {
        proof {
            kept::lemma_selected_locally(self@, n);
        }
        proof {
            proofs::lemma_selected_locally(self@, n);
        }
        match self.parent(n) {
            Some(p) => {
                let mut info = self.info(p);
                let changed = match info.pick {
                    Some(pick) => pick.child != n,
                    None => true,
                };
                info.pick = Some(Pick { child: n, stop_here: false });
                self.set_info(p, info);
                changed
            },
            None => false,
        }
    }

    /// Leads each node on the path from `n` to the root, up to `stop`, to the
    /// node before it.
    pub fn select_path(&mut self, n: NodeId, stop: NodeId)
        requires
            old(self).wf(),
        ensures
            final(self).wf(),
            final(self)@ == old(self)@.path_selected(n, stop),
            kept::rearranged(old(self)@, final(self)@),
    {
        proof {
            kept::lemma_path_selected(self@, n, stop);
        }
        if !self.is_live(n) {
            return;
        }
        let path = self.ancestors(n);
        let mut upto: usize = 0;
        proof {
            proofs::lemma_ancestors(self@, n);
        }
        while upto < path.len() - 1 && path[upto] != stop
            invariant
                path@ == self@.ancestors(n),
                0 <= upto < path@.len(),
                view::stop_at(path@, stop, 0) == view::stop_at(path@, stop, upto as int),
            decreases path.len() - upto,
        {
            upto += 1;
        }
        proof {
            proofs::lemma_path_picked(self@, n, upto as int);
        }
        self.pick_path(&path, upto);
    }

    pub fn set_kind(&mut self, n: NodeId, kind: LayoutKind)
        requires
            old(self).wf(),
        ensures
            final(self).wf(),
            final(self)@ == old(self)@.with_kind(n, kind),
            kept::rearranged(old(self)@, final(self)@),
    {
        proof {
            kept::lemma_with_kind(self@, n, kind);
        }
        proof {
            proofs::lemma_with_kind(self@, n, kind);
        }
        let mut info = self.info(n);
        info.kind = kind;
        if !kind.is_group() {
            info.last_ungrouped_kind = kind;
        }
        self.set_info(n, info);
    }

    /// Gives a childless node without window a window.
    pub fn set_window(&mut self, layout: LayoutId, n: NodeId, window: WindowId)
        requires
            old(self).wf(),
        ensures
            final(self).wf(),
            final(self)@ == old(self)@.with_window(layout, n, window),
            kept::other_roots_kept(old(self)@, final(self)@, n),
    {
        proof {
            proofs::lemma_with_window(self@, layout, n, window);
        }
        if self.is_live(n) && self.child_count(n) == 0 && self.window_at(n).is_none() {
            let mut info = self.info(n);
            info.window = Some(window);
            self.set_info(n, info);
            self.enter(WindowEntry { window, layout, node: n });
        }
    }

    /// Adds an entry behind those of its window.
    fn enter(&mut self, entry: WindowEntry)
        ensures
            final(self)@ == (ForestView {
                index: view::index_with(old(self)@.index, entry),
                ..old(self)@
            }),
    {
        let mut i: usize = 0;
        while i < self.index.len() && self.index[i].window.not_after(entry.window)
            invariant
                i <= self.index.len(),
                self@ == old(self)@,
                view::entry_slot(self.index@, entry.window, 0) == view::entry_slot(
                    self.index@,
                    entry.window,
                    i as int,
                ),
            decreases self.index.len() - i,
        {
            i += 1;
        }
        self.index.insert(i, entry);
    }

    fn preorder_into(&self, n: NodeId, out: &mut Vec<NodeId>)
        requires
            self.wf(),
        ensures
            final(out)@ == old(out)@ + self@.preorder(n),
        decreases view::height(self@.nodes, n),
    {
        let ghost start = out@;
        out.push(n);
        let kids = self.children(n);
        let mut i: usize = 0;
        assert(out@ =~= start + seq![n] + self@.preorder_below(n, 0));
        while i < kids.len()
            invariant
                self.wf(),
                kids@ == self@.children(n),
                i <= kids.len(),
                out@ == start + seq![n] + self@.preorder_below(n, i as nat),
            decreases kids.len() - i,
        {
            let c = kids[i];
            proof {
                proofs::lemma_node(self@, n);
                assert(self@.nodes[n].children[i as int] == c);
            }
            self.preorder_into(c, out);
            assert(out@ =~= start + seq![n] + self@.preorder_below(n, (i + 1) as nat));
            i += 1;
        }
        assert(out@ =~= start + self@.preorder(n));
    }

    /// A node and its descendants, parents before children.
    pub fn preorder(&self, n: NodeId) -> (r: Vec<NodeId>)
        requires
            self.wf(),
        ensures
            r@ == self@.preorder(n),
    {
        let mut out: Vec<NodeId> = Vec::new();
        self.preorder_into(n, &mut out);
        assert(out@ =~= self@.preorder(n));
        out
    }

    /// The windows below a node, in order.
    pub fn windows_under(&self, n: NodeId) -> (r: Vec<WindowId>)
        requires
            self.wf(),
        ensures
            r@ == self@.windows_under(n),
    {
        let nodes = self.preorder(n);
        let mut out: Vec<WindowId> = Vec::new();
        let mut i: usize = 0;
        assert(nodes@.take(0) =~= Seq::empty());
        while i < nodes.len()
            invariant
                i <= nodes.len(),
                out@ == self@.windows_of(nodes@.take(i as int)),
            decreases nodes.len() - i,
        {
            assert(nodes@.take(i + 1).drop_last() =~= nodes@.take(i as int));
            match self.window_at(nodes[i]) {
                Some(w) => {
                    out.push(w);
                },
                None => {},
            }
            i += 1;
        }
        assert(nodes@.take(i as int) =~= nodes@);
        out
    }

    fn visible_into(&self, n: NodeId, out: &mut Vec<WindowId>)
        requires
            self.wf(),
        ensures
            final(out)@ == old(out)@ + self@.visible(n),
        decreases view::height(self@.nodes, n),
    {
        let ghost start = out@;
        let ghost own = match self@.window(n) {
            Some(w) => seq![w],
            None => Seq::empty(),
        };
        match self.window_at(n) {
            Some(w) => {
                out.push(w);
            },
            None => {},
        }
        assert(out@ =~= start + own);
        if self.kind(n).is_group() {
            match self.local_selection(n) {
                Some(c) => {
                    proof {
                        proofs::lemma_pick(self@, n);
                    }
                    self.visible_into(c, out);
                },
                None => {},
            }
            assert(out@ =~= start + self@.visible(n));
            return;
        }
        let kids = self.children(n);
        let mut i: usize = 0;
        assert(out@ =~= start + own + self@.visible_below(n, 0));
        while i < kids.len()
            invariant
                self.wf(),
                kids@ == self@.children(n),
                i <= kids.len(),
                out@ == start + own + self@.visible_below(n, i as nat),
            decreases kids.len() - i,
        {
            let c = kids[i];
            proof {
                proofs::lemma_node(self@, n);
                assert(self@.nodes[n].children[i as int] == c);
            }
            self.visible_into(c, out);
            assert(out@ =~= start + own + self@.visible_below(n, (i + 1) as nat));
            i += 1;
        }
        assert(out@ =~= start + self@.visible(n));
    }

    /// The windows that a node shows.
    pub fn visible_windows(&self, n: NodeId) -> (r: Vec<WindowId>)
        requires
            self.wf(),
        ensures
            r@ == self@.visible(n),
    {
        let mut out: Vec<WindowId> = Vec::new();
        self.visible_into(n, &mut out);
        assert(out@ =~= self@.visible(n));
        out
    }

    /// The node that holds the selection below a node.
    pub fn selected_below(&self, n: NodeId) -> (r: NodeId)
        requires
            self.wf(),
        ensures
            r == self@.selected_below(n),
    {
        let mut at = n;
        let mut next = self.local_selection(n);
        while next.is_some()
            invariant
                self.wf(),
                next == self@.local_selection(at),
                self@.selected_below(at) == self@.selected_below(n),
            decreases view::height(self@.nodes, at),
        {
            let c = next.unwrap();
            proof {
                proofs::lemma_pick(self@, at);
            }
            at = c;
            next = self.local_selection(c);
        }
        at
    }

    /// Removes a child with its descendants.
    pub fn remove(&mut self, n: NodeId)
        requires
            old(self).wf(),
        ensures
            final(self).wf(),
            final(self)@ == old(self)@.removed(n),
            kept::roots_kept(old(self)@, final(self)@),
    {
        proof {
            kept::lemma_removed_roots(self@, n);
        }
        match self.parent(n) {
            Some(p) => {
                proof {
                    proofs::lemma_detached(self@, n);
                }
                self.detach(n);
                proof {
                    proofs::lemma_discarded(self@, n);
                }
                let nodes = self.preorder(n);
                self.discard(&nodes);
                self.collapse(p);
            },
            None => {},
        }
    }

    /// Drops a list of nodes, the last one first.
    fn discard(&mut self, nodes: &Vec<NodeId>)
        ensures
            final(self)@ == old(self)@.discarded(nodes@.reverse()),
    {
        let ghost before = self@;
        let ghost ns = nodes@.reverse();
        let mut i: usize = nodes.len();
        assert(ns.take(0) =~= Seq::empty());
        while i > 0
            invariant
                i <= nodes.len(),
                ns == nodes@.reverse(),
                self@ == before.discarded(ns.take(nodes.len() - i)),
            decreases i,
        {
            i -= 1;
            let ghost done = nodes.len() - i;
            assert(ns.take(done).drop_last() =~= ns.take(done - 1));
            assert(ns.take(done).last() == nodes@[i as int]);
            self.drop_node(nodes[i]);
        }
        assert(ns.take(nodes.len() as int) =~= ns);
    }

    /// Removes a whole tree.
    pub fn fell(&mut self, n: NodeId)
        requires
            old(self).wf(),
        ensures
            final(self).wf(),
            final(self)@ == old(self)@.felled(n),
            kept::other_roots_kept(old(self)@, final(self)@, n),
    {
        proof {
            kept::lemma_felled_roots(self@, n);
        }
        if self.is_live(n) && self.parent(n).is_none() {
            proof {
                proofs::lemma_discarded(self@, n);
            }
            let nodes = self.preorder(n);
            self.discard(&nodes);
        }
    }

    /// Puts a new root above the root `n`.
    pub fn wrap(&mut self, n: NodeId) -> (r: NodeId)
        requires
            old(self).wf(),
            old(self)@.live(n),
            old(self)@.parent(n) is None,
        ensures
            final(self).wf(),
            r == old(self)@.next_id(),
            final(self)@ == old(self)@.wrapped(n),
            old(self)@.minted <= u64::MAX,
            kept::other_roots_kept(old(self)@, final(self)@, n),
            final(self)@.live(r),
            final(self)@.parent(r) is None,
            final(self)@.window(r) is None,
    {
        let ghost before = self@;
        let r = self.create();
        proof {
            proofs::lemma_wrapped(before, n);
        }
        self.attach(n, r, 0);
        r
    }

    /// The node of the first entry of a window in a layout.
    pub fn node_for(&self, layout: LayoutId, window: WindowId) -> (r: Option<NodeId>)
        ensures
            r == self@.node_for(layout, window),
    {
        let mut i: usize = 0;
        assert(self.index@.skip(0) =~= self.index@);
        while i < self.index.len()
            invariant
                i <= self.index.len(),
                self@.node_for(layout, window) == ForestView::entry_node(
                    self.index@.skip(i as int),
                    layout,
                    window,
                ),
            decreases self.index.len() - i,
        {
            let e = self.index[i];
            assert(self.index@.skip(i as int)[0] == e);
            assert(self.index@.skip(i as int).skip(1) =~= self.index@.skip(i + 1));
            if e.window == window && e.layout == layout {
                return Some(e.node);
            }
            i += 1;
        }
        None
    }

    /// Where a window occurs.
    pub fn entries_for(&self, window: WindowId) -> (r: Vec<WindowEntry>)
        ensures
            r@ == self@.entries_for(window),
    {
        let ghost pick = |e: WindowEntry| e.window == window;
        let mut out: Vec<WindowEntry> = Vec::new();
        let mut i: usize = 0;
        while i < self.index.len()
            invariant
                i <= self.index.len(),
                pick == |e: WindowEntry| e.window == window,
                out@ == self.index@.take(i as int).filter(pick),
            decreases self.index.len() - i,
        {
            let e = self.index[i];
            proof {
                assert(self.index@.take(i + 1).drop_last() =~= self.index@.take(i as int));
                reveal(Seq::filter);
            }
            if e.window == window {
                out.push(e);
            }
            i += 1;
        }
        assert(self.index@.take(i as int) =~= self.index@);
        out
    }

    /// Where the windows of a process occur.
    pub fn entries_for_app(&self, pid: Pid) -> (r: Vec<WindowEntry>)
        ensures
            r@ == self@.entries_for_app(pid),
    {
        let ghost pick = |e: WindowEntry| e.window.pid == pid;
        let mut out: Vec<WindowEntry> = Vec::new();
        let mut i: usize = 0;
        while i < self.index.len()
            invariant
                i <= self.index.len(),
                pick == |e: WindowEntry| e.window.pid == pid,
                out@ == self.index@.take(i as int).filter(pick),
            decreases self.index.len() - i,
        {
            let e = self.index[i];
            proof {
                assert(self.index@.take(i + 1).drop_last() =~= self.index@.take(i as int));
                reveal(Seq::filter);
            }
            if e.window.pid == pid {
                out.push(e);
            }
            i += 1;
        }
        assert(self.index@.take(i as int) =~= self.index@);
        out
    }

    /// Notes a step for the keeper of sizes.
    pub fn note_size(&mut self, change: SizeChange)
        requires
            old(self).wf(),
        ensures
            final(self).wf(),
            final(self)@ == old(self)@.noting(change),
            kept::rearranged(old(self)@, final(self)@),
    {
        proof {
            kept::lemma_noting(self@, change);
        }
        self.note(change);
    }

    /// Hands out the size steps noted so far, oldest first.
    pub fn take_size_changes(&mut self) -> (r: Vec<SizeChange>)
        requires
            old(self).wf(),
        ensures
            final(self).wf(),
            r@ == old(self)@.changes,
            final(self)@ == (ForestView { changes: Seq::empty(), ..old(self)@ }),
            kept::rearranged(old(self)@, final(self)@),
    {
        let mut none: Vec<SizeChange> = Vec::new();
        std::mem::swap(&mut self.changes, &mut none);
        none
    }

    /// Marks a node as covering the screen, or the screen within its gaps.
    pub fn set_fullscreen(&mut self, n: NodeId, full: bool, within: bool)
        requires
            old(self).wf(),
        ensures
            final(self).wf(),
            final(self)@ == old(self)@.with_fullscreen(n, full, within),
            kept::rearranged(old(self)@, final(self)@),
    {
        proof {
            if self@.live(n) {
                proofs::lemma_node(self@, n);
            }
            proofs::lemma_with_info(
                self@,
                n,
                NodeInfo {
                    is_fullscreen: full,
                    is_fullscreen_within_gaps: within,
                    ..self@.info(n)
                },
            );
        }
        let mut info = self.info(n);
        info.is_fullscreen = full;
        info.is_fullscreen_within_gaps = within;
        self.set_info(n, info);
    }

    /// Gives a node that shows a window another window, without touching the index.
    fn rename_node(&mut self, n: NodeId, window: WindowId)
        requires
            old(self).wf(),
        ensures
            final(self).wf(),
            final(self)@ == old(self)@.renamed(n, window),
            kept::roots_kept(old(self)@, final(self)@),
    {
        if self.window_at(n).is_some() {
            proof {
                proofs::lemma_node(self@, n);
                proofs::lemma_with_info(
                    self@,
                    n,
                    NodeInfo { window: Some(window), ..self@.info(n) },
                );
            }
            let mut info = self.info(n);
            info.window = Some(window);
            self.set_info(n, info);
        }
    }

    /// Removes the entries of one window from the index.
    fn forget_window(&mut self, window: WindowId)
        ensures
            final(self)@ == old(self)@.forgetting(window),
    {
        let ghost before = self@;
        let ghost keep = |e: WindowEntry| e.window != window;
        let mut kept: Vec<WindowEntry> = Vec::new();
        let mut i: usize = 0;
        while i < self.index.len()
            invariant
                i <= self.index.len(),
                self@ == before,
                keep == |e: WindowEntry| e.window != window,
                kept@ == self.index@.take(i as int).filter(keep),
            decreases self.index.len() - i,
        {
            let e = self.index[i];
            proof {
                assert(self.index@.take(i + 1).drop_last() =~= self.index@.take(i as int));
                reveal(Seq::filter);
            }
            if e.window != window {
                kept.push(e);
            }
            i += 1;
        }
        assert(self.index@.take(i as int) =~= self.index@);
        self.index = kept;
        assert(self@.nodes =~= before.nodes);
    }

    /// Every node that shows `from` shows `to` instead.
    pub fn replace_window(&mut self, from: WindowId, to: WindowId)
        requires
            old(self).wf(),
        ensures
            final(self).wf(),
            final(self)@ == old(self)@.with_replaced(from, to),
            kept::roots_kept(old(self)@, final(self)@),
    {
        if from == to {
            return;
        }
        let entries = self.entries_for(from);
        self.forget_window(from);
        assert(kept::roots_kept(old(self)@, self@));
        let ghost cleared = self@;
        let mut i: usize = 0;
        assert(entries@.take(0) =~= Seq::empty());
        while i < entries.len()
            invariant
                i <= entries.len(),
                self.wf(),
                self@ == cleared.entered(entries@.take(i as int), to),
                kept::roots_kept(cleared, self@),
            decreases entries.len() - i,
        {
            let e = entries[i];
            assert(entries@.take(i + 1).drop_last() =~= entries@.take(i as int));
            self.rename_node(e.node, to);
            self.enter(WindowEntry { window: to, layout: e.layout, node: e.node });
            i += 1;
        }
        assert(entries@.take(i as int) =~= entries@);
    }

    /// Removes all nodes that show a window.
    pub fn remove_window(&mut self, window: WindowId)
        requires
            old(self).wf(),
        ensures
            final(self).wf(),
            final(self)@ == old(self)@.window_removed(window),
            kept::roots_kept(old(self)@, final(self)@),
    {
        let entries = self.entries_for(window);
        self.forget_window(window);
        assert(kept::roots_kept(old(self)@, self@));
        self.remove_entries(&entries);
    }

    /// Removes all nodes that show a window, and evens the sizes where they were.
    pub fn remove_window_evenly(&mut self, window: WindowId)
        requires
            old(self).wf(),
        ensures
            final(self).wf(),
            final(self)@ == old(self)@.window_removed_evenly(window),
            kept::roots_kept(old(self)@, final(self)@),
    {
        let entries = self.entries_for(window);
        self.forget_window(window);
        assert(kept::roots_kept(old(self)@, self@));
        let ghost start = self@;
        let ghost ns = view::entry_nodes(entries@);
        let mut i: usize = 0;
        assert(ns.take(0) =~= Seq::empty());
        while i < entries.len()
            invariant
                i <= entries.len(),
                self.wf(),
                ns == view::entry_nodes(entries@),
                self@ == start.all_removed_evenly(ns.take(i as int)),
                kept::roots_kept(start, self@),
            decreases entries.len() - i,
        {
            assert(ns.take(i + 1).drop_last() =~= ns.take(i as int));
            assert(ns.take(i + 1).last() == entries@[i as int].node);
            let parent = self.parent(entries[i].node);
            self.remove(entries[i].node);
            match parent {
                Some(p) => {
                    if self.is_live(p) {
                        self.note_size(SizeChange::Evened { node: p });
                    }
                },
                None => {},
            }
            i += 1;
        }
        assert(ns.take(i as int) =~= ns);
    }

    /// Removes the nodes of a list of entries, one after the other.
    fn remove_entries(&mut self, entries: &Vec<WindowEntry>)
        requires
            old(self).wf(),
        ensures
            final(self).wf(),
            final(self)@ == old(self)@.all_removed(view::entry_nodes(entries@)),
            kept::roots_kept(old(self)@, final(self)@),
    {
        let ghost start = self@;
        let ghost ns = view::entry_nodes(entries@);
        let mut i: usize = 0;
        assert(ns.take(0) =~= Seq::empty());
        while i < entries.len()
            invariant
                i <= entries.len(),
                self.wf(),
                ns == view::entry_nodes(entries@),
                self@ == start.all_removed(ns.take(i as int)),
                kept::roots_kept(start, self@),
            decreases entries.len() - i,
        {
            assert(ns.take(i + 1).drop_last() =~= ns.take(i as int));
            assert(ns.take(i + 1).last() == entries@[i as int].node);
            self.remove(entries[i].node);
            i += 1;
        }
        assert(ns.take(i as int) =~= ns);
    }

    /// Removes the entries of a process from the index.
    fn forget_app(&mut self, pid: Pid)
        ensures
            final(self)@ == old(self)@.forgetting_app(pid),
    {
        let ghost before = self@;
        let ghost keep = |e: WindowEntry| e.window.pid != pid;
        let mut kept: Vec<WindowEntry> = Vec::new();
        let mut i: usize = 0;
        while i < self.index.len()
            invariant
                i <= self.index.len(),
                self@ == before,
                keep == |e: WindowEntry| e.window.pid != pid,
                kept@ == self.index@.take(i as int).filter(keep),
            decreases self.index.len() - i,
        {
            let e = self.index[i];
            proof {
                assert(self.index@.take(i + 1).drop_last() =~= self.index@.take(i as int));
                reveal(Seq::filter);
            }
            if e.window.pid != pid {
                kept.push(e);
            }
            i += 1;
        }
        assert(self.index@.take(i as int) =~= self.index@);
        self.index = kept;
        assert(self@.nodes =~= before.nodes);
    }

    /// Removes all nodes that show a window of a process.
    pub fn remove_app(&mut self, pid: Pid)
        requires
            old(self).wf(),
        ensures
            final(self).wf(),
            final(self)@ == old(self)@.app_removed(pid),
            kept::roots_kept(old(self)@, final(self)@),
    {
        let entries = self.entries_for_app(pid);
        self.forget_app(pid);
        assert(kept::roots_kept(old(self)@, self@));
        self.remove_entries(&entries);
    }

    /// Points the entries of a window in a layout at another node.
    fn redirect(&mut self, layout: LayoutId, window: WindowId, n: NodeId)
        ensures
            final(self)@ == old(self)@.redirected(layout, window, n),
    {
        let ghost before = self@;
        let mut i: usize = 0;
        while i < self.index.len()
            invariant
                i <= self.index.len() == before.index.len(),
                self@ == (ForestView { index: self@.index, ..before }),
                forall|j: int|
                    0 <= j < self.index.len() ==> self@.index[j] == (if j < i {
                        view::redirect_entry(before.index[j], layout, window, n)
                    } else {
                        before.index[j]
                    }),
            decreases self.index.len() - i,
        {
            let e = self.index[i];
            if e.window == window && e.layout == layout {
                self.index.set(i, WindowEntry { window: e.window, layout: e.layout, node: n });
            }
            i += 1;
        }
        assert(self@.index =~= before.redirected(layout, window, n).index);
    }

    /// Two windows of a layout change places. Says whether both were there.
    pub fn swap_windows(&mut self, layout: LayoutId, a: WindowId, b: WindowId) -> (r: bool)
        requires
            old(self).wf(),
        ensures
            final(self).wf(),
            r == old(self)@.can_swap(layout, a, b),
            final(self)@ == old(self)@.with_swapped(layout, a, b),
            kept::roots_kept(old(self)@, final(self)@),
    {
        let node_a = match self.node_for(layout, a) {
            Some(n) => n,
            None => {
                return false;
            },
        };
        let node_b = match self.node_for(layout, b) {
            Some(n) => n,
            None => {
                return false;
            },
        };
        if node_a == node_b {
            return false;
        }
        match (self.window_at(node_a), self.window_at(node_b)) {
            (Some(wa), Some(wb)) => {
                self.rename_node(node_b, wa);
                self.rename_node(node_a, wb);
                self.redirect(layout, a, node_b);
                self.redirect(layout, b, node_a);
                true
            },
            _ => false,
        }
    }

    /// The identifier that the next node gets.
    pub fn next_id(&self) -> (r: NodeId)
        ensures
            r == self@.next_id(),
            r == self@.minted,
    {
        self.minted.len() as u64
    }

    /// The position of a node in a list that holds it.
    fn position(list: &Vec<NodeId>, x: NodeId) -> (r: usize)
        requires
            list@.contains(x),
            list@.no_duplicates(),
        ensures
            r == list@.index_of(x),
            r < list@.len(),
    {
        let mut i: usize = 0;
        while i < list.len()
            invariant
                i <= list.len(),
                list@.contains(x),
                list@.no_duplicates(),
                forall|j: int| 0 <= j < i ==> list@[j] != x,
            decreases list.len() - i,
        {
            if list[i] == x {
                return i;
            }
            i += 1;
        }
        assert(false);
        0
    }

    /// Gives out `count` identifiers.
    fn mint(&mut self, count: usize) -> (base: usize)
        ensures
            base == old(self)@.minted,
            base + count <= usize::MAX,
            final(self)@ == (ForestView {
                minted: old(self)@.minted + count as nat,
                changes: old(self)@.changes + Seq::new(
                    count as nat,
                    |k: int| SizeChange::Created { node: (old(self)@.minted + k) as u64 },
                ),
                ..old(self)@
            }),
    {
        let ghost before = self@;
        let ghost step = |k: int| SizeChange::Created { node: (before.minted + k) as u64 };
        let base = self.minted.len();
        let mut k: usize = 0;
        assert(self@.changes =~= before.changes + Seq::new(0, step));
        while k < count
            invariant
                k <= count,
                base == before.minted,
                base + k <= usize::MAX,
                step == (|k: int| SizeChange::Created { node: (before.minted + k) as u64 }),
                self@ == (ForestView {
                    minted: (base + k) as nat,
                    changes: before.changes + Seq::new(k as nat, step),
                    ..before
                }),
            decreases count - k,
        {
            let id = self.minted.len() as u64;
            self.minted.push(());
            let now = self.minted.len();
            self.note(SizeChange::Created { node: id });
            k += 1;
            assert(now == base + k);
            assert(self@.nodes =~= before.nodes);
            assert(self@.changes =~= before.changes + Seq::new(k as nat, step));
        }
        base
    }

    /// The copies of a list of nodes that a traversal lists.
    fn copy_ids(base: usize, src: &Vec<NodeId>, list: &Vec<NodeId>) -> (r: Vec<NodeId>)
        requires
            base + src@.len() <= usize::MAX,
            src@.no_duplicates(),
            forall|i: int| 0 <= i < list@.len() ==> src@.contains(#[trigger] list@[i]),
        ensures
            r@.len() == list@.len(),
            forall|i: int|
                0 <= i < list@.len() ==> #[trigger] r@[i] == (base + src@.index_of(
                    list@[i],
                )) as u64,
    {
        let mut copies: Vec<NodeId> = Vec::new();
        let mut j: usize = 0;
        while j < list.len()
            invariant
                base + src@.len() <= usize::MAX,
                src@.no_duplicates(),
                forall|i: int| 0 <= i < list@.len() ==> src@.contains(#[trigger] list@[i]),
                j <= list.len(),
                copies@.len() == j,
                forall|i: int|
                    0 <= i < j ==> #[trigger] copies@[i] == (base + src@.index_of(
                        list@[i],
                    )) as u64,
            decreases list.len() - j,
        {
            assert(src@.contains(list@[j as int]));
            let at = Self::position(src, list[j]);
            copies.push((base + at) as u64);
            j += 1;
        }
        copies
    }

    /// Builds the copies of the nodes that `src` lists.
    fn copy_nodes(&mut self, base: usize, src: &Vec<NodeId>, Ghost(before): Ghost<ForestView>)
        requires
            before.wf(),
            src@.len() > 0,
            before.live(src@[0]),
            before.parent(src@[0]) is None,
            src@ == before.preorder(src@[0]),
            base == before.minted,
            base + src@.len() <= usize::MAX,
            old(self)@.nodes == before.nodes,
        ensures
            final(self)@ == (ForestView {
                nodes: before.copy_nodes(src@, src@.len()),
                ..old(self)@
            }),
    {
        let ghost start = self@;
        let root = src[0];
        let mut k: usize = 0;
        proof {
            proofs::lemma_preorder(before, root);
            assert(self@.nodes =~= before.copy_nodes(src@, 0));
        }
        while k < src.len()
            invariant
                before.wf(),
                root == src@[0],
                before.live(root),
                before.parent(root) is None,
                src@ == before.preorder(root),
                src@.no_duplicates(),
                base == before.minted,
                base + src@.len() <= usize::MAX,
                k <= src.len(),
                self@ == (ForestView { nodes: before.copy_nodes(src@, k as nat), ..start }),
            decreases src.len() - k,
        {
            let x = src[k];
            assert(src@.contains(x));
            proof {
                proofs::lemma_source(before, root, x);
                proofs::lemma_node(before, x);
            }
            let kids = self.children(x);
            let copies = Self::copy_ids(base, src, &kids);
            let mut info = self.info(x);
            info.pick = match info.pick {
                Some(p) => {
                    let at = Self::position(src, p.child);
                    Some(Pick { child: (base + at) as u64, stop_here: p.stop_here })
                },
                None => None,
            };
            let parent = if x == root {
                None
            } else {
                let q = self.parent(x).unwrap();
                let at = Self::position(src, q);
                Some((base + at) as u64)
            };
            let node = Node { parent, children: copies, info };
            let id = (base + k) as u64;
            proof {
                assert(node@.children =~= before.copy_node(src@, x).children);
                assert(node@ == before.copy_node(src@, x));
                if before.nodes.contains_key(id) {
                    proofs::lemma_node(before, id);
                }
            }
            self.put_node(id, node);
            k += 1;
            assert(self@.nodes =~= before.copy_nodes(src@, k as nat));
        }
    }

    /// Copies the tree with root `n`; the windows of the copy belong to `layout`.
    pub fn copy_tree(&mut self, n: NodeId, layout: LayoutId) -> (r: NodeId)
        requires
            old(self).wf(),
            old(self)@.live(n),
            old(self)@.parent(n) is None,
        ensures
            final(self).wf(),
            r == old(self)@.next_id(),
            final(self)@ == old(self)@.copied(n, layout),
            kept::roots_kept(old(self)@, final(self)@),
            final(self)@.live(r),
            final(self)@.parent(r) is None,
            final(self)@.window(r) == old(self)@.window(n),
    {
        let ghost before = self@;
        let src = self.preorder(n);
        proof {
            proofs::lemma_preorder(before, n);
        }
        let base = self.mint(src.len());
        let ghost created = self@.changes;
        self.copy_nodes(base, &src, Ghost(before));
        proof {
            proofs::lemma_copied(before, n, layout);
        }
        self.hang_copies(base, &src, Ghost(before));
        let ghost hung = self@.changes;
        let ghost copy_step = |k: int|
            SizeChange::Copied { src: src@[k], dest: (before.minted + k) as u64 };
        let mut k: usize = 0;
        assert(self@.changes =~= hung + Seq::new(0, copy_step));
        while k < src.len()
            invariant
                k <= src.len(),
                base == before.minted,
                base + src@.len() <= usize::MAX,
                self@ == (ForestView {
                    nodes: before.copy_nodes(src@, src@.len()),
                    minted: before.minted + src@.len(),
                    index: before.copy_index(src@, layout, k as nat),
                    changes: hung + Seq::new(k as nat, copy_step),
                }),
                copy_step == (|k: int|
                    SizeChange::Copied { src: src@[k], dest: (before.minted + k) as u64 }),
                forall|i: int| 0 <= i < src@.len() ==> before.live(#[trigger] src@[i]),
                before.wf(),
            decreases src.len() - k,
        {
            let x = src[k];
            let id = (base + k) as u64;
            assert(before.live(src@[k as int]));
            assert(self@.window(x) == before.window(x));
            match self.window_at(x) {
                Some(window) => {
                    self.enter(WindowEntry { window, layout, node: id });
                },
                None => {},
            }
            self.note(SizeChange::Copied { src: x, dest: id });
            k += 1;
            assert(self@.changes =~= hung + Seq::new(k as nat, copy_step));
        }
        proof {
            assert(self@.changes =~= before.copied(n, layout).changes);
        }
        base as u64
    }

    /// Notes that the copies are hung up below each other.
    fn hang_copies(&mut self, base: usize, src: &Vec<NodeId>, Ghost(before): Ghost<ForestView>)
        requires
            before.wf(),
            old(self).wf(),
            src@.len() > 0,
            before.live(src@[0]),
            before.parent(src@[0]) is None,
            src@ == before.preorder(src@[0]),
            base == before.minted,
            base + src@.len() <= usize::MAX,
            old(self)@.nodes == before.copy_nodes(src@, src@.len()),
        ensures
            final(self)@ == (ForestView {
                changes: old(self)@.changes + Seq::new(
                    (src@.len() - 1) as nat,
                    |k: int|
                        SizeChange::Attached {
                            node: (before.minted + k + 1) as u64,
                            parent: before.copy_id(src@, before.nodes[src@[k + 1]].parent->0),
                            index: before.rank(src@[k + 1]) as u64,
                        },
                ),
                ..old(self)@
            }),
    {
        let ghost start = self@;
        let ghost step = |k: int|
            SizeChange::Attached {
                node: (before.minted + k + 1) as u64,
                parent: before.copy_id(src@, before.nodes[src@[k + 1]].parent->0),
                index: before.rank(src@[k + 1]) as u64,
            };
        let root = src[0];
        let mut k: usize = 1;
        proof {
            proofs::lemma_preorder(before, root);
        }
        assert(self@.changes =~= start.changes + Seq::new(0, step));
        while k < src.len()
            invariant
                before.wf(),
                self.wf(),
                root == src@[0],
                before.live(root),
                before.parent(root) is None,
                src@ == before.preorder(root),
                src@.no_duplicates(),
                base == before.minted,
                base + src@.len() <= usize::MAX,
                1 <= k <= src.len(),
                start.nodes == before.copy_nodes(src@, src@.len()),
                step == (|k: int|
                    SizeChange::Attached {
                        node: (before.minted + k + 1) as u64,
                        parent: before.copy_id(src@, before.nodes[src@[k + 1]].parent->0),
                        index: before.rank(src@[k + 1]) as u64,
                    }),
                self@ == (ForestView {
                    changes: start.changes + Seq::new((k - 1) as nat, step),
                    ..start
                }),
            decreases src.len() - k,
        {
            let x = src[k];
            assert(src@.contains(x));
            proof {
                proofs::lemma_source(before, root, x);
                assert(x != root) by {
                    assert(src@[0] != src@[k as int]);
                }
                proofs::lemma_node(before, x);
                assert(self@.nodes[x] == before.nodes[x]);
                assert(self@.nodes[before.nodes[x].parent->0] == before.nodes[before.nodes[x].parent->0]);
            }
            let q = self.parent(x).unwrap();
            let at = Self::position(src, q);
            let i = self.rank(x);
            self.note(
                SizeChange::Attached {
                    node: (base + k) as u64,
                    parent: (base + at) as u64,
                    index: i as u64,
                },
            );
            k += 1;
            assert(self@.changes =~= start.changes + Seq::new((k - 1) as nat, step));
        }
    }
}

} // verus!
