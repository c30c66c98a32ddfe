//! The stacks of a layout, as a bar beside them shows them.

use vstd::prelude::*;

use crate::actor::WindowId;
use crate::layout_engine::LayoutKind;
use crate::model::tree::forest::Forest;
use crate::model::tree::proofs;
use crate::model::tree::view;
use crate::model::tree::view::{ForestView, NodeId};

verus! {

/// A stack: how many children it has, which of them is shown, and the windows
/// among them. A vertical stack lists its children from the bottom up.
pub struct GroupInfo {
    pub node_id: NodeId,
    pub container_kind: LayoutKind,
    pub total_count: usize,
    pub selected_index: usize,
    pub window_ids: Vec<WindowId>,
}

impl ForestView {
    /// The child that a node leads to: the selected one, else the first.
    pub open spec fn lead(self, n: NodeId) -> Option<NodeId> {
        match self.local_selection(n) {
            Some(c) => Some(c),
            None => self.first_child(n),
        }
    }

    /// The child that a node leads to or remembers, else the first.
    pub open spec fn remembered_lead(self, n: NodeId) -> Option<NodeId> {
        match self.last_selection(n) {
            Some(c) => Some(c),
            None => self.first_child(n),
        }
    }

    /// The node and the nodes that it leads to, from the top down.
    pub open spec fn lead_path(self, n: NodeId) -> Seq<NodeId>
        decreases view::height(self.nodes, n),
    {
        seq![n] + match self.lead(n) {
            Some(c) => if view::height(self.nodes, c) < view::height(self.nodes, n) {
                self.lead_path(c)
            } else {
                Seq::empty()
            },
            None => Seq::empty(),
        }
    }

    /// The node and its descendants, parents first, without the nodes that cover
    /// the screen and what lies below them.
    pub open spec fn uncovered(self, n: NodeId) -> Seq<NodeId>
        decreases view::height(self.nodes, n), self.children(n).len() + 1,
    {
        if self.covers(n) {
            Seq::empty()
        } else {
            seq![n] + self.uncovered_below(n, self.children(n).len())
        }
    }

    pub open spec fn uncovered_below(self, n: NodeId, upto: nat) -> Seq<NodeId>
        decreases view::height(self.nodes, n), upto,
    {
        if upto == 0 || upto > self.children(n).len() {
            Seq::empty()
        } else {
            let child = self.children(n)[upto - 1];
            self.uncovered_below(n, (upto - 1) as nat) + if view::height(self.nodes, child)
                < view::height(self.nodes, n) {
                self.uncovered(child)
            } else {
                Seq::empty()
            }
        }
    }

    /// A stack with something in it.
    pub open spec fn is_filled_stack(self, n: NodeId) -> bool {
        self.kind(n).stacks() && self.children(n).len() > 0
    }

    /// The stacks of a list of nodes.
    pub open spec fn filled_stacks(self, nodes: Seq<NodeId>) -> Seq<NodeId> {
        nodes.filter(|n: NodeId| self.is_filled_stack(n))
    }

    /// The stacks on the way to the selection. None are shown where something on
    /// the way covers the screen.
    pub open spec fn groups_on_path(self, n: NodeId) -> Seq<NodeId> {
        let path = self.lead_path(n);
        if exists|i: int| 0 <= i < path.len() && self.covers(#[trigger] path[i]) {
            Seq::empty()
        } else {
            self.filled_stacks(path)
        }
    }

    /// All stacks in view.
    pub open spec fn groups_below(self, n: NodeId) -> Seq<NodeId> {
        self.filled_stacks(self.uncovered(n))
    }
}

impl GroupInfo {
    /// Whether this is the description of a stack that shows the child it leads to.
    pub open spec fn describes(self, forest: ForestView, n: NodeId) -> bool {
        self.describes_showing(forest, n, forest.lead(n)->0)
    }

    /// Whether this is the description of a stack that shows one of its children.
    pub open spec fn describes_showing(self, forest: ForestView, n: NodeId, shown: NodeId) -> bool {
        let kids = forest.children(n);
        let rank = forest.rank(shown);
        let windows = forest.windows_of(kids);
        &&& self.node_id == n
        &&& self.container_kind == forest.kind(n)
        &&& self.total_count == kids.len()
        &&& self.selected_index == (if forest.kind(n) is VerticalStack {
            kids.len() - 1 - rank
        } else {
            rank
        })
        &&& self.window_ids@ == (if forest.kind(n) is VerticalStack {
            windows.reverse()
        } else {
            windows
        })
    }
}

/// Whether a list of descriptions is that of a list of stacks.
pub open spec fn describe_all(
    infos: Seq<GroupInfo>,
    forest: ForestView,
    nodes: Seq<NodeId>,
) -> bool {
    infos.len() == nodes.len() && forall|i: int|
        0 <= i < nodes.len() ==> (#[trigger] infos[i]).describes(forest, nodes[i])
}

/// The leading child lies below the node.
pub proof fn lemma_lead(s: ForestView, n: NodeId)
    requires
        s.wf(),
        s.lead(n) is Some,
    ensures
        s.live(n),
        s.live(s.lead(n)->0),
        s.parent(s.lead(n)->0) == Some(n),
        0 <= s.rank(s.lead(n)->0) < s.children(n).len(),
        view::height(s.nodes, s.lead(n)->0) < view::height(s.nodes, n),
{
    match s.local_selection(n) {
        Some(c) => {
            proofs::lemma_pick(s, n);
            proofs::lemma_node(s, c);
        },
        None => {
            proofs::lemma_node(s, n);
            assert(s.nodes[n].children[0] == s.lead(n)->0);
            proofs::lemma_node(s, s.lead(n)->0);
        },
    }
}

/// The remembered child lies below the node.
pub proof fn lemma_remembered_lead(s: ForestView, n: NodeId)
    requires
        s.wf(),
        s.remembered_lead(n) is Some,
    ensures
        s.live(n),
        s.live(s.remembered_lead(n)->0),
        s.parent(s.remembered_lead(n)->0) == Some(n),
        0 <= s.rank(s.remembered_lead(n)->0) < s.children(n).len(),
        view::height(s.nodes, s.remembered_lead(n)->0) < view::height(s.nodes, n),
{
    match s.last_selection(n) {
        Some(c) => {
            proofs::lemma_pick(s, n);
            proofs::lemma_node(s, c);
        },
        None => {
            proofs::lemma_node(s, n);
            assert(s.nodes[n].children[0] == s.remembered_lead(n)->0);
            proofs::lemma_node(s, s.remembered_lead(n)->0);
        },
    }
}

impl Forest {
    /// The child that a node leads to or remembers, else the first.
    pub fn remembered_lead(&self, n: NodeId) -> (r: Option<NodeId>)
        ensures
            r == self@.remembered_lead(n),
    {
        match self.last_selection(n) {
            Some(c) => Some(c),
            None => self.first_child(n),
        }
    }

    /// The child that a node leads to: the selected one, else the first.
    fn lead(&self, n: NodeId) -> (r: Option<NodeId>)
        ensures
            r == self@.lead(n),
    {
        match self.local_selection(n) {
            Some(c) => Some(c),
            None => self.first_child(n),
        }
    }

    fn covers(&self, n: NodeId) -> (r: bool)
        ensures
            r == self@.covers(n),
    {
        let info = self.info(n);
        info.is_fullscreen || info.is_fullscreen_within_gaps
    }

    /// The node and the nodes that it leads to, from the top down.
    pub fn lead_path(&self, n: NodeId) -> (r: Vec<NodeId>)
        requires
            self.wf(),
        ensures
            r@ == self@.lead_path(n),
    {
        let mut out: Vec<NodeId> = Vec::new();
        out.push(n);
        let mut at = n;
        let mut next = self.lead(n);
        while next.is_some()
            invariant
                self.wf(),
                next == self@.lead(at),
                out@ + self@.lead_path(at).skip(1) =~= self@.lead_path(n),
            ensures
                next is None,
                out@ + self@.lead_path(at).skip(1) =~= self@.lead_path(n),
                next == self@.lead(at),
            decreases view::height(self@.nodes, at),
        {
            let c = next.unwrap();
            proof {
                lemma_lead(self@, at);
                assert(self@.lead_path(at) == seq![at] + self@.lead_path(c));
                assert(self@.lead_path(c)[0] == c);
                assert(self@.lead_path(at).skip(1) =~= seq![c] + self@.lead_path(c).skip(1));
            }
            out.push(c);
            at = c;
            next = self.lead(c);
        }
        assert(self@.lead_path(at) =~= seq![at]);
        assert(out@ =~= self@.lead_path(n));
        out
    }

    fn uncovered_into(&self, n: NodeId, out: &mut Vec<NodeId>)
        requires
            self.wf(),
        ensures
            final(out)@ == old(out)@ + self@.uncovered(n),
        decreases view::height(self@.nodes, n),
    {
        if self.covers(n) {
            assert(out@ =~= old(out)@ + self@.uncovered(n));
            return;
        }
        let ghost start = out@;
        out.push(n);
        let kids = self.children(n);
        let mut i: usize = 0;
        assert(out@ =~= start + seq![n] + self@.uncovered_below(n, 0));
        while i < kids.len()
            invariant
                self.wf(),
                kids@ == self@.children(n),
                i <= kids.len(),
                out@ == start + seq![n] + self@.uncovered_below(n, i as nat),
            decreases kids.len() - i,
        {
            let c = kids[i];
            proof {
                proofs::lemma_node(self@, n);
                assert(self@.nodes[n].children[i as int] == c);
            }
            self.uncovered_into(c, out);
            assert(out@ =~= start + seq![n] + self@.uncovered_below(n, (i + 1) as nat));
            i += 1;
        }
        assert(out@ =~= start + self@.uncovered(n));
    }

    /// The description of a stack that shows the child it leads to.
    pub fn group_info(&self, n: NodeId) -> (r: GroupInfo)
        requires
            self.wf(),
            self@.is_filled_stack(n),
        ensures
            r.describes(self@, n),
    {
        proof {
            lemma_lead(self@, n);
        }
        let lead = self.lead(n).unwrap();
        self.group_showing(n, lead)
    }

    /// The description of a stack that shows one of its children.
    pub fn group_showing(&self, n: NodeId, shown: NodeId) -> (r: GroupInfo)
        requires
            self.wf(),
            self@.live(shown),
            self@.parent(shown) == Some(n),
        ensures
            r.describes_showing(self@, n, shown),
    {
        let kind = self.kind(n);
        let kids = self.children(n);
        proof {
            proofs::lemma_node(self@, shown);
            proofs::lemma_node(self@, n);
        }
        let mut rank: usize = 0;
        while kids[rank] != shown
            invariant
                self.wf(),
                self@.live(n),
                kids@ == self@.children(n),
                0 <= rank <= self@.rank(shown) < kids@.len(),
                kids@[self@.rank(shown)] == shown,
            decreases kids.len() - rank,
        {
            rank += 1;
        }
        proof {
            assert(self@.nodes[n].children[rank as int] == shown);
        }
        let mut windows: Vec<WindowId> = Vec::new();
        let mut i: usize = 0;
        assert(kids@.take(0) =~= Seq::empty());
        while i < kids.len()
            invariant
                i <= kids.len(),
                windows@ == self@.windows_of(kids@.take(i as int)),
            decreases kids.len() - i,
        {
            assert(kids@.take(i + 1).drop_last() =~= kids@.take(i as int));
            match self.window_at(kids[i]) {
                Some(w) => {
                    windows.push(w);
                },
                None => {},
            }
            i += 1;
        }
        assert(kids@.take(i as int) =~= kids@);
        let upward = match kind {
            LayoutKind::VerticalStack => true,
            _ => false,
        };
        if upward {
            GroupInfo {
                node_id: n,
                container_kind: kind,
                total_count: kids.len(),
                selected_index: kids.len() - 1 - rank,
                window_ids: reversed(&windows),
            }
        } else {
            GroupInfo {
                node_id: n,
                container_kind: kind,
                total_count: kids.len(),
                selected_index: rank,
                window_ids: windows,
            }
        }
    }

    /// The descriptions of the stacks among some nodes.
    fn describe(&self, nodes: &Vec<NodeId>) -> (r: Vec<GroupInfo>)
        requires
            self.wf(),
        ensures
            describe_all(r@, self@, self@.filled_stacks(nodes@)),
    {
        let ghost good = |n: NodeId| self@.is_filled_stack(n);
        let mut out: Vec<GroupInfo> = Vec::new();
        let mut i: usize = 0;
        assert(nodes@.take(0) =~= Seq::empty());
        reveal(Seq::filter);
        while i < nodes.len()
            invariant
                self.wf(),
                i <= nodes.len(),
                good == (|n: NodeId| self@.is_filled_stack(n)),
                describe_all(out@, self@, nodes@.take(i as int).filter(good)),
            decreases nodes.len() - i,
        {
            proof {
                assert(nodes@.take(i + 1).drop_last() =~= nodes@.take(i as int));
                reveal(Seq::filter);
            }
            let n = nodes[i];
            if self.kind(n).is_group() && self.child_count(n) > 0 {
                out.push(self.group_info(n));
            }
            i += 1;
        }
        assert(nodes@.take(i as int) =~= nodes@);
        out
    }

    /// The stacks on the way to the selection below a node. None where something
    /// on the way covers the screen.
    pub fn groups_on_path(&self, n: NodeId) -> (r: Vec<GroupInfo>)
        requires
            self.wf(),
        ensures
            describe_all(r@, self@, self@.groups_on_path(n)),
    {
        let path = self.lead_path(n);
        let mut i: usize = 0;
        while i < path.len()
            invariant
                i <= path.len(),
                path@ == self@.lead_path(n),
                forall|j: int| 0 <= j < i ==> !self@.covers(#[trigger] path@[j]),
            decreases path.len() - i,
        {
            if self.covers(path[i]) {
                return Vec::new();
            }
            i += 1;
        }
        self.describe(&path)
    }

    /// All stacks in view below a node.
    pub fn groups_below(&self, n: NodeId) -> (r: Vec<GroupInfo>)
        requires
            self.wf(),
        ensures
            describe_all(r@, self@, self@.groups_below(n)),
    {
        let mut nodes: Vec<NodeId> = Vec::new();
        self.uncovered_into(n, &mut nodes);
        assert(nodes@ =~= self@.uncovered(n));
        self.describe(&nodes)
    }
}

/// A list from the back.
fn reversed(list: &Vec<WindowId>) -> (r: Vec<WindowId>)
    ensures
        r@ == list@.reverse(),
{
    let mut out: Vec<WindowId> = Vec::new();
    let mut i: usize = list.len();
    while i > 0
        invariant
            i <= list.len(),
            out@ =~= list@.skip(i as int).reverse(),
        decreases i,
    {
        i -= 1;
        out.push(list[i]);
    }
    assert(list@.skip(0) =~= list@);
    out
}

} // verus!
