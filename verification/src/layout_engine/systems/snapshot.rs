//! A layout as a tree that can be handed out.

use vstd::prelude::*;

use crate::actor::WindowId;
use crate::layout_engine::LayoutKind;
use crate::model::tree::forest::Forest;
use crate::model::tree::proofs;
use crate::model::tree::view;
use crate::model::tree::view::{ForestView, NodeId};

verus! {

/// What a container is for.
#[derive(Clone, Copy, Debug, PartialEq, Eq, Structural)]
pub enum NodeRole {
    Column,
    Master,
    Stack,
}

/// A container with its role.
#[derive(Clone, Copy, Debug, PartialEq, Eq, Structural)]
pub struct RoleEntry {
    pub node: NodeId,
    pub role: NodeRole,
}

/// A node as it can be handed out: a window, or a container with a kind.
pub struct TreeSnapshot {
    pub node_id: NodeId,
    pub layout_kind: Option<LayoutKind>,
    pub window_id: Option<WindowId>,
    pub is_selected: bool,
    pub is_fullscreen: bool,
    pub is_fullscreen_within_gaps: bool,
    pub role: Option<NodeRole>,
    pub children: Vec<TreeSnapshot>,
}

/// The role that a list gives a node.
pub open spec fn role_of(roles: Seq<RoleEntry>, n: NodeId) -> Option<NodeRole>
    decreases roles.len(),
{
    if roles.len() == 0 {
        None
    } else if roles.last().node == n {
        Some(roles.last().role)
    } else {
        role_of(roles.drop_last(), n)
    }
}

impl TreeSnapshot {
    /// Whether this is a picture of a node and what lies below it.
    pub open spec fn shows(
        self,
        forest: ForestView,
        n: NodeId,
        selected: NodeId,
        roles: Seq<RoleEntry>,
    ) -> bool
        decreases self,
    {
        &&& self.node_id == n
        &&& self.window_id == forest.window(n)
        &&& self.layout_kind == (if forest.window(n) is None {
            Some(forest.kind(n))
        } else {
            None
        })
        &&& self.is_selected == (n == selected)
        &&& self.is_fullscreen == forest.info(n).is_fullscreen
        &&& self.is_fullscreen_within_gaps == forest.info(n).is_fullscreen_within_gaps
        &&& self.role == role_of(roles, n)
        &&& self.children@.len() == forest.children(n).len()
        &&& forall|i: int|
            0 <= i < self.children@.len() ==> (#[trigger] self.children@[i]).shows(
                forest,
                forest.children(n)[i],
                selected,
                roles,
            )
    }
}

/// The role that a list gives a node.
pub fn find_role(roles: &Vec<RoleEntry>, n: NodeId) -> (r: Option<NodeRole>)
    ensures
        r == role_of(roles@, n),
{
    let mut i: usize = roles.len();
    assert(roles@.take(i as int) =~= roles@);
    while i > 0
        invariant
            i <= roles.len(),
            role_of(roles@, n) == role_of(roles@.take(i as int), n),
        decreases i,
    {
        assert(roles@.take(i as int).drop_last() =~= roles@.take(i - 1));
        i -= 1;
        if roles[i].node == n {
            return Some(roles[i].role);
        }
    }
    None
}

impl Forest {
    /// A picture of a node and what lies below it.
    pub fn snapshot(&self, n: NodeId, selected: NodeId, roles: &Vec<RoleEntry>) -> (r: TreeSnapshot)
        requires
            self.wf(),
        ensures
            r.shows(self@, n, selected, roles@),
        decreases view::height(self@.nodes, n),
    {
        let info = self.info(n);
        let kids = self.children(n);
        let mut children: Vec<TreeSnapshot> = Vec::new();
        let mut i: usize = 0;
        while i < kids.len()
            invariant
                self.wf(),
                kids@ == self@.children(n),
                i <= kids.len(),
                children@.len() == i,
                forall|j: int|
                    0 <= j < i ==> (#[trigger] children@[j]).shows(
                        self@,
                        kids@[j],
                        selected,
                        roles@,
                    ),
            decreases kids.len() - i,
        {
            proof {
                proofs::lemma_node(self@, n);
                assert(self@.nodes[n].children[i as int] == kids@[i as int]);
            }
            children.push(self.snapshot(kids[i], selected, roles));
            i += 1;
        }
        TreeSnapshot {
            node_id: n,
            layout_kind: if info.window.is_none() {
                Some(info.kind)
            } else {
                None
            },
            window_id: info.window,
            is_selected: n == selected,
            is_fullscreen: info.is_fullscreen,
            is_fullscreen_within_gaps: info.is_fullscreen_within_gaps,
            role: find_role(roles, n),
            children,
        }
    }
}

} // verus!
