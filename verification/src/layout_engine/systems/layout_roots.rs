//! The table of layouts that are trees, kept in a slot map.

use slotmap::Key;
use vstd::prelude::*;

use crate::actor::LayoutId;
use crate::model::tree::view::NodeId;

verus! {

/// Roots of layouts, by layout. The keys come from `slotmap::SlotMap`.
#[verifier::external_body]
pub struct LayoutRoots {
    inner: slotmap::SlotMap<slotmap::DefaultKey, NodeId>,
}

/// The roots that a table holds.
pub uninterp spec fn roots_in(table: LayoutRoots) -> Map<LayoutId, NodeId>;

impl View for LayoutRoots {
    type V = Map<LayoutId, NodeId>;

    open spec fn view(&self) -> Map<LayoutId, NodeId> {
        roots_in(*self)
    }
}

impl LayoutRoots {
    /// `slotmap::SlotMap::new`: a table without entries.
    #[verifier::external_body]
    pub(crate) fn new() -> (r: LayoutRoots)
        ensures
            roots_in(r).dom() =~= Set::empty(),
    {
        LayoutRoots { inner: slotmap::SlotMap::new() }
    }

    /// `slotmap::SlotMap::len`: the number of entries.
    #[verifier::external_body]
    pub(crate) fn len(&self) -> (r: usize)
        ensures
            r == roots_in(*self).dom().len(),
    {
        self.inner.len()
    }

    /// `slotmap::SlotMap::insert`: the root is stored under a key that is not in
    /// use. The map panics when it is full, which takes 2^32 - 2 entries.
    #[verifier::external_body]
    pub(crate) fn insert(&mut self, root: NodeId) -> (r: LayoutId)
        requires
            roots_in(*old(self)).dom().len() < 4294967294,
        ensures
            r.issued(),
            !roots_in(*old(self)).contains_key(r),
            roots_in(*final(self)) == roots_in(*old(self)).insert(r, root),
    {
        LayoutId { raw: self.inner.insert(root).data().as_ffi() }
    }

    /// `slotmap::SlotMap::get`: the root stored under a key, if there is one.
    #[verifier::external_body]
    pub(crate) fn get(&self, layout: LayoutId) -> (r: Option<NodeId>)
        requires
            layout.issued(),
        ensures
            r == (if roots_in(*self).contains_key(layout) {
                Some(roots_in(*self)[layout])
            } else {
                None
            }),
    {
        self.inner.get(slotmap::KeyData::from_ffi(layout.raw).into()).copied()
    }

    /// `slotmap::SlotMap::get_mut`: the root stored under a key is exchanged.
    #[verifier::external_body]
    pub(crate) fn set(&mut self, layout: LayoutId, root: NodeId)
        requires
            layout.issued(),
            roots_in(*old(self)).contains_key(layout),
        ensures
            roots_in(*final(self)) == roots_in(*old(self)).insert(layout, root),
    {
        *self.inner.get_mut(slotmap::KeyData::from_ffi(layout.raw).into()).unwrap() = root;
    }

    /// `slotmap::SlotMap::remove`: the entry of a key is taken out and handed back.
    #[verifier::external_body]
    pub(crate) fn remove(&mut self, layout: LayoutId) -> (r: Option<NodeId>)
        requires
            layout.issued(),
        ensures
            r == (if roots_in(*old(self)).contains_key(layout) {
                Some(roots_in(*old(self))[layout])
            } else {
                None
            }),
            roots_in(*final(self)) == roots_in(*old(self)).remove(layout),
    {
        self.inner.remove(slotmap::KeyData::from_ffi(layout.raw).into())
    }

    /// `slotmap::SlotMap::keys`: every key in use, each once, in an order that
    /// the map chooses.
    #[verifier::external_body]
    pub(crate) fn keys(&self) -> (r: Vec<LayoutId>)
        ensures
            r@.no_duplicates(),
            forall|l: LayoutId| r@.contains(l) <==> roots_in(*self).contains_key(l),
    {
        self.inner.keys().map(|key| LayoutId { raw: key.data().as_ffi() }).collect()
    }
}

} // verus!
