//! The table of strips, kept in a slot map.

use slotmap::Key;
use vstd::prelude::*;

use crate::actor::LayoutId;
use crate::layout_engine::systems::scrolling::state::LayoutState;

verus! {

/// Strips, by layout. The keys come from `slotmap::SlotMap`.
#[verifier::external_body]
pub struct StripTable {
    inner: slotmap::SlotMap<slotmap::DefaultKey, LayoutState>,
}

/// The strips that a table holds.
pub uninterp spec fn strips_in(table: StripTable) -> Map<LayoutId, LayoutState>;

impl StripTable {
    /// `slotmap::SlotMap::new`: a table without entries.
    #[verifier::external_body]
    pub(crate) fn new() -> (r: StripTable)
        ensures
            strips_in(r).dom() =~= Set::empty(),
    {
        StripTable { inner: slotmap::SlotMap::new() }
    }

    /// `slotmap::SlotMap::len`: the number of entries.
    #[verifier::external_body]
    pub(crate) fn len(&self) -> (r: usize)
        ensures
            r == strips_in(*self).dom().len(),
    {
        self.inner.len()
    }

    /// `slotmap::SlotMap::insert`: the strip is stored under a key that is not in
    /// use. The map panics when it is full, which takes 2^32 - 2 entries.
    #[verifier::external_body]
    pub(crate) fn insert(&mut self, strip: LayoutState) -> (r: LayoutId)
        requires
            strips_in(*old(self)).dom().len() < 4294967294,
        ensures
            r.issued(),
            !strips_in(*old(self)).contains_key(r),
            strips_in(*final(self)) == strips_in(*old(self)).insert(r, strip),
    {
        LayoutId { raw: self.inner.insert(strip).data().as_ffi() }
    }

    /// `slotmap::SlotMap::get`: the strip stored under a key, if there is one.
    #[verifier::external_body]
    pub(crate) fn get(&self, layout: LayoutId) -> (r: Option<&LayoutState>)
        requires
            layout.issued(),
        ensures
            r is Some <==> strips_in(*self).contains_key(layout),
            r is Some ==> *(r->0) == strips_in(*self)[layout],
    {
        self.inner.get(slotmap::KeyData::from_ffi(layout.raw).into())
    }

    /// `slotmap::SlotMap::get_mut`: the strip stored under a key, if there is
    /// one, to be changed in place.
    #[verifier::external_body]
    pub(crate) fn get_mut(&mut self, layout: LayoutId) -> (r: Option<&mut LayoutState>)
        requires
            layout.issued(),
        ensures
            r is Some <==> strips_in(*old(self)).contains_key(layout),
            r is None ==> strips_in(*final(self)) == strips_in(*old(self)),
            r is Some ==> *(r->0) == strips_in(*old(self))[layout],
            r is Some ==> strips_in(*final(self)) == strips_in(*old(self)).insert(
                layout,
                *final(r->0),
            ),
    {
        self.inner.get_mut(slotmap::KeyData::from_ffi(layout.raw).into())
    }

    /// `slotmap::SlotMap::remove`: the entry of a key is taken out.
    #[verifier::external_body]
    pub(crate) fn remove(&mut self, layout: LayoutId) -> (r: Option<LayoutState>)
        requires
            layout.issued(),
        ensures
            r == (if strips_in(*old(self)).contains_key(layout) {
                Some(strips_in(*old(self))[layout])
            } else {
                None
            }),
            strips_in(*final(self)) == strips_in(*old(self)).remove(layout),
    {
        self.inner.remove(slotmap::KeyData::from_ffi(layout.raw).into())
    }

    /// `slotmap::SlotMap::keys`: every key in use, each once, in an order that
    /// the map chooses.
    #[verifier::external_body]
    pub(crate) fn keys(&self) -> (r: Vec<LayoutId>)
        ensures
            r@.no_duplicates(),
            forall|l: LayoutId| r@.contains(l) <==> strips_in(*self).contains_key(l),
    {
        self.inner.keys().map(|key| LayoutId { raw: key.data().as_ffi() }).collect()
    }
}

} // verus!
