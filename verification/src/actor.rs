//! Identities of windows and of the processes that own them.

use vstd::prelude::*;

verus! {

/// Process identifier of an application.
pub type Pid = i32;

/// A window, identified by its process and a number within that process.
#[derive(Clone, Copy, Debug, PartialEq, Eq, Structural, PartialOrd, Ord, Hash)]
pub struct WindowId {
    pub pid: Pid,
    pub idx: u32,
}

impl WindowId {
    /// The window `idx` of process `pid`. Numbers within a process start at one.
    pub fn new(pid: Pid, idx: u32) -> (wid: WindowId)
        requires
            idx != 0,
        ensures
            wid == (WindowId { pid, idx }),
    {
        WindowId { pid, idx }
    }

    /// Windows are ordered by process first and by number second.
    pub open spec fn le(self, other: WindowId) -> bool {
        self.pid < other.pid || (self.pid == other.pid && self.idx <= other.idx)
    }

    /// Whether `self` comes no later than `other`.
    pub fn not_after(self, other: WindowId) -> (r: bool)
        ensures
            r == self.le(other),
    {
        self.pid < other.pid || (self.pid == other.pid && self.idx <= other.idx)
    }
}

/// A key with its halves exchanged: keys are ordered by slot first and by
/// generation second.
pub open spec fn key_order(raw: u64) -> nat {
    ((raw % 0x1_0000_0000) * 0x1_0000_0000 + raw / 0x1_0000_0000) as nat
}

pub fn key_rank(raw: u64) -> (r: u64)
    ensures
        r == key_order(raw),
{
    (raw % 0x1_0000_0000) * 0x1_0000_0000 + raw / 0x1_0000_0000
}

/// The order tells keys apart.
pub proof fn law_key_order(a: u64, b: u64)
    ensures
        key_order(a) == key_order(b) ==> a == b,
{
}

/// A layout, identified by the key that its table handed out.
#[derive(Clone, Copy, Debug, PartialEq, Eq, Structural, Hash)]
pub struct LayoutId {
    pub raw: u64,
}

impl LayoutId {
    /// Keys that a table hands out carry an odd generation in their upper half.
    pub open spec fn issued(self) -> bool {
        (self.raw / 0x1_0000_0000) % 2 == 1
    }

    /// Keys are ordered by the slot in their lower half first.
    pub open spec fn order(self) -> nat {
        key_order(self.raw)
    }

    pub fn rank(self) -> (r: u64)
        ensures
            r == self.order(),
    {
        key_rank(self.raw)
    }

    /// Whether this has the shape of a key that a table hands out.
    pub fn is_issued(self) -> (r: bool)
        ensures
            r == self.issued(),
    {
        (self.raw / 0x1_0000_0000) % 2 == 1
    }
}

} // verus!
