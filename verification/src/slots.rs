//! How many branches may be written at once, and never two into one tag.
use vstd::prelude::*;

use crate::table::Table;

verus! {

/// How many branches the daemon admits at once unless told otherwise.
pub const DEFAULT_BRANCH_CONCURRENCY: usize = 4;

/// Leave to write one tag. Whoever holds it gives it back when done.
#[derive(Debug)]
pub struct BranchSlot {
    tag: String,
}

impl BranchSlot {
    pub closed spec fn tag(&self) -> Seq<char> {
        self.tag@
    }
}

#[derive(Debug, Clone, Copy, PartialEq, Eq, Structural)]
pub enum BranchSlotError {
    /// A branch into this very tag is being written.
    AlreadyInFlight,
    /// As many branches are being written as may be.
    CapacityExceeded,
}

/// The tags that are being written, and how many there may be.
#[derive(Debug)]
pub struct BranchSlots {
    in_flight: Table<()>,
    cap: usize,
}

impl BranchSlots {
    /// The tags that are being written.
    pub closed spec fn held(&self) -> Set<Seq<char>> {
        self.in_flight@.dom()
    }

    pub closed spec fn cap(&self) -> nat {
        self.cap as nat
    }

    /// No more tags are being written than may be.
    pub open spec fn wf(&self) -> bool {
        self.held().finite() && self.held().len() <= self.cap()
    }

    pub fn new(cap: usize) -> (r: Self)
        ensures
            r.wf(),
            r.held() == Set::<Seq<char>>::empty(),
            r.cap() == cap,
    {
        BranchSlots { in_flight: Table::new(), cap }
    }

    /// Asks for leave to write `tag`. The cap is looked at before the tag.
    pub fn try_acquire_branch_slot(&mut self, tag: &str) -> (r: Result<BranchSlot, BranchSlotError>)
        requires
            old(self).wf(),
        ensures
            final(self).wf(),
            final(self).cap() == old(self).cap(),
            match r {
                Ok(slot) => {
                    &&& old(self).held().len() < old(self).cap()
                    &&& !old(self).held().contains(tag@)
                    &&& slot.tag() == tag@
                    &&& final(self).held() == old(self).held().insert(tag@)
                },
                Err(BranchSlotError::CapacityExceeded) => {
                    &&& old(self).held().len() == old(self).cap()
                    &&& final(self).held() == old(self).held()
                },
                Err(BranchSlotError::AlreadyInFlight) => {
                    &&& old(self).held().len() < old(self).cap()
                    &&& old(self).held().contains(tag@)
                    &&& final(self).held() == old(self).held()
                },
            },
    {
        if self.in_flight.len() >= self.cap {
            return Err(BranchSlotError::CapacityExceeded);
        }
        if self.in_flight.contains(tag) {
            return Err(BranchSlotError::AlreadyInFlight);
        }
        let _ = self.in_flight.insert(tag.to_string(), ());
        assert(self.held() =~= old(self).held().insert(tag@));
        Ok(BranchSlot { tag: tag.to_string() })
    }

    /// Takes a slot back.
    pub fn release(&mut self, slot: BranchSlot)
        requires
            old(self).wf(),
        ensures
            final(self).wf(),
            final(self).cap() == old(self).cap(),
            final(self).held() == old(self).held().remove(slot.tag()),
    {
        let _ = self.in_flight.remove(slot.tag.as_str());
        assert(self.held() =~= old(self).held().remove(slot.tag()));
    }

    /// How many branches are being written.
    pub fn in_flight(&self) -> (n: usize)
        ensures
            n == self.held().len(),
    {
        self.in_flight.len()
    }

    pub fn concurrency_cap(&self) -> (n: usize)
        ensures
            n == self.cap(),
    {
        self.cap
    }
}

/// Giving a slot back undoes taking it: the same tag, and one more branch, are
/// admitted again.
pub proof fn law_release_undoes_acquire(held: Set<Seq<char>>, tag: Seq<char>)
    requires
        held.finite(),
        !held.contains(tag),
    ensures
        held.insert(tag).remove(tag) == held,
        held.insert(tag).len() == held.len() + 1,
{
    assert(held.insert(tag).remove(tag) =~= held);
}

} // verus!
