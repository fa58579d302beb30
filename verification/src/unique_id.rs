use vstd::prelude::*;

verus! {

/// An identifier for an object of the library, unique among those made by one [UniqueIdAllocator].
#[derive(Clone, Copy, Debug, PartialEq, Eq, PartialOrd, Ord, Hash, Structural)]
pub struct UniqueId(u64);

impl UniqueId {
    /// The raw number.
    pub closed spec fn raw(self) -> u64 {
        self.0
    }

    /// The raw number of this identifier.
    pub fn get(&self) -> (r: u64)
        ensures
            r == self.raw(),
    {
        self.0
    }
}

/// Hands out [UniqueId]s, never the same one twice.
#[derive(Debug)]
pub struct UniqueIdAllocator {
    next: u64,
}

impl UniqueIdAllocator {
    /// Whether `id` has been handed out.
    pub closed spec fn issued(self, id: UniqueId) -> bool {
        id.0 < self.next
    }

    /// Whether another identifier can be handed out.
    pub closed spec fn can_issue(self) -> bool {
        self.next < u64::MAX
    }

    /// An allocator which has handed nothing out.
    pub fn new() -> (r: Self)
        ensures
            forall|id: UniqueId| !r.issued(id),
            r.can_issue(),
    {
        UniqueIdAllocator { next: 0 }
    }

    /// Whether another identifier can be handed out.
    pub fn has_room(&self) -> (r: bool)
        ensures
            r == self.can_issue(),
    {
        self.next < u64::MAX
    }

    /// Hand out an identifier which has not been handed out before.
    pub fn fresh(&mut self) -> (r: UniqueId)
        requires
            old(self).can_issue(),
        ensures
            !old(self).issued(r),
            final(self).issued(r),
            forall|id: UniqueId| #[trigger] final(self).issued(id) <==> (old(self).issued(id) || id == r),
    {
        let id = UniqueId(self.next);
        self.next = self.next + 1;
        id
    }
}

} // verus!
