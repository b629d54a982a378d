//! Allocation of connection identifiers.
//!
//! Every connection attached to a pool owns an identifier drawn from a
//! monotonically increasing counter. Identifiers start at 1 and are never
//! reused, so a stale identifier held by a concurrent sender can never alias
//! a newer connection.

use vstd::prelude::*;

verus! {

/// The counter that hands out connection identifiers, starting at 1.
pub struct IdGen {
    next: usize,
}

impl IdGen {
    /// The next identifier this generator will hand out.
    pub closed spec fn spec_next(self) -> usize {
        self.next
    }

    /// Identifiers are drawn from 1 upward.
    pub open spec fn wf(self) -> bool {
        self.spec_next() >= 1
    }

    pub fn new() -> (r: IdGen)
        ensures
            r.wf(),
            r.spec_next() == 1,
    {
        IdGen { next: 1 }
    }

    /// The identifier the next call of `next_id` will hand out, without
    /// advancing the counter.
    pub fn peek(&self) -> (r: usize)
        ensures
            r == self.spec_next(),
    {
        self.next
    }
}

/// Hands out the next connection identifier and advances the counter, so no
/// two calls on the same generator ever return the same identifier.
pub fn next_id(gen: &mut IdGen) -> (id: usize)
    requires
        old(gen).wf(),
        old(gen).spec_next() < usize::MAX,
    ensures
        final(gen).wf(),
        id == old(gen).spec_next(),
        final(gen).spec_next() == id + 1,
{
    let id = gen.next;
    gen.next = id + 1;
    id
}

} // verus!
