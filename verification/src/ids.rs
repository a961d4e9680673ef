//! Process-unique identifiers for client handles.
//!
//! The counter is an explicit value handed to whoever needs fresh
//! identifiers, so that "monotonically assigned, never reused" is a
//! proved property rather than a convention; the layer that shares it
//! across threads keeps it behind a lock.

use vstd::prelude::*;

verus! {

/// A generator of process-unique identifiers.  Identifiers are handed
/// out in increasing order starting from zero and are never reused.
pub struct IdGen {
    /// The next identifier to hand out; every identifier handed out so
    /// far is strictly below this value.
    pub next: usize,
}

impl IdGen {
    /// A fresh generator: no identifier has been handed out yet.
    pub fn new() -> (r: IdGen)
        ensures
            r.next == 0,
    {
        IdGen { next: 0 }
    }
}

/// Hands out the next identifier and advances the generator, so the
/// same identifier is never handed out twice.
pub fn get_id(gen: &mut IdGen) -> (id: usize)
    requires
        old(gen).next < usize::MAX,
    ensures
        id == old(gen).next,
        final(gen).next == old(gen).next + 1,
{
    let id = gen.next;
    gen.next = gen.next + 1;
    id
}

} // verus!
