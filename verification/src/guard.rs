//! Turning a deadlock into an error message.
//!
//! A capability provider runs while the registry that invoked it is locked, on the thread
//! that took the lock. Calling back into the same registry would stop the process dead. So
//! each instance carries an id, and each thread records which one it is currently inside.
//! Re-entering that instance is refused; entering a different one is fine, and the previous
//! id is restored on the way out.

use crate::error::Error;
use vstd::prelude::*;

verus! {

/// An id no instance has, meaning a thread is not inside a call.
pub const NONE: u64 = 0;

/// Hands out the per-instance ids the guard compares.
#[derive(Debug)]
pub struct Ids {
    pub next: u64,
}

impl Ids {
    pub fn new() -> (r: Ids)
        ensures
            r.next == 1,
    {
        Ids { next: 1 }
    }
}

/// Allocates an id for a new instance.
pub fn next_id(ids: &mut Ids) -> (r: u64)
    ensures
        r == old(ids).next,
        final(ids).next as int == (old(ids).next + 1) % 0x1_0000_0000_0000_0000,
{
    let id: u64 = ids.next;
    ids.next = id.wrapping_add(1);
    id
}

/// The instance a thread is currently inside a call on.
#[derive(Debug, PartialEq, Eq)]
pub struct Active {
    current: u64,
}

impl Active {
    /// The id of the instance.
    pub closed spec fn inside(self) -> u64 {
        self.current
    }

    /// A thread that is not inside a call.
    pub fn new() -> (r: Active)
        ensures
            r.inside() == NONE,
    {
        Active { current: NONE }
    }

    pub fn current(&self) -> (r: u64)
        ensures
            r == self.inside(),
    {
        self.current
    }
}

/// Marks a thread as being inside a call, until it is left.
#[derive(Debug, PartialEq, Eq)]
pub struct CallGuard {
    previous: u64,
}

impl CallGuard {
    /// The instance the thread was inside before.
    pub closed spec fn before(self) -> u64 {
        self.previous
    }

    /// Claims the thread for `id`, or reports the re-entry that would have hung.
    pub fn enter(active: &mut Active, id: u64) -> (r: Result<CallGuard, Error>)
        ensures
            old(active).inside() == id ==> {
                &&& r == Err::<CallGuard, Error>(Error::Reentrant)
                &&& final(active).inside() == old(active).inside()
            },
            old(active).inside() != id ==> {
                &&& r matches Ok(guard)
                &&& guard.before() == old(active).inside()
                &&& final(active).inside() == id
            },
    {
        let previous: u64 = active.current;
        if previous == id {
            return Err(Error::Reentrant);
        }
        active.current = id;
        Ok(CallGuard { previous })
    }

    /// Leaves the call, which puts the thread back where it was.
    pub fn leave(self, active: &mut Active)
        ensures
            final(active).inside() == self.before(),
    {
        active.current = self.previous;
    }
}

/// Leaving a call restores the instance the thread was inside before it, so a call nested in
/// another leaves the outer one guarded: entering the outer instance is still refused.
pub proof fn leaving_restores(before: Active, during: Active, after: Active, guard: CallGuard, id: u64)
    requires
        before.inside() != id,
        guard.before() == before.inside(),
        during.inside() == id,
        after.inside() == guard.before(),
    ensures
        after.inside() == before.inside(),
        before.inside() != NONE ==> after.inside() != NONE,
{
}

} // verus!
