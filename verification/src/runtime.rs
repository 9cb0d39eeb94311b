//! The shared scheduler registry.
//!
//! Finishing an operator must resolve a task scheduler: the ambient one when
//! the calling context already runs inside a scheduler, otherwise a
//! process-wide shared one that is created lazily, exactly once, and reused
//! by every later synchronous caller. The registry is an explicit object
//! (rather than implicit global state) so that callers own the process-wide
//! instance and tests can substitute one; schedulers are identified by
//! opaque handles.

use vstd::prelude::*;

verus! {

/// The registry of the process-wide shared scheduler: how many schedulers
/// it ever created, and the handle of the shared one once it exists.
pub struct RuntimeRegistry {
    created: u64,
    shared: Option<u64>,
}

impl RuntimeRegistry {
    /// How many schedulers this registry has created.
    pub closed spec fn spec_created(&self) -> u64 {
        self.created
    }

    /// The handle of the shared scheduler, once one was created.
    pub closed spec fn spec_shared(&self) -> Option<u64> {
        self.shared
    }

    /// A fresh registry: nothing created yet.
    pub fn new() -> (r: RuntimeRegistry)
        ensures
            r.spec_created() == 0,
            r.spec_shared() is None,
    {
        RuntimeRegistry { created: 0, shared: None }
    }

    /// How many schedulers were ever created.
    pub fn created(&self) -> (c: u64)
        ensures
            c == self.spec_created(),
    {
        self.created
    }

    /// The shared scheduler's handle, once one exists.
    pub fn shared(&self) -> (s: Option<u64>)
        ensures
            s == self.spec_shared(),
    {
        self.shared
    }

    /// Resolve the scheduler for one `finish` call.
    pub fn resolve(&mut self, ambient: Option<u64>) -> (h: u64)
        requires
            old(self).spec_created() < u64::MAX,
        ensures
            ambient matches Some(a) ==> *final(self) == *old(self) && h == a,
            ambient is None ==> (old(self).spec_shared() matches Some(s) ==> *final(self) == *old(
                self,
            ) && h == s),
            ambient is None && old(self).spec_shared() is None ==> final(self).spec_created()
                == old(self).spec_created() + 1 && final(self).spec_shared() == Some(h) && h == old(
                self,
            ).spec_created(),
    {
        match ambient {
            Some(a) => a,
            None => match self.shared {
                Some(s) => s,
                None => {
                    let h = self.created;
                    self.created = self.created + 1;
                    self.shared = Some(h);
                    h
                },
            },
        }
    }
}

} // verus!
