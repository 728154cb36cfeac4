//! Native handle ownership.
//!
//! An engine handle is not garbage collected: it must be released exactly
//! once, and only when the last owner lets go.  A session and the entry
//! views derived from it share one [`HandleCell`], which counts the owning
//! references and records how often the release call has run.  The
//! well-formedness invariant ties the two together: while any reference
//! is live the handle has never been released, and once the count reaches
//! zero it has been released exactly once.

use vstd::prelude::*;

verus! {

/// Shared-ownership cell around one native engine handle.
pub struct HandleCell {
    refs: u64,
    releases: u64,
}

impl HandleCell {
    /// How many owning references exist.
    pub closed spec fn refs(self) -> u64 {
        self.refs
    }

    /// How often the native release call has run.
    pub closed spec fn releases(self) -> u64 {
        self.releases
    }

    /// The ownership invariant: the handle is released exactly when the
    /// last reference is gone, and never while one is live.
    pub open spec fn wf(self) -> bool {
        self.releases() == if self.refs() == 0 {
            1u64
        } else {
            0u64
        }
    }

    /// Whether the handle may still be used.
    pub open spec fn is_live(self) -> bool {
        self.refs() >= 1
    }

    /// Takes ownership of a freshly allocated handle: one reference, no
    /// release yet.
    pub fn new() -> (c: HandleCell)
        ensures
            c.wf(),
            c.is_live(),
            c.refs() == 1,
            c.releases() == 0,
    {
        HandleCell { refs: 1, releases: 0 }
    }

    /// Adds an owning reference, as deriving an entry view from a session
    /// or cloning a session does.
    pub fn retain(&mut self)
        requires
            old(self).wf(),
            old(self).is_live(),
            old(self).refs() < u64::MAX,
        ensures
            final(self).wf(),
            final(self).is_live(),
            final(self).refs() == old(self).refs() + 1,
            final(self).releases() == 0,
    {
        self.refs = self.refs + 1;
    }

    /// Drops an owning reference.  When the last one goes, and only then,
    /// the native release call runs.
    pub fn release(&mut self)
        requires
            old(self).wf(),
            old(self).is_live(),
        ensures
            final(self).wf(),
            final(self).refs() == old(self).refs() - 1,
            final(self).releases() == if final(self).refs() == 0 {
                1u64
            } else {
                0u64
            },
    {
        self.refs = self.refs - 1;
        if self.refs == 0 {
            self.releases = self.releases + 1;
        }
    }

    /// How many owning references exist.
    pub fn ref_count(&self) -> (r: u64)
        ensures
            r == self.refs(),
    {
        self.refs
    }

    /// How often the native release call has run.
    pub fn release_count(&self) -> (r: u64)
        ensures
            r == self.releases(),
    {
        self.releases
    }

    /// Whether the handle may still be used.
    pub fn live(&self) -> (r: bool)
        ensures
            r == self.is_live(),
    {
        self.refs >= 1
    }
}

/// The release call runs at most once over the whole lifetime of a
/// session and its derived views, however many references existed, and
/// it has run exactly once as soon as no reference is left.
pub proof fn lemma_release_exactly_once(c: HandleCell)
    requires
        c.wf(),
    ensures
        c.releases() <= 1,
        c.refs() == 0 ==> c.releases() == 1,
        c.refs() >= 1 ==> c.releases() == 0,
{
}

} // verus!
