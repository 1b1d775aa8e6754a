//! Graceful shutdown bookkeeping.
//!
//! Shutdown is a counting handshake: each transport registers a hold
//! at spawn time; the initiator announces as many stop permits as
//! there are holds, and returns only after every hold acknowledged.
//! The core here is the counting; the waiting itself is the caller's.

use vstd::prelude::*;

verus! {

/// The shutdown coordinator's books.
#[derive(Clone, Copy, Debug, PartialEq, Eq, Structural)]
pub struct GracefulShutdown {
    holders: u64,
    announced: u64,
    acks: u64,
}

impl GracefulShutdown {
    /// How many transports hold the token.
    pub closed spec fn holders_spec(&self) -> u64 {
        self.holders
    }

    /// How many stop permits were announced.
    pub closed spec fn announced_spec(&self) -> u64 {
        self.announced
    }

    /// How many holds acknowledged their stop permit.
    pub closed spec fn acks_spec(&self) -> u64 {
        self.acks
    }

    /// Acknowledgments never outrun holds, and nothing is announced
    /// before `shutdown`.
    pub open spec fn wf(&self) -> bool {
        self.acks_spec() <= self.holders_spec() && (self.announced_spec() == 0
            || self.announced_spec() == self.holders_spec())
    }

    /// How many transport tasks are still runnable: those that did
    /// not yet acknowledge a stop permit.
    pub open spec fn runnable(&self) -> int {
        self.holders_spec() - self.acks_spec()
    }

    /// A fresh coordinator: no holds, nothing announced.
    pub fn new() -> (r: GracefulShutdown)
        ensures
            r.wf(),
            r.holders_spec() == 0,
            r.announced_spec() == 0,
            r.acks_spec() == 0,
    {
        GracefulShutdown { holders: 0, announced: 0, acks: 0 }
    }

    /// A transport takes a hold at spawn time.
    pub fn register(&mut self)
        requires
            old(self).wf(),
            old(self).holders_spec() < u64::MAX,
            old(self).announced_spec() == 0,
        ensures
            final(self).wf(),
            final(self).holders_spec() == old(self).holders_spec() + 1,
            final(self).announced_spec() == 0,
            final(self).acks_spec() == old(self).acks_spec(),
    {
        self.holders = self.holders + 1;
    }

    /// The initiator announces a stop permit for every hold.
    /// Returns how many permits to release.
    pub fn announce(&mut self) -> (r: u64)
        requires
            old(self).wf(),
        ensures
            final(self).wf(),
            r == old(self).holders_spec(),
            final(self).announced_spec() == final(self).holders_spec(),
            final(self).holders_spec() == old(self).holders_spec(),
            final(self).acks_spec() == old(self).acks_spec(),
    {
        self.announced = self.holders;
        self.holders
    }

    /// A transport task observed its stop permit and dropped its
    /// hold.
    pub fn acknowledge(&mut self)
        requires
            old(self).wf(),
            old(self).acks_spec() < old(self).holders_spec(),
        ensures
            final(self).wf(),
            final(self).acks_spec() == old(self).acks_spec() + 1,
            final(self).holders_spec() == old(self).holders_spec(),
            final(self).announced_spec() == old(self).announced_spec(),
    {
        self.acks = self.acks + 1;
    }

    /// Whether the initiator may return: every hold acknowledged.
    pub fn complete(&self) -> (r: bool)
        ensures
            r == (self.acks_spec() == self.holders_spec()),
    {
        self.acks == self.holders
    }
}

/// When `shutdown` returns — every announced permit acknowledged —
/// no transport task is runnable.
pub proof fn lemma_shutdown_drains(gs: GracefulShutdown)
    requires
        gs.wf(),
        gs.acks_spec() == gs.holders_spec(),
    ensures
        gs.runnable() == 0,
{
}

} // verus!
