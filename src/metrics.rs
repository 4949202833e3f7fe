//! Counters of the subsystem's work, for the embedding program to export.
use vstd::prelude::*;

verus! {

/// How many collation requests succeeded and failed, and how many collator peers are
/// connected.
#[derive(Clone, Copy, Debug, PartialEq, Eq)]
pub struct Metrics {
    pub collation_requests_succeeded: u64,
    pub collation_requests_failed: u64,
    pub collator_peer_count: u64,
}

/// `x + 1`, or `x` where that does not fit.
pub open spec fn saturating_inc(x: u64) -> u64 {
    if x < u64::MAX { (x + 1) as u64 } else { x }
}

impl Metrics {
    pub fn new() -> (r: Metrics)
        ensures
            r.collation_requests_succeeded == 0,
            r.collation_requests_failed == 0,
            r.collator_peer_count == 0,
    {
        Metrics { collation_requests_succeeded: 0, collation_requests_failed: 0, collator_peer_count: 0 }
    }

    /// Counts a collation request by its outcome.
    pub fn on_request(&mut self, succeeded: bool)
        ensures
            succeeded ==> final(self).collation_requests_succeeded == saturating_inc(old(self).collation_requests_succeeded)
                && final(self).collation_requests_failed == old(self).collation_requests_failed,
            !succeeded ==> final(self).collation_requests_failed == saturating_inc(old(self).collation_requests_failed)
                && final(self).collation_requests_succeeded == old(self).collation_requests_succeeded,
            final(self).collator_peer_count == old(self).collator_peer_count,
    {
        if succeeded {
            if self.collation_requests_succeeded < u64::MAX {
                self.collation_requests_succeeded = self.collation_requests_succeeded + 1;
            }
        } else {
            if self.collation_requests_failed < u64::MAX {
                self.collation_requests_failed = self.collation_requests_failed + 1;
            }
        }
    }

    /// Notes the number of connected collator peers.
    pub fn note_collator_peer_count(&mut self, collator_peers: usize)
        ensures
            final(self).collator_peer_count == collator_peers as u64,
            final(self).collation_requests_succeeded == old(self).collation_requests_succeeded,
            final(self).collation_requests_failed == old(self).collation_requests_failed,
    {
        self.collator_peer_count = collator_peers as u64;
    }
}

} // verus!
