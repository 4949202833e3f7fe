//! The collation requests in flight, at most one per relay parent, para and peer.
use vstd::prelude::*;
use crate::{BlockHash, ParaId, PeerId};

verus! {

/// A collation that was requested, or is to be, from a peer.
#[derive(Clone, Copy, Debug, PartialEq, Eq, Hash, Structural)]
pub struct PendingCollation {
    pub relay_parent: BlockHash,
    pub para_id: ParaId,
    pub peer_id: PeerId,
    /// Unknown while the request is in flight; the candidate's commitments once fetched.
    pub commitments_hash: Option<BlockHash>,
}

/// The outstanding request for `para_id` at `relay_parent` from `peer_id`.
pub open spec fn request_key(relay_parent: BlockHash, para_id: ParaId, peer_id: PeerId) -> PendingCollation {
    PendingCollation { relay_parent, para_id, peer_id, commitments_hash: None }
}

impl PendingCollation {
    pub fn new(relay_parent: BlockHash, para_id: ParaId, peer_id: PeerId) -> (r: PendingCollation)
        ensures
            r == request_key(relay_parent, para_id, peer_id),
    {
        PendingCollation { relay_parent, para_id, peer_id, commitments_hash: None }
    }
}

/// How a collation request ended.
#[derive(Clone, Copy, Debug, PartialEq, Eq)]
pub enum FetchResponse {
    /// The response could not be decoded.
    InvalidResponse,
    /// The transport failed.
    NetworkError,
    /// The request was canceled or timed out.
    Canceled,
    /// A collation arrived; its candidate is for `para_id`.
    Collation { para_id: ParaId },
}

/// The requests in flight.
pub struct FetchPool {
    requested: Vec<PendingCollation>,
}

impl FetchPool {
    pub closed spec fn entries(&self) -> Seq<PendingCollation> {
        self.requested@
    }

    /// Whether `pc` is in flight.
    pub open spec fn has(&self, pc: PendingCollation) -> bool {
        self.entries().contains(pc)
    }

    /// Each request once, and none with a known candidate.
    pub open spec fn wf(&self) -> bool {
        &&& self.entries().no_duplicates()
        &&& forall|i: int| 0 <= i < self.entries().len() ==> (#[trigger] self.entries()[i]).commitments_hash is None
    }

    pub fn new() -> (r: FetchPool)
        ensures
            r.wf(),
            forall|pc: PendingCollation| !r.has(pc),
    {
        FetchPool { requested: Vec::new() }
    }

    pub fn len(&self) -> (r: usize)
        ensures
            r == self.entries().len(),
    {
        self.requested.len()
    }

    fn index_of(&self, pc: &PendingCollation) -> (r: Option<usize>)
        ensures
            r is None ==> !self.has(*pc),
            r matches Some(i) ==> i < self.entries().len() && self.entries()[i as int] == *pc,
    {
        let mut i: usize = 0;
        while i < self.requested.len()
            invariant
                0 <= i <= self.requested@.len(),
                forall|j: int| 0 <= j < i ==> self.requested@[j] != *pc,
            decreases self.requested@.len() - i,
        {
            if self.requested[i] == *pc {
                return Some(i);
            }
            i += 1;
        }
        None
    }

    pub fn contains(&self, pc: &PendingCollation) -> (r: bool)
        ensures
            r == self.has(*pc),
    {
        self.index_of(pc).is_some()
    }

    /// Records a request for `para_id` at `relay_parent` from `peer_id`, unless one is in flight
    /// already; returns whether it was recorded.
    pub fn enqueue(&mut self, relay_parent: BlockHash, para_id: ParaId, peer_id: PeerId) -> (r: bool)
        requires
            old(self).wf(),
        ensures
            final(self).wf(),
            r == !old(self).has(request_key(relay_parent, para_id, peer_id)),
            !r ==> *final(self) == *old(self),
            forall|pc: PendingCollation| #[trigger] final(self).has(pc)
                <==> (old(self).has(pc) || pc == request_key(relay_parent, para_id, peer_id)),
    {
        let pc = PendingCollation::new(relay_parent, para_id, peer_id);
        if self.contains(&pc) {
            return false;
        }
        let ghost prev = self.requested@;
        self.requested.push(pc);
        proof {
            assert forall|x: PendingCollation| #[trigger] self.requested@.contains(x) <==> (prev.contains(x) || x == pc) by {
                if self.requested@.contains(x) && x != pc {
                    let k = choose|k: int| 0 <= k < self.requested@.len() && self.requested@[k] == x;
                    assert(prev[k] == x);
                }
                if prev.contains(x) {
                    let k = choose|k: int| 0 <= k < prev.len() && prev[k] == x;
                    assert(self.requested@[k] == x);
                }
                if x == pc {
                    assert(self.requested@[prev.len() as int] == x);
                }
            }
        }
        true
    }

    /// Removes `pc` if it is in flight; returns whether it was.
    pub fn remove(&mut self, pc: &PendingCollation) -> (r: bool)
        requires
            old(self).wf(),
        ensures
            final(self).wf(),
            r == old(self).has(*pc),
            !r ==> *final(self) == *old(self),
            forall|x: PendingCollation| #[trigger] final(self).has(x) <==> (old(self).has(x) && x != *pc),
    {
        match self.index_of(pc) {
            None => false,
            Some(i) => {
                let ghost prev = self.requested@;
                self.requested.remove(i);
                proof {
                    let s = self.requested@;
                    assert forall|a: int| 0 <= a < s.len() implies s[a] == prev[if a < i { a } else { a + 1 }] by {}
                    assert forall|x: PendingCollation| #[trigger] s.contains(x) <==> (prev.contains(x) && x != *pc) by {
                        if s.contains(x) {
                            let a = choose|a: int| 0 <= a < s.len() && s[a] == x;
                            let b = if a < i { a } else { a + 1 };
                            assert(prev[b] == x);
                            assert(b != i);
                        }
                        if prev.contains(x) && x != *pc {
                            let b = choose|b: int| 0 <= b < prev.len() && prev[b] == x;
                            assert(b != i);
                            let a = if b < i { b } else { b - 1 };
                            assert(s[a] == x);
                        }
                    }
                    assert(s.no_duplicates()) by {
                        assert forall|a: int, b: int| 0 <= a < s.len() && 0 <= b < s.len() && a != b implies s[a] != s[b] by {
                            let a2 = if a < i { a } else { a + 1 };
                            let b2 = if b < i { b } else { b + 1 };
                            assert(s[a] == prev[a2] && s[b] == prev[b2]);
                        }
                    }
                }
                true
            },
        }
    }

    /// Whether `pc` is selected: by its peer being `key` if `by_peer`, else by its relay parent
    /// being `key`.
    pub open spec fn selected(pc: PendingCollation, by_peer: bool, key: u64) -> bool {
        if by_peer { pc.peer_id == key } else { pc.relay_parent == key }
    }

    /// The requests in flight to `peer_id` (or, if `by_peer` is false, on the relay parent
    /// `key`), each once.
    fn select(&self, by_peer: bool, key: u64) -> (r: Vec<PendingCollation>)
        requires
            self.wf(),
        ensures
            r@.no_duplicates(),
            forall|pc: PendingCollation| #[trigger] r@.contains(pc) <==> (self.has(pc) && Self::selected(pc, by_peer, key)),
    {
        let mut out: Vec<PendingCollation> = Vec::new();
        let mut i: usize = 0;
        while i < self.requested.len()
            invariant
                0 <= i <= self.requested@.len(),
                self.requested@.no_duplicates(),
                out@.no_duplicates(),
                forall|pc: PendingCollation| #[trigger] out@.contains(pc) <==> (exists|j: int| 0 <= j < i
                    && self.requested@[j] == pc && Self::selected(pc, by_peer, key)),
            decreases self.requested@.len() - i,
        {
            let pc = self.requested[i];
            let ghost prev = out@;
            let take = if by_peer { pc.peer_id == key } else { pc.relay_parent == key };
            if take {
                proof {
                    assert(!prev.contains(pc)) by {
                        if prev.contains(pc) {
                            let j = choose|j: int| 0 <= j < i && self.requested@[j] == pc && Self::selected(pc, by_peer, key);
                            assert(j != i);
                        }
                    }
                }
                out.push(pc);
            }
            proof {
                assert forall|x: PendingCollation| #[trigger] out@.contains(x) <==> (exists|j: int| 0 <= j < i + 1
                    && self.requested@[j] == x && Self::selected(x, by_peer, key)) by {
                    if out@.contains(x) {
                        let k = choose|k: int| 0 <= k < out@.len() && out@[k] == x;
                        if k < prev.len() {
                            assert(prev.contains(x));
                        } else {
                            assert(self.requested@[i as int] == x);
                        }
                    }
                    if exists|j: int| 0 <= j < i + 1 && self.requested@[j] == x && Self::selected(x, by_peer, key) {
                        let j = choose|j: int| 0 <= j < i + 1 && self.requested@[j] == x && Self::selected(x, by_peer, key);
                        if j < i {
                            assert(prev.contains(x));
                            let k = choose|k: int| 0 <= k < prev.len() && prev[k] == x;
                            assert(out@[k] == x);
                        } else {
                            assert(out@[out@.len() - 1] == x);
                        }
                    }
                }
            }
            i += 1;
        }
        proof {
            assert forall|pc: PendingCollation| #[trigger] out@.contains(pc) <==> (self.has(pc) && Self::selected(pc, by_peer, key)) by {
                if self.has(pc) && Self::selected(pc, by_peer, key) {
                    let j = choose|j: int| 0 <= j < self.requested@.len() && self.requested@[j] == pc;
                    assert(0 <= j < i);
                }
            }
        }
        out
    }

    /// The requests in flight to `peer_id`, each once.
    pub fn requests_to(&self, peer_id: PeerId) -> (r: Vec<PendingCollation>)
        requires
            self.wf(),
        ensures
            r@.no_duplicates(),
            forall|pc: PendingCollation| #[trigger] r@.contains(pc) <==> (self.has(pc) && pc.peer_id == peer_id),
    {
        self.select(true, peer_id)
    }

    /// Drops every request on `relay_parent`, and returns them, each once.
    pub fn drop_relay_parent(&mut self, relay_parent: BlockHash) -> (r: Vec<PendingCollation>)
        requires
            old(self).wf(),
        ensures
            final(self).wf(),
            r@.no_duplicates(),
            forall|pc: PendingCollation| #[trigger] r@.contains(pc) <==> (old(self).has(pc) && pc.relay_parent == relay_parent),
            forall|pc: PendingCollation| #[trigger] final(self).has(pc) <==> (old(self).has(pc) && pc.relay_parent != relay_parent),
    {
        let dropped = self.select(false, relay_parent);
        let ghost start = *self;
        let mut i: usize = 0;
        while i < dropped.len()
            invariant
                0 <= i <= dropped@.len(),
                self.wf(),
                dropped@.no_duplicates(),
                forall|pc: PendingCollation| #[trigger] dropped@.contains(pc) <==> (start.has(pc) && pc.relay_parent == relay_parent),
                forall|pc: PendingCollation| #[trigger] self.has(pc) <==> (start.has(pc)
                    && !dropped@.subrange(0, i as int).contains(pc)),
            decreases dropped@.len() - i,
        {
            let pc = dropped[i];
            self.remove(&pc);
            proof {
                assert forall|x: PendingCollation| #[trigger] dropped@.subrange(0, i as int + 1).contains(x)
                    <==> (dropped@.subrange(0, i as int).contains(x) || x == pc) by {
                    let t = dropped@.subrange(0, i as int + 1);
                    let u = dropped@.subrange(0, i as int);
                    if t.contains(x) {
                        let k = choose|k: int| 0 <= k < t.len() && t[k] == x;
                        if k < i { assert(u[k] == x); }
                    }
                    if u.contains(x) {
                        let k = choose|k: int| 0 <= k < u.len() && u[k] == x;
                        assert(t[k] == x);
                    }
                    if x == pc { assert(t[i as int] == x); }
                }
            }
            i += 1;
        }
        proof {
            assert(dropped@.subrange(0, dropped@.len() as int) =~= dropped@);
        }
        dropped
    }
}

} // verus!
