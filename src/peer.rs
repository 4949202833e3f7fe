//! The state of a single peer: what it announced and whether it declared itself a collator.
use vstd::prelude::*;
use crate::{BlockHash, CollatorEvictionPolicy, CollatorId, Instant, ParaId};
use crate::view::{vec_contains, RelayView};

verus! {

/// What a peer that declared itself a collator has told us.
pub struct CollatingPeerState {
    pub collator_id: CollatorId,
    pub para_id: ParaId,
    /// Relay parents for which the peer advertised a collation, each once; a list, since view
    /// changes rebuild it by filtering.
    pub advertisements: Vec<BlockHash>,
    pub last_active: Instant,
}

pub enum PeerState {
    /// The peer connected at the given instant and has not declared itself yet.
    Connected(Instant),
    /// The peer declared itself a collator.
    Collating(CollatingPeerState),
}

/// Why an advertisement was refused.
#[derive(Clone, Copy, Debug, PartialEq, Eq)]
pub enum AdvertisementError {
    /// The relay parent was advertised before.
    Duplicate,
    /// The relay parent is not in our view.
    OutOfOurView,
    /// The peer has not declared itself a collator.
    UndeclaredCollator,
}

pub struct PeerData {
    /// The bytes of the peer's network identity, which a declaration's signature covers.
    pub identity: Vec<u8>,
    pub view: RelayView,
    pub state: PeerState,
}

/// `b` is the same peer as `a`, holds the same declaration and counts as active from the same instant.
pub open spec fn same_standing(a: PeerData, b: PeerData) -> bool {
    &&& b.identity == a.identity
    &&& b.collating() == a.collating()
    &&& b.spec_collator_id() == a.spec_collator_id()
    &&& b.spec_collating_para() == a.spec_collating_para()
    &&& b.active_since() == a.active_since()
}

/// What an advertisement of `rp` from a peer with record `d` yields.
pub open spec fn advertise_result(d: PeerData, rp: BlockHash, our_view: RelayView)
    -> Result<(CollatorId, ParaId), AdvertisementError>
{
    if !d.collating() {
        Err(AdvertisementError::UndeclaredCollator)
    } else if !our_view.has(rp) {
        Err(AdvertisementError::OutOfOurView)
    } else if d.advertised(rp) {
        Err(AdvertisementError::Duplicate)
    } else {
        Ok((d.spec_collator_id().unwrap(), d.spec_collating_para().unwrap()))
    }
}

impl PeerData {
    /// The relay parents the peer advertised; none before it declared itself.
    pub open spec fn adverts(&self) -> Seq<BlockHash> {
        match self.state {
            PeerState::Connected(_) => seq![],
            PeerState::Collating(s) => s.advertisements@,
        }
    }

    pub open spec fn advertised(&self, h: BlockHash) -> bool {
        self.adverts().contains(h)
    }

    pub open spec fn collating(&self) -> bool {
        self.state is Collating
    }

    pub open spec fn spec_collator_id(&self) -> Option<CollatorId> {
        match self.state {
            PeerState::Connected(_) => None,
            PeerState::Collating(s) => Some(s.collator_id),
        }
    }

    pub open spec fn spec_collating_para(&self) -> Option<ParaId> {
        match self.state {
            PeerState::Connected(_) => None,
            PeerState::Collating(s) => Some(s.para_id),
        }
    }

    /// The instant from which the peer's grace period runs.
    pub open spec fn active_since(&self) -> Instant {
        match self.state {
            PeerState::Connected(since) => since,
            PeerState::Collating(s) => s.last_active,
        }
    }

    /// The grace period of undeclared peers applies until the peer declares itself, that of
    /// collators after.
    pub open spec fn spec_is_inactive(&self, now: Instant, policy: CollatorEvictionPolicy) -> bool {
        if self.collating() {
            self.active_since() + policy.inactive_collator < now
        } else {
            self.active_since() + policy.undeclared < now
        }
    }

    /// A peer with the network identity `identity` that has just connected with the given view.
    pub fn new(identity: Vec<u8>, view: RelayView, now: Instant) -> (r: PeerData)
        ensures
            r.identity == identity,
            r.view == view,
            r.state == PeerState::Connected(now),
    {
        PeerData { identity, view, state: PeerState::Connected(now) }
    }

    /// Replaces the peer's view, keeping only the advertisements of relay parents in it.
    pub fn update_view(&mut self, new_view: RelayView)
        ensures
            final(self).view == new_view,
            same_standing(*old(self), *final(self)),
            forall|h: BlockHash| #[trigger] final(self).advertised(h) <==> (old(self).advertised(h)
                && new_view.has(h)),
    {
        self.view = new_view;
        match &mut self.state {
            PeerState::Connected(_) => {},
            PeerState::Collating(s) => {
                let kept = retain_present(&s.advertisements, &self.view.heads);
                s.advertisements = kept;
            },
        }
    }

    /// Keeps only the advertisements of relay parents that are in `our_view` and in the peer's
    /// own view.
    pub fn prune_old_advertisements(&mut self, our_view: &RelayView)
        ensures
            final(self).view == old(self).view,
            same_standing(*old(self), *final(self)),
            forall|h: BlockHash| #[trigger] final(self).advertised(h) <==> (old(self).advertised(h)
                && our_view.has(h) && old(self).view.has(h)),
    {
        match &mut self.state {
            PeerState::Connected(_) => {},
            PeerState::Collating(s) => {
                let in_ours = retain_present(&s.advertisements, &our_view.heads);
                let kept = retain_present(&in_ours, &self.view.heads);
                s.advertisements = kept;
            },
        }
    }

    /// What an advertisement of `on_relay_parent` would yield, without noting it.
    pub fn check_advertisement(&self, on_relay_parent: BlockHash, our_view: &RelayView)
        -> (r: Result<(CollatorId, ParaId), AdvertisementError>)
        ensures
            r == advertise_result(*self, on_relay_parent, *our_view),
    {
        match &self.state {
            PeerState::Connected(_) => Err(AdvertisementError::UndeclaredCollator),
            PeerState::Collating(s) => {
                if !our_view.contains(on_relay_parent) {
                    Err(AdvertisementError::OutOfOurView)
                } else if vec_contains(&s.advertisements, on_relay_parent) {
                    Err(AdvertisementError::Duplicate)
                } else {
                    Ok((s.collator_id, s.para_id))
                }
            },
        }
    }

    /// Notes an advertisement of `on_relay_parent`, which is accepted only from a collator,
    /// for a relay parent in `our_view` that it did not advertise before. On success the
    /// peer counts as active at `now`, and its collator and para are returned.
    pub fn insert_advertisement(&mut self, on_relay_parent: BlockHash, our_view: &RelayView, now: Instant)
        -> (r: Result<(CollatorId, ParaId), AdvertisementError>)
        ensures
            r == advertise_result(*old(self), on_relay_parent, *our_view),
            r is Err ==> *final(self) == *old(self),
            r is Ok ==> {
                &&& final(self).view == old(self).view
                &&& final(self).identity == old(self).identity
                &&& final(self).collating()
                &&& final(self).spec_collator_id() == old(self).spec_collator_id()
                &&& final(self).spec_collating_para() == old(self).spec_collating_para()
                &&& final(self).active_since() == now
                &&& final(self).adverts() == old(self).adverts().push(on_relay_parent)
            },
    {
        match &mut self.state {
            PeerState::Connected(_) => Err(AdvertisementError::UndeclaredCollator),
            PeerState::Collating(s) => {
                if !our_view.contains(on_relay_parent) {
                    Err(AdvertisementError::OutOfOurView)
                } else if vec_contains(&s.advertisements, on_relay_parent) {
                    Err(AdvertisementError::Duplicate)
                } else {
                    s.advertisements.push(on_relay_parent);
                    s.last_active = now;
                    Ok((s.collator_id, s.para_id))
                }
            },
        }
    }

    pub fn is_collating(&self) -> (r: bool)
        ensures
            r == self.collating(),
    {
        match self.state {
            PeerState::Connected(_) => false,
            PeerState::Collating(_) => true,
        }
    }

    /// Makes the peer a collator for `para_id` under the key `collator_id`, with no
    /// advertisements and active at `now`.
    pub fn set_collating(&mut self, collator_id: CollatorId, para_id: ParaId, now: Instant)
        ensures
            final(self).identity == old(self).identity,
            final(self).view == old(self).view,
            final(self).collating(),
            final(self).spec_collator_id() == Some(collator_id),
            final(self).spec_collating_para() == Some(para_id),
            final(self).adverts().len() == 0,
            final(self).active_since() == now,
            forall|p: CollatorEvictionPolicy, t: Instant|
                final(self).spec_is_inactive(t, p) == (now + p.inactive_collator < t),
    {
        self.state = PeerState::Collating(CollatingPeerState {
            collator_id,
            para_id,
            advertisements: Vec::new(),
            last_active: now,
        });
    }

    pub fn collator_id(&self) -> (r: Option<CollatorId>)
        ensures
            r == self.spec_collator_id(),
    {
        match &self.state {
            PeerState::Connected(_) => None,
            PeerState::Collating(s) => Some(s.collator_id),
        }
    }

    pub fn collating_para(&self) -> (r: Option<ParaId>)
        ensures
            r == self.spec_collating_para(),
    {
        match &self.state {
            PeerState::Connected(_) => None,
            PeerState::Collating(s) => Some(s.para_id),
        }
    }

    /// Whether the peer has advertised a collation on `relay_parent`.
    pub fn has_advertised(&self, relay_parent: BlockHash) -> (r: bool)
        ensures
            r == self.advertised(relay_parent),
    {
        match &self.state {
            PeerState::Connected(_) => false,
            PeerState::Collating(s) => vec_contains(&s.advertisements, relay_parent),
        }
    }

    /// Whether the peer has outstayed its grace period at `now`: since it connected while it
    /// has not declared itself, since its last advertisement once it has.
    pub fn is_inactive(&self, now: Instant, policy: &CollatorEvictionPolicy) -> (r: bool)
        ensures
            r == self.spec_is_inactive(now, *policy),
    {
        match &self.state {
            PeerState::Connected(since) => *since < now && now - *since > policy.undeclared,
            PeerState::Collating(s) => s.last_active < now && now - s.last_active > policy.inactive_collator,
        }
    }
}

/// The elements of `v` that are in `keep`, in order.
fn retain_present(v: &Vec<BlockHash>, keep: &Vec<BlockHash>) -> (r: Vec<BlockHash>)
    ensures
        forall|h: BlockHash| r@.contains(h) <==> (v@.contains(h) && keep@.contains(h)),
{
    let mut out: Vec<BlockHash> = Vec::new();
    let mut i: usize = 0;
    while i < v.len()
        invariant
            0 <= i <= v@.len(),
            forall|h: BlockHash| out@.contains(h) <==> (v@.subrange(0, i as int).contains(h) && keep@.contains(h)),
        decreases v@.len() - i,
    {
        let h = v[i];
        let ghost prev = out@;
        proof { lemma_subrange_push(v@, i as int); }
        if vec_contains(keep, h) {
            out.push(h);
            proof { lemma_push_contains(prev, h); }
        }
        proof {
            assert forall|x: BlockHash| out@.contains(x) <==> (v@.subrange(0, i + 1).contains(x) && keep@.contains(x)) by {
                assert(prev.contains(x) <==> (v@.subrange(0, i as int).contains(x) && keep@.contains(x)));
            }
        }
        i += 1;
    }
    proof { assert(v@.subrange(0, v@.len() as int) =~= v@); }
    out
}

proof fn lemma_push_contains(s: Seq<BlockHash>, x: BlockHash)
    ensures
        forall|h: BlockHash| s.push(x).contains(h) <==> (s.contains(h) || h == x),
{
    assert forall|h: BlockHash| s.push(x).contains(h) <==> (s.contains(h) || h == x) by {
        if s.push(x).contains(h) && h != x {
            let k = choose|k: int| 0 <= k < s.push(x).len() && s.push(x)[k] == h;
            assert(s[k] == h);
        }
        if s.contains(h) {
            let k = choose|k: int| 0 <= k < s.len() && s[k] == h;
            assert(s.push(x)[k] == h);
        }
        if h == x {
            assert(s.push(x)[s.len() as int] == h);
        }
    }
}

proof fn lemma_subrange_push(s: Seq<BlockHash>, i: int)
    requires
        0 <= i < s.len(),
    ensures
        forall|h: BlockHash| s.subrange(0, i + 1).contains(h) <==> (s.subrange(0, i).contains(h) || h == s[i]),
{
    assert(s.subrange(0, i + 1) =~= s.subrange(0, i).push(s[i]));
    lemma_push_contains(s.subrange(0, i), s[i]);
}

} // verus!
