//! The peers we are connected to on the collation peer set.
use vstd::prelude::*;
use crate::{BlockHash, CollatorEvictionPolicy, CollatorId, CollatorSignature, Instant, ParaId, PeerId};
use crate::crypto::{declare_payload, sr25519_valid, verify_declaration};
use crate::assoc::{has_key, keys_unique, lemma_value_of, value_of};
use crate::peer::{advertise_result, same_standing, AdvertisementError, PeerData};
use crate::view::RelayView;

verus! {

broadcast use vstd::array::group_array_axioms;

/// Why a declaration was refused.
#[derive(Clone, Copy, Debug, PartialEq, Eq)]
pub enum DeclareError {
    /// Some peer already declared itself under this collator key.
    DuplicateCollator,
    /// The peer is not connected.
    UnknownPeer,
    /// The peer declared itself before.
    AlreadyCollating,
    /// The signature does not bind the collator key to the peer.
    InvalidSignature,
}

/// No two collating peers hold the same collator key.
pub open spec fn collators_unique(s: Seq<(PeerId, PeerData)>) -> bool {
    forall|i: int, j: int|
        0 <= i < s.len() && 0 <= j < s.len() && i != j && s[i].1.collating() && s[j].1.collating()
            ==> s[i].1.spec_collator_id() != s[j].1.spec_collator_id()
}

/// `b` is `a` with only the advertisements of relay parents in `our_view` and in the peer's
/// own view kept.
pub open spec fn pruned(a: PeerData, b: PeerData, our_view: RelayView) -> bool {
    &&& b.view == a.view
    &&& same_standing(a, b)
    &&& forall|h: BlockHash| b.advertised(h) <==> (a.advertised(h) && our_view.has(h) && a.view.has(h))
}

/// What a declaration by `p` of the key `id`, signed with `signature`, yields.
pub open spec fn declare_result(reg: PeerRegistry, p: PeerId, id: CollatorId, signature: CollatorSignature)
    -> Result<(), DeclareError>
{
    if reg.id_taken(id) {
        Err(DeclareError::DuplicateCollator)
    } else if !reg.has(p) {
        Err(DeclareError::UnknownPeer)
    } else if reg.get(p).collating() {
        Err(DeclareError::AlreadyCollating)
    } else if !sr25519_valid(signature@, declare_payload(reg.get(p).identity@), id@) {
        Err(DeclareError::InvalidSignature)
    } else {
        Ok(())
    }
}

/// Whether two collator keys are the same.
pub fn same_key(a: &CollatorId, b: &CollatorId) -> (r: bool)
    ensures
        r == (*a == *b),
{
    let mut i: usize = 0;
    while i < 32
        invariant
            0 <= i <= 32,
            forall|j: int| 0 <= j < i ==> a@[j] == b@[j],
        decreases 32 - i,
    {
        if a[i] != b[i] {
            return false;
        }
        i += 1;
    }
    proof {
        assert(a@ =~= b@);
        assert(*a =~= *b);
    }
    true
}

/// All connected peers, each with its record.
///
/// The records are a list rather than a hash map: the sweeps and the view changes walk every
/// record, some of them updating each in place, and the actions they yield come in the order of
/// the list.
pub struct PeerRegistry {
    peers: Vec<(PeerId, PeerData)>,
}

impl PeerRegistry {
    pub closed spec fn entries(&self) -> Seq<(PeerId, PeerData)> {
        self.peers@
    }

    /// Peers appear once each, and no two collators share a key.
    pub open spec fn wf(&self) -> bool {
        &&& keys_unique(self.entries())
        &&& collators_unique(self.entries())
    }

    /// Whether `p` is connected.
    pub open spec fn has(&self, p: PeerId) -> bool {
        has_key(self.entries(), p)
    }

    /// The record of a connected peer.
    pub open spec fn get(&self, p: PeerId) -> PeerData {
        value_of(self.entries(), p)
    }

    /// Whether a connected peer declared itself under `id`.
    pub open spec fn id_taken(&self, id: CollatorId) -> bool {
        exists|q: PeerId| self.has(q) && #[trigger] self.get(q).spec_collator_id() == Some(id)
    }

    /// Peers other than `p` are as in `other`.
    pub open spec fn same_except(&self, other: &PeerRegistry, p: PeerId) -> bool {
        forall|q: PeerId| q != p ==> (#[trigger] self.has(q) == other.has(q)
            && (other.has(q) ==> self.get(q) == other.get(q)))
    }

    pub fn new() -> (r: PeerRegistry)
        ensures
            r.wf(),
            forall|p: PeerId| !r.has(p),
    {
        PeerRegistry { peers: Vec::new() }
    }

    pub fn len(&self) -> (r: usize)
        ensures
            r == self.entries().len(),
    {
        self.peers.len()
    }

    fn find(&self, p: PeerId) -> (r: Option<usize>)
        requires
            self.wf(),
        ensures
            r is None ==> !self.has(p),
            r matches Some(i) ==> i < self.peers@.len() && self.peers@[i as int].0 == p
                && self.has(p) && self.get(p) == self.peers@[i as int].1,
    {
        let mut i: usize = 0;
        while i < self.peers.len()
            invariant
                0 <= i <= self.peers@.len(),
                keys_unique(self.peers@),
                forall|j: int| 0 <= j < i ==> self.peers@[j].0 != p,
            decreases self.peers@.len() - i,
        {
            if self.peers[i].0 == p {
                proof { lemma_value_of(self.peers@, i as int); }
                return Some(i);
            }
            i += 1;
        }
        None
    }

    /// Whether `p` is connected.
    pub fn contains(&self, p: PeerId) -> (r: bool)
        requires
            self.wf(),
        ensures
            r == self.has(p),
    {
        self.find(p).is_some()
    }

    /// Registers `p`, with the network identity `identity`, as connected at `now` with an empty
    /// view, unless it is known already.
    pub fn connect(&mut self, p: PeerId, identity: Vec<u8>, now: Instant)
        requires
            old(self).wf(),
        ensures
            final(self).wf(),
            final(self).has(p),
            old(self).has(p) ==> final(self).get(p) == old(self).get(p),
            !old(self).has(p) ==> final(self).get(p).view.heads@.len() == 0
                && final(self).get(p).identity == identity
                && final(self).get(p).state == crate::peer::PeerState::Connected(now),
            final(self).same_except(old(self), p),
    {
        match self.find(p) {
            Some(_) => {},
            None => {
                let data = PeerData::new(identity, RelayView::empty(), now);
                let ghost prev = self.peers@;
                self.peers.push((p, data));
                proof {
                    let s = self.peers@;
                    assert forall|i: int, j: int| 0 <= i < s.len() && 0 <= j < s.len() && i != j
                        implies s[i].0 != s[j].0 by {
                        if i == prev.len() as int {
                            assert(!(0 <= j < prev.len() && prev[j].0 == p));
                        } else if j == prev.len() as int {
                            assert(!(0 <= i < prev.len() && prev[i].0 == p));
                        }
                    }
                    lemma_value_of(s, prev.len() as int);
                    self.lemma_extend_others(prev, s, p);
                }
            },
        }
    }

    /// Drops the record of `p`.
    pub fn disconnect(&mut self, p: PeerId)
        requires
            old(self).wf(),
        ensures
            final(self).wf(),
            !final(self).has(p),
            final(self).same_except(old(self), p),
    {
        match self.find(p) {
            None => {},
            Some(i) => {
                let ghost prev = self.peers@;
                self.peers.remove(i);
                proof {
                    let s = self.peers@;
                    assert forall|a: int| 0 <= a < s.len() implies s[a] == prev[if a < i { a } else { a + 1 }] by {}
                    assert(!has_key(s, p)) by {
                        if has_key(s, p) {
                            let a = choose|a: int| 0 <= a < s.len() && s[a].0 == p;
                            let b = if a < i { a } else { a + 1 };
                            assert(prev[b].0 == p);
                        }
                    }
                    assert forall|q: PeerId| q != p implies (#[trigger] has_key(s, q) == has_key(prev, q)
                        && (has_key(prev, q) ==> value_of(s, q) == value_of(prev, q))) by {
                        if has_key(prev, q) {
                            let b = choose|b: int| 0 <= b < prev.len() && prev[b].0 == q;
                            assert(b != i);
                            let a = if b < i { b } else { b - 1 };
                            assert(s[a] == prev[b]);
                            lemma_value_of(s, a);
                            lemma_value_of(prev, b);
                        }
                        if has_key(s, q) {
                            let a = choose|a: int| 0 <= a < s.len() && s[a].0 == q;
                            let b = if a < i { a } else { a + 1 };
                            assert(prev[b].0 == q);
                        }
                    }
                }
            },
        }
    }

    /// Replaces the view of `p`, registering it first, with no identity bytes, if it is
    /// unknown; only the advertisements of relay parents in the new view are kept.
    pub fn update_peer_view(&mut self, p: PeerId, view: RelayView, now: Instant)
        requires
            old(self).wf(),
        ensures
            final(self).wf(),
            final(self).has(p),
            final(self).get(p).view == view,
            old(self).has(p) ==> same_standing(old(self).get(p), final(self).get(p)),
            old(self).has(p) ==> forall|h: BlockHash| #[trigger] final(self).get(p).advertised(h)
                <==> (old(self).get(p).advertised(h) && view.has(h)),
            !old(self).has(p) ==> final(self).get(p).state == crate::peer::PeerState::Connected(now)
                && final(self).get(p).identity@.len() == 0,
            final(self).same_except(old(self), p),
    {
        self.connect(p, Vec::new(), now);
        let ghost mid_reg: PeerRegistry = *self;
        let ghost mid = self.peers@;
        let i = self.find(p).unwrap();
        self.peers[i].1.update_view(view);
        proof {
            Self::lemma_update_others(mid, self.peers@, i as int);
            self.lemma_collators_kept(mid, i as int);
            if old(self).has(p) {
                assert(mid[i as int].1 == old(self).get(p));
                assert forall|h: BlockHash| self.get(p).advertised(h)
                    <==> (old(self).get(p).advertised(h) && view.has(h)) by {
                    assert(self.get(p) == self.peers@[i as int].1);
                }
            }
            assert forall|q: PeerId| q != p implies (#[trigger] self.has(q) == old(self).has(q)
                && (old(self).has(q) ==> self.get(q) == old(self).get(q))) by {
                assert(mid_reg.has(q) == old(self).has(q));
                assert(old(self).has(q) ==> mid_reg.get(q) == old(self).get(q));
            }
        }
    }

    /// Keeps, for every peer, only the advertisements of relay parents in `our_view` and in the
    /// peer's own view.
    pub fn prune_old_advertisements(&mut self, our_view: &RelayView)
        requires
            old(self).wf(),
        ensures
            final(self).wf(),
            forall|q: PeerId| #[trigger] final(self).has(q) == old(self).has(q),
            forall|q: PeerId| old(self).has(q) ==> {
                &&& final(self).get(q).view == old(self).get(q).view
                &&& same_standing(old(self).get(q), #[trigger] final(self).get(q))
                &&& forall|h: BlockHash| #[trigger] final(self).get(q).advertised(h)
                    <==> (old(self).get(q).advertised(h) && our_view.has(h) && old(self).get(q).view.has(h))
            },
    {
        let ghost start = self.peers@;
        let mut i: usize = 0;
        while i < self.peers.len()
            invariant
                0 <= i <= self.peers@.len(),
                self.peers@.len() == start.len(),
                keys_unique(start),
                collators_unique(start),
                forall|a: int| 0 <= a < start.len() ==> #[trigger] self.peers@[a].0 == start[a].0,
                forall|a: int| i <= a < start.len() ==> #[trigger] self.peers@[a] == start[a],
                forall|a: int| 0 <= a < i ==> pruned(start[a].1, #[trigger] self.peers@[a].1, *our_view),
            decreases self.peers@.len() - i,
        {
            let ghost prev = self.peers@;
            self.peers[i].1.prune_old_advertisements(our_view);
            proof {
                assert(self.peers@.len() == prev.len());
                assert(self.peers@[i as int].0 == prev[i as int].0);
                assert(self.peers@[i as int].1.view == prev[i as int].1.view);
                assert(same_standing(prev[i as int].1, self.peers@[i as int].1));
                assert(forall|h: BlockHash| self.peers@[i as int].1.advertised(h) <==> (prev[i as int].1.advertised(h) && our_view.has(h) && prev[i as int].1.view.has(h)));
                assert(pruned(prev[i as int].1, self.peers@[i as int].1, *our_view));
                assert forall|a: int| 0 <= a < prev.len() && a != i implies self.peers@[a] == prev[a] by {}
            }
            i += 1;
        }
        proof {
            let s = self.peers@;
            assert forall|a: int| 0 <= a < s.len() implies pruned(start[a].1, s[a].1, *our_view) by {}
            assert(keys_unique(s)) by {
                assert forall|a: int, b: int| 0 <= a < s.len() && 0 <= b < s.len() && a != b
                    implies s[a].0 != s[b].0 by {
                    assert(s[a].0 == start[a].0 && s[b].0 == start[b].0);
                }
            }
            assert(collators_unique(s)) by {
                assert forall|a: int, b: int|
                    0 <= a < s.len() && 0 <= b < s.len() && a != b && s[a].1.collating() && s[b].1.collating()
                    implies s[a].1.spec_collator_id() != s[b].1.spec_collator_id() by {
                    assert(pruned(start[a].1, s[a].1, *our_view));
                    assert(pruned(start[b].1, s[b].1, *our_view));
                }
            }
            assert forall|q: PeerId| #[trigger] has_key(s, q) == has_key(start, q) by {
                if has_key(s, q) {
                    let a = choose|a: int| 0 <= a < s.len() && s[a].0 == q;
                    assert(start[a].0 == q);
                }
                if has_key(start, q) {
                    let a = choose|a: int| 0 <= a < start.len() && start[a].0 == q;
                    assert(s[a].0 == q);
                }
            }
            assert forall|q: PeerId| has_key(start, q) implies pruned(value_of(start, q), #[trigger] value_of(s, q), *our_view) by {
                let a = choose|a: int| 0 <= a < start.len() && start[a].0 == q;
                lemma_value_of(start, a);
                assert(s[a].0 == q);
                lemma_value_of(s, a);
            }
        }
    }

    /// Every collating peer with the para it collates for.
    pub fn collators(&self) -> (r: Vec<(PeerId, ParaId)>)
        requires
            self.wf(),
        ensures
            forall|q: PeerId, para: ParaId| r@.contains((q, para))
                <==> (self.has(q) && self.get(q).spec_collating_para() == Some(para)),
            forall|a: int, b: int| 0 <= a < r@.len() && 0 <= b < r@.len() && a != b ==> r@[a].0 != r@[b].0,
    {
        let mut out: Vec<(PeerId, ParaId)> = Vec::new();
        let mut i: usize = 0;
        while i < self.peers.len()
            invariant
                0 <= i <= self.peers@.len(),
                keys_unique(self.peers@),
                forall|q: PeerId, para: ParaId| out@.contains((q, para))
                    <==> (exists|a: int| 0 <= a < i && self.peers@[a].0 == q
                        && self.peers@[a].1.spec_collating_para() == Some(para)),
                forall|a: int| 0 <= a < out@.len() ==> exists|b: int| 0 <= b < i && self.peers@[b].0 == #[trigger] out@[a].0,
                forall|a: int, b: int| 0 <= a < out@.len() && 0 <= b < out@.len() && a != b ==> out@[a].0 != out@[b].0,
            decreases self.peers@.len() - i,
        {
            let q = self.peers[i].0;
            let ghost prev = out@;
            match self.peers[i].1.collating_para() {
                None => {},
                Some(para) => {
                    proof {
                        assert forall|a: int| 0 <= a < prev.len() implies prev[a].0 != q by {
                            let b = choose|b: int| 0 <= b < i && self.peers@[b].0 == #[trigger] prev[a].0;
                            assert(b != i);
                        }
                    }
                    out.push((q, para));
                },
            }
            proof {
                assert forall|x: PeerId, para: ParaId| out@.contains((x, para))
                    <==> (exists|a: int| 0 <= a < i + 1 && self.peers@[a].0 == x
                        && self.peers@[a].1.spec_collating_para() == Some(para)) by {
                    if out@.contains((x, para)) {
                        let k = choose|k: int| 0 <= k < out@.len() && out@[k] == (x, para);
                        if k < prev.len() {
                            assert(prev.contains((x, para)));
                        } else {
                            assert(self.peers@[i as int].0 == x);
                        }
                    }
                    if exists|a: int| 0 <= a < i + 1 && self.peers@[a].0 == x
                        && self.peers@[a].1.spec_collating_para() == Some(para) {
                        let a = choose|a: int| 0 <= a < i + 1 && self.peers@[a].0 == x
                            && self.peers@[a].1.spec_collating_para() == Some(para);
                        if a < i {
                            assert(prev.contains((x, para)));
                            let k = choose|k: int| 0 <= k < prev.len() && prev[k] == (x, para);
                            assert(out@[k] == (x, para));
                        } else {
                            assert(out@[out@.len() - 1] == (x, para));
                        }
                    }
                }
                assert forall|a: int| 0 <= a < out@.len() implies exists|b: int| 0 <= b < i + 1 && self.peers@[b].0 == #[trigger] out@[a].0 by {
                    if a < prev.len() {
                        assert(out@[a] == prev[a]);
                        let b = choose|b: int| 0 <= b < i && self.peers@[b].0 == #[trigger] prev[a].0;
                        assert(0 <= b < i + 1);
                    } else {
                        assert(self.peers@[i as int].0 == out@[a].0);
                    }
                }
            }
            i += 1;
        }
        proof {
            assert forall|q: PeerId, para: ParaId| out@.contains((q, para))
                <==> (self.has(q) && self.get(q).spec_collating_para() == Some(para)) by {
                if out@.contains((q, para)) {
                    let a = choose|a: int| 0 <= a < i && self.peers@[a].0 == q
                        && self.peers@[a].1.spec_collating_para() == Some(para);
                    lemma_value_of(self.peers@, a);
                }
                if self.has(q) && self.get(q).spec_collating_para() == Some(para) {
                    let a = choose|a: int| 0 <= a < self.peers@.len() && self.peers@[a].0 == q;
                    lemma_value_of(self.peers@, a);
                }
            }
        }
        out
    }

    /// The peer that declared itself under `id`, if any.
    pub fn find_peer_by_collator(&self, id: &CollatorId) -> (r: Option<PeerId>)
        requires
            self.wf(),
        ensures
            r is None ==> !self.id_taken(*id),
            r matches Some(q) ==> self.has(q) && self.get(q).spec_collator_id() == Some(*id),
    {
        let mut i: usize = 0;
        while i < self.peers.len()
            invariant
                0 <= i <= self.peers@.len(),
                keys_unique(self.peers@),
                forall|a: int| 0 <= a < i ==> self.peers@[a].1.spec_collator_id() != Some(*id),
            decreases self.peers@.len() - i,
        {
            match self.peers[i].1.collator_id() {
                Some(c) => {
                    if same_key(&c, id) {
                        proof { lemma_value_of(self.peers@, i as int); }
                        return Some(self.peers[i].0);
                    }
                },
                None => {},
            }
            i += 1;
        }
        proof {
            assert forall|q: PeerId| self.has(q) implies #[trigger] self.get(q).spec_collator_id() != Some(*id) by {
                let a = choose|a: int| 0 <= a < self.peers@.len() && self.peers@[a].0 == q;
                lemma_value_of(self.peers@, a);
            }
        }
        None
    }

    /// Checks a declaration by `p` of the collator key `id`, signed with `signature`. Refused, in
    /// this order: a key that some peer holds already, an unknown peer, a peer that declared
    /// itself before, a signature that does not bind the key to `p`.
    pub fn check_declare(&self, p: PeerId, id: &CollatorId, signature: &CollatorSignature)
        -> (r: Result<(), DeclareError>)
        requires
            self.wf(),
        ensures
            r == declare_result(*self, p, *id, *signature),
    {
        if self.find_peer_by_collator(id).is_some() {
            return Err(DeclareError::DuplicateCollator);
        }
        let i = match self.find(p) {
            None => { return Err(DeclareError::UnknownPeer); },
            Some(i) => i,
        };
        if self.peers[i].1.is_collating() {
            return Err(DeclareError::AlreadyCollating);
        }
        if !verify_declaration(&self.peers[i].1.identity, id, signature) {
            return Err(DeclareError::InvalidSignature);
        }
        Ok(())
    }

    /// Makes `p` a collator for `para_id` under the key `id`, active from `now`.
    pub fn set_collating(&mut self, p: PeerId, id: CollatorId, para_id: ParaId, now: Instant)
        requires
            old(self).wf(),
            old(self).has(p),
            !old(self).id_taken(id),
        ensures
            final(self).wf(),
            final(self).has(p),
            final(self).get(p).identity == old(self).get(p).identity,
            final(self).get(p).view == old(self).get(p).view,
            final(self).get(p).collating(),
            final(self).get(p).spec_collator_id() == Some(id),
            final(self).get(p).spec_collating_para() == Some(para_id),
            final(self).get(p).adverts().len() == 0,
            final(self).get(p).active_since() == now,
            final(self).same_except(old(self), p),
    {
        let ghost mid = self.peers@;
        let i = self.find(p).unwrap();
        self.peers[i].1.set_collating(id, para_id, now);
        proof {
            Self::lemma_update_others(mid, self.peers@, i as int);
            let s = self.peers@;
            assert(collators_unique(s)) by {
                assert forall|a: int, b: int|
                    0 <= a < s.len() && 0 <= b < s.len() && a != b && s[a].1.collating() && s[b].1.collating()
                    implies s[a].1.spec_collator_id() != s[b].1.spec_collator_id() by {
                    if a == i {
                        lemma_value_of(mid, b);
                        assert(old(self).has(mid[b].0));
                        assert(old(self).get(mid[b].0).spec_collator_id() != Some(id));
                    } else if b == i {
                        lemma_value_of(mid, a);
                        assert(old(self).has(mid[a].0));
                        assert(old(self).get(mid[a].0).spec_collator_id() != Some(id));
                    } else {
                        assert(mid[a].1.collating() && mid[b].1.collating());
                    }
                }
            }
        }
    }

    /// Notes an advertisement of `relay_parent` by `p`; a peer that is not connected has not
    /// declared itself either.
    pub fn insert_advertisement(&mut self, p: PeerId, relay_parent: BlockHash, our_view: &RelayView, now: Instant)
        -> (r: Result<(CollatorId, ParaId), AdvertisementError>)
        requires
            old(self).wf(),
        ensures
            final(self).wf(),
            r == (if old(self).has(p) { advertise_result(old(self).get(p), relay_parent, *our_view) }
                else { Err(AdvertisementError::UndeclaredCollator) }),
            r is Err ==> *final(self) == *old(self),
            r is Ok ==> {
                &&& final(self).has(p)
                &&& final(self).get(p).identity == old(self).get(p).identity
                &&& final(self).get(p).view == old(self).get(p).view
                &&& final(self).get(p).collating()
                &&& final(self).get(p).spec_collator_id() == old(self).get(p).spec_collator_id()
                &&& final(self).get(p).spec_collating_para() == old(self).get(p).spec_collating_para()
                &&& final(self).get(p).active_since() == now
                &&& final(self).get(p).adverts() == old(self).get(p).adverts().push(relay_parent)
                &&& final(self).same_except(old(self), p)
            },
    {
        let ghost mid = self.peers@;
        let i = match self.find(p) {
            None => { return Err(AdvertisementError::UndeclaredCollator); },
            Some(i) => i,
        };
        let checked = self.peers[i].1.check_advertisement(relay_parent, our_view);
        if checked.is_err() {
            return checked;
        }
        let r = self.peers[i].1.insert_advertisement(relay_parent, our_view, now);
        proof {
            {
                Self::lemma_update_others(mid, self.peers@, i as int);
                let s = self.peers@;
                assert(collators_unique(s)) by {
                    assert forall|a: int, b: int|
                        0 <= a < s.len() && 0 <= b < s.len() && a != b && s[a].1.collating() && s[b].1.collating()
                        implies s[a].1.spec_collator_id() != s[b].1.spec_collator_id() by {
                        assert(mid[a].1.collating() && mid[b].1.collating());
                    }
                }
            }
        }
        r
    }

    /// Whether `p` advertised a collation on `relay_parent`.
    pub fn has_advertised(&self, p: PeerId, relay_parent: BlockHash) -> (r: bool)
        requires
            self.wf(),
        ensures
            r == (self.has(p) && self.get(p).advertised(relay_parent)),
    {
        match self.find(p) {
            None => false,
            Some(i) => self.peers[i].1.has_advertised(relay_parent),
        }
    }

    /// The para `p` collates for, if it is a connected collator.
    pub fn collating_para(&self, p: PeerId) -> (r: Option<ParaId>)
        requires
            self.wf(),
        ensures
            r == (if self.has(p) { self.get(p).spec_collating_para() } else { None }),
    {
        match self.find(p) {
            None => None,
            Some(i) => self.peers[i].1.collating_para(),
        }
    }

    /// The peers that have outstayed their grace period at `now`, each once.
    pub fn inactive_peers(&self, now: Instant, policy: &CollatorEvictionPolicy) -> (r: Vec<PeerId>)
        requires
            self.wf(),
        ensures
            forall|q: PeerId| r@.contains(q) <==> (self.has(q) && self.get(q).spec_is_inactive(now, *policy)),
            r@.no_duplicates(),
    {
        let mut out: Vec<PeerId> = Vec::new();
        let mut i: usize = 0;
        while i < self.peers.len()
            invariant
                0 <= i <= self.peers@.len(),
                keys_unique(self.peers@),
                out@.no_duplicates(),
                forall|q: PeerId| out@.contains(q) <==> (exists|a: int| 0 <= a < i && self.peers@[a].0 == q
                    && self.peers@[a].1.spec_is_inactive(now, *policy)),
            decreases self.peers@.len() - i,
        {
            let q = self.peers[i].0;
            let ghost prev = out@;
            if self.peers[i].1.is_inactive(now, policy) {
                proof {
                    assert(!prev.contains(q)) by {
                        if prev.contains(q) {
                            let a = choose|a: int| 0 <= a < i && self.peers@[a].0 == q
                                && self.peers@[a].1.spec_is_inactive(now, *policy);
                            assert(a != i);
                        }
                    }
                }
                out.push(q);
            }
            proof {
                assert forall|x: PeerId| out@.contains(x) <==> (exists|a: int| 0 <= a < i + 1 && self.peers@[a].0 == x
                    && self.peers@[a].1.spec_is_inactive(now, *policy)) by {
                    if out@.contains(x) {
                        let k = choose|k: int| 0 <= k < out@.len() && out@[k] == x;
                        if k < prev.len() {
                            assert(prev.contains(x));
                        }
                    }
                    if exists|a: int| 0 <= a < i + 1 && self.peers@[a].0 == x
                        && self.peers@[a].1.spec_is_inactive(now, *policy) {
                        let a = choose|a: int| 0 <= a < i + 1 && self.peers@[a].0 == x
                            && self.peers@[a].1.spec_is_inactive(now, *policy);
                        if a < i {
                            assert(prev.contains(x));
                            let k = choose|k: int| 0 <= k < prev.len() && prev[k] == x;
                            assert(out@[k] == x);
                        } else {
                            assert(out@[out@.len() - 1] == x);
                        }
                    }
                }
            }
            i += 1;
        }
        proof {
            assert forall|q: PeerId| out@.contains(q) <==> (self.has(q) && self.get(q).spec_is_inactive(now, *policy)) by {
                if out@.contains(q) {
                    let a = choose|a: int| 0 <= a < i && self.peers@[a].0 == q
                        && self.peers@[a].1.spec_is_inactive(now, *policy);
                    lemma_value_of(self.peers@, a);
                }
                if self.has(q) && self.get(q).spec_is_inactive(now, *policy) {
                    let a = choose|a: int| 0 <= a < self.peers@.len() && self.peers@[a].0 == q;
                    lemma_value_of(self.peers@, a);
                }
            }
        }
        out
    }

    /// A change of the record at `i` that keeps the declaration keeps collator keys unique.
    proof fn lemma_collators_kept(&self, prev: Seq<(PeerId, PeerData)>, i: int)
        requires
            collators_unique(prev),
            0 <= i < prev.len(),
            self.peers@.len() == prev.len(),
            forall|a: int| 0 <= a < prev.len() && a != i ==> self.peers@[a] == prev[a],
            same_standing(prev[i].1, self.peers@[i].1),
        ensures
            collators_unique(self.peers@),
    {
        let s = self.peers@;
        assert forall|a: int, b: int|
            0 <= a < s.len() && 0 <= b < s.len() && a != b && s[a].1.collating() && s[b].1.collating()
            implies s[a].1.spec_collator_id() != s[b].1.spec_collator_id() by {
            assert(prev[a].1.collating() && prev[b].1.collating());
        }
    }

    /// `s` is `prev` with one more record, for the new peer `p`.
    proof fn lemma_extend_others(&self, prev: Seq<(PeerId, PeerData)>, s: Seq<(PeerId, PeerData)>, p: PeerId)
        requires
            keys_unique(prev),
            keys_unique(s),
            s.len() == prev.len() + 1,
            forall|a: int| 0 <= a < prev.len() ==> s[a] == prev[a],
            s[prev.len() as int].0 == p,
        ensures
            forall|q: PeerId| q != p ==> (#[trigger] has_key(s, q) == has_key(prev, q)
                && (has_key(prev, q) ==> value_of(s, q) == value_of(prev, q))),
    {
        assert forall|q: PeerId| q != p implies (#[trigger] has_key(s, q) == has_key(prev, q)
            && (has_key(prev, q) ==> value_of(s, q) == value_of(prev, q))) by {
            if has_key(prev, q) {
                let b = choose|b: int| 0 <= b < prev.len() && prev[b].0 == q;
                lemma_value_of(s, b);
                lemma_value_of(prev, b);
            }
            if has_key(s, q) {
                let a = choose|a: int| 0 <= a < s.len() && s[a].0 == q;
                assert(a < prev.len());
                assert(prev[a].0 == q);
            }
        }
    }

    /// `s` is `prev` with the record at `i`, of the peer `p`, replaced.
    proof fn lemma_update_others(prev: Seq<(PeerId, PeerData)>, s: Seq<(PeerId, PeerData)>, i: int)
        requires
            keys_unique(prev),
            0 <= i < prev.len(),
            s.len() == prev.len(),
            forall|a: int| 0 <= a < prev.len() && a != i ==> s[a] == prev[a],
            s[i].0 == prev[i].0,
        ensures
            keys_unique(s),
            has_key(s, prev[i].0),
            value_of(s, prev[i].0) == s[i].1,
            forall|q: PeerId| q != prev[i].0 ==> (#[trigger] has_key(s, q) == has_key(prev, q)
                && (has_key(prev, q) ==> value_of(s, q) == value_of(prev, q))),
    {
        assert(keys_unique(s)) by {
            assert forall|a: int, b: int| 0 <= a < s.len() && 0 <= b < s.len() && a != b
                implies s[a].0 != s[b].0 by {
                assert(s[a].0 == prev[a].0 && s[b].0 == prev[b].0);
            }
        }
        lemma_value_of(s, i);
        assert forall|q: PeerId| q != prev[i].0 implies (#[trigger] has_key(s, q) == has_key(prev, q)
            && (has_key(prev, q) ==> value_of(s, q) == value_of(prev, q))) by {
            if has_key(prev, q) {
                let b = choose|b: int| 0 <= b < prev.len() && prev[b].0 == q;
                lemma_value_of(s, b);
                lemma_value_of(prev, b);
            }
            if has_key(s, q) {
                let a = choose|a: int| 0 <= a < s.len() && s[a].0 == q;
                assert(prev[a].0 == q);
            }
        }
    }
}

impl PeerRegistry {
    /// The connected peer that declared itself under `id`, if some peer did.
    pub open spec fn holder(&self, id: CollatorId) -> PeerId {
        choose|q: PeerId| self.has(q) && #[trigger] self.get(q).spec_collator_id() == Some(id)
    }

    /// At most one connected peer holds a collator key.
    pub proof fn lemma_holder_unique(&self, q: PeerId, id: CollatorId)
        requires
            self.wf(),
            self.has(q),
            self.get(q).spec_collator_id() == Some(id),
        ensures
            self.id_taken(id),
            self.holder(id) == q,
    {
        let s = self.entries();
        assert(self.id_taken(id));
        let h = self.holder(id);
        let a = choose|a: int| 0 <= a < s.len() && s[a].0 == q;
        let b = choose|b: int| 0 <= b < s.len() && s[b].0 == h;
        lemma_value_of(s, a);
        lemma_value_of(s, b);
        if a != b {
            assert(s[a].1.collating() && s[b].1.collating());
        }
    }
}

} // verus!
