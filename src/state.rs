//! The decisions of the validator side of the collator protocol.
//!
//! [`State`] holds our view, our assignments, the connected peers, the requests in flight and
//! the candidates handed to backing. Each event is one method call; what is to be done about it
//! in the world outside comes back as a list of [`Action`]s, in order.
use vstd::prelude::*;
use std::collections::HashMap;
use crate::{BlockHash, CollatorEvictionPolicy, CollatorId, CollatorSignature, Instant, ParaId, PeerId};
use crate::assignments::{answer_for, lemma_assigned_after, ActiveParas, SchedulingInfo};
use crate::fetch::{request_key, FetchPool, FetchResponse, PendingCollation};
use crate::peer::{advertise_result, AdvertisementError, PeerState};
use crate::registry::{declare_result, pruned, DeclareError, PeerRegistry};
use crate::view::RelayView;

verus! {

broadcast use vstd::std_specs::hash::group_hash_axioms;

/// A message of the collator protocol, as sent by a peer.
#[derive(Clone, Copy, Debug, PartialEq, Eq)]
pub enum WireMessage {
    /// The peer declares itself the collator with the given key, for a para, with a signature
    /// that binds the key to the peer.
    Declare(CollatorId, ParaId, CollatorSignature),
    /// The peer has a collation on the relay parent.
    AdvertiseCollation(BlockHash),
    /// A candidate was seconded; only collators are told so.
    CollationSeconded(BlockHash),
}

/// An event of the network bridge.
pub enum NetworkEvent {
    /// A peer connected; its network identity's bytes come along.
    PeerConnected(PeerId, Vec<u8>),
    PeerDisconnected(PeerId),
    PeerViewChange(PeerId, RelayView),
    /// Our view changed; what the runtime told about the relay parents new in it comes along.
    OurViewChange(RelayView, Vec<SchedulingInfo>),
    PeerMessage(PeerId, WireMessage),
}

/// A message to this subsystem.
pub enum CollatorProtocolMessage {
    /// Meant for the collator side.
    CollateOn(ParaId),
    /// Meant for the collator side.
    DistributeCollation,
    /// Another subsystem reports a collator as bad.
    ReportCollator(CollatorId),
    /// Another subsystem notes a collator as good.
    NoteGoodCollator(CollatorId),
    NetworkBridgeUpdate(NetworkEvent),
    /// Meant for the collator side.
    CollationFetchingRequest,
    /// Backing seconded the candidate on the relay parent.
    Seconded(BlockHash),
    /// Backing found the candidate on the relay parent, with the given commitments, invalid.
    Invalid(BlockHash, BlockHash),
}

/// A change of a peer's reputation.
#[derive(Clone, Copy, Debug, PartialEq, Eq)]
pub enum Rep {
    /// A message that the protocol does not allow at this point.
    UnexpectedMessage,
    /// A response that could not be decoded.
    CorruptedMessage,
    /// A request that failed in transport.
    NetworkError,
    /// A request that was not answered in time.
    RequestTimedOut,
    /// A declaration with a signature that does not verify.
    InvalidSignature,
    /// A collator reported by another subsystem.
    ReportBad,
    /// A collation for another para than the one requested.
    WrongPara,
    /// A collator for a para we are not assigned to.
    UnneededCollator,
    /// A collator noted good by another subsystem.
    NotifyGood,
}

/// How heavily a reputation change weighs.
#[derive(Clone, Copy, Debug, PartialEq, Eq)]
pub enum RepKind {
    CostMinor,
    Malicious,
    BenefitMinor,
}

impl Rep {
    pub open spec fn spec_kind(self) -> RepKind {
        match self {
            Rep::InvalidSignature | Rep::ReportBad | Rep::WrongPara => RepKind::Malicious,
            Rep::NotifyGood => RepKind::BenefitMinor,
            _ => RepKind::CostMinor,
        }
    }

    pub fn kind(&self) -> (r: RepKind)
        ensures
            r == self.spec_kind(),
    {
        match self {
            Rep::InvalidSignature | Rep::ReportBad | Rep::WrongPara => RepKind::Malicious,
            Rep::NotifyGood => RepKind::BenefitMinor,
            _ => RepKind::CostMinor,
        }
    }
}

/// A collator and the collation fetched, or to be fetched, from it.
pub type CollationEvent = (CollatorId, PendingCollation);

/// Something to be done in the world outside.
#[derive(Clone, Copy, Debug, PartialEq, Eq)]
pub enum Action {
    /// Change the reputation of a peer.
    ReportPeer(PeerId, Rep),
    /// Disconnect a peer from the collation peer set.
    DisconnectPeer(PeerId),
    /// Request the collation from its peer; the outcome is handed back with the collator.
    RequestCollation(CollatorId, PendingCollation),
    /// Abandon the request in flight.
    CancelRequest(PendingCollation),
    /// Hand the collation that the request fetched to whoever waits for it.
    ForwardCollation(PendingCollation),
    /// Tell the peer that its collation on the relay parent was seconded.
    NotifyCollationSeconded(PeerId, BlockHash),
    /// Ask candidate backing to second the candidate fetched for the collation.
    SecondCandidate(PendingCollation),
}

/// All state of the validator side.
pub struct State {
    view: RelayView,
    active_paras: ActiveParas,
    peer_data: PeerRegistry,
    requested_collations: FetchPool,
    pending_candidates: HashMap<BlockHash, CollationEvent>,
}

/// A report of the peer holding `id` with `rep`; nothing if no connected peer holds it.
pub open spec fn holder_report(peers: PeerRegistry, id: CollatorId, rep: Rep) -> Seq<Action> {
    if peers.id_taken(id) {
        seq![Action::ReportPeer(peers.holder(id), rep)]
    } else {
        seq![]
    }
}

/// The reputation change that a failed request costs, if the request failed.
pub open spec fn response_report(pc: PendingCollation, response: FetchResponse) -> Action {
    match response {
        FetchResponse::InvalidResponse => Action::ReportPeer(pc.peer_id, Rep::CorruptedMessage),
        FetchResponse::NetworkError => Action::ReportPeer(pc.peer_id, Rep::NetworkError),
        FetchResponse::Canceled => Action::ReportPeer(pc.peer_id, Rep::RequestTimedOut),
        FetchResponse::Collation { para_id } => if para_id != pc.para_id {
            Action::ReportPeer(pc.peer_id, Rep::WrongPara)
        } else {
            Action::ForwardCollation(pc)
        },
    }
}

impl State {
    pub closed spec fn our_view(&self) -> RelayView {
        self.view
    }

    pub closed spec fn paras(&self) -> ActiveParas {
        self.active_paras
    }

    pub closed spec fn peers(&self) -> PeerRegistry {
        self.peer_data
    }

    pub closed spec fn pool(&self) -> FetchPool {
        self.requested_collations
    }

    /// The candidates handed to backing, by relay parent.
    pub closed spec fn pending(&self) -> Map<BlockHash, CollationEvent> {
        self.pending_candidates@
    }

    /// The state's invariant: its parts are well formed; at most one candidate per relay parent
    /// is with backing; and requests, candidates, assignments and advertisements all concern
    /// relay parents in our view.
    pub open spec fn wf(&self) -> bool {
        &&& self.peers().wf()
        &&& self.paras().wf()
        &&& self.pool().wf()
        &&& forall|pc: PendingCollation| #[trigger] self.pool().has(pc) ==> self.our_view().has(pc.relay_parent)
        &&& forall|h: BlockHash| #[trigger] self.pending().contains_key(h) ==> {
            &&& self.our_view().has(h)
            &&& self.pending()[h].1.relay_parent == h
            &&& self.pending()[h].1.commitments_hash is Some
        }
        &&& forall|h: BlockHash| #[trigger] self.paras().by_relay_parent().contains_key(h) ==> self.our_view().has(h)
        &&& forall|p: PeerId, h: BlockHash| self.peers().has(p) && #[trigger] self.peers().get(p).advertised(h)
            ==> self.our_view().has(h)
    }

    /// A state with an empty view and no peers.
    pub fn new() -> (r: State)
        ensures
            r.wf(),
            r.our_view().heads@.len() == 0,
            forall|p: PeerId| !r.peers().has(p),
            forall|pc: PendingCollation| !r.pool().has(pc),
            r.pending() == Map::<BlockHash, CollationEvent>::empty(),
            r.paras().by_relay_parent() == Map::<BlockHash, crate::assignments::GroupAssignments>::empty(),
    {
        let r = State {
            view: RelayView::empty(),
            active_paras: ActiveParas::new(),
            peer_data: PeerRegistry::new(),
            requested_collations: FetchPool::new(),
            pending_candidates: HashMap::new(),
        };
        proof {
            assert(r.pending() =~= Map::<BlockHash, CollationEvent>::empty());
        }
        r
    }

    /// The number of connected peers.
    pub fn peer_count(&self) -> (r: usize)
        ensures
            r == self.peers().entries().len(),
    {
        self.peer_data.len()
    }

    /// Whether `h` is in our view.
    pub fn in_our_view(&self, h: BlockHash) -> (r: bool)
        ensures
            r == self.our_view().has(h),
    {
        self.view.contains(h)
    }

    /// The heads of `view` that are not in our view, each once: the relay parents whose
    /// scheduling the runtime is to be asked about before `view` becomes ours.
    pub fn added_relay_parents(&self, view: &RelayView) -> (r: Vec<BlockHash>)
        ensures
            r@.no_duplicates(),
            forall|h: BlockHash| r@.contains(h) <==> (view.has(h) && !self.our_view().has(h)),
    {
        view.difference(&self.view)
    }

    /// Registers a newly connected peer.
    pub fn handle_peer_connected(&mut self, peer: PeerId, identity: Vec<u8>, now: Instant)
        requires
            old(self).wf(),
        ensures
            final(self).wf(),
            connected_effect(*old(self), *final(self), peer, identity, now),
    {
        self.peer_data.connect(peer, identity, now);
    }

    /// Forgets a disconnected peer.
    pub fn handle_peer_disconnected(&mut self, peer: PeerId)
        requires
            old(self).wf(),
        ensures
            final(self).wf(),
            disconnected_effect(*old(self), *final(self), peer),
    {
        self.peer_data.disconnect(peer);
    }

    /// Another subsystem reports the collator `id` as bad.
    pub fn report_collator(&self, id: &CollatorId) -> (r: Vec<Action>)
        requires
            self.wf(),
        ensures
            r@ == holder_report(self.peers(), *id, Rep::ReportBad),
    {
        self.report_holder(id, Rep::ReportBad)
    }

    /// Another subsystem notes the collator `id` as good.
    pub fn note_good_collation(&self, id: &CollatorId) -> (r: Vec<Action>)
        requires
            self.wf(),
        ensures
            r@ == holder_report(self.peers(), *id, Rep::NotifyGood),
    {
        self.report_holder(id, Rep::NotifyGood)
    }

    fn report_holder(&self, id: &CollatorId, rep: Rep) -> (r: Vec<Action>)
        requires
            self.wf(),
        ensures
            r@ == holder_report(self.peers(), *id, rep),
    {
        let mut out: Vec<Action> = Vec::new();
        match self.peer_data.find_peer_by_collator(id) {
            None => {},
            Some(q) => {
                proof { self.peer_data.lemma_holder_unique(q, *id); }
                out.push(Action::ReportPeer(q, rep));
            },
        }
        proof {
            assert(out@ =~= holder_report(self.peers(), *id, rep));
        }
        out
    }

    /// Backing seconded the candidate on `parent`: the peer that provided it is noted good,
    /// once, and told so.
    pub fn handle_seconded(&mut self, parent: BlockHash) -> (r: Vec<Action>)
        requires
            old(self).wf(),
        ensures
            final(self).wf(),
            seconded_effect(*old(self), *final(self), parent, r@),
    {
        if !self.pending_candidates.contains_key(&parent) {
            return Vec::new();
        }
        match self.pending_candidates.remove(&parent) {
            None => Vec::new(),
            Some((_, pc)) => {
                let mut out: Vec<Action> = Vec::new();
                out.push(Action::ReportPeer(pc.peer_id, Rep::NotifyGood));
                out.push(Action::NotifyCollationSeconded(pc.peer_id, pc.relay_parent));
                proof {
                    assert(out@ =~= seq![
                        Action::ReportPeer(pc.peer_id, Rep::NotifyGood),
                        Action::NotifyCollationSeconded(pc.peer_id, pc.relay_parent),
                    ]);
                }
                out
            },
        }
    }

    /// Backing found the candidate on `parent` with the given commitments invalid: if that is
    /// the candidate with backing, its collator is reported.
    pub fn handle_invalid(&mut self, parent: BlockHash, commitments_hash: BlockHash) -> (r: Vec<Action>)
        requires
            old(self).wf(),
        ensures
            final(self).wf(),
            invalid_effect(*old(self), *final(self), parent, commitments_hash, r@),
    {
        let matches = match self.pending_candidates.get(&parent) {
            None => false,
            Some(event) => event.1.commitments_hash == Some(commitments_hash),
        };
        if !matches {
            return Vec::new();
        }
        match self.pending_candidates.remove(&parent) {
            None => Vec::new(),
            Some((collator_id, _)) => self.report_collator(&collator_id),
        }
    }

    /// A response to the request `pc` arrived, or the request failed: a failure costs the peer
    /// reputation, a collation of the right para is handed on. Either way the request is done.
    pub fn handle_collation_response(&mut self, pc: &PendingCollation, response: FetchResponse) -> (r: Vec<Action>)
        requires
            old(self).wf(),
        ensures
            final(self).wf(),
            response_effect(*old(self), *final(self), *pc, response, r@),
    {
        if !self.requested_collations.remove(pc) {
            return Vec::new();
        }
        let action = match response {
            FetchResponse::InvalidResponse => Action::ReportPeer(pc.peer_id, Rep::CorruptedMessage),
            FetchResponse::NetworkError => Action::ReportPeer(pc.peer_id, Rep::NetworkError),
            FetchResponse::Canceled => Action::ReportPeer(pc.peer_id, Rep::RequestTimedOut),
            FetchResponse::Collation { para_id } => {
                if para_id != pc.para_id {
                    Action::ReportPeer(pc.peer_id, Rep::WrongPara)
                } else {
                    Action::ForwardCollation(*pc)
                }
            },
        };
        let mut out: Vec<Action> = Vec::new();
        out.push(action);
        proof { assert(out@ =~= seq![response_report(*pc, response)]); }
        out
    }

    /// The collation of `event` was fetched, with a candidate of the given commitments, or its
    /// request ended without one (`None`). The first candidate fetched on a relay parent in
    /// our view goes to backing; later ones on the same relay parent are dropped.
    pub fn handle_fetched_collation(&mut self, event: CollationEvent, commitments_hash: Option<BlockHash>)
        -> (r: Vec<Action>)
        requires
            old(self).wf(),
        ensures
            final(self).wf(),
            fetched_effect(*old(self), *final(self), event, commitments_hash, r@),
    {
        let h = match commitments_hash {
            None => { return Vec::new(); },
            Some(h) => h,
        };
        let (collator_id, pc) = event;
        let relay_parent = pc.relay_parent;
        if self.pending_candidates.contains_key(&relay_parent) || !self.view.contains(relay_parent) {
            return Vec::new();
        }
        let seconded = PendingCollation {
            relay_parent: pc.relay_parent,
            para_id: pc.para_id,
            peer_id: pc.peer_id,
            commitments_hash: Some(h),
        };
        self.pending_candidates.insert(relay_parent, (collator_id, seconded));
        let mut out: Vec<Action> = Vec::new();
        out.push(Action::SecondCandidate(seconded));
        proof { assert(out@ =~= seq![Action::SecondCandidate(seconded)]); }
        out
    }

    /// A peer declares itself a collator for `para_id` under the key `collator_id`. It becomes
    /// one if the declaration is sound and we are assigned to the para; for a para we are not
    /// assigned to it is disconnected.
    pub fn handle_declare(&mut self, origin: PeerId, collator_id: CollatorId, para_id: ParaId,
        signature: &CollatorSignature, now: Instant) -> (r: Vec<Action>)
        requires
            old(self).wf(),
        ensures
            final(self).wf(),
            declared_effect(*old(self), *final(self), origin, collator_id, para_id, *signature, now, r@),
    {
        let mut out: Vec<Action> = Vec::new();
        match self.peer_data.check_declare(origin, &collator_id, signature) {
            Err(DeclareError::InvalidSignature) => {
                out.push(Action::ReportPeer(origin, Rep::InvalidSignature));
            },
            Err(_) => {
                out.push(Action::ReportPeer(origin, Rep::UnexpectedMessage));
            },
            Ok(()) => {
                if self.active_paras.is_current_or_next(para_id) {
                    self.peer_data.set_collating(origin, collator_id, para_id, now);
                } else {
                    out.push(Action::ReportPeer(origin, Rep::UnneededCollator));
                    out.push(Action::DisconnectPeer(origin));
                }
            },
        }
        proof {
            let res = declare_result(old(self).peers(), origin, collator_id, *signature);
            if res is Ok && !old(self).paras().of_interest(para_id) {
                assert(out@ =~= seq![Action::ReportPeer(origin, Rep::UnneededCollator), Action::DisconnectPeer(origin)]);
            } else if res == Err::<(), DeclareError>(DeclareError::InvalidSignature) {
                assert(out@ =~= seq![Action::ReportPeer(origin, Rep::InvalidSignature)]);
            } else if res is Err {
                assert(out@ =~= seq![Action::ReportPeer(origin, Rep::UnexpectedMessage)]);
            }
        }
        out
    }

    /// A peer advertises a collation on `relay_parent`. An advertisement that is accepted makes
    /// the peer active and, unless it is in flight already, has the collation requested.
    pub fn handle_advertisement(&mut self, origin: PeerId, relay_parent: BlockHash, now: Instant) -> (r: Vec<Action>)
        requires
            old(self).wf(),
        ensures
            final(self).wf(),
            advertised_effect(*old(self), *final(self), origin, relay_parent, now, r@),
    {
        if !self.view.contains(relay_parent) {
            let mut out: Vec<Action> = Vec::new();
            out.push(Action::ReportPeer(origin, Rep::UnexpectedMessage));
            proof { assert(out@ =~= seq![Action::ReportPeer(origin, Rep::UnexpectedMessage)]); }
            return out;
        }
        match self.peer_data.insert_advertisement(origin, relay_parent, &self.view, now) {
            Err(_) => {
                let mut out: Vec<Action> = Vec::new();
                out.push(Action::ReportPeer(origin, Rep::UnexpectedMessage));
                proof {
                    assert(out@ =~= seq![Action::ReportPeer(origin, Rep::UnexpectedMessage)]);
                }
                out
            },
            Ok((collator_id, para_id)) => {
                let ghost mid = *self;
                proof {
                    let before = old(self).peers().get(origin).adverts();
                    assert(self.peers().get(origin).adverts() == before.push(relay_parent));
                    assert(before.push(relay_parent)[before.len() as int] == relay_parent);
                    assert(self.peers().get(origin).advertised(relay_parent));
                    assert forall|p: PeerId, h: BlockHash| self.peers().has(p) && #[trigger] self.peers().get(p).advertised(h)
                        implies self.our_view().has(h) by {
                        if p != origin {
                            assert(old(self).peers().has(p));
                            assert(old(self).peers().get(p) == self.peers().get(p));
                            assert(old(self).peers().get(p).advertised(h));
                        } else if h != relay_parent {
                            let k = choose|k: int| 0 <= k < before.push(relay_parent).len()
                                && before.push(relay_parent)[k] == h;
                            assert(before[k] == h);
                            assert(old(self).peers().get(p).advertised(h));
                        }
                    }
                }
                let pc = PendingCollation::new(relay_parent, para_id, origin);
                self.fetch_collation(pc, collator_id)
            },
        }
    }

    /// Requests the collation `pc` from its peer if the peer advertised it.
    pub fn fetch_collation(&mut self, pc: PendingCollation, collator_id: CollatorId) -> (r: Vec<Action>)
        requires
            old(self).wf(),
        ensures
            final(self).wf(),
            if old(self).peers().has(pc.peer_id) && old(self).peers().get(pc.peer_id).advertised(pc.relay_parent) {
                request_effect(*old(self), *final(self), pc.relay_parent, pc.para_id, pc.peer_id, collator_id, r@)
            } else {
                *final(self) == *old(self) && r@.len() == 0
            },
    {
        if self.peer_data.has_advertised(pc.peer_id, pc.relay_parent) {
            self.request_collation(pc.relay_parent, pc.para_id, pc.peer_id, collator_id)
        } else {
            Vec::new()
        }
    }

    /// Requests the collation of `para_id` on `relay_parent` from `peer_id`, unless the relay
    /// parent left our view or the same request is in flight.
    pub fn request_collation(&mut self, relay_parent: BlockHash, para_id: ParaId, peer_id: PeerId,
        collator_id: CollatorId) -> (r: Vec<Action>)
        requires
            old(self).wf(),
        ensures
            final(self).wf(),
            request_effect(*old(self), *final(self), relay_parent, para_id, peer_id, collator_id, r@),
    {
        let mut out: Vec<Action> = Vec::new();
        if !self.view.contains(relay_parent) {
            return out;
        }
        if self.requested_collations.enqueue(relay_parent, para_id, peer_id) {
            let pc = PendingCollation::new(relay_parent, para_id, peer_id);
            out.push(Action::RequestCollation(collator_id, pc));
            proof { assert(out@ =~= seq![Action::RequestCollation(collator_id, pc)]); }
        } else {
            proof { assert(self.pool().entries() =~= old(self).pool().entries()); }
        }
        out
    }

    /// A peer announced a new view: advertisements of relay parents not in it go, and with
    /// them the requests for collations that the peer no longer advertises.
    pub fn handle_peer_view_change(&mut self, peer: PeerId, view: RelayView, now: Instant) -> (r: Vec<Action>)
        requires
            old(self).wf(),
        ensures
            final(self).wf(),
            peer_view_effect(*old(self), *final(self), peer, view, now, r@),
    {
        let ghost v = view;
        self.peer_data.update_peer_view(peer, view, now);
        proof {
            assert forall|p: PeerId, h: BlockHash| self.peers().has(p) && #[trigger] self.peers().get(p).advertised(h)
                implies self.our_view().has(h) by {
                if p != peer {
                    assert(old(self).peers().has(p));
                    assert(old(self).peers().get(p) == self.peers().get(p));
                    assert(old(self).peers().get(p).advertised(h));
                } else if old(self).peers().has(peer) {
                    assert(old(self).peers().get(peer).advertised(h));
                } else {
                    assert(self.peers().get(peer).adverts() =~= Seq::<BlockHash>::empty());
                }
            }
        }
        let reqs = self.requested_collations.requests_to(peer);
        let ghost mid = *self;
        let mut out: Vec<Action> = Vec::new();
        let mut i: usize = 0;
        while i < reqs.len()
            invariant
                0 <= i <= reqs@.len(),
                self.wf(),
                reqs@.no_duplicates(),
                forall|pc: PendingCollation| #[trigger] reqs@.contains(pc) <==> (mid.pool().has(pc) && pc.peer_id == peer),
                self.our_view() == mid.our_view(),
                self.paras() == mid.paras(),
                self.peers() == mid.peers(),
                mid.peers().has(peer),
                self.pending() == mid.pending(),
                forall|j: int| 0 <= j < out@.len() ==> out@[j] is CancelRequest,
                forall|pc: PendingCollation| #[trigger] self.pool().has(pc) <==> (mid.pool().has(pc)
                    && !(reqs@.subrange(0, i as int).contains(pc) && !mid.peers().get(peer).advertised(pc.relay_parent))),
                forall|pc: PendingCollation| #[trigger] out@.contains(Action::CancelRequest(pc)) <==> (
                    reqs@.subrange(0, i as int).contains(pc) && !mid.peers().get(peer).advertised(pc.relay_parent)),
            decreases reqs@.len() - i,
        {
            let pc = reqs[i];
            let ghost prev = out@;
            proof {
                assert forall|x: PendingCollation| #[trigger] reqs@.subrange(0, i as int + 1).contains(x)
                    <==> (reqs@.subrange(0, i as int).contains(x) || x == pc) by {
                    let t = reqs@.subrange(0, i as int + 1);
                    let u = reqs@.subrange(0, i as int);
                    if t.contains(x) {
                        let k = choose|k: int| 0 <= k < t.len() && t[k] == x;
                        if k < i { assert(u[k] == x); }
                    }
                    if u.contains(x) {
                        let k = choose|k: int| 0 <= k < u.len() && u[k] == x;
                        assert(t[k] == x);
                    }
                    if x == pc { assert(t[i as int] == x); }
                }
            }
            let ghost pool_before = self.pool();
            let advertised = self.peer_data.has_advertised(peer, pc.relay_parent);
            if !advertised {
                self.requested_collations.remove(&pc);
                out.push(Action::CancelRequest(pc));
                proof {
                    assert forall|x: PendingCollation| #[trigger] out@.contains(Action::CancelRequest(x))
                        <==> (prev.contains(Action::CancelRequest(x)) || x == pc) by {
                        if out@.contains(Action::CancelRequest(x)) && x != pc {
                            let k = choose|k: int| 0 <= k < out@.len() && out@[k] == Action::CancelRequest(x);
                            assert(prev[k] == Action::CancelRequest(x));
                        }
                        if prev.contains(Action::CancelRequest(x)) {
                            let k = choose|k: int| 0 <= k < prev.len() && prev[k] == Action::CancelRequest(x);
                            assert(out@[k] == Action::CancelRequest(x));
                        }
                        if x == pc {
                            assert(out@[prev.len() as int] == Action::CancelRequest(x));
                        }
                    }
                }
            }
            proof {
                assert(reqs@.contains(pc)) by { assert(reqs@[i as int] == pc); }
                assert forall|x: PendingCollation| #[trigger] self.pool().has(x) <==> (mid.pool().has(x)
                    && !(reqs@.subrange(0, i as int + 1).contains(x) && !mid.peers().get(peer).advertised(x.relay_parent))) by {
                    assert(pool_before.has(x) <==> (mid.pool().has(x)
                        && !(reqs@.subrange(0, i as int).contains(x) && !mid.peers().get(peer).advertised(x.relay_parent))));
                }
                assert forall|x: PendingCollation| #[trigger] out@.contains(Action::CancelRequest(x)) <==> (
                    reqs@.subrange(0, i as int + 1).contains(x) && !mid.peers().get(peer).advertised(x.relay_parent)) by {
                    assert(prev.contains(Action::CancelRequest(x)) <==> (
                        reqs@.subrange(0, i as int).contains(x) && !mid.peers().get(peer).advertised(x.relay_parent)));
                }
            }
            i += 1;
        }
        proof {
            assert(reqs@.subrange(0, reqs@.len() as int) =~= reqs@);
        }
        out
    }

    /// A message from a peer on the collation protocol.
    pub fn process_incoming_peer_message(&mut self, origin: PeerId, msg: WireMessage, now: Instant) -> (r: Vec<Action>)
        requires
            old(self).wf(),
        ensures
            final(self).wf(),
            peer_message_effect(*old(self), *final(self), origin, msg, now, r@),
    {
        match msg {
            WireMessage::Declare(collator_id, para_id, signature) =>
                self.handle_declare(origin, collator_id, para_id, &signature, now),
            WireMessage::AdvertiseCollation(relay_parent) => self.handle_advertisement(origin, relay_parent, now),
            WireMessage::CollationSeconded(_) => Vec::new(),
        }
    }

    /// An event of the network bridge.
    pub fn handle_network_msg(&mut self, event: NetworkEvent, now: Instant) -> (r: Vec<Action>)
        requires
            old(self).wf(),
        ensures
            final(self).wf(),
            network_effect(*old(self), *final(self), event, now, r@),
    {
        match event {
            NetworkEvent::PeerConnected(peer, identity) => {
                self.handle_peer_connected(peer, identity, now);
                Vec::new()
            },
            NetworkEvent::PeerDisconnected(peer) => {
                self.handle_peer_disconnected(peer);
                Vec::new()
            },
            NetworkEvent::PeerViewChange(peer, view) => self.handle_peer_view_change(peer, view, now),
            NetworkEvent::OurViewChange(view, infos) => self.handle_our_view_change(view, &infos),
            NetworkEvent::PeerMessage(origin, msg) => self.process_incoming_peer_message(origin, msg, now),
        }
    }

    /// A message to this subsystem. Messages meant for the collator side are ignored.
    pub fn process_msg(&mut self, msg: CollatorProtocolMessage, now: Instant) -> (r: Vec<Action>)
        requires
            old(self).wf(),
        ensures
            final(self).wf(),
            msg_effect(*old(self), *final(self), msg, now, r@),
    {
        match msg {
            CollatorProtocolMessage::CollateOn(_) => Vec::new(),
            CollatorProtocolMessage::DistributeCollation => Vec::new(),
            CollatorProtocolMessage::CollationFetchingRequest => Vec::new(),
            CollatorProtocolMessage::ReportCollator(id) => self.report_collator(&id),
            CollatorProtocolMessage::NoteGoodCollator(id) => self.note_good_collation(&id),
            CollatorProtocolMessage::NetworkBridgeUpdate(event) => self.handle_network_msg(event, now),
            CollatorProtocolMessage::Seconded(parent) => self.handle_seconded(parent),
            CollatorProtocolMessage::Invalid(parent, commitments_hash) => self.handle_invalid(parent, commitments_hash),
        }
    }

    /// Drops everything on `relay_parent`: its requests in flight, which are returned, each
    /// once, and its candidate with backing.
    pub fn remove_relay_parent(&mut self, relay_parent: BlockHash) -> (r: Vec<PendingCollation>)
        requires
            old(self).pool().wf(),
        ensures
            final(self).pool().wf(),
            r@.no_duplicates(),
            forall|pc: PendingCollation| #[trigger] r@.contains(pc)
                <==> (old(self).pool().has(pc) && pc.relay_parent == relay_parent),
            forall|pc: PendingCollation| #[trigger] final(self).pool().has(pc)
                <==> (old(self).pool().has(pc) && pc.relay_parent != relay_parent),
            final(self).pending() == old(self).pending().remove(relay_parent),
            final(self).our_view() == old(self).our_view(),
            final(self).peers() == old(self).peers(),
            final(self).paras() == old(self).paras(),
    {
        let dropped = self.requested_collations.drop_relay_parent(relay_parent);
        self.pending_candidates.remove(&relay_parent);
        dropped
    }

    /// Our view changed to `view`; `infos` holds what the runtime told about the relay parents
    /// new in it. Everything on relay parents that left the view goes: requests, candidates,
    /// assignments and advertisements. We follow our assignments at the new relay parents, and
    /// collators for paras we are no longer assigned to are disconnected.
    pub fn handle_our_view_change(&mut self, view: RelayView, infos: &Vec<SchedulingInfo>) -> (r: Vec<Action>)
        requires
            old(self).wf(),
        ensures
            final(self).wf(),
            our_view_effect(*old(self), *final(self), view, infos@, r@),
    {
        let mut old_view = view;
        std::mem::swap(&mut self.view, &mut old_view);
        let added = self.view.difference(&old_view);
        let removed = old_view.difference(&self.view);
        let ghost pre = *old(self);
        let mut out: Vec<Action> = Vec::new();
        let mut i: usize = 0;
        while i < removed.len()
            invariant
                0 <= i <= removed@.len(),
                forall|h: BlockHash| removed@.contains(h) <==> (old_view.has(h) && !view.has(h)),
                forall|h: BlockHash| added@.contains(h) <==> (view.has(h) && !old_view.has(h)),
                self.view == view,
                pre.wf(),
                old_view == pre.our_view(),
                self.pool().wf(),
                self.peers() == pre.peers(),
                self.paras() == pre.paras(),
                forall|pc: PendingCollation| #[trigger] self.pool().has(pc)
                    <==> (pre.pool().has(pc) && !removed@.subrange(0, i as int).contains(pc.relay_parent)),
                forall|h: BlockHash| #[trigger] self.pending().contains_key(h)
                    <==> (pre.pending().contains_key(h) && !removed@.subrange(0, i as int).contains(h)),
                forall|h: BlockHash| #[trigger] self.pending().contains_key(h) ==> self.pending()[h] == pre.pending()[h],
                forall|j: int| 0 <= j < out@.len() ==> out@[j] is CancelRequest,
                forall|j: int| 0 <= j < out@.len()
                    ==> removed@.subrange(0, i as int).contains((#[trigger] out@[j])->CancelRequest_0.relay_parent),
                out@.no_duplicates(),
                removed@.no_duplicates(),
                forall|pc: PendingCollation| #[trigger] out@.contains(Action::CancelRequest(pc))
                    <==> (pre.pool().has(pc) && removed@.subrange(0, i as int).contains(pc.relay_parent)),
            decreases removed@.len() - i,
        {
            let h = removed[i];
            let ghost head_pending = self.pending();
            proof {
                assert(forall|x: BlockHash| #[trigger] head_pending.contains_key(x)
                    <==> (pre.pending().contains_key(x) && !removed@.subrange(0, i as int).contains(x)));
                assert forall|x: BlockHash| #[trigger] removed@.subrange(0, i as int + 1).contains(x)
                    <==> (removed@.subrange(0, i as int).contains(x) || x == h) by {
                    let t = removed@.subrange(0, i as int + 1);
                    let u = removed@.subrange(0, i as int);
                    if t.contains(x) {
                        let k = choose|k: int| 0 <= k < t.len() && t[k] == x;
                        if k < i { assert(u[k] == x); }
                    }
                    if u.contains(x) {
                        let k = choose|k: int| 0 <= k < u.len() && u[k] == x;
                        assert(t[k] == x);
                    }
                    if x == h { assert(t[i as int] == x); }
                }
            }
            let ghost prev = out@;
            let ghost pend_before = self.pending();
            let dropped = self.remove_relay_parent(h);
            proof {
                assert(!removed@.subrange(0, i as int).contains(h)) by {
                    if removed@.subrange(0, i as int).contains(h) {
                        let k = choose|k: int| 0 <= k < i && removed@.subrange(0, i as int)[k] == h;
                        assert(removed@[k] == removed@[i as int]);
                    }
                }
                assert forall|pc: PendingCollation| #[trigger] dropped@.contains(pc)
                    implies !prev.contains(Action::CancelRequest(pc)) by {
                    if prev.contains(Action::CancelRequest(pc)) {
                        let j = choose|j: int| 0 <= j < prev.len() && prev[j] == Action::CancelRequest(pc);
                        assert(removed@.subrange(0, i as int).contains(prev[j]->CancelRequest_0.relay_parent));
                    }
                }
            }
            push_cancels(&mut out, &dropped);
            proof {
                assert forall|j: int| 0 <= j < out@.len() implies out@[j] is CancelRequest
                    && removed@.subrange(0, i as int + 1).contains((#[trigger] out@[j])->CancelRequest_0.relay_parent) by {
                    if j < prev.len() {
                        assert(out@[j] == prev[j]);
                        assert(removed@.subrange(0, i as int).contains(prev[j]->CancelRequest_0.relay_parent));
                    } else {
                        let pc = dropped@[j - prev.len()];
                        assert(dropped@.contains(pc));
                    }
                }
            }
            proof {
                assert(pend_before == head_pending);
                assert forall|x: BlockHash| #[trigger] self.pending().contains_key(x)
                    <==> (pre.pending().contains_key(x) && !removed@.subrange(0, i as int + 1).contains(x)) by {
                    assert(pend_before.contains_key(x) <==> (pre.pending().contains_key(x)
                        && !removed@.subrange(0, i as int).contains(x)));
                }
                assert forall|x: BlockHash| #[trigger] self.pending().contains_key(x)
                    implies self.pending()[x] == pre.pending()[x] by {
                    assert(pend_before.contains_key(x));
                    assert(self.pending()[x] == pend_before[x]);
                }
            }
            i += 1;
        }
        proof {
            assert(removed@.subrange(0, removed@.len() as int) =~= removed@);
        }
        let ghost pending_after = self.pending();
        let ghost pool_after = self.pool();
        proof {
            assert forall|h: BlockHash| #[trigger] pending_after.contains_key(h) implies view.has(h) && pending_after[h] == pre.pending()[h] by {
                assert(pre.pending().contains_key(h));
                assert(pre.our_view().has(h));
            }
        }
        let ghost paras_before = self.active_paras.by_relay_parent();
        self.active_paras.assign_incoming(&added, infos);
        let ghost paras_mid = self.active_paras.by_relay_parent();
        self.active_paras.remove_outgoing(&removed);
        proof {
            lemma_assigned_after(paras_before, added@, infos@);
            let paras_after = self.active_paras.by_relay_parent();
            assert forall|h: BlockHash| #[trigger] paras_after.contains_key(h)
                <==> (paras_mid.contains_key(h) && !removed@.contains(h)) by {
                assert(removed@.to_set().contains(h) <==> removed@.contains(h));
            }
            assert forall|h: BlockHash| #[trigger] paras_after.contains_key(h) implies paras_after[h] == paras_mid[h] by {
                assert(removed@.to_set().contains(h) <==> removed@.contains(h));
            }
        }
        self.peer_data.prune_old_advertisements(&self.view);
        let collators = self.peer_data.collators();
        let ghost cancels = out@;
        let ghost snap = *self;
        proof {
            assert forall|pc: PendingCollation| #[trigger] cancels.contains(Action::CancelRequest(pc))
                <==> (pre.pool().has(pc) && removed@.contains(pc.relay_parent)) by {}
        }
        let mut c: usize = 0;
        while c < collators.len()
            invariant
                0 <= c <= collators@.len(),
                *self == snap,
                pre.wf(),
                self.active_paras.wf(),
                out@.len() >= cancels.len(),
                forall|j: int| 0 <= j < cancels.len() ==> out@[j] == cancels[j],
                forall|j: int| 0 <= j < cancels.len() ==> cancels[j] is CancelRequest,
                forall|j: int| cancels.len() <= j < out@.len() ==> out@[j] is DisconnectPeer,
                out@.no_duplicates(),
                forall|a: int, b: int| 0 <= a < collators@.len() && 0 <= b < collators@.len() && a != b
                    ==> collators@[a].0 != collators@[b].0,
                forall|q: PeerId| #[trigger] out@.contains(Action::DisconnectPeer(q))
                    <==> exists|j: int| 0 <= j < c && collators@[j].0 == q
                        && !self.active_paras.of_interest(collators@[j].1),
            decreases collators@.len() - c,
        {
            let (q, para) = collators[c];
            let ghost prev = out@;
            if !self.active_paras.is_current_or_next(para) {
                proof {
                    assert(!prev.contains(Action::DisconnectPeer(q))) by {
                        if prev.contains(Action::DisconnectPeer(q)) {
                            let j = choose|j: int| 0 <= j < c && collators@[j].0 == q
                                && !self.active_paras.of_interest(collators@[j].1);
                            assert(j != c);
                        }
                    }
                }
                out.push(Action::DisconnectPeer(q));
            }
            proof {
                assert forall|x: PeerId| #[trigger] out@.contains(Action::DisconnectPeer(x))
                    <==> exists|j: int| 0 <= j < c + 1 && collators@[j].0 == x
                        && !self.active_paras.of_interest(collators@[j].1) by {
                    if out@.contains(Action::DisconnectPeer(x)) {
                        let j = choose|j: int| 0 <= j < out@.len() && out@[j] == Action::DisconnectPeer(x);
                        if j < prev.len() {
                            assert(prev.contains(Action::DisconnectPeer(x)));
                        } else {
                            assert(collators@[c as int].0 == x);
                        }
                    }
                    if exists|j: int| 0 <= j < c + 1 && collators@[j].0 == x
                        && !self.active_paras.of_interest(collators@[j].1) {
                        let j = choose|j: int| 0 <= j < c + 1 && collators@[j].0 == x
                            && !self.active_paras.of_interest(collators@[j].1);
                        if j < c {
                            assert(prev.contains(Action::DisconnectPeer(x)));
                            let k = choose|k: int| 0 <= k < prev.len() && prev[k] == Action::DisconnectPeer(x);
                            assert(out@[k] == Action::DisconnectPeer(x));
                        } else {
                            assert(out@[out@.len() - 1] == Action::DisconnectPeer(x));
                        }
                    }
                }
            }
            c += 1;
        }
        proof {
            let post = *self;
            assert(post.pending() == pending_after);
            assert(post.pool() == pool_after);
            assert forall|j: int| 0 <= j < out@.len() implies (out@[j] is CancelRequest || out@[j] is DisconnectPeer) by {
                if j < cancels.len() {
                    assert(out@[j] == cancels[j]);
                }
            }
            assert forall|pc: PendingCollation| #[trigger] out@.contains(Action::CancelRequest(pc))
                <==> (pre.pool().has(pc) && !view.has(pc.relay_parent)) by {
                if out@.contains(Action::CancelRequest(pc)) {
                    let j = choose|j: int| 0 <= j < out@.len() && out@[j] == Action::CancelRequest(pc);
                    assert(j < cancels.len());
                    assert(cancels[j] == Action::CancelRequest(pc));
                    assert(cancels.contains(Action::CancelRequest(pc)));
                }
                if pre.pool().has(pc) && !view.has(pc.relay_parent) {
                    assert(pre.our_view().has(pc.relay_parent));
                    assert(removed@.contains(pc.relay_parent));
                    assert(cancels.contains(Action::CancelRequest(pc)));
                    let j = choose|j: int| 0 <= j < cancels.len() && cancels[j] == Action::CancelRequest(pc);
                    assert(out@[j] == Action::CancelRequest(pc));
                }
            }
            assert forall|q: PeerId| #[trigger] out@.contains(Action::DisconnectPeer(q))
                <==> (post.peers().has(q) && match post.peers().get(q).spec_collating_para() {
                    Some(para) => !post.paras().of_interest(para),
                    None => false,
                }) by {
                if out@.contains(Action::DisconnectPeer(q)) {
                    let j = choose|j: int| 0 <= j < c && collators@[j].0 == q
                        && !self.active_paras.of_interest(collators@[j].1);
                    assert(collators@.contains((q, collators@[j].1)));
                }
                if post.peers().has(q) && post.peers().get(q).spec_collating_para() is Some {
                    let para = post.peers().get(q).spec_collating_para().unwrap();
                    if !post.paras().of_interest(para) {
                        assert(collators@.contains((q, para)));
                        let j = choose|j: int| 0 <= j < collators@.len() && collators@[j] == (q, para);
                        assert(collators@[j].0 == q);
                    }
                }
            }
            assert forall|pc: PendingCollation| #[trigger] post.pool().has(pc) implies post.our_view().has(pc.relay_parent) by {
                assert(pre.our_view().has(pc.relay_parent));
            }
            assert forall|h: BlockHash| #[trigger] post.pending().contains_key(h) implies post.our_view().has(h) by {
                assert(pre.our_view().has(h));
            }
            assert forall|h: BlockHash| #[trigger] post.paras().by_relay_parent().contains_key(h) implies post.our_view().has(h) by {
                if paras_before.contains_key(h) {
                    assert(pre.our_view().has(h));
                    assert(!removed@.contains(h));
                } else {
                    assert(added@.contains(h));
                }
            }
            assert forall|h: BlockHash| #[trigger] post.paras().by_relay_parent().contains_key(h)
                <==> ((pre.paras().by_relay_parent().contains_key(h) && view.has(h))
                    || (view.has(h) && !pre.our_view().has(h) && answer_for(infos@, h) is Some)) by {
                if pre.paras().by_relay_parent().contains_key(h) {
                    assert(pre.our_view().has(h));
                }
            }
            assert forall|p: PeerId, h: BlockHash| post.peers().has(p) && #[trigger] post.peers().get(p).advertised(h)
                implies post.our_view().has(h) by {
                assert(pre.peers().has(p));
            }
        }
        out
    }

    /// Asks for the disconnection of every peer that has outstayed its grace period at `now`.
    pub fn disconnect_inactive_peers(&self, now: Instant, policy: &CollatorEvictionPolicy) -> (r: Vec<Action>)
        requires
            self.wf(),
        ensures
            sweep_actions(*self, now, *policy, r@),
    {
        let peers = self.peer_data.inactive_peers(now, policy);
        let mut out: Vec<Action> = Vec::new();
        let mut i: usize = 0;
        while i < peers.len()
            invariant
                0 <= i <= peers@.len(),
                out@.len() == i,
                forall|j: int| 0 <= j < i ==> out@[j] == Action::DisconnectPeer(peers@[j]),
            decreases peers@.len() - i,
        {
            out.push(Action::DisconnectPeer(peers[i]));
            i += 1;
        }
        proof {
            assert forall|a: int, b: int| 0 <= a < out@.len() && 0 <= b < out@.len() && a != b
                implies out@[a] != out@[b] by {
                assert(peers@[a] != peers@[b]);
            }
            assert forall|q: PeerId| #[trigger] out@.contains(Action::DisconnectPeer(q))
                <==> (self.peers().has(q) && self.peers().get(q).spec_is_inactive(now, *policy)) by {
                if out@.contains(Action::DisconnectPeer(q)) {
                    let k = choose|k: int| 0 <= k < out@.len() && out@[k] == Action::DisconnectPeer(q);
                    assert(peers@[k] == q);
                }
                if peers@.contains(q) {
                    let k = choose|k: int| 0 <= k < peers@.len() && peers@[k] == q;
                    assert(out@[k] == Action::DisconnectPeer(q));
                }
            }
        }
        out
    }
}

/// Appends a cancellation of each of `pcs` to `out`.
fn push_cancels(out: &mut Vec<Action>, pcs: &Vec<PendingCollation>)
    ensures
        final(out)@.len() == old(out)@.len() + pcs@.len(),
        forall|j: int| 0 <= j < old(out)@.len() ==> final(out)@[j] == old(out)@[j],
        forall|j: int| old(out)@.len() <= j < final(out)@.len()
            ==> final(out)@[j] == Action::CancelRequest(pcs@[j - old(out)@.len()]),
        forall|pc: PendingCollation| #[trigger] final(out)@.contains(Action::CancelRequest(pc))
            <==> (old(out)@.contains(Action::CancelRequest(pc)) || pcs@.contains(pc)),
        old(out)@.no_duplicates() && pcs@.no_duplicates()
            && (forall|pc: PendingCollation| #[trigger] pcs@.contains(pc) ==> !old(out)@.contains(Action::CancelRequest(pc)))
            ==> final(out)@.no_duplicates(),
{
    let ghost prev = out@;
    let mut k: usize = 0;
    while k < pcs.len()
        invariant
            0 <= k <= pcs@.len(),
            out@.len() == prev.len() + k,
            forall|j: int| 0 <= j < prev.len() ==> out@[j] == prev[j],
            forall|j: int| 0 <= j < k ==> out@[prev.len() + j] == Action::CancelRequest(pcs@[j]),
        decreases pcs@.len() - k,
    {
        out.push(Action::CancelRequest(pcs[k]));
        k += 1;
    }
    proof {
        if prev.no_duplicates() && pcs@.no_duplicates()
            && (forall|pc: PendingCollation| #[trigger] pcs@.contains(pc) ==> !prev.contains(Action::CancelRequest(pc))) {
            assert forall|a: int, b: int| 0 <= a < out@.len() && 0 <= b < out@.len() && a != b
                implies out@[a] != out@[b] by {
                if a >= prev.len() && b >= prev.len() {
                    assert(pcs@[a - prev.len()] != pcs@[b - prev.len()]);
                } else if a >= prev.len() {
                    let pc = pcs@[a - prev.len()];
                    assert(pcs@.contains(pc));
                    assert(out@[b] == prev[b]);
                    if out@[a] == out@[b] {
                        assert(prev[b] == Action::CancelRequest(pc));
                        assert(prev.contains(Action::CancelRequest(pc)));
                    }
                } else if b >= prev.len() {
                    let pc = pcs@[b - prev.len()];
                    assert(pcs@.contains(pc));
                    assert(out@[a] == prev[a]);
                    if out@[a] == out@[b] {
                        assert(prev[a] == Action::CancelRequest(pc));
                        assert(prev.contains(Action::CancelRequest(pc)));
                    }
                } else {
                    assert(out@[a] == prev[a] && out@[b] == prev[b]);
                }
            }
        }
        assert forall|pc: PendingCollation| #[trigger] out@.contains(Action::CancelRequest(pc))
            <==> (prev.contains(Action::CancelRequest(pc)) || pcs@.contains(pc)) by {
            if out@.contains(Action::CancelRequest(pc)) {
                let j = choose|j: int| 0 <= j < out@.len() && out@[j] == Action::CancelRequest(pc);
                if j < prev.len() {
                    assert(prev[j] == Action::CancelRequest(pc));
                } else {
                    assert(pcs@[j - prev.len()] == pc);
                }
            }
            if prev.contains(Action::CancelRequest(pc)) {
                let j = choose|j: int| 0 <= j < prev.len() && prev[j] == Action::CancelRequest(pc);
                assert(out@[j] == Action::CancelRequest(pc));
            }
            if pcs@.contains(pc) {
                let j = choose|j: int| 0 <= j < pcs@.len() && pcs@[j] == pc;
                assert(out@[prev.len() + j] == Action::CancelRequest(pc));
            }
        }
    }
}

/// `a` and `b` agree on everything but the peers.
pub open spec fn same_but_peers(a: State, b: State) -> bool {
    &&& b.our_view() == a.our_view()
    &&& b.paras() == a.paras()
    &&& b.pool() == a.pool()
    &&& b.pending() == a.pending()
}

/// `a` and `b` agree on everything but the candidates with backing.
pub open spec fn same_but_pending(a: State, b: State) -> bool {
    &&& b.our_view() == a.our_view()
    &&& b.paras() == a.paras()
    &&& b.peers() == a.peers()
    &&& b.pool() == a.pool()
}

/// What a connection of `peer`, with the network identity `identity`, at `now` does: a new peer
/// is registered, undeclared since `now` and with an empty view; a known one stays as it is.
pub open spec fn connected_effect(pre: State, post: State, peer: PeerId, identity: Vec<u8>, now: Instant) -> bool {
    &&& same_but_peers(pre, post)
    &&& post.peers().has(peer)
    &&& post.peers().same_except(&pre.peers(), peer)
    &&& pre.peers().has(peer) ==> post.peers().get(peer) == pre.peers().get(peer)
    &&& !pre.peers().has(peer) ==> post.peers().get(peer).view.heads@.len() == 0
        && post.peers().get(peer).identity == identity
        && post.peers().get(peer).state == PeerState::Connected(now)
}

/// What a disconnection of `peer` does: its record goes.
pub open spec fn disconnected_effect(pre: State, post: State, peer: PeerId) -> bool {
    &&& same_but_peers(pre, post)
    &&& !post.peers().has(peer)
    &&& post.peers().same_except(&pre.peers(), peer)
}

/// What a verdict of `Seconded` on `parent` does.
pub open spec fn seconded_effect(pre: State, post: State, parent: BlockHash, acts: Seq<Action>) -> bool {
    if !pre.pending().contains_key(parent) {
        post == pre && acts.len() == 0
    } else {
        let pc = pre.pending()[parent].1;
        &&& same_but_pending(pre, post)
        &&& post.pending() == pre.pending().remove(parent)
        &&& acts == seq![
            Action::ReportPeer(pc.peer_id, Rep::NotifyGood),
            Action::NotifyCollationSeconded(pc.peer_id, pc.relay_parent),
        ]
    }
}

/// What a verdict of `Invalid` on `parent` for a candidate with the given commitments does: a
/// verdict on another candidate than the one with backing is stale and ignored.
pub open spec fn invalid_effect(pre: State, post: State, parent: BlockHash, commitments_hash: BlockHash,
    acts: Seq<Action>) -> bool
{
    if pre.pending().contains_key(parent) && pre.pending()[parent].1.commitments_hash == Some(commitments_hash) {
        &&& same_but_pending(pre, post)
        &&& post.pending() == pre.pending().remove(parent)
        &&& acts == holder_report(pre.peers(), pre.pending()[parent].0, Rep::ReportBad)
    } else {
        post == pre && acts.len() == 0
    }
}

/// What the end of the request `pc` does; one that is not in flight is ignored.
pub open spec fn response_effect(pre: State, post: State, pc: PendingCollation, response: FetchResponse,
    acts: Seq<Action>) -> bool
{
    if !pre.pool().has(pc) {
        post == pre && acts.len() == 0
    } else {
        &&& post.our_view() == pre.our_view()
        &&& post.paras() == pre.paras()
        &&& post.peers() == pre.peers()
        &&& post.pending() == pre.pending()
        &&& forall|x: PendingCollation| #[trigger] post.pool().has(x) <==> (pre.pool().has(x) && x != pc)
        &&& acts == seq![response_report(pc, response)]
    }
}

/// What the outcome of a fetch does: the first candidate on a relay parent in our view is
/// handed to backing, with its commitments noted.
pub open spec fn fetched_effect(pre: State, post: State, event: CollationEvent, commitments_hash: Option<BlockHash>,
    acts: Seq<Action>) -> bool
{
    let rp = event.1.relay_parent;
    if commitments_hash is None || pre.pending().contains_key(rp) || !pre.our_view().has(rp) {
        post == pre && acts.len() == 0
    } else {
        let seconded = PendingCollation { commitments_hash, ..event.1 };
        &&& same_but_pending(pre, post)
        &&& post.pending() == pre.pending().insert(rp, (event.0, seconded))
        &&& acts == seq![Action::SecondCandidate(seconded)]
    }
}

/// The inactivity sweep asks for the disconnection of each inactive peer, once, and nothing else.
pub open spec fn sweep_actions(s: State, now: Instant, policy: CollatorEvictionPolicy, acts: Seq<Action>) -> bool {
    &&& acts.no_duplicates()
    &&& forall|i: int| 0 <= i < acts.len() ==> acts[i] is DisconnectPeer
    &&& forall|q: PeerId| #[trigger] acts.contains(Action::DisconnectPeer(q))
        <==> (s.peers().has(q) && s.peers().get(q).spec_is_inactive(now, policy))
}

/// What a request for `para_id` on `relay_parent` from `peer_id` does: one on a relay parent
/// in our view that is not in flight yet is recorded and sent.
pub open spec fn request_effect(pre: State, post: State, relay_parent: BlockHash, para_id: ParaId, peer_id: PeerId,
    collator_id: CollatorId, acts: Seq<Action>) -> bool
{
    let key = request_key(relay_parent, para_id, peer_id);
    if !pre.our_view().has(relay_parent) {
        post == pre && acts.len() == 0
    } else {
        &&& post.our_view() == pre.our_view()
        &&& post.paras() == pre.paras()
        &&& post.peers() == pre.peers()
        &&& post.pending() == pre.pending()
        &&& forall|x: PendingCollation| #[trigger] post.pool().has(x) <==> (pre.pool().has(x) || x == key)
        &&& acts == (if pre.pool().has(key) { seq![] } else { seq![Action::RequestCollation(collator_id, key)] })
    }
}

/// What a declaration does; see [`declare_result`] for the order of the checks.
pub open spec fn declared_effect(pre: State, post: State, origin: PeerId, id: CollatorId, para_id: ParaId,
    signature: CollatorSignature, now: Instant, acts: Seq<Action>) -> bool
{
    match declare_result(pre.peers(), origin, id, signature) {
        Err(DeclareError::InvalidSignature) =>
            post == pre && acts == seq![Action::ReportPeer(origin, Rep::InvalidSignature)],
        Err(_) => post == pre && acts == seq![Action::ReportPeer(origin, Rep::UnexpectedMessage)],
        Ok(()) => if pre.paras().of_interest(para_id) {
            &&& same_but_peers(pre, post)
            &&& acts.len() == 0
            &&& post.peers().has(origin)
            &&& post.peers().same_except(&pre.peers(), origin)
            &&& post.peers().get(origin).identity == pre.peers().get(origin).identity
            &&& post.peers().get(origin).view == pre.peers().get(origin).view
            &&& post.peers().get(origin).collating()
            &&& post.peers().get(origin).spec_collator_id() == Some(id)
            &&& post.peers().get(origin).spec_collating_para() == Some(para_id)
            &&& post.peers().get(origin).adverts().len() == 0
            &&& post.peers().get(origin).active_since() == now
        } else {
            post == pre && acts == seq![
                Action::ReportPeer(origin, Rep::UnneededCollator),
                Action::DisconnectPeer(origin),
            ]
        },
    }
}

/// What an advertisement of `relay_parent` by `origin` at `now` does.
pub open spec fn advertised_effect(pre: State, post: State, origin: PeerId, relay_parent: BlockHash, now: Instant,
    acts: Seq<Action>) -> bool
{
    let res = if pre.peers().has(origin) {
        advertise_result(pre.peers().get(origin), relay_parent, pre.our_view())
    } else {
        Err(AdvertisementError::UndeclaredCollator)
    };
    if !pre.our_view().has(relay_parent) || res is Err {
        post == pre && acts == seq![Action::ReportPeer(origin, Rep::UnexpectedMessage)]
    } else {
        let (id, para_id) = res.unwrap();
        let key = request_key(relay_parent, para_id, origin);
        &&& post.our_view() == pre.our_view()
        &&& post.paras() == pre.paras()
        &&& post.pending() == pre.pending()
        &&& post.peers().has(origin)
        &&& post.peers().same_except(&pre.peers(), origin)
        &&& post.peers().get(origin).view == pre.peers().get(origin).view
        &&& post.peers().get(origin).identity == pre.peers().get(origin).identity
        &&& post.peers().get(origin).collating()
        &&& post.peers().get(origin).spec_collator_id() == Some(id)
        &&& post.peers().get(origin).spec_collating_para() == Some(para_id)
        &&& post.peers().get(origin).active_since() == now
        &&& post.peers().get(origin).adverts() == pre.peers().get(origin).adverts().push(relay_parent)
        &&& forall|x: PendingCollation| #[trigger] post.pool().has(x) <==> (pre.pool().has(x) || x == key)
        &&& acts == (if pre.pool().has(key) { seq![] } else { seq![Action::RequestCollation(id, key)] })
    }
}

/// What a new view `view` of `peer` does.
pub open spec fn peer_view_effect(pre: State, post: State, peer: PeerId, view: RelayView, now: Instant,
    acts: Seq<Action>) -> bool
{
    &&& post.our_view() == pre.our_view()
    &&& post.paras() == pre.paras()
    &&& post.pending() == pre.pending()
    &&& post.peers().has(peer)
    &&& post.peers().same_except(&pre.peers(), peer)
    &&& post.peers().get(peer).view == view
    &&& pre.peers().has(peer) ==> crate::peer::same_standing(pre.peers().get(peer), post.peers().get(peer))
    &&& pre.peers().has(peer) ==> forall|h: BlockHash| #[trigger] post.peers().get(peer).advertised(h)
        <==> (pre.peers().get(peer).advertised(h) && view.has(h))
    &&& !pre.peers().has(peer) ==> post.peers().get(peer).state == PeerState::Connected(now)
    &&& forall|pc: PendingCollation| #[trigger] post.pool().has(pc) <==> (pre.pool().has(pc)
        && !(pc.peer_id == peer && !post.peers().get(peer).advertised(pc.relay_parent)))
    &&& forall|i: int| 0 <= i < acts.len() ==> acts[i] is CancelRequest
    &&& forall|pc: PendingCollation| #[trigger] acts.contains(Action::CancelRequest(pc)) <==> (pre.pool().has(pc)
        && pc.peer_id == peer && !post.peers().get(peer).advertised(pc.relay_parent))
}

/// What the change of our view to `view` does, with `infos` as the runtime's answers about
/// the relay parents new in it.
pub open spec fn our_view_effect(pre: State, post: State, view: RelayView, infos: Seq<SchedulingInfo>,
    acts: Seq<Action>) -> bool
{
    &&& post.our_view() == view
    &&& forall|pc: PendingCollation| #[trigger] post.pool().has(pc) <==> (pre.pool().has(pc) && view.has(pc.relay_parent))
    &&& forall|h: BlockHash| #[trigger] post.pending().contains_key(h) <==> (pre.pending().contains_key(h) && view.has(h))
    &&& forall|h: BlockHash| #[trigger] post.pending().contains_key(h) ==> post.pending()[h] == pre.pending()[h]
    &&& forall|h: BlockHash| #[trigger] post.paras().by_relay_parent().contains_key(h)
        <==> ((pre.paras().by_relay_parent().contains_key(h) && view.has(h))
            || (view.has(h) && !pre.our_view().has(h) && answer_for(infos, h) is Some))
    &&& forall|h: BlockHash| #[trigger] post.paras().by_relay_parent().contains_key(h)
        ==> post.paras().by_relay_parent()[h] == (if pre.paras().by_relay_parent().contains_key(h) {
            pre.paras().by_relay_parent()[h]
        } else {
            answer_for(infos, h).unwrap()
        })
    &&& forall|q: PeerId| #[trigger] post.peers().has(q) == pre.peers().has(q)
    &&& forall|q: PeerId| pre.peers().has(q) ==> pruned(pre.peers().get(q), #[trigger] post.peers().get(q), view)
    &&& forall|i: int| 0 <= i < acts.len() ==> (acts[i] is CancelRequest || acts[i] is DisconnectPeer)
    &&& acts.no_duplicates()
    &&& forall|pc: PendingCollation| #[trigger] acts.contains(Action::CancelRequest(pc))
        <==> (pre.pool().has(pc) && !view.has(pc.relay_parent))
    &&& forall|q: PeerId| #[trigger] acts.contains(Action::DisconnectPeer(q))
        <==> (post.peers().has(q) && match post.peers().get(q).spec_collating_para() {
            Some(para) => !post.paras().of_interest(para),
            None => false,
        })
}

/// What a message from `origin` does.
pub open spec fn peer_message_effect(pre: State, post: State, origin: PeerId, msg: WireMessage, now: Instant,
    acts: Seq<Action>) -> bool
{
    match msg {
        WireMessage::Declare(id, para_id, signature) =>
            declared_effect(pre, post, origin, id, para_id, signature, now, acts),
        WireMessage::AdvertiseCollation(relay_parent) => advertised_effect(pre, post, origin, relay_parent, now, acts),
        WireMessage::CollationSeconded(_) => post == pre && acts.len() == 0,
    }
}

/// What an event of the network bridge does.
pub open spec fn network_effect(pre: State, post: State, event: NetworkEvent, now: Instant, acts: Seq<Action>) -> bool {
    match event {
        NetworkEvent::PeerConnected(peer, identity) => connected_effect(pre, post, peer, identity, now) && acts.len() == 0,
        NetworkEvent::PeerDisconnected(peer) => disconnected_effect(pre, post, peer) && acts.len() == 0,
        NetworkEvent::PeerViewChange(peer, view) => peer_view_effect(pre, post, peer, view, now, acts),
        NetworkEvent::OurViewChange(view, infos) => our_view_effect(pre, post, view, infos@, acts),
        NetworkEvent::PeerMessage(origin, msg) => peer_message_effect(pre, post, origin, msg, now, acts),
    }
}

/// What a message to this subsystem does.
pub open spec fn msg_effect(pre: State, post: State, msg: CollatorProtocolMessage, now: Instant, acts: Seq<Action>) -> bool {
    match msg {
        CollatorProtocolMessage::CollateOn(_) => post == pre && acts.len() == 0,
        CollatorProtocolMessage::DistributeCollation => post == pre && acts.len() == 0,
        CollatorProtocolMessage::CollationFetchingRequest => post == pre && acts.len() == 0,
        CollatorProtocolMessage::ReportCollator(id) => post == pre && acts == holder_report(pre.peers(), id, Rep::ReportBad),
        CollatorProtocolMessage::NoteGoodCollator(id) => post == pre && acts == holder_report(pre.peers(), id, Rep::NotifyGood),
        CollatorProtocolMessage::NetworkBridgeUpdate(event) => network_effect(pre, post, event, now, acts),
        CollatorProtocolMessage::Seconded(parent) => seconded_effect(pre, post, parent, acts),
        CollatorProtocolMessage::Invalid(parent, commitments_hash) => invalid_effect(pre, post, parent, commitments_hash, acts),
    }
}

} // verus!
