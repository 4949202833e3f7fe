//! Properties of the protocol that relate several states or hold of every state.
use vstd::prelude::*;
use crate::{BlockHash, CollatorEvictionPolicy, CollatorId, CollatorSignature, Instant, ParaId, PeerId};
use crate::assignments::SchedulingInfo;
use crate::crypto::{declare_payload, sr25519_valid};
use crate::fetch::PendingCollation;
use crate::peer::PeerState;
use crate::state::{
    declared_effect, fetched_effect, our_view_effect, peer_view_effect, sweep_actions, Action,
    CollationEvent, Rep, State,
};
use crate::view::RelayView;

verus! {

/// Every peer advertises only relay parents in its own view and in ours.
pub open spec fn advertisements_in_views(s: State) -> bool {
    forall|q: PeerId, h: BlockHash| s.peers().has(q) && #[trigger] s.peers().get(q).advertised(h)
        ==> s.peers().get(q).view.has(h) && s.our_view().has(h)
}

/// In every state, each advertisement concerns a relay parent in our view.
pub proof fn lemma_advertisements_in_our_view(s: State, q: PeerId, h: BlockHash)
    requires
        s.wf(),
        s.peers().has(q),
        s.peers().get(q).advertised(h),
    ensures
        s.our_view().has(h),
{
}

/// After a new view of a peer, each advertisement of that peer concerns a relay parent in its
/// new view and in ours.
pub proof fn lemma_peer_view_change_bounds_advertisements(pre: State, post: State, peer: PeerId,
    view: RelayView, now: Instant, acts: Seq<Action>, h: BlockHash)
    requires
        pre.wf(),
        post.wf(),
        peer_view_effect(pre, post, peer, view, now, acts),
        post.peers().get(peer).advertised(h),
    ensures
        post.peers().get(peer).view.has(h),
        post.our_view().has(h),
{
    if !pre.peers().has(peer) {
        assert(post.peers().get(peer).adverts() =~= Seq::<BlockHash>::empty());
    }
}

/// After a change of our view, every advertisement of every peer concerns a relay parent in the
/// advertising peer's view and in ours.
pub proof fn lemma_our_view_change_bounds_advertisements(pre: State, post: State, view: RelayView,
    infos: Seq<SchedulingInfo>, acts: Seq<Action>)
    requires
        pre.wf(),
        our_view_effect(pre, post, view, infos, acts),
    ensures
        advertisements_in_views(post),
{
    assert forall|q: PeerId, h: BlockHash| post.peers().has(q) && #[trigger] post.peers().get(q).advertised(h)
        implies post.peers().get(q).view.has(h) && post.our_view().has(h) by {
        assert(pre.peers().has(q));
    }
}

/// In every state, the candidates with backing are held by relay parent, one for each, and
/// each is the candidate fetched on that relay parent, with its commitments known.
pub proof fn lemma_one_candidate_per_relay_parent(s: State, h: BlockHash)
    requires
        s.wf(),
        s.pending().contains_key(h),
    ensures
        s.pending()[h].1.relay_parent == h,
        s.pending()[h].1.commitments_hash is Some,
        s.our_view().has(h),
{
}

/// Once a candidate on a relay parent is with backing, a later fetch on the same relay parent
/// changes nothing and sends nothing to backing.
pub proof fn lemma_second_at_most_once(pre: State, post: State, event: CollationEvent,
    commitments_hash: Option<BlockHash>, acts: Seq<Action>)
    requires
        pre.wf(),
        fetched_effect(pre, post, event, commitments_hash, acts),
        pre.pending().contains_key(event.1.relay_parent),
    ensures
        post == pre,
        acts.len() == 0,
{
}

/// In every state, at most one request is in flight per relay parent, para and peer.
pub proof fn lemma_one_request_per_key(s: State, a: PendingCollation, b: PendingCollation)
    requires
        s.wf(),
        s.pool().has(a),
        s.pool().has(b),
        a.relay_parent == b.relay_parent,
        a.para_id == b.para_id,
        a.peer_id == b.peer_id,
    ensures
        a == b,
{
    let e = s.pool().entries();
    let i = choose|i: int| 0 <= i < e.len() && e[i] == a;
    let j = choose|j: int| 0 <= j < e.len() && e[j] == b;
    assert(e[i].commitments_hash is None && e[j].commitments_hash is None);
}

/// After our view changes to `view`, no request in flight and no candidate with backing
/// concerns a relay parent outside it.
pub proof fn lemma_view_change_clears_old_relay_parents(pre: State, post: State, view: RelayView,
    infos: Seq<SchedulingInfo>, acts: Seq<Action>)
    requires
        pre.wf(),
        our_view_effect(pre, post, view, infos, acts),
    ensures
        forall|pc: PendingCollation| #[trigger] post.pool().has(pc) ==> view.has(pc.relay_parent),
        forall|h: BlockHash| #[trigger] post.pending().contains_key(h) ==> view.has(h),
{
}

/// `acts` asks exactly once for the disconnection of `q`.
pub open spec fn disconnects_once(acts: Seq<Action>, q: PeerId) -> bool {
    exists|i: int| 0 <= i < acts.len() && acts[i] == Action::DisconnectPeer(q)
        && forall|j: int| 0 <= j < acts.len() && acts[j] == Action::DisconnectPeer(q) ==> j == i
}

proof fn lemma_once_in(acts: Seq<Action>, q: PeerId)
    requires
        acts.no_duplicates(),
        acts.contains(Action::DisconnectPeer(q)),
    ensures
        disconnects_once(acts, q),
{
    let i = choose|i: int| 0 <= i < acts.len() && acts[i] == Action::DisconnectPeer(q);
    assert forall|j: int| 0 <= j < acts.len() && acts[j] == Action::DisconnectPeer(q) implies j == i by {}
}

/// A peer that connected at `since` and has not declared itself by `now`, later than
/// `since` plus the grace for undeclared peers, is disconnected exactly once by the sweep.
pub proof fn lemma_undeclared_peer_disconnected_once(s: State, q: PeerId, since: Instant, now: Instant,
    policy: CollatorEvictionPolicy, acts: Seq<Action>)
    requires
        s.wf(),
        sweep_actions(s, now, policy, acts),
        s.peers().has(q),
        s.peers().get(q).state == PeerState::Connected(since),
        since + policy.undeclared < now,
    ensures
        disconnects_once(acts, q),
{
    lemma_once_in(acts, q);
}

/// A collator whose last activity, plus the grace for collators, is earlier than `now` is
/// disconnected exactly once by the sweep.
pub proof fn lemma_idle_collator_disconnected_once(s: State, q: PeerId, now: Instant,
    policy: CollatorEvictionPolicy, acts: Seq<Action>)
    requires
        s.wf(),
        sweep_actions(s, now, policy, acts),
        s.peers().has(q),
        s.peers().get(q).collating(),
        s.peers().get(q).active_since() + policy.inactive_collator < now,
    ensures
        disconnects_once(acts, q),
{
    lemma_once_in(acts, q);
}

/// A declaration of a key that another connected peer holds costs the declaring peer
/// reputation for an unexpected message and leaves everything, its own state included, as it
/// was.
pub proof fn lemma_duplicate_declaration_rejected(pre: State, post: State, origin: PeerId, other: PeerId,
    id: CollatorId, para_id: ParaId, signature: CollatorSignature, now: Instant, acts: Seq<Action>)
    requires
        pre.wf(),
        declared_effect(pre, post, origin, id, para_id, signature, now, acts),
        other != origin,
        pre.peers().has(other),
        pre.peers().get(other).spec_collator_id() == Some(id),
    ensures
        acts == seq![Action::ReportPeer(origin, Rep::UnexpectedMessage)],
        post == pre,
{
    assert(pre.peers().id_taken(id));
}

/// A declaration whose signature does not bind the key to the declaring peer's network
/// identity costs it reputation for an invalid signature and changes nothing.
pub proof fn lemma_bad_signature_rejected(pre: State, post: State, origin: PeerId, id: CollatorId,
    para_id: ParaId, signature: CollatorSignature, now: Instant, acts: Seq<Action>)
    requires
        pre.wf(),
        declared_effect(pre, post, origin, id, para_id, signature, now, acts),
        !pre.peers().id_taken(id),
        pre.peers().has(origin),
        !pre.peers().get(origin).collating(),
        !sr25519_valid(signature@, declare_payload(pre.peers().get(origin).identity@), id@),
    ensures
        acts == seq![Action::ReportPeer(origin, Rep::InvalidSignature)],
        post == pre,
{
}

} // verus!
