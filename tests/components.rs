use collator_protocol::assignments::{
    assignments_for, signing_validator_index, find_validator_group, group_assignments, ActiveParas, CoreState, GroupAssignments,
    GroupRotationInfo, SchedulingInfo,
};
use collator_protocol::crypto::{declare_signature_payload, verify_declaration};
use collator_protocol::fetch::{FetchPool, FetchResponse, PendingCollation};
use collator_protocol::metrics::Metrics;
use collator_protocol::peer::{AdvertisementError, PeerData, PeerState};
use collator_protocol::registry::{DeclareError, PeerRegistry};
use collator_protocol::state::{
    Action, CollatorProtocolMessage, NetworkEvent, Rep, RepKind, State, WireMessage,
};
use collator_protocol::view::RelayView;
use collator_protocol::{BlockHash, CollatorEvictionPolicy, CollatorId, Instant, ParaId, PeerId};
use sp_core::sr25519;
use sp_core::Pair;

const H1: BlockHash = 0x1111;
const H2: BlockHash = 0x2222;
const H3: BlockHash = 0x3333;

fn rotation(start: u32, freq: u32, now: u32) -> GroupRotationInfo {
    GroupRotationInfo { session_start_block: start, group_rotation_frequency: freq, now }
}

/// The network identity of a peer.
fn identity(peer: PeerId) -> Vec<u8> {
    format!("peer-{}", peer).into_bytes()
}

/// The keys we hold among five validators: the one at `index`, if any.
fn held(index: Option<usize>) -> Vec<bool> {
    (0..5).map(|i| Some(i) == index).collect()
}

fn info(relay_parent: BlockHash, index: Option<usize>) -> SchedulingInfo {
    SchedulingInfo {
        relay_parent,
        keys_held: held(index),
        validator_groups: vec![vec![0, 1], vec![2, 3], vec![4]],
        group_rotation_info: rotation(0, 1, 0),
        availability_cores: vec![CoreState::Scheduled(1), CoreState::Free, CoreState::Occupied(2)],
    }
}

fn signed_declare(peer: PeerId, pair: &sr25519::Pair, para: ParaId) -> WireMessage {
    WireMessage::Declare(pair.public().0, para, pair.sign(&declare_signature_payload(&identity(peer))).0)
}

/// A state whose view is `heads`, where we are assigned to para 1, with `peers` connected
/// at time 0 and declared as collators of para 1 under the given keys.
fn collating_state(heads: Vec<BlockHash>, peers: &[(PeerId, &sr25519::Pair)]) -> State {
    let mut state = State::new();
    let infos = heads.iter().map(|h| info(*h, Some(0))).collect();
    state.handle_our_view_change(RelayView::new(heads), &infos);
    for (peer, pair) in peers {
        state.handle_peer_connected(*peer, identity(*peer), 0);
        let actions = state.process_incoming_peer_message(*peer, signed_declare(*peer, pair, 1), 0);
        assert!(actions.is_empty());
    }
    state
}

fn request_of(actions: &[Action]) -> (CollatorId, PendingCollation) {
    match actions {
        [Action::RequestCollation(id, pc)] => (*id, *pc),
        _ => panic!("expected one request, got {:?}", actions),
    }
}

#[test]
fn core_for_group_rotates_by_one_core_per_rotation() {
    assert_eq!(rotation(0, 1, 0).core_for_group(0, 3), 0);
    assert_eq!(rotation(0, 1, 1).core_for_group(0, 3), 1);
    assert_eq!(rotation(0, 1, 5).core_for_group(2, 3), 1);
    assert_eq!(rotation(10, 5, 27).core_for_group(1, 4), 0);
    // before the session starts no rotation has happened
    assert_eq!(rotation(10, 5, 3).core_for_group(1, 4), 1);
}

#[test]
fn core_for_group_edge_cases() {
    assert_eq!(rotation(0, 0, 100).core_for_group(7, 3), 7);
    assert_eq!(rotation(0, 1, 100).core_for_group(7, 0), 0);
}

#[test]
fn next_rotation_at_values() {
    assert_eq!(rotation(0, 5, 10).next_rotation_at(), 15);
    assert_eq!(rotation(3, 5, 10).next_rotation_at(), 13);
    assert_eq!(rotation(0, 1, 0).next_rotation_at(), 1);
}

#[test]
fn bump_rotation_moves_to_next_rotation() {
    assert_eq!(rotation(0, 1, 0).bump_rotation(), rotation(0, 1, 1));
    assert_eq!(rotation(3, 5, 10).bump_rotation(), rotation(3, 5, 13));
    // without rotation, or past the last block number, nothing changes
    assert_eq!(rotation(0, 0, 10).bump_rotation(), rotation(0, 0, 10));
    assert_eq!(rotation(0, 5, u32::MAX - 1).bump_rotation(), rotation(0, 5, u32::MAX - 1));
}

#[test]
fn find_validator_group_finds_first_group() {
    let groups = vec![vec![0, 1], vec![2, 3], vec![4]];
    assert_eq!(find_validator_group(&groups, 3), Some(1));
    assert_eq!(find_validator_group(&groups, 4), Some(2));
    assert_eq!(find_validator_group(&groups, 9), None);
    assert_eq!(find_validator_group(&vec![vec![5], vec![5]], 5), Some(0));
    assert_eq!(find_validator_group(&vec![], 0), None);
}

#[test]
fn group_assignments_now_and_next() {
    assert_eq!(
        group_assignments(&info(H1, Some(0))),
        Some(GroupAssignments { current: Some(1), next: None })
    );
    assert_eq!(
        group_assignments(&info(H1, Some(4))),
        Some(GroupAssignments { current: Some(2), next: Some(1) })
    );
    let mut bumped = info(H1, Some(1));
    bumped.group_rotation_info = rotation(0, 1, 1);
    assert_eq!(group_assignments(&bumped), Some(GroupAssignments { current: None, next: Some(2) }));
    assert_eq!(group_assignments(&info(H1, None)), None);
    assert_eq!(group_assignments(&info(H1, Some(9))), None);
}

#[test]
fn signing_index_is_first_key_held() {
    assert_eq!(signing_validator_index(&vec![false, true, true]), Some(1));
    assert_eq!(signing_validator_index(&vec![true]), Some(0));
    assert_eq!(signing_validator_index(&vec![false, false]), None);
    assert_eq!(signing_validator_index(&vec![]), None);
}

#[test]
fn declaration_bound_to_connecting_identity() {
    let pair = sr25519::Pair::generate().0;
    let mut state = collating_state(vec![H1], &[]);
    // peer 1 connects with another identity than the one the collator signed for
    state.handle_peer_connected(1, identity(2), 0);
    let msg = signed_declare(1, &pair, 1);
    assert_eq!(state.process_incoming_peer_message(1, msg, 0), vec![Action::ReportPeer(1, Rep::InvalidSignature)]);
    state.handle_peer_connected(3, identity(1), 0);
    assert!(state.process_incoming_peer_message(3, signed_declare(1, &pair, 1), 0).is_empty());
}

#[test]
fn assignments_for_uses_first_answer() {
    let infos = vec![info(H1, None), info(H1, Some(0)), info(H2, Some(2))];
    assert_eq!(assignments_for(&infos, H1), None);
    assert_eq!(assignments_for(&infos, H2), Some(GroupAssignments { current: None, next: Some(2) }));
    assert_eq!(assignments_for(&infos, H3), None);
}

#[test]
fn active_paras_count_references() {
    let mut paras = ActiveParas::new();
    assert!(!paras.is_current_or_next(1));
    paras.assign_incoming(&vec![H1, H2, H3], &vec![info(H1, Some(0)), info(H2, Some(0))]);
    assert!(paras.is_current_or_next(1));
    assert!(!paras.is_current_or_next(2));
    paras.remove_outgoing(&vec![H1]);
    assert!(paras.is_current_or_next(1));
    paras.remove_outgoing(&vec![H2, H3]);
    assert!(!paras.is_current_or_next(1));
}

#[test]
fn active_paras_next_assignment_counts() {
    let mut paras = ActiveParas::new();
    paras.assign_incoming(&vec![H1], &vec![info(H1, Some(4))]);
    assert!(paras.is_current_or_next(1));
    assert!(paras.is_current_or_next(2));
    // a relay parent that is followed already keeps its first assignment
    paras.assign_incoming(&vec![H1], &vec![info(H1, Some(0))]);
    paras.remove_outgoing(&vec![H1]);
    assert!(!paras.is_current_or_next(1));
    assert!(!paras.is_current_or_next(2));
}

#[test]
fn declare_payload_binds_peer() {
    let payload = declare_signature_payload(&vec![0x00, 0x24, 0x08, 0x01]);
    assert_eq!(payload, vec![0x00, 0x24, 0x08, 0x01, b'C', b'O', b'L', b'L']);
    assert_eq!(declare_signature_payload(&vec![]), b"COLL".to_vec());
}

#[test]
fn declaration_signature_verification() {
    let pair = sr25519::Pair::generate().0;
    let good = pair.sign(&declare_signature_payload(&identity(7))).0;
    assert!(verify_declaration(&identity(7), &pair.public().0, &good));
    assert!(!verify_declaration(&identity(8), &pair.public().0, &good));
    let other = sr25519::Pair::generate().0;
    assert!(!verify_declaration(&identity(7), &other.public().0, &good));
}

#[test]
fn view_contains_and_difference() {
    let a = RelayView::new(vec![H1, H2, H2, H3]);
    let b = RelayView::new(vec![H2]);
    assert!(a.contains(H3));
    assert!(!b.contains(H3));
    assert_eq!(a.difference(&b), vec![H1, H3]);
    assert_eq!(b.difference(&a), Vec::<BlockHash>::new());
    assert!(RelayView::empty().heads.is_empty());
}

#[test]
fn peer_data_advertisements() {
    let our_view = RelayView::new(vec![H1, H2]);
    let mut peer = PeerData::new(identity(1), RelayView::new(vec![H1]), 5);
    assert_eq!(peer.insert_advertisement(H1, &our_view, 6), Err(AdvertisementError::UndeclaredCollator));
    peer.set_collating([3u8; 32], 1, 10);
    assert_eq!(peer.insert_advertisement(H3, &our_view, 11), Err(AdvertisementError::OutOfOurView));
    assert_eq!(peer.insert_advertisement(H1, &our_view, 12), Ok(([3u8; 32], 1)));
    assert_eq!(peer.insert_advertisement(H1, &our_view, 13), Err(AdvertisementError::Duplicate));
    assert!(peer.has_advertised(H1));
    assert_eq!(peer.insert_advertisement(H2, &our_view, 14), Ok(([3u8; 32], 1)));

    // H1 leaves the peer's view
    peer.update_view(RelayView::new(vec![H2, H3]));
    assert!(!peer.has_advertised(H1));
    assert!(peer.has_advertised(H2));
    peer.prune_old_advertisements(&RelayView::new(vec![H1]));
    assert!(!peer.has_advertised(H2));
    assert_eq!(peer.collator_id(), Some([3u8; 32]));
    assert_eq!(peer.collating_para(), Some(1));
}

#[test]
fn view_updates_keep_advertisements_within_views() {
    let our_view = RelayView::new(vec![H1, H2]);
    let mut peer = PeerData::new(identity(1), RelayView::empty(), 0);
    peer.set_collating([3u8; 32], 1, 0);
    // advertised outside the peer's own view
    assert_eq!(peer.insert_advertisement(H1, &our_view, 1), Ok(([3u8; 32], 1)));
    assert_eq!(peer.insert_advertisement(H2, &our_view, 1), Ok(([3u8; 32], 1)));
    peer.prune_old_advertisements(&our_view);
    assert!(!peer.has_advertised(H1));
    assert_eq!(peer.insert_advertisement(H1, &our_view, 2), Ok(([3u8; 32], 1)));
    peer.update_view(RelayView::new(vec![H3]));
    assert!(!peer.has_advertised(H1));
    assert!(!peer.has_advertised(H2));
}

#[test]
fn peer_inactivity_boundaries() {
    let policy = CollatorEvictionPolicy { inactive_collator: 50, undeclared: 25 };
    let mut peer = PeerData::new(identity(1), RelayView::empty(), 100);
    assert!(!peer.is_collating());
    assert!(!peer.is_inactive(125, &policy));
    assert!(peer.is_inactive(126, &policy));
    assert!(!peer.is_inactive(0, &policy));
    peer.set_collating([1u8; 32], 1, 200);
    assert!(matches!(peer.state, PeerState::Collating(_)));
    assert!(!peer.is_inactive(250, &policy));
    assert!(peer.is_inactive(251, &policy));
}

#[test]
fn registry_declarations() {
    let pair = sr25519::Pair::generate().0;
    let key = pair.public().0;
    let sig = pair.sign(&declare_signature_payload(&identity(1))).0;
    let mut reg = PeerRegistry::new();
    assert_eq!(reg.check_declare(1, &key, &sig), Err(DeclareError::UnknownPeer));
    reg.connect(1, identity(1), 0);
    reg.connect(2, identity(2), 0);
    reg.connect(1, identity(1), 50);
    assert_eq!(reg.len(), 2);
    assert_eq!(reg.check_declare(2, &key, &sig), Err(DeclareError::InvalidSignature));
    assert_eq!(reg.check_declare(1, &key, &sig), Ok(()));
    reg.set_collating(1, key, 1, 0);
    assert_eq!(reg.find_peer_by_collator(&key), Some(1));
    assert_eq!(reg.check_declare(2, &key, &pair.sign(&declare_signature_payload(&identity(2))).0), Err(DeclareError::DuplicateCollator));
    let other = sr25519::Pair::generate().0;
    let other_sig = other.sign(&declare_signature_payload(&identity(1))).0;
    assert_eq!(reg.check_declare(1, &other.public().0, &other_sig), Err(DeclareError::AlreadyCollating));
    assert_eq!(reg.collating_para(1), Some(1));
    assert_eq!(reg.collating_para(2), None);
    reg.disconnect(1);
    assert_eq!(reg.find_peer_by_collator(&key), None);
    assert!(!reg.contains(1));
    assert!(reg.contains(2));
}

#[test]
fn registry_inactive_peers_once_each() {
    let policy = CollatorEvictionPolicy { inactive_collator: 50, undeclared: 25 };
    let mut reg = PeerRegistry::new();
    reg.connect(1, identity(1), 0);
    reg.connect(2, identity(2), 20);
    reg.connect(3, identity(3), 0);
    reg.set_collating(3, [9u8; 32], 1, 0);
    assert_eq!(reg.inactive_peers(30, &policy), vec![1]);
    assert_eq!(reg.inactive_peers(51, &policy), vec![1, 2, 3]);
    assert_eq!(reg.collators(), vec![(3, 1)]);
}

#[test]
fn fetch_pool_one_request_per_key() {
    let mut pool = FetchPool::new();
    assert!(pool.enqueue(H1, 1, 7));
    assert!(!pool.enqueue(H1, 1, 7));
    assert!(pool.enqueue(H1, 2, 7));
    assert!(pool.enqueue(H2, 1, 7));
    assert_eq!(pool.len(), 3);
    assert_eq!(pool.requests_to(7).len(), 3);
    assert_eq!(pool.requests_to(8).len(), 0);
    let dropped = pool.drop_relay_parent(H1);
    assert_eq!(dropped, vec![PendingCollation::new(H1, 1, 7), PendingCollation::new(H1, 2, 7)]);
    assert_eq!(pool.len(), 1);
    assert!(pool.contains(&PendingCollation::new(H2, 1, 7)));
    assert!(pool.remove(&PendingCollation::new(H2, 1, 7)));
    assert!(!pool.remove(&PendingCollation::new(H2, 1, 7)));
}

#[test]
fn reputation_kinds() {
    assert_eq!(Rep::UnexpectedMessage.kind(), RepKind::CostMinor);
    assert_eq!(Rep::CorruptedMessage.kind(), RepKind::CostMinor);
    assert_eq!(Rep::NetworkError.kind(), RepKind::CostMinor);
    assert_eq!(Rep::RequestTimedOut.kind(), RepKind::CostMinor);
    assert_eq!(Rep::UnneededCollator.kind(), RepKind::CostMinor);
    assert_eq!(Rep::InvalidSignature.kind(), RepKind::Malicious);
    assert_eq!(Rep::ReportBad.kind(), RepKind::Malicious);
    assert_eq!(Rep::WrongPara.kind(), RepKind::Malicious);
    assert_eq!(Rep::NotifyGood.kind(), RepKind::BenefitMinor);
}

#[test]
fn metrics_count() {
    let mut m = Metrics::new();
    m.on_request(true);
    m.on_request(false);
    m.on_request(true);
    m.note_collator_peer_count(4);
    assert_eq!(m.collation_requests_succeeded, 2);
    assert_eq!(m.collation_requests_failed, 1);
    assert_eq!(m.collator_peer_count, 4);
    m.collation_requests_failed = u64::MAX;
    m.on_request(false);
    assert_eq!(m.collation_requests_failed, u64::MAX);
}

#[test]
fn advertisement_errors_cost_reputation() {
    let pair = sr25519::Pair::generate().0;
    let mut state = collating_state(vec![H1, H2], &[(1, &pair)]);
    state.handle_peer_connected(2, identity(2), 0);
    let unexpected = |p: PeerId| vec![Action::ReportPeer(p, Rep::UnexpectedMessage)];
    // out of our view
    assert_eq!(state.handle_advertisement(1, H3, 1), unexpected(1));
    // not declared
    assert_eq!(state.handle_advertisement(2, H1, 1), unexpected(2));
    // not connected
    assert_eq!(state.handle_advertisement(3, H1, 1), unexpected(3));
    request_of(&state.handle_advertisement(1, H1, 1));
    // advertised before
    assert_eq!(state.handle_advertisement(1, H1, 2), unexpected(1));
}

#[test]
fn duplicate_collator_keeps_second_peer_undeclared() {
    let pair = sr25519::Pair::generate().0;
    let mut state = collating_state(vec![H1], &[(1, &pair)]);
    state.handle_peer_connected(2, identity(2), 0);
    let actions = state.process_incoming_peer_message(2, signed_declare(2, &pair, 1), 0);
    assert_eq!(actions, vec![Action::ReportPeer(2, Rep::UnexpectedMessage)]);
    // peer 2 is still undeclared: its advertisements are refused
    assert_eq!(state.handle_advertisement(2, H1, 1), vec![Action::ReportPeer(2, Rep::UnexpectedMessage)]);
}

#[test]
fn redeclaration_and_unknown_peer_rejected() {
    let pair = sr25519::Pair::generate().0;
    let mut state = collating_state(vec![H1], &[(1, &pair)]);
    let other = sr25519::Pair::generate().0;
    let actions = state.process_incoming_peer_message(1, signed_declare(1, &other, 1), 0);
    assert_eq!(actions, vec![Action::ReportPeer(1, Rep::UnexpectedMessage)]);
    let actions = state.process_incoming_peer_message(5, signed_declare(5, &other, 1), 0);
    assert_eq!(actions, vec![Action::ReportPeer(5, Rep::UnexpectedMessage)]);
}

#[test]
fn invalid_signature_leaves_peer_undeclared() {
    let pair = sr25519::Pair::generate().0;
    let mut state = collating_state(vec![H1], &[]);
    state.handle_peer_connected(1, identity(1), 0);
    // signed for another peer
    let msg = WireMessage::Declare(pair.public().0, 1, pair.sign(&declare_signature_payload(&identity(2))).0);
    assert_eq!(state.process_incoming_peer_message(1, msg, 0), vec![Action::ReportPeer(1, Rep::InvalidSignature)]);
    assert_eq!(state.handle_advertisement(1, H1, 1), vec![Action::ReportPeer(1, Rep::UnexpectedMessage)]);
}

#[test]
fn response_failures_cost_reputation() {
    let pair = sr25519::Pair::generate().0;
    let mut state = collating_state(vec![H1, H2, H3], &[(1, &pair)]);
    let (_, a) = request_of(&state.handle_advertisement(1, H1, 1));
    let (_, b) = request_of(&state.handle_advertisement(1, H2, 1));
    let (_, c) = request_of(&state.handle_advertisement(1, H3, 1));
    assert_eq!(state.handle_collation_response(&a, FetchResponse::InvalidResponse), vec![Action::ReportPeer(1, Rep::CorruptedMessage)]);
    assert_eq!(state.handle_collation_response(&b, FetchResponse::NetworkError), vec![Action::ReportPeer(1, Rep::NetworkError)]);
    assert_eq!(state.handle_collation_response(&c, FetchResponse::Collation { para_id: 2 }), vec![Action::ReportPeer(1, Rep::WrongPara)]);
    // each request is answered once
    assert!(state.handle_collation_response(&a, FetchResponse::Canceled).is_empty());
}

#[test]
fn seconded_and_invalid_verdicts() {
    let pair_b = sr25519::Pair::generate().0;
    let pair_c = sr25519::Pair::generate().0;
    let mut state = collating_state(vec![H1, H2], &[(1, &pair_b), (2, &pair_c)]);
    let (id_b, req_b) = request_of(&state.handle_advertisement(1, H1, 1));
    let (id_c, req_c) = request_of(&state.handle_advertisement(2, H2, 1));
    assert_eq!(state.handle_fetched_collation((id_b, req_b), Some(0xaa)).len(), 1);
    assert_eq!(state.handle_fetched_collation((id_c, req_c), Some(0xbb)).len(), 1);

    let seconded = state.process_msg(CollatorProtocolMessage::Seconded(H1), 2);
    assert_eq!(
        seconded,
        vec![
            Action::ReportPeer(1, Rep::NotifyGood),
            Action::NotifyCollationSeconded(1, H1),
        ]
    );
    // the verdict is given once
    assert!(state.process_msg(CollatorProtocolMessage::Seconded(H1), 2).is_empty());

    // a verdict on other commitments is stale
    assert!(state.process_msg(CollatorProtocolMessage::Invalid(H2, 0xaa), 2).is_empty());
    assert_eq!(
        state.process_msg(CollatorProtocolMessage::Invalid(H2, 0xbb), 2),
        vec![Action::ReportPeer(2, Rep::ReportBad)]
    );
    assert!(state.process_msg(CollatorProtocolMessage::Invalid(H2, 0xbb), 2).is_empty());
}

#[test]
fn seconded_rewards_the_peer_the_collation_came_from() {
    let pair = sr25519::Pair::generate().0;
    let mut state = collating_state(vec![H1], &[(1, &pair)]);
    let (id, req) = request_of(&state.handle_advertisement(1, H1, 1));
    state.handle_collation_response(&req, FetchResponse::Collation { para_id: 1 });
    assert_eq!(state.handle_fetched_collation((id, req), Some(0xaa)).len(), 1);
    state.handle_peer_disconnected(1);
    assert_eq!(
        state.process_msg(CollatorProtocolMessage::Seconded(H1), 2),
        vec![Action::ReportPeer(1, Rep::NotifyGood), Action::NotifyCollationSeconded(1, H1)]
    );
}

#[test]
fn peer_view_change_drops_advertisement_outside_new_view() {
    let pair = sr25519::Pair::generate().0;
    let mut state = collating_state(vec![H1, H2], &[(1, &pair)]);
    // the peer's own view is empty when it advertises
    let (_, req) = request_of(&state.handle_advertisement(1, H1, 1));
    let actions = state.handle_peer_view_change(1, RelayView::new(vec![H2]), 2);
    assert_eq!(actions, vec![Action::CancelRequest(req)]);
    // the advertisement is gone, so it may be made again
    request_of(&state.handle_advertisement(1, H1, 3));
}

#[test]
fn good_and_bad_reports_of_unknown_collators() {
    let pair = sr25519::Pair::generate().0;
    let mut state = collating_state(vec![H1], &[(1, &pair)]);
    assert_eq!(
        state.process_msg(CollatorProtocolMessage::NoteGoodCollator(pair.public().0), 0),
        vec![Action::ReportPeer(1, Rep::NotifyGood)]
    );
    assert!(state.process_msg(CollatorProtocolMessage::ReportCollator([0u8; 32]), 0).is_empty());
}

#[test]
fn messages_for_the_collator_side_are_ignored() {
    let pair = sr25519::Pair::generate().0;
    let mut state = collating_state(vec![H1], &[(1, &pair)]);
    assert!(state.process_msg(CollatorProtocolMessage::CollateOn(1), 0).is_empty());
    assert!(state.process_msg(CollatorProtocolMessage::DistributeCollation, 0).is_empty());
    assert!(state.process_msg(CollatorProtocolMessage::CollationFetchingRequest, 0).is_empty());
    assert!(state.process_incoming_peer_message(1, WireMessage::CollationSeconded(H1), 0).is_empty());
}

#[test]
fn one_candidate_per_relay_parent() {
    let pair_b = sr25519::Pair::generate().0;
    let pair_c = sr25519::Pair::generate().0;
    let mut state = collating_state(vec![H1], &[(1, &pair_b), (2, &pair_c)]);
    let (id_b, req_b) = request_of(&state.handle_advertisement(1, H1, 1));
    let (id_c, req_c) = request_of(&state.handle_advertisement(2, H1, 1));
    // a timed out fetch sends nothing
    assert!(state.handle_fetched_collation((id_b, req_b), None).is_empty());
    assert_eq!(state.handle_fetched_collation((id_c, req_c), Some(0xcc)).len(), 1);
    assert!(state.handle_fetched_collation((id_b, req_b), Some(0xdd)).is_empty());
}

#[test]
fn peer_view_change_cancels_unadvertised_requests() {
    let pair = sr25519::Pair::generate().0;
    let mut state = collating_state(vec![H1, H2], &[(1, &pair)]);
    assert!(state.handle_peer_view_change(1, RelayView::new(vec![H1, H2]), 0).is_empty());
    let (_, a) = request_of(&state.handle_advertisement(1, H1, 1));
    request_of(&state.handle_advertisement(1, H2, 1));
    let actions = state.handle_peer_view_change(1, RelayView::new(vec![H2]), 2);
    assert_eq!(actions, vec![Action::CancelRequest(a)]);
    // advertisements within the peer's view and ours stay
    assert_eq!(state.handle_advertisement(1, H2, 3), vec![Action::ReportPeer(1, Rep::UnexpectedMessage)]);
    // an unknown peer is registered by its view
    assert!(network_ok(&mut state, NetworkEvent::PeerViewChange(9, RelayView::new(vec![H1]))));
    assert_eq!(state.peer_count(), 2);
}

fn network_ok(state: &mut State, event: NetworkEvent) -> bool {
    state.handle_network_msg(event, 0).is_empty()
}

#[test]
fn our_view_change_clears_old_relay_parents() {
    let pair_b = sr25519::Pair::generate().0;
    let pair_c = sr25519::Pair::generate().0;
    let mut state = collating_state(vec![H1, H2], &[(1, &pair_b), (2, &pair_c)]);
    let (id_b, req_b) = request_of(&state.handle_advertisement(1, H1, 1));
    let (_, req_c) = request_of(&state.handle_advertisement(2, H1, 1));
    let (_, req_d) = request_of(&state.handle_advertisement(2, H2, 1));
    assert_eq!(
        state.handle_collation_response(&req_b, FetchResponse::Collation { para_id: 1 }),
        vec![Action::ForwardCollation(req_b)]
    );
    assert_eq!(state.handle_fetched_collation((id_b, req_b), Some(0xaa)).len(), 1);

    assert_eq!(state.added_relay_parents(&RelayView::new(vec![H2, H3])), vec![H3]);
    let actions = state.handle_our_view_change(RelayView::new(vec![H2, H3]), &vec![info(H3, Some(0))]);
    assert_eq!(actions, vec![Action::CancelRequest(req_c)]);
    assert!(!state.in_our_view(H1));
    // the candidate on H1 is gone, so is the request
    assert!(state.process_msg(CollatorProtocolMessage::Seconded(H1), 2).is_empty());
    assert!(state.handle_collation_response(&req_c, FetchResponse::Canceled).is_empty());
    // what remains on H2 is untouched
    assert_eq!(
        state.handle_collation_response(&req_d, FetchResponse::Canceled),
        vec![Action::ReportPeer(2, Rep::RequestTimedOut)]
    );
    // a late fetch on H1 does not reach backing
    assert!(state.handle_fetched_collation((id_b, req_c), Some(0xee)).is_empty());
    // advertisements on H1 went with it
    assert_eq!(state.handle_advertisement(1, H1, 3), vec![Action::ReportPeer(1, Rep::UnexpectedMessage)]);
}

#[test]
fn remove_relay_parent_drops_its_requests_and_candidate() {
    let pair_b = sr25519::Pair::generate().0;
    let pair_c = sr25519::Pair::generate().0;
    let mut state = collating_state(vec![H1, H2], &[(1, &pair_b), (2, &pair_c)]);
    let (id_b, req_b) = request_of(&state.handle_advertisement(1, H1, 1));
    let (_, req_c) = request_of(&state.handle_advertisement(2, H1, 1));
    let (_, req_d) = request_of(&state.handle_advertisement(2, H2, 1));
    state.handle_collation_response(&req_b, FetchResponse::Collation { para_id: 1 });
    assert_eq!(state.handle_fetched_collation((id_b, req_b), Some(0xaa)).len(), 1);
    assert_eq!(state.remove_relay_parent(H1), vec![req_c]);
    assert!(state.process_msg(CollatorProtocolMessage::Seconded(H1), 2).is_empty());
    assert_eq!(state.remove_relay_parent(H2), vec![req_d]);
    assert!(state.remove_relay_parent(H2).is_empty());
}

#[test]
fn view_change_without_assignment_disconnects_collators() {
    let pair = sr25519::Pair::generate().0;
    let mut state = collating_state(vec![H1], &[(1, &pair)]);
    state.handle_peer_connected(2, identity(2), 0);
    // the runtime gives no answer for H2: we follow no assignment there
    let actions = state.handle_our_view_change(RelayView::new(vec![H2]), &vec![]);
    assert_eq!(actions, vec![Action::DisconnectPeer(1)]);
    // an undeclared peer stays
    assert!(state.disconnect_inactive_peers(10, &CollatorEvictionPolicy { inactive_collator: 50, undeclared: 25 }).is_empty());
}

#[test]
fn undeclared_and_idle_peers_disconnected_once() {
    let policy = CollatorEvictionPolicy { inactive_collator: 50, undeclared: 25 };
    let pair = sr25519::Pair::generate().0;
    let mut state = collating_state(vec![H1], &[(1, &pair)]);
    state.handle_peer_connected(2, identity(2), 10);
    let at = |t: Instant| state.disconnect_inactive_peers(t, &policy);
    assert!(at(35).is_empty());
    assert_eq!(at(36), vec![Action::DisconnectPeer(2)]);
    assert_eq!(at(51), vec![Action::DisconnectPeer(1), Action::DisconnectPeer(2)]);
    state.handle_peer_disconnected(2);
    assert_eq!(state.disconnect_inactive_peers(51, &policy), vec![Action::DisconnectPeer(1)]);
}
