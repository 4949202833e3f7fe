use collator_protocol::assignments::{CoreState, GroupRotationInfo, SchedulingInfo, ValidatorIndex};
use collator_protocol::crypto::declare_signature_payload;
use collator_protocol::fetch::{FetchResponse, PendingCollation};
use collator_protocol::state::{Action, CollatorProtocolMessage, NetworkEvent, Rep, State, WireMessage};
use collator_protocol::view::RelayView;
use collator_protocol::{BlockHash, CollatorEvictionPolicy, CollatorId, Instant, ParaId, PeerId};
use sp_core::sr25519;
use sp_core::Pair;

const ACTIVITY_TIMEOUT: u64 = 50;
const DECLARE_TIMEOUT: u64 = 25;

fn policy() -> CollatorEvictionPolicy {
    CollatorEvictionPolicy { inactive_collator: ACTIVITY_TIMEOUT, undeclared: DECLARE_TIMEOUT }
}

fn repeat_byte(b: u8) -> BlockHash {
    u64::from_le_bytes([b; 8])
}

struct TestState {
    chain_ids: Vec<ParaId>,
    relay_parent: BlockHash,
    collators: Vec<sr25519::Pair>,
    validator_groups: Vec<Vec<ValidatorIndex>>,
    group_rotation_info: GroupRotationInfo,
    cores: Vec<CoreState>,
}

impl Default for TestState {
    fn default() -> Self {
        let chain_ids = vec![1, 2];
        TestState {
            relay_parent: repeat_byte(0x05),
            collators: (0..4).map(|_| sr25519::Pair::generate().0).collect(),
            validator_groups: vec![vec![0, 1], vec![2, 3], vec![4]],
            group_rotation_info: GroupRotationInfo { session_start_block: 0, group_rotation_frequency: 1, now: 0 },
            cores: vec![CoreState::Scheduled(chain_ids[0]), CoreState::Free, CoreState::Occupied(chain_ids[1])],
            chain_ids,
        }
    }
}

impl TestState {
    /// The runtime's answer about `relay_parent`; of the five validators, we hold the key of
    /// the first.
    fn scheduling(&self, relay_parent: BlockHash) -> SchedulingInfo {
        SchedulingInfo {
            relay_parent,
            keys_held: vec![true, false, false, false, false],
            validator_groups: self.validator_groups.clone(),
            group_rotation_info: self.group_rotation_info,
            availability_cores: self.cores.clone(),
        }
    }
}

fn network(state: &mut State, event: NetworkEvent, now: Instant) -> Vec<Action> {
    state.process_msg(CollatorProtocolMessage::NetworkBridgeUpdate(event), now)
}

fn our_view_change(state: &mut State, test_state: &TestState, heads: Vec<BlockHash>) -> Vec<Action> {
    let infos = heads.iter().map(|h| test_state.scheduling(*h)).collect();
    network(state, NetworkEvent::OurViewChange(RelayView::new(heads), infos), 0)
}

/// The network identity of a peer.
fn identity(peer: PeerId) -> Vec<u8> {
    format!("peer-{}", peer).into_bytes()
}

fn connect(state: &mut State, peer: PeerId, now: Instant) {
    assert!(network(state, NetworkEvent::PeerConnected(peer, identity(peer)), now).is_empty());
}

fn public(pair: &sr25519::Pair) -> CollatorId {
    pair.public().0
}

fn declare(state: &mut State, peer: PeerId, pair: &sr25519::Pair, para: ParaId, now: Instant) -> Vec<Action> {
    let signature = pair.sign(&declare_signature_payload(&identity(peer))).0;
    let msg = WireMessage::Declare(public(pair), para, signature);
    network(state, NetworkEvent::PeerMessage(peer, msg), now)
}

fn advertise(state: &mut State, peer: PeerId, relay_parent: BlockHash, now: Instant) -> Vec<Action> {
    network(state, NetworkEvent::PeerMessage(peer, WireMessage::AdvertiseCollation(relay_parent)), now)
}

/// The one collation request among `actions`.
fn the_request(actions: &[Action]) -> (CollatorId, PendingCollation) {
    let requests: Vec<(CollatorId, PendingCollation)> = actions
        .iter()
        .filter_map(|a| match a {
            Action::RequestCollation(id, pc) => Some((*id, *pc)),
            _ => None,
        })
        .collect();
    assert_eq!(requests.len(), 1, "There should be exactly one request");
    requests[0]
}

fn sweep(state: &State, now: Instant) -> Vec<Action> {
    state.disconnect_inactive_peers(now, &policy())
}

#[test]
fn act_on_advertisement() {
    let test_state = TestState::default();
    let mut state = State::new();
    let pair = sr25519::Pair::generate().0;

    our_view_change(&mut state, &test_state, vec![test_state.relay_parent]);
    let peer_b: PeerId = 11;
    connect(&mut state, peer_b, 0);
    assert!(declare(&mut state, peer_b, &pair, test_state.chain_ids[0], 0).is_empty());

    let actions = advertise(&mut state, peer_b, test_state.relay_parent, 0);
    let (_, req) = the_request(&actions);
    assert_eq!(req.relay_parent, test_state.relay_parent);
    assert_eq!(req.para_id, test_state.chain_ids[0]);
}

#[test]
fn collator_reporting_works() {
    let test_state = TestState::default();
    let mut state = State::new();

    our_view_change(&mut state, &test_state, vec![test_state.relay_parent]);
    let peer_b: PeerId = 11;
    let peer_c: PeerId = 12;
    connect(&mut state, peer_b, 0);
    connect(&mut state, peer_c, 0);
    assert!(declare(&mut state, peer_b, &test_state.collators[0], test_state.chain_ids[0], 0).is_empty());
    assert!(declare(&mut state, peer_c, &test_state.collators[1], test_state.chain_ids[0], 0).is_empty());

    let actions = state.process_msg(CollatorProtocolMessage::ReportCollator(public(&test_state.collators[0])), 0);
    assert_eq!(actions, vec![Action::ReportPeer(peer_b, Rep::ReportBad)]);
}

#[test]
fn collator_authentication_verification_works() {
    let test_state = TestState::default();
    let mut state = State::new();
    let peer_b: PeerId = 11;
    connect(&mut state, peer_b, 0);

    // the peer sends a declare message but signs the wrong payload
    let signature = test_state.collators[0].sign(&[42]).0;
    let msg = WireMessage::Declare(public(&test_state.collators[0]), test_state.chain_ids[0], signature);
    let actions = network(&mut state, NetworkEvent::PeerMessage(peer_b, msg), 0);

    // it should be reported for sending a message with an invalid signature
    assert_eq!(actions, vec![Action::ReportPeer(peer_b, Rep::InvalidSignature)]);
}

#[test]
fn fetch_collations_works() {
    let test_state = TestState::default();
    let mut state = State::new();

    our_view_change(&mut state, &test_state, vec![test_state.relay_parent]);
    let peer_b: PeerId = 11;
    let peer_c: PeerId = 12;
    connect(&mut state, peer_b, 0);
    connect(&mut state, peer_c, 0);
    declare(&mut state, peer_b, &test_state.collators[0], test_state.chain_ids[0], 0);
    declare(&mut state, peer_c, &test_state.collators[1], test_state.chain_ids[0], 0);

    let (_, first) = the_request(&advertise(&mut state, peer_b, test_state.relay_parent, 0));
    let (_, second) = the_request(&advertise(&mut state, peer_c, test_state.relay_parent, 0));
    assert_eq!(first.relay_parent, test_state.relay_parent);
    assert_eq!(first.para_id, test_state.chain_ids[0]);

    let actions = state.handle_collation_response(&first, FetchResponse::Collation { para_id: test_state.chain_ids[0] });
    assert_eq!(actions, vec![Action::ForwardCollation(first)]);

    assert_eq!(second.relay_parent, test_state.relay_parent);
    assert_eq!(second.para_id, test_state.chain_ids[0]);
    assert_eq!(second.peer_id, peer_c);
}

#[test]
fn inactive_disconnected() {
    let test_state = TestState::default();
    let mut state = State::new();
    let pair = sr25519::Pair::generate().0;
    let hash_a = test_state.relay_parent;

    our_view_change(&mut state, &test_state, vec![hash_a]);
    let peer_b: PeerId = 11;
    connect(&mut state, peer_b, 0);
    declare(&mut state, peer_b, &pair, test_state.chain_ids[0], 0);
    let (_, req) = the_request(&advertise(&mut state, peer_b, test_state.relay_parent, 0));
    assert_eq!(req.relay_parent, test_state.relay_parent);
    assert_eq!(req.para_id, test_state.chain_ids[0]);

    let now = ACTIVITY_TIMEOUT * 3;
    let actions = state.handle_collation_response(&req, FetchResponse::Canceled);
    assert_eq!(actions, vec![Action::ReportPeer(peer_b, Rep::RequestTimedOut)]);
    assert_eq!(sweep(&state, now), vec![Action::DisconnectPeer(peer_b)]);
}

#[test]
fn activity_extends_life() {
    let test_state = TestState::default();
    let mut state = State::new();
    let pair = sr25519::Pair::generate().0;
    let hash_a = test_state.relay_parent;
    let hash_b = repeat_byte(1);
    let hash_c = repeat_byte(2);

    our_view_change(&mut state, &test_state, vec![hash_a, hash_b, hash_c]);
    let peer_b: PeerId = 11;
    connect(&mut state, peer_b, 0);
    declare(&mut state, peer_b, &pair, test_state.chain_ids[0], 0);

    let mut now = ACTIVITY_TIMEOUT * 2 / 3;
    assert!(sweep(&state, now).is_empty());
    let (_, req_a) = the_request(&advertise(&mut state, peer_b, hash_a, now));
    assert_eq!(req_a.relay_parent, hash_a);
    assert_eq!(req_a.para_id, test_state.chain_ids[0]);

    now += ACTIVITY_TIMEOUT * 2 / 3;
    assert!(sweep(&state, now).is_empty());
    let (_, req_b) = the_request(&advertise(&mut state, peer_b, hash_b, now));
    assert_eq!(
        state.handle_collation_response(&req_a, FetchResponse::Canceled),
        vec![Action::ReportPeer(peer_b, Rep::RequestTimedOut)]
    );
    assert_eq!(req_b.relay_parent, hash_b);
    assert_eq!(req_b.para_id, test_state.chain_ids[0]);

    now += ACTIVITY_TIMEOUT * 2 / 3;
    assert!(sweep(&state, now).is_empty());
    let (_, req_c) = the_request(&advertise(&mut state, peer_b, hash_c, now));
    assert_eq!(
        state.handle_collation_response(&req_b, FetchResponse::Canceled),
        vec![Action::ReportPeer(peer_b, Rep::RequestTimedOut)]
    );
    assert_eq!(req_c.relay_parent, hash_c);
    assert_eq!(req_c.para_id, test_state.chain_ids[0]);

    now += ACTIVITY_TIMEOUT * 3 / 2;
    assert_eq!(
        state.handle_collation_response(&req_c, FetchResponse::Canceled),
        vec![Action::ReportPeer(peer_b, Rep::RequestTimedOut)]
    );
    assert_eq!(sweep(&state, now), vec![Action::DisconnectPeer(peer_b)]);
}

#[test]
fn disconnect_if_no_declare() {
    let test_state = TestState::default();
    let mut state = State::new();
    our_view_change(&mut state, &test_state, vec![test_state.relay_parent]);
    let peer_b: PeerId = 11;
    connect(&mut state, peer_b, 0);

    assert!(sweep(&state, DECLARE_TIMEOUT).is_empty());
    assert_eq!(sweep(&state, DECLARE_TIMEOUT + 10), vec![Action::DisconnectPeer(peer_b)]);
}

#[test]
fn disconnect_if_wrong_declare() {
    let test_state = TestState::default();
    let mut state = State::new();
    let pair = sr25519::Pair::generate().0;
    our_view_change(&mut state, &test_state, vec![test_state.relay_parent]);
    let peer_b: PeerId = 11;
    connect(&mut state, peer_b, 0);

    let actions = declare(&mut state, peer_b, &pair, 69, 0);
    assert_eq!(
        actions,
        vec![Action::ReportPeer(peer_b, Rep::UnneededCollator), Action::DisconnectPeer(peer_b)]
    );
}

#[test]
fn view_change_clears_old_collators() {
    let mut test_state = TestState::default();
    let mut state = State::new();
    let pair = sr25519::Pair::generate().0;
    our_view_change(&mut state, &test_state, vec![test_state.relay_parent]);
    let peer_b: PeerId = 11;
    connect(&mut state, peer_b, 0);
    assert!(declare(&mut state, peer_b, &pair, test_state.chain_ids[0], 0).is_empty());

    let hash_b = repeat_byte(69);
    test_state.group_rotation_info = test_state.group_rotation_info.bump_rotation();
    let actions = our_view_change(&mut state, &test_state, vec![hash_b]);
    assert_eq!(actions, vec![Action::DisconnectPeer(peer_b)]);
}

#[test]
fn seconding_works() {
    let test_state = TestState::default();
    let mut state = State::new();

    our_view_change(&mut state, &test_state, vec![test_state.relay_parent]);
    let peer_b: PeerId = 11;
    let peer_c: PeerId = 12;
    connect(&mut state, peer_b, 0);
    connect(&mut state, peer_c, 0);
    declare(&mut state, peer_b, &test_state.collators[0], test_state.chain_ids[0], 0);
    declare(&mut state, peer_c, &test_state.collators[1], test_state.chain_ids[0], 0);

    let (id_b, req_b) = the_request(&advertise(&mut state, peer_b, test_state.relay_parent, 0));
    let (id_c, req_c) = the_request(&advertise(&mut state, peer_c, test_state.relay_parent, 0));
    assert_eq!(req_b.relay_parent, test_state.relay_parent);
    assert_eq!(req_b.para_id, test_state.chain_ids[0]);

    let collation = FetchResponse::Collation { para_id: test_state.chain_ids[0] };
    assert_eq!(state.handle_collation_response(&req_b, collation), vec![Action::ForwardCollation(req_b)]);
    assert_eq!(req_c.relay_parent, test_state.relay_parent);
    assert_eq!(req_c.para_id, test_state.chain_ids[0]);

    let commitments_a: BlockHash = 0xa;
    let actions = state.handle_fetched_collation((id_b, req_b), Some(commitments_a));
    assert_eq!(actions.len(), 1);
    match actions[0] {
        Action::SecondCandidate(pc) => {
            assert_eq!(pc.relay_parent, test_state.relay_parent);
            assert_eq!(pc.para_id, test_state.chain_ids[0]);
            assert_eq!(pc.peer_id, peer_b);
            assert_eq!(pc.commitments_hash, Some(commitments_a));
        }
        _ => panic!("Unexpected action"),
    }

    // the second collation is fetched too, but nothing more goes to backing
    assert_eq!(state.handle_collation_response(&req_c, collation), vec![Action::ForwardCollation(req_c)]);
    assert!(state.handle_fetched_collation((id_c, req_c), Some(0xb)).is_empty());

    // without further activity both collators get disconnected
    let actions = sweep(&state, ACTIVITY_TIMEOUT + 1);
    assert!(actions.contains(&Action::DisconnectPeer(peer_b)));
    assert!(actions.contains(&Action::DisconnectPeer(peer_c)));
}
