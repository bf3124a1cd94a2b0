use mixnet::mixnet::copy_payload_data;
use mixnet::{
    post_session, Action, AddressedPacket, AuthoredChoice, AuthoredPacket, BuiltFragment, BuiltSurb,
    Config, CoverKind, Delay, Invalidated, KxStore, Message, Mixnet, Mixnode, MixnodeId,
    MixnodeIndex, NetworkStatus, PacketEvent, PacketStep, Peeled, PeelErr, PeerId, PostErr,
    Proportion, RelSessionIndex, SessionConfig, SessionKeys, SessionPhase, SessionStatus, Target,
    TopologyErr, PACKET_SIZE, SURB_SIZE,
};

fn kx(n: u8) -> [u8; 32] {
    [n; 32]
}

fn peer(n: u8) -> PeerId {
    [n.wrapping_add(100); 32]
}

fn mixnode(n: u8) -> Mixnode {
    Mixnode { kx_public: kx(n), peer_id: peer(n), addresses: vec![vec![4, n], vec![6, n]] }
}

fn roster(count: u8) -> Vec<Mixnode> {
    (0..count).map(mixnode).collect()
}

struct Connected;

impl NetworkStatus for Connected {
    fn local_peer_id(&self) -> PeerId {
        [250; 32]
    }

    fn is_connected(&self, _peer_id: &PeerId) -> bool {
        true
    }
}

struct Isolated;

impl NetworkStatus for Isolated {
    fn local_peer_id(&self) -> PeerId {
        [250; 32]
    }

    fn is_connected(&self, _peer_id: &PeerId) -> bool {
        false
    }
}

fn status(current_index: u32, phase: SessionPhase) -> SessionStatus {
    SessionStatus { current_index, phase }
}

fn keys(session_index: u32, public: u8) -> SessionKeys {
    SessionKeys { session_index, secret: [session_index as u8 + 50; 32], public: kx(public) }
}

fn set_mixnodes(mixnet: &mut Mixnet, rel: RelSessionIndex, count: u8) {
    let set: Result<(), ()> = mixnet.maybe_set_mixnodes(rel, || Ok(roster(count)));
    assert_eq!(set, Ok(()));
}

/// An engine at session 1 whose current session has five mixnodes, of which
/// the local node is number two.
fn engine(config: Config, phase: SessionPhase) -> Mixnet {
    let mut mixnet = Mixnet::new(config, KxStore::new());
    assert!(mixnet.add_session_keys(keys(1, 2)));
    mixnet.set_session_status(status(1, phase));
    set_mixnodes(&mut mixnet, RelSessionIndex::Current, 5);
    mixnet
}

/// An engine at session 2 with both sessions set up; the local node is
/// mixnode number two in both.
fn engine_with_both(config: Config, phase: SessionPhase) -> Mixnet {
    let mut mixnet = Mixnet::new(config, KxStore::new());
    assert!(mixnet.add_session_keys(keys(1, 2)));
    assert!(mixnet.add_session_keys(keys(2, 2)));
    mixnet.set_session_status(status(1, SessionPhase::ConnectToCurrent));
    set_mixnodes(&mut mixnet, RelSessionIndex::Current, 5);
    mixnet.set_session_status(status(2, phase));
    set_mixnodes(&mut mixnet, RelSessionIndex::Current, 5);
    mixnet
}

fn packet_with_key(n: u8) -> [u8; PACKET_SIZE] {
    let mut packet = [0u8; PACKET_SIZE];
    packet[..32].copy_from_slice(&kx(n));
    packet
}

fn forward_to(index: u16, units: u64, fill: u8) -> Peeled {
    Peeled {
        action: Action::ForwardTo {
            target: Target::MixnodeIndex(MixnodeIndex { raw: index }),
            delay: Delay { units },
        },
        out: Box::new([fill; PACKET_SIZE]),
    }
}

fn peeled(rel: RelSessionIndex, result: Result<Peeled, PeelErr>) -> PacketEvent {
    PacketEvent::Peeled { rel_session_index: rel, result }
}

fn built(fill: u8, units: u64, surbs: Vec<BuiltSurb>) -> BuiltFragment {
    BuiltFragment {
        packet: AddressedPacket { peer_id: peer(fill), packet: Box::new([fill; PACKET_SIZE]) },
        delay: Delay { units },
        surbs,
    }
}

fn surb_for(index: u16, fill: u8) -> [u8; SURB_SIZE] {
    let mut surb = [fill; SURB_SIZE];
    surb[0] = (index % 256) as u8;
    surb[1] = (index / 256) as u8;
    surb
}

/// The payload data of a packet that holds one fragment.
fn fragment_bytes(id: u8, last_index: u16, index: u16, data: &[u8]) -> [u8; 2048] {
    let mut bytes = [0u8; 2048];
    bytes[..32].copy_from_slice(&[id; 32]);
    bytes[32..34].copy_from_slice(&last_index.to_le_bytes());
    bytes[34..36].copy_from_slice(&index.to_le_bytes());
    bytes[36..38].copy_from_slice(&(data.len() as u16).to_le_bytes());
    bytes[38] = 0;
    bytes[39..39 + data.len()].copy_from_slice(data);
    bytes
}

fn out_with_fragment(fragment: &[u8; 2048]) -> Box<[u8; PACKET_SIZE]> {
    let mut out = Box::new([0u8; PACKET_SIZE]);
    out[..2048].copy_from_slice(fragment);
    out
}

#[test]
fn fresh_engine_has_nothing_queued() {
    let mut mixnet = Mixnet::new(Config::default(), KxStore::new());
    assert_eq!(mixnet.forward_packet_queue_len(), 0);
    assert_eq!(mixnet.next_forward_packet_deadline(), None);
    assert_eq!(mixnet.pop_next_forward_packet(), None);
    assert!(mixnet.is_session_empty(RelSessionIndex::Current));
    assert!(mixnet.is_session_empty(RelSessionIndex::Prev));
    assert_eq!(mixnet.next_authored_packet_delay(Delay { units: 65536 }), None);
    assert_eq!(mixnet.pop_next_authored_packet(&Connected), None);
    assert_eq!(mixnet.session_status(), status(0, SessionPhase::ConnectToCurrent));
    assert!(mixnet.reserved_peer_addresses().is_empty());
}

#[test]
fn setting_the_same_status_changes_nothing() {
    let mut mixnet = Mixnet::new(Config::default(), KxStore::new());
    mixnet.set_session_status(status(0, SessionPhase::ConnectToCurrent));
    assert_eq!(mixnet.take_invalidated(), Invalidated::empty());
}

#[test]
fn status_change_raises_session_flags() {
    let mut mixnet = Mixnet::new(Config::default(), KxStore::new());
    mixnet.set_session_status(status(0, SessionPhase::CoverToCurrent));
    let flags = mixnet.take_invalidated();
    assert!(flags.contains(Invalidated::reserved_peers()));
    assert!(flags.contains(Invalidated::next_authored_packet_deadline()));
    assert!(!flags.contains(Invalidated::next_forward_packet_deadline()));
    assert_eq!(flags.bits(), 0b101);
    assert_eq!(mixnet.take_invalidated(), Invalidated::empty());
}

#[test]
fn forward_pop_raises_forward_flag() {
    let mut mixnet = Mixnet::new(Config::default(), KxStore::new());
    assert_eq!(mixnet.pop_next_forward_packet(), None);
    assert_eq!(mixnet.take_invalidated(), Invalidated::next_forward_packet_deadline());
}

#[test]
fn session_index_advance_by_one_rotates() {
    let mut mixnet = engine(Config::default(), SessionPhase::RequestsAndRepliesToCurrent);
    assert!(mixnet.is_session_full(RelSessionIndex::Current));
    mixnet.set_session_status(status(2, SessionPhase::ConnectToCurrent));
    assert!(mixnet.is_session_empty(RelSessionIndex::Current));
    assert!(mixnet.is_session_full(RelSessionIndex::Prev));
}

#[test]
fn session_index_jump_clears_both_slots() {
    let mut mixnet = engine_with_both(Config::default(), SessionPhase::ConnectToCurrent);
    assert!(mixnet.is_session_full(RelSessionIndex::Current));
    assert!(mixnet.is_session_full(RelSessionIndex::Prev));
    mixnet.set_session_status(status(4, SessionPhase::ConnectToCurrent));
    assert!(mixnet.is_session_empty(RelSessionIndex::Current));
    assert!(mixnet.is_session_empty(RelSessionIndex::Prev));
    let mut backwards = engine(Config::default(), SessionPhase::ConnectToCurrent);
    backwards.set_session_status(status(0, SessionPhase::ConnectToCurrent));
    assert!(backwards.is_session_empty(RelSessionIndex::Current));
    assert!(backwards.is_session_empty(RelSessionIndex::Prev));
}

#[test]
fn disconnect_phase_disables_prev_and_discards_its_keys() {
    let mut mixnet = engine_with_both(Config::default(), SessionPhase::CoverToPrev);
    assert!(mixnet.kx_store().public_for_session(1).is_some());
    mixnet.set_session_status(status(2, SessionPhase::DisconnectFromPrev));
    assert!(!mixnet.is_session_full(RelSessionIndex::Prev));
    assert!(!mixnet.is_session_empty(RelSessionIndex::Prev));
    assert!(mixnet.is_session_full(RelSessionIndex::Current));
    assert_eq!(mixnet.kx_store().public_for_session(1), None);
    assert!(mixnet.kx_store().is_discarded(1));
    assert_eq!(mixnet.kx_store().public_for_session(2), Some(kx(2)));
    // A disabled slot is not filled again.
    let set: Result<(), ()> = mixnet.maybe_set_mixnodes(RelSessionIndex::Prev, || panic!("not asked"));
    assert_eq!(set, Ok(()));
}

#[test]
fn mixnodes_are_only_asked_for_an_empty_slot() {
    let mut mixnet = engine(Config::default(), SessionPhase::CoverToCurrent);
    mixnet.take_invalidated();
    let set: Result<(), ()> = mixnet.maybe_set_mixnodes(RelSessionIndex::Current, || panic!("not asked"));
    assert_eq!(set, Ok(()));
    assert_eq!(mixnet.take_invalidated(), Invalidated::empty());
}

#[test]
fn failing_to_provide_mixnodes_leaves_the_slot_empty() {
    let mut mixnet = Mixnet::new(Config::default(), KxStore::new());
    let set: Result<(), &str> = mixnet.maybe_set_mixnodes(RelSessionIndex::Current, || Err("offline"));
    assert_eq!(set, Err("offline"));
    assert!(mixnet.is_session_empty(RelSessionIndex::Current));
}

#[test]
fn session_without_keys_is_disabled() {
    let mut mixnet = Mixnet::new(Config::default(), KxStore::new());
    mixnet.set_session_status(status(3, SessionPhase::RequestsAndRepliesToCurrent));
    mixnet.take_invalidated();
    // No key pair was ever added for session 3.
    set_mixnodes(&mut mixnet, RelSessionIndex::Current, 5);
    assert!(!mixnet.is_session_empty(RelSessionIndex::Current));
    assert!(!mixnet.is_session_full(RelSessionIndex::Current));
    assert!(mixnet.is_session_empty(RelSessionIndex::Prev));
    assert_eq!(mixnet.take_invalidated(), Invalidated::empty());
    // Keys that come later do not bring the session back.
    assert!(mixnet.add_session_keys(keys(3, 9)));
    let set: Result<(), ()> = mixnet.maybe_set_mixnodes(RelSessionIndex::Current, || panic!("not asked"));
    assert_eq!(set, Ok(()));
    assert!(!mixnet.is_session_full(RelSessionIndex::Current));
    let mut destination = None;
    assert_eq!(
        mixnet.post_request(&mut destination, b"x", 0, &Connected),
        Err(PostErr::SessionDisabled(3))
    );
    // The key pair of session 2 is still wanted, and with it the slot fills.
    assert!(mixnet.add_session_keys(keys(2, 9)));
    set_mixnodes(&mut mixnet, RelSessionIndex::Prev, 5);
    assert!(mixnet.is_session_full(RelSessionIndex::Prev));
    assert_eq!(mixnet.is_mixnode(RelSessionIndex::Prev), Some(false));
    assert_eq!(mixnet.take_invalidated(), Invalidated::sessions_changed());
}

#[test]
fn session_with_discarded_keys_is_disabled() {
    let mut mixnet = engine_with_both(Config::default(), SessionPhase::CoverToPrev);
    // The index moves on by two, which discards the keys of the sessions
    // before session 3, and then back.
    mixnet.set_session_status(status(4, SessionPhase::CoverToCurrent));
    mixnet.set_session_status(status(2, SessionPhase::CoverToCurrent));
    assert!(mixnet.is_session_empty(RelSessionIndex::Current));
    assert!(mixnet.kx_store().is_discarded(2));
    assert!(!mixnet.add_session_keys(keys(2, 2)));
    set_mixnodes(&mut mixnet, RelSessionIndex::Current, 5);
    assert!(!mixnet.is_session_empty(RelSessionIndex::Current));
    assert!(!mixnet.is_session_full(RelSessionIndex::Current));
}

#[test]
fn sessions_with_very_long_periods_are_split_exactly() {
    let mut config = Config::default();
    config.loop_cover_proportion = Proportion { numerator: 0, denominator: 1 };
    config.mixnode_session.mean_authored_packet_period = u64::MAX;
    let mut mixnet = engine_with_both(config, SessionPhase::CoverToCurrent);
    let period = u64::MAX as u128;
    assert_eq!(mixnet.session_draw_bound(), 2 * period);
    let chosen = |choice: AuthoredChoice| match choice {
        AuthoredChoice::Cover { rel_session_index, kind: CoverKind::Drop } => rel_session_index,
        other => panic!("unexpected choice {:?}", other),
    };
    assert_eq!(chosen(mixnet.choose_authored(0, 0)), RelSessionIndex::Current);
    assert_eq!(chosen(mixnet.choose_authored(period - 1, 0)), RelSessionIndex::Current);
    assert_eq!(chosen(mixnet.choose_authored(period, 0)), RelSessionIndex::Prev);
    assert_eq!(chosen(mixnet.choose_authored(2 * period - 1, 0)), RelSessionIndex::Prev);
}

#[test]
fn sessions_with_period_zero_send_for_the_current_session() {
    let mut config = Config::default();
    config.loop_cover_proportion = Proportion { numerator: 0, denominator: 1 };
    config.mixnode_session.mean_authored_packet_period = 0;
    let mut mixnet = engine_with_both(config, SessionPhase::CoverToCurrent);
    assert_eq!(mixnet.session_draw_bound(), 1);
    assert_eq!(
        mixnet.choose_authored(0, 0),
        AuthoredChoice::Cover { rel_session_index: RelSessionIndex::Current, kind: CoverKind::Drop }
    );
    assert_eq!(mixnet.next_authored_packet_delay(Delay { units: 65536 }), Some(0));
}

#[test]
fn non_mixnode_without_session_config_is_disabled() {
    let mut config = Config::default();
    config.non_mixnode_session = None;
    let mut mixnet = Mixnet::new(config, KxStore::new());
    assert!(mixnet.add_session_keys(keys(0, 9)));
    set_mixnodes(&mut mixnet, RelSessionIndex::Current, 5);
    assert!(!mixnet.is_session_full(RelSessionIndex::Current));
    assert!(!mixnet.is_session_empty(RelSessionIndex::Current));
}

#[test]
fn reserved_peers_are_the_other_mixnodes_once_each() {
    let mixnet = engine_with_both(Config::default(), SessionPhase::CoverToCurrent);
    let mut addresses = mixnet.reserved_peer_addresses();
    addresses.sort();
    let mut expected: Vec<Vec<u8>> = Vec::new();
    for n in [0u8, 1, 3, 4] {
        expected.push(vec![4, n]);
        expected.push(vec![6, n]);
    }
    expected.sort();
    assert_eq!(addresses, expected);
}

#[test]
fn post_session_errors() {
    let mixnet_status = status(5, SessionPhase::CoverToPrev);
    let sessions = mixnet::sessions::Sessions::new();
    assert_eq!(post_session(&sessions, mixnet_status, 7), Err(PostErr::BadSessionIndex(7)));
    assert_eq!(post_session(&sessions, mixnet_status, 3), Err(PostErr::BadSessionIndex(3)));
    assert_eq!(post_session(&sessions, mixnet_status, 4), Err(PostErr::RequestsAndRepliesBlocked(4)));
    assert_eq!(post_session(&sessions, mixnet_status, 5), Err(PostErr::SessionEmpty(5)));
    assert_eq!(
        post_session(&sessions, status(5, SessionPhase::CoverToCurrent), 4),
        Err(PostErr::SessionEmpty(4))
    );
    // The index of the session before session zero wraps round.
    assert_eq!(
        post_session(&sessions, status(0, SessionPhase::CoverToCurrent), u32::MAX),
        Err(PostErr::SessionEmpty(u32::MAX))
    );
}

#[test]
fn replayed_packet_changes_nothing() {
    let mut mixnet = engine(Config::default(), SessionPhase::RequestsAndRepliesToCurrent);
    let packet = packet_with_key(11);
    assert!(matches!(
        mixnet.handle_packet(&packet, PacketEvent::Received, 10),
        PacketStep::Peel { rel_session_index: RelSessionIndex::Current, .. }
    ));
    mixnet.handle_packet(&packet, peeled(RelSessionIndex::Current, Ok(forward_to(1, 0, 1))), 10);
    assert!(mixnet.has_seen(RelSessionIndex::Current, &kx(11)));
    mixnet.take_invalidated();
    for _ in 0..3 {
        assert_eq!(
            mixnet.handle_packet(&packet, PacketEvent::Received, 20),
            PacketStep::Done(None)
        );
        assert_eq!(mixnet.forward_packet_queue_len(), 1);
        assert_eq!(mixnet.take_invalidated(), Invalidated::empty());
    }
}

#[test]
fn mac_failure_moves_on_to_the_previous_session() {
    let mut mixnet = engine_with_both(Config::default(), SessionPhase::CoverToCurrent);
    let packet = packet_with_key(12);
    assert_eq!(
        mixnet.handle_packet(&packet, PacketEvent::Received, 0),
        PacketStep::Peel { rel_session_index: RelSessionIndex::Current, session_index: 2, secret: [52; 32] }
    );
    assert_eq!(
        mixnet.handle_packet(&packet, peeled(RelSessionIndex::Current, Err(PeelErr::Mac)), 0),
        PacketStep::Peel { rel_session_index: RelSessionIndex::Prev, session_index: 1, secret: [51; 32] }
    );
    assert_eq!(
        mixnet.handle_packet(&packet, peeled(RelSessionIndex::Prev, Err(PeelErr::Mac)), 0),
        PacketStep::Done(None)
    );
    assert_eq!(
        mixnet.handle_packet(&packet, peeled(RelSessionIndex::Current, Err(PeelErr::Malformed)), 0),
        PacketStep::Done(None)
    );
    assert!(!mixnet.has_seen(RelSessionIndex::Current, &kx(12)));
    assert!(!mixnet.has_seen(RelSessionIndex::Prev, &kx(12)));
    // Taken in the previous session, the packet is recorded there only.
    mixnet.handle_packet(&packet, peeled(RelSessionIndex::Prev, Ok(forward_to(1, 0, 1))), 0);
    assert!(mixnet.has_seen(RelSessionIndex::Prev, &kx(12)));
    assert!(!mixnet.has_seen(RelSessionIndex::Current, &kx(12)));
    assert_eq!(
        mixnet.handle_packet(&packet, PacketEvent::Received, 0),
        PacketStep::Peel { rel_session_index: RelSessionIndex::Current, session_index: 2, secret: [52; 32] }
    );
    assert_eq!(
        mixnet.handle_packet(&packet, peeled(RelSessionIndex::Current, Err(PeelErr::Mac)), 0),
        PacketStep::Done(None)
    );
}

#[test]
fn discarded_session_takes_no_packets() {
    let mut mixnet = engine_with_both(Config::default(), SessionPhase::CoverToPrev);
    let packet = packet_with_key(13);
    mixnet.set_session_status(status(2, SessionPhase::DisconnectFromPrev));
    assert_eq!(
        mixnet.handle_packet(&packet, PacketEvent::Received, 0),
        PacketStep::Peel { rel_session_index: RelSessionIndex::Current, session_index: 2, secret: [52; 32] }
    );
    assert_eq!(
        mixnet.handle_packet(&packet, peeled(RelSessionIndex::Current, Err(PeelErr::Mac)), 0),
        PacketStep::Done(None)
    );
    assert_eq!(
        mixnet.handle_packet(&packet, peeled(RelSessionIndex::Prev, Ok(forward_to(1, 0, 1))), 0),
        PacketStep::Done(None)
    );
    assert_eq!(mixnet.forward_packet_queue_len(), 0);
    assert!(!mixnet.has_seen(RelSessionIndex::Current, &kx(13)));
}

#[test]
fn pending_secrets_come_into_use_when_a_packet_arrives() {
    let mut mixnet = engine(Config::default(), SessionPhase::CoverToCurrent);
    assert_eq!(mixnet.kx_store().session_secret(1), None);
    mixnet.handle_packet(&packet_with_key(1), PacketEvent::Received, 0);
    assert_eq!(mixnet.kx_store().session_secret(1), Some([51; 32]));
}

#[test]
fn forward_packets_leave_in_deadline_order() {
    let mut mixnet = engine(Config::default(), SessionPhase::RequestsAndRepliesToCurrent);
    let delays = [3u64, 1, 2, 1, 0];
    for (i, units) in delays.iter().enumerate() {
        let packet = packet_with_key(20 + i as u8);
        mixnet.take_invalidated();
        let before = mixnet.next_forward_packet_deadline();
        mixnet.handle_packet(
            &packet,
            peeled(RelSessionIndex::Current, Ok(forward_to(1, units * 65536, i as u8))),
            100,
        );
        let head_changed = mixnet.next_forward_packet_deadline() != before;
        assert_eq!(
            mixnet.take_invalidated().contains(Invalidated::next_forward_packet_deadline()),
            head_changed
        );
    }
    assert_eq!(mixnet.forward_packet_queue_len(), 5);
    let mut fills = Vec::new();
    let mut deadlines = Vec::new();
    while let Some(deadline) = mixnet.next_forward_packet_deadline() {
        deadlines.push(deadline);
        fills.push(mixnet.pop_next_forward_packet().unwrap().packet[0]);
    }
    let second = 1_000_000_000u64;
    assert_eq!(deadlines, vec![100, 100 + second, 100 + second, 100 + 2 * second, 100 + 3 * second]);
    // Packets with the same deadline leave in the order of their arrival.
    assert_eq!(fills, vec![4, 1, 3, 2, 0]);
}

#[test]
fn forward_deadline_saturates() {
    let mut mixnet = engine(Config::default(), SessionPhase::RequestsAndRepliesToCurrent);
    mixnet.handle_packet(
        &packet_with_key(30),
        peeled(RelSessionIndex::Current, Ok(forward_to(1, u64::MAX, 0))),
        u64::MAX - 5,
    );
    assert_eq!(mixnet.next_forward_packet_deadline(), Some(u64::MAX));
}

#[test]
fn full_forward_queue_drops_and_does_not_record() {
    let mut config = Config::default();
    config.forward_packet_queue_capacity = 1;
    let mut mixnet = engine(config, SessionPhase::RequestsAndRepliesToCurrent);
    mixnet.handle_packet(&packet_with_key(31), peeled(RelSessionIndex::Current, Ok(forward_to(1, 0, 0))), 0);
    mixnet.handle_packet(&packet_with_key(32), peeled(RelSessionIndex::Current, Ok(forward_to(1, 0, 0))), 0);
    assert_eq!(mixnet.forward_packet_queue_len(), 1);
    assert!(mixnet.has_seen(RelSessionIndex::Current, &kx(31)));
    assert!(!mixnet.has_seen(RelSessionIndex::Current, &kx(32)));
}

#[test]
fn unknown_target_is_recorded_but_not_queued() {
    let mut mixnet = engine(Config::default(), SessionPhase::RequestsAndRepliesToCurrent);
    mixnet.handle_packet(&packet_with_key(33), peeled(RelSessionIndex::Current, Ok(forward_to(9, 0, 0))), 0);
    assert_eq!(mixnet.forward_packet_queue_len(), 0);
    assert!(mixnet.has_seen(RelSessionIndex::Current, &kx(33)));
    // A target that is a peer needs no roster.
    let to_peer = Peeled {
        action: Action::ForwardTo { target: Target::PeerId([66; 32]), delay: Delay::zero() },
        out: Box::new([5; PACKET_SIZE]),
    };
    mixnet.handle_packet(&packet_with_key(34), peeled(RelSessionIndex::Current, Ok(to_peer)), 7);
    assert_eq!(mixnet.pop_next_forward_packet().unwrap().peer_id, [66; 32]);
}

#[test]
fn non_mixnode_forwards_nothing_and_records_nothing() {
    let mut mixnet = Mixnet::new(Config::default(), KxStore::new());
    assert!(mixnet.add_session_keys(keys(0, 9)));
    set_mixnodes(&mut mixnet, RelSessionIndex::Current, 5);
    assert_eq!(mixnet.is_mixnode(RelSessionIndex::Current), Some(false));
    let packet = packet_with_key(35);
    mixnet.handle_packet(&packet, peeled(RelSessionIndex::Current, Ok(forward_to(1, 0, 0))), 0);
    let request = Peeled { action: Action::DeliverRequest, out: Box::new([0; PACKET_SIZE]) };
    assert_eq!(
        mixnet.handle_packet(&packet, peeled(RelSessionIndex::Current, Ok(request)), 0),
        PacketStep::Done(None)
    );
    assert_eq!(mixnet.forward_packet_queue_len(), 0);
    assert!(!mixnet.has_seen(RelSessionIndex::Current, &kx(35)));
}

#[test]
fn cover_packets_are_dropped() {
    let mut mixnet = engine(Config::default(), SessionPhase::RequestsAndRepliesToCurrent);
    let cover = Peeled { action: Action::DeliverCover { cover_id: None }, out: Box::new([0; PACKET_SIZE]) };
    assert_eq!(
        mixnet.handle_packet(&packet_with_key(36), peeled(RelSessionIndex::Current, Ok(cover)), 0),
        PacketStep::Done(None)
    );
    assert!(!mixnet.has_seen(RelSessionIndex::Current, &kx(36)));
}

#[test]
fn request_fragments_are_delivered_as_one_message() {
    let mut mixnet = engine(Config::default(), SessionPhase::RequestsAndRepliesToCurrent);
    let first = fragment_bytes(8, 1, 0, b"hello ");
    let second = fragment_bytes(8, 1, 1, b"world");
    let step = mixnet.handle_packet(
        &packet_with_key(40),
        peeled(
            RelSessionIndex::Current,
            Ok(Peeled { action: Action::DeliverRequest, out: out_with_fragment(&second) }),
        ),
        0,
    );
    assert_eq!(step, PacketStep::Done(None));
    assert_eq!(mixnet.num_incomplete_messages(), 1);
    let step = mixnet.handle_packet(
        &packet_with_key(41),
        peeled(
            RelSessionIndex::Current,
            Ok(Peeled { action: Action::DeliverRequest, out: out_with_fragment(&first) }),
        ),
        0,
    );
    assert_eq!(
        step,
        PacketStep::Done(Some(Message::Request {
            session_index: 1,
            data: b"hello world".to_vec(),
            surbs: Vec::new()
        }))
    );
    assert_eq!(mixnet.num_incomplete_messages(), 0);
    assert!(mixnet.has_seen(RelSessionIndex::Current, &kx(40)));
    assert!(mixnet.has_seen(RelSessionIndex::Current, &kx(41)));
}

#[test]
fn reply_is_decrypted_with_keys_that_are_given_out_once() {
    let mut mixnet = engine(Config::default(), SessionPhase::RequestsAndRepliesToCurrent);
    let surb = BuiltSurb { id: [3; 16], keys: vec![1, 2, 3], delay: Delay::zero() };
    assert_eq!(mixnet.finish_request(1, vec![built(1, 0, vec![surb])]), Ok(0));
    assert_eq!(mixnet.surb_keystore_len(), 1);

    let encrypted = fragment_bytes(6, 0, 0, b"answer");
    let reply = || Peeled {
        action: Action::DeliverReply { surb_id: [3; 16] },
        out: out_with_fragment(&encrypted),
    };
    let packet = packet_with_key(42);
    let step = mixnet.handle_packet(&packet, peeled(RelSessionIndex::Current, Ok(reply())), 0);
    let mut expected_payload = Box::new([0u8; 2064]);
    expected_payload[..2048].copy_from_slice(&encrypted);
    assert_eq!(step, PacketStep::DecryptReply { keys: vec![1, 2, 3], payload: expected_payload.clone() });
    assert_eq!(mixnet.surb_keystore_len(), 0);
    assert!(!mixnet.has_seen(RelSessionIndex::Current, &kx(42)));

    let step = mixnet.handle_packet(
        &packet,
        PacketEvent::ReplyDecrypted { payload: Some(expected_payload) },
        0,
    );
    assert_eq!(step, PacketStep::Done(Some(Message::Reply { id: [6; 32], data: b"answer".to_vec() })));

    // The same reply again finds no keys.
    assert_eq!(
        mixnet.handle_packet(&packet, peeled(RelSessionIndex::Current, Ok(reply())), 0),
        PacketStep::Done(None)
    );
    assert_eq!(
        mixnet.handle_packet(&packet, PacketEvent::ReplyDecrypted { payload: None }, 0),
        PacketStep::Done(None)
    );
    assert_eq!(copy_payload_data(&encrypted), encrypted);
}

#[test]
fn authored_delay_is_the_capped_draw_times_the_smallest_mean() {
    let mixnet = engine_with_both(Config::default(), SessionPhase::CoverToCurrent);
    // Both sessions are mixnode sessions with a mean period of 100 ms.
    assert_eq!(mixnet.next_authored_packet_delay(Delay { units: 65536 }), Some(100_000_000));
    assert_eq!(mixnet.next_authored_packet_delay(Delay { units: 32768 }), Some(50_000_000));
    assert_eq!(mixnet.next_authored_packet_delay(Delay { units: 0 }), Some(0));
    assert_eq!(mixnet.next_authored_packet_delay(Delay { units: 10 * 65536 }), Some(1_000_000_000));
    assert_eq!(mixnet.next_authored_packet_delay(Delay { units: 11 * 65536 }), Some(1_000_000_000));
    assert_eq!(mixnet.next_authored_packet_delay(Delay { units: u64::MAX }), Some(1_000_000_000));
}

#[test]
fn authored_delay_needs_an_active_session() {
    // While connecting, cover goes to the previous session only; there is none.
    let mixnet = engine(Config::default(), SessionPhase::ConnectToCurrent);
    assert_eq!(mixnet.next_authored_packet_delay(Delay { units: 65536 }), None);
    let mixnet = engine(Config::default(), SessionPhase::CoverToCurrent);
    assert_eq!(mixnet.next_authored_packet_delay(Delay { units: 65536 }), Some(100_000_000));
}

#[test]
fn loop_cover_is_chosen_in_the_configured_proportion() {
    let mut config = Config::default();
    config.loop_cover_proportion = Proportion { numerator: 3, denominator: 8 };
    let mut mixnet = engine(config, SessionPhase::CoverToCurrent);
    assert_eq!(mixnet.loop_draw_bound(), 8);
    let mut loops = 0;
    for draw in 0..8 {
        match mixnet.choose_authored(0, draw) {
            AuthoredChoice::Cover { rel_session_index: RelSessionIndex::Current, kind: CoverKind::Loop } => {
                loops += 1
            },
            AuthoredChoice::Cover { rel_session_index: RelSessionIndex::Current, kind: CoverKind::Drop } => {},
            other => panic!("unexpected choice {:?}", other),
        }
    }
    assert_eq!(loops, 3);
}

#[test]
fn sessions_are_chosen_in_proportion_to_their_rates() {
    let mut config = Config::default();
    config.loop_cover_proportion = Proportion { numerator: 0, denominator: 1 };
    config.mixnode_session = SessionConfig { authored_packet_queue_capacity: 4, mean_authored_packet_period: 2 };
    config.non_mixnode_session = Some(SessionConfig { authored_packet_queue_capacity: 4, mean_authored_packet_period: 5 });
    // Mixnode in the previous session, not a mixnode in the current one.
    let mut mixnet = Mixnet::new(config, KxStore::new());
    assert!(mixnet.add_session_keys(keys(1, 2)));
    assert!(mixnet.add_session_keys(keys(2, 9)));
    mixnet.set_session_status(status(1, SessionPhase::ConnectToCurrent));
    set_mixnodes(&mut mixnet, RelSessionIndex::Current, 5);
    mixnet.set_session_status(status(2, SessionPhase::CoverToCurrent));
    set_mixnodes(&mut mixnet, RelSessionIndex::Current, 5);
    assert_eq!(mixnet.is_mixnode(RelSessionIndex::Current), Some(false));
    assert_eq!(mixnet.is_mixnode(RelSessionIndex::Prev), Some(true));

    // Mean periods 5 (current) and 2 (previous): of 7 draws, 2 go to the
    // current session.
    assert_eq!(mixnet.session_draw_bound(), 7);
    let mut current = 0;
    for draw in 0..7 {
        match mixnet.choose_authored(draw, 0) {
            AuthoredChoice::Cover { rel_session_index: RelSessionIndex::Current, kind: CoverKind::Drop } => {
                current += 1
            },
            AuthoredChoice::Cover { rel_session_index: RelSessionIndex::Prev, kind: CoverKind::Drop } => {},
            other => panic!("unexpected choice {:?}", other),
        }
    }
    assert_eq!(current, 2);
    assert_eq!(mixnet.next_authored_packet_delay(Delay { units: 65536 }), Some(2));
}

#[test]
fn queued_packets_go_before_drop_cover() {
    let mut config = Config::default();
    config.loop_cover_proportion = Proportion { numerator: 1, denominator: 2 };
    let mut mixnet = engine(config, SessionPhase::RequestsAndRepliesToCurrent);
    assert_eq!(mixnet.finish_request(1, vec![built(1, 0, vec![]), built(2, 0, vec![])]), Ok(0));
    mixnet.take_invalidated();
    assert_eq!(
        mixnet.choose_authored(0, 0),
        AuthoredChoice::Cover { rel_session_index: RelSessionIndex::Current, kind: CoverKind::Loop }
    );
    assert_eq!(mixnet.take_invalidated(), Invalidated::next_authored_packet_deadline());
    assert_eq!(mixnet.authored_packet_queue_len(RelSessionIndex::Current), 2);
    match mixnet.choose_authored(0, 1) {
        AuthoredChoice::Packet(AuthoredPacket::Built(packet)) => assert_eq!(packet.packet[0], 1),
        other => panic!("unexpected choice {:?}", other),
    }
    match mixnet.choose_authored(0, 1) {
        AuthoredChoice::Packet(AuthoredPacket::Built(packet)) => assert_eq!(packet.packet[0], 2),
        other => panic!("unexpected choice {:?}", other),
    }
    assert_eq!(
        mixnet.choose_authored(0, 1),
        AuthoredChoice::Cover { rel_session_index: RelSessionIndex::Current, kind: CoverKind::Drop }
    );
}

#[test]
fn blocked_session_sends_cover_and_keeps_its_queue() {
    let mut config = Config::default();
    config.loop_cover_proportion = Proportion { numerator: 0, denominator: 1 };
    let mut mixnet = engine(config, SessionPhase::RequestsAndRepliesToCurrent);
    assert_eq!(mixnet.finish_request(1, vec![built(1, 0, vec![])]), Ok(0));
    mixnet.set_session_status(status(2, SessionPhase::CoverToPrev));
    assert_eq!(
        mixnet.choose_authored(0, 0),
        AuthoredChoice::Cover { rel_session_index: RelSessionIndex::Prev, kind: CoverKind::Drop }
    );
    assert_eq!(mixnet.authored_packet_queue_len(RelSessionIndex::Prev), 1);
    assert_eq!(mixnet.finish_request(1, vec![built(1, 0, vec![])]), Err(PostErr::RequestsAndRepliesBlocked(1)));
}

#[test]
fn pop_next_authored_packet_builds_cover_routes() {
    let mut config = Config::default();
    config.loop_cover_proportion = Proportion { numerator: 1, denominator: 1 };
    let mut mixnet = engine(config, SessionPhase::CoverToCurrent);
    for _ in 0..20 {
        match mixnet.pop_next_authored_packet(&Connected) {
            Some(AuthoredPacket::Cover(cover)) => {
                assert_eq!(cover.route.num_hops(), 4);
                // A loop cover packet ends at the local node.
                assert_eq!(cover.route.hop(3).unwrap().kx_public, kx(2));
                assert_eq!(cover.route.hop(3).unwrap().forward_to, None);
                assert_eq!(cover.route.hop(2).unwrap().forward_to, Some(Target::MixnodeIndex(MixnodeIndex { raw: 2 })));
                assert_ne!(cover.route.first_hop, MixnodeIndex { raw: 2 });
                assert_eq!(cover.peer_id, peer(cover.route.first_hop.raw as u8));
                assert_eq!(cover.route.hop(0).unwrap().kx_public, kx(cover.route.first_hop.raw as u8));
                assert_eq!(cover.route.hop(4), None);
            },
            other => panic!("unexpected packet {:?}", other),
        }
    }
}

#[test]
fn request_errors() {
    let mut config = Config::default();
    config.max_fragments_per_message = 2;
    config.mixnode_session.authored_packet_queue_capacity = 1;
    let mixnet = engine(config, SessionPhase::RequestsAndRepliesToCurrent);
    let mut destination = None;
    assert_eq!(
        mixnet.post_request(&mut destination, &[0; 5000], 0, &Connected),
        Err(PostErr::TooManyFragments)
    );
    assert_eq!(
        mixnet.post_request(&mut destination, &[0; 2010], 0, &Connected),
        Err(PostErr::NotEnoughSpaceInQueue)
    );
    let mut elsewhere = Some(MixnodeId { session_index: 9, mixnode_index: MixnodeIndex { raw: 0 } });
    assert_eq!(
        mixnet.post_request(&mut elsewhere, b"x", 0, &Connected),
        Err(PostErr::BadSessionIndex(9))
    );
    let mut earlier = Some(MixnodeId { session_index: 0, mixnode_index: MixnodeIndex { raw: 0 } });
    assert_eq!(mixnet.post_request(&mut earlier, b"x", 0, &Connected), Err(PostErr::SessionEmpty(0)));
    let mut beyond = Some(MixnodeId { session_index: 1, mixnode_index: MixnodeIndex { raw: 7 } });
    assert_eq!(
        mixnet.post_request(&mut beyond, b"x", 0, &Connected),
        Err(PostErr::Topology(TopologyErr::BadMixnodeIndex(MixnodeIndex { raw: 7 })))
    );
    assert_eq!(beyond, Some(MixnodeId { session_index: 1, mixnode_index: MixnodeIndex { raw: 7 } }));
    assert_eq!(destination, None);
    assert_eq!(mixnet.authored_packet_queue_len(RelSessionIndex::Current), 0);
}

#[test]
fn request_from_unconnected_non_mixnode_finds_no_route() {
    let mut mixnet = Mixnet::new(Config::default(), KxStore::new());
    assert!(mixnet.add_session_keys(keys(0, 9)));
    mixnet.set_session_status(status(0, SessionPhase::RequestsAndRepliesToCurrent));
    set_mixnodes(&mut mixnet, RelSessionIndex::Current, 5);
    let mut destination = None;
    assert_eq!(
        mixnet.post_request(&mut destination, b"x", 0, &Isolated),
        Err(PostErr::Topology(TopologyErr::NoConnectedGatewayMixnodes))
    );
    assert_eq!(destination, None);
    let plan = mixnet.post_request(&mut destination, b"x", 1, &Connected).unwrap();
    let fragment = &plan.fragments[0];
    assert_eq!(fragment.route.num_hops(), 4);
    assert_eq!(fragment.route.hop(3).unwrap().kx_public, kx(plan.destination_index.raw as u8));
    // The SURB leads back to the local node, by way of its peer identity.
    let surb_route = &fragment.surbs[0].route;
    assert_eq!(surb_route.hop(3).unwrap().kx_public, kx(9));
    assert_eq!(surb_route.hop(2).unwrap().forward_to, Some(Target::PeerId([250; 32])));
    assert_ne!(surb_route.first_hop, plan.destination_index);
}

#[test]
fn request_to_a_given_destination_keeps_it() {
    let mixnet = engine(Config::default(), SessionPhase::RequestsAndRepliesToCurrent);
    let asked = MixnodeId { session_index: 1, mixnode_index: MixnodeIndex { raw: 4 } };
    let mut destination = Some(asked);
    let data = vec![9u8; 3000];
    let plan = mixnet.post_request(&mut destination, &data, 2, &Connected).unwrap();
    assert_eq!(destination, Some(asked));
    assert_eq!(plan.destination_index, MixnodeIndex { raw: 4 });
    // 2009 bytes fit a fragment, less 238 for each SURB: 1533 in the first.
    assert_eq!(plan.fragments.len(), 2);
    assert_eq!(plan.fragments[0].surbs.len(), 2);
    assert_eq!(plan.fragments[1].surbs.len(), 0);
    let first = &plan.fragments[0].payload_data;
    assert_eq!(&first[..32], &plan.message_id[..]);
    assert_eq!(&first[32..39], &[1, 0, 0, 0, 0xfd, 0x05, 2]);
    assert_eq!(&first[39..39 + 1533], &data[..1533]);
    assert!(first[39 + 1533..].iter().all(|b| *b == 0));
    let second = &plan.fragments[1].payload_data;
    assert_eq!(&second[32..39], &[1, 0, 1, 0, 0xbb, 0x05, 0]);
    for fragment in &plan.fragments {
        assert_eq!(fragment.route.hop(3).unwrap().kx_public, kx(4));
        assert_eq!(fragment.peer_id, peer(fragment.route.first_hop.raw as u8));
        for surb in &fragment.surbs {
            assert_eq!(surb.route.hop(3).unwrap().kx_public, kx(2));
            assert_ne!(surb.route.first_hop, MixnodeIndex { raw: 4 });
        }
    }
}

#[test]
fn finish_request_is_all_or_nothing() {
    let mut config = Config::default();
    config.mixnode_session.authored_packet_queue_capacity = 2;
    let mut mixnet = engine(config, SessionPhase::RequestsAndRepliesToCurrent);
    let surb = |id: u8| BuiltSurb { id: [id; 16], keys: vec![id], delay: Delay { units: 100 } };
    let too_many = vec![built(1, 0, vec![surb(1)]), built(2, 0, vec![]), built(3, 0, vec![surb(2)])];
    assert_eq!(mixnet.finish_request(1, too_many), Err(PostErr::NotEnoughSpaceInQueue));
    assert_eq!(mixnet.authored_packet_queue_len(RelSessionIndex::Current), 0);
    assert_eq!(mixnet.surb_keystore_len(), 0);
    assert_eq!(mixnet.finish_request(7, vec![]), Err(PostErr::BadSessionIndex(7)));

    let fits = vec![
        built(1, 3 * 65536, vec![surb(1), BuiltSurb { id: [9; 16], keys: vec![], delay: Delay { units: 2 * 65536 } }]),
        built(2, 4 * 65536, vec![surb(2)]),
    ];
    // The longest request delay, four means, plus the longest reply delay, two.
    assert_eq!(mixnet.finish_request(1, fits), Ok(6_000_000_000));
    assert_eq!(mixnet.authored_packet_queue_len(RelSessionIndex::Current), 2);
    assert_eq!(mixnet.surb_keystore_len(), 3);
    assert_eq!(mixnet.finish_request(1, vec![built(3, 0, vec![])]), Err(PostErr::NotEnoughSpaceInQueue));
}

#[test]
fn reply_takes_surbs_from_the_end() {
    let mut config = Config::default();
    config.loop_cover_proportion = Proportion { numerator: 0, denominator: 1 };
    let mut mixnet = engine(config, SessionPhase::RequestsAndRepliesToCurrent);
    let mut surbs = vec![surb_for(0, 10), surb_for(1, 11), surb_for(3, 12)];
    let data = vec![5u8; 2500];
    assert_eq!(mixnet.post_reply(&mut surbs, 1, &[7; 32], &data), Ok(()));
    assert_eq!(surbs, vec![surb_for(0, 10)]);
    assert_eq!(mixnet.authored_packet_queue_len(RelSessionIndex::Current), 2);
    match mixnet.choose_authored(0, 0) {
        AuthoredChoice::Packet(AuthoredPacket::Reply(reply)) => {
            assert_eq!(reply.peer_id, peer(3));
            assert_eq!(*reply.surb, surb_for(3, 12));
            assert!(reply.packet[..204].iter().all(|b| *b == 0));
            assert_eq!(&reply.packet[204..236], &[7; 32]);
            assert_eq!(&reply.packet[236..243], &[1, 0, 0, 0, 0xd9, 0x07, 0]);
            assert_eq!(&reply.packet[243..243 + 2009], &data[..2009]);
            assert!(reply.packet[2252..].iter().all(|b| *b == 0));
        },
        other => panic!("unexpected choice {:?}", other),
    }
    match mixnet.choose_authored(0, 0) {
        AuthoredChoice::Packet(AuthoredPacket::Reply(reply)) => {
            assert_eq!(reply.peer_id, peer(1));
            assert_eq!(*reply.surb, surb_for(1, 11));
            assert_eq!(&reply.packet[236..243], &[1, 0, 1, 0, 0xeb, 0x01, 0]);
        },
        other => panic!("unexpected choice {:?}", other),
    }
}

#[test]
fn failed_reply_leaves_queue_and_surbs_alone() {
    let mut config = Config::default();
    config.mixnode_session.authored_packet_queue_capacity = 2;
    config.max_fragments_per_message = 3;
    let mut mixnet = engine(config, SessionPhase::RequestsAndRepliesToCurrent);
    let good = vec![surb_for(0, 1), surb_for(1, 2), surb_for(3, 3)];

    // The second fragment would use a SURB that names no mixnode index.
    let mut surbs = vec![surb_for(0, 1), surb_for(0xff00, 2), surb_for(3, 3)];
    let before = surbs.clone();
    assert_eq!(mixnet.post_reply(&mut surbs, 1, &[7; 32], &[0; 2500]), Err(PostErr::BadSurb));
    assert_eq!(surbs, before);
    assert_eq!(mixnet.authored_packet_queue_len(RelSessionIndex::Current), 0);

    // The first fragment would use a SURB that names a mixnode beyond the roster.
    let mut surbs = vec![surb_for(0xff00, 1), surb_for(0, 2), surb_for(5, 3)];
    let before = surbs.clone();
    assert_eq!(
        mixnet.post_reply(&mut surbs, 1, &[7; 32], &[0; 2500]),
        Err(PostErr::Topology(TopologyErr::BadMixnodeIndex(MixnodeIndex { raw: 5 })))
    );
    assert_eq!(surbs, before);

    let mut surbs = good.clone();
    assert_eq!(mixnet.post_reply(&mut surbs, 1, &[7; 32], &[0; 9000]), Err(PostErr::TooManyFragments));
    assert_eq!(mixnet.post_reply(&mut surbs, 1, &[7; 32], &[0; 5000]), Err(PostErr::NotEnoughSpaceInQueue));
    assert_eq!(mixnet.post_reply(&mut surbs, 0, &[7; 32], &[0; 10]), Err(PostErr::SessionEmpty(0)));
    assert_eq!(mixnet.post_reply(&mut surbs, 3, &[7; 32], &[0; 10]), Err(PostErr::BadSessionIndex(3)));
    assert_eq!(surbs, good);
    assert_eq!(mixnet.authored_packet_queue_len(RelSessionIndex::Current), 0);
    // An unused bad SURB does no harm.
    let mut surbs = vec![surb_for(0xff00, 1), surb_for(4, 2)];
    assert_eq!(mixnet.post_reply(&mut surbs, 1, &[7; 32], &[0; 10]), Ok(()));
    assert_eq!(surbs, vec![surb_for(0xff00, 1)]);
}
