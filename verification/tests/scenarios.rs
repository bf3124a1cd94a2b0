use mixnet::{
    Action, AddressedPacket, AuthoredPacket, BuiltFragment, BuiltSurb, Config, Delay, Invalidated,
    KxStore, Mixnet, Mixnode, MixnodeIndex, NetworkStatus, PacketEvent, PacketStep, Peeled,
    PeerId, PostErr, RelSessionIndex, SessionKeys, SessionPhase, SessionStatus, Target,
    PACKET_SIZE, SURB_SIZE,
};

fn kx(n: u8) -> [u8; 32] {
    [n; 32]
}

fn peer(n: u8) -> PeerId {
    [n.wrapping_add(100); 32]
}

fn mixnode(n: u8) -> Mixnode {
    Mixnode { kx_public: kx(n), peer_id: peer(n), addresses: vec![vec![4, n], vec![6, n]] }
}

fn roster(count: u8) -> Vec<Mixnode> {
    (0..count).map(mixnode).collect()
}

struct Connected;

impl NetworkStatus for Connected {
    fn local_peer_id(&self) -> PeerId {
        [250; 32]
    }

    fn is_connected(&self, _peer_id: &PeerId) -> bool {
        true
    }
}

fn status(current_index: u32, phase: SessionPhase) -> SessionStatus {
    SessionStatus { current_index, phase }
}

/// An engine whose current session has five mixnodes, of which the local
/// node is number two.
fn engine_as_mixnode(config: Config, phase: SessionPhase) -> Mixnet {
    let mut store = KxStore::new();
    assert!(store.add_session_keys(SessionKeys { session_index: 1, secret: [9; 32], public: kx(2) }));
    let mut mixnet = Mixnet::new(config, store);
    mixnet.set_session_status(status(1, phase));
    let set: Result<(), ()> = mixnet.maybe_set_mixnodes(RelSessionIndex::Current, || Ok(roster(5)));
    assert_eq!(set, Ok(()));
    assert!(mixnet.is_session_full(RelSessionIndex::Current));
    assert_eq!(mixnet.is_mixnode(RelSessionIndex::Current), Some(true));
    mixnet
}

fn packet_with_key(n: u8) -> [u8; PACKET_SIZE] {
    let mut packet = [0u8; PACKET_SIZE];
    packet[..32].copy_from_slice(&kx(n));
    packet
}

#[test]
fn too_few_mixnodes_disable_the_session() {
    let mut mixnet = Mixnet::new(Config::default(), KxStore::new());
    mixnet.set_session_status(status(0, SessionPhase::ConnectToCurrent));
    let set: Result<(), ()> = mixnet.maybe_set_mixnodes(RelSessionIndex::Current, || Ok(Vec::new()));
    assert_eq!(set, Ok(()));
    assert!(!mixnet.is_session_empty(RelSessionIndex::Current));
    assert!(!mixnet.is_session_full(RelSessionIndex::Current));
    let mut destination = None;
    let posted = mixnet.post_request(&mut destination, b"hi", 0, &Connected);
    assert_eq!(posted, Err(PostErr::SessionDisabled(0)));
    assert_eq!(destination, None);
}

#[test]
fn request_with_one_surb_queues_one_fragment() {
    let mut mixnet = engine_as_mixnode(Config::default(), SessionPhase::RequestsAndRepliesToCurrent);
    let data = [7u8; 32];
    let mut destination = None;
    let plan = mixnet.post_request(&mut destination, &data, 1, &Connected).unwrap();
    assert_eq!(plan.session_index, 1);
    assert_eq!(plan.fragments.len(), 1);
    assert_eq!(plan.fragments[0].surbs.len(), 1);
    let chosen = destination.unwrap();
    assert_eq!(chosen.session_index, 1);
    assert_eq!(chosen.mixnode_index, plan.destination_index);
    assert_ne!(chosen.mixnode_index, MixnodeIndex { raw: 2 });
    assert!(chosen.mixnode_index.raw < 5);
    assert_eq!(mixnet.authored_packet_queue_len(RelSessionIndex::Current), 0);

    let built: Vec<BuiltFragment> = plan
        .fragments
        .iter()
        .map(|fragment| BuiltFragment {
            packet: AddressedPacket { peer_id: fragment.peer_id, packet: Box::new([1; PACKET_SIZE]) },
            delay: Delay { units: 65536 },
            surbs: fragment
                .surbs
                .iter()
                .map(|surb| BuiltSurb { id: surb.id, keys: vec![5; 8], delay: Delay { units: 32768 } })
                .collect(),
        })
        .collect();
    let delay = mixnet.finish_request(plan.session_index, built);
    // One and a half mean forwarding delays, the mean being one second.
    assert_eq!(delay, Ok(1_500_000_000));
    assert_eq!(mixnet.authored_packet_queue_len(RelSessionIndex::Current), 1);
    assert_eq!(mixnet.surb_keystore_len(), 1);
    assert!(mixnet.take_invalidated().contains(Invalidated::next_authored_packet_deadline()));
}

#[test]
fn no_cover_packets_when_disabled() {
    let mut config = Config::default();
    config.gen_cover_packets = false;
    let mut mixnet = engine_as_mixnode(config, SessionPhase::CoverToCurrent);
    assert_eq!(mixnet.authored_packet_queue_len(RelSessionIndex::Current), 0);
    for _ in 0..20 {
        assert_eq!(mixnet.pop_next_authored_packet(&Connected), None);
    }
}

#[test]
fn same_forward_packet_twice_is_queued_once() {
    let mut mixnet = engine_as_mixnode(Config::default(), SessionPhase::RequestsAndRepliesToCurrent);
    let packet = packet_with_key(77);
    let forward = || Peeled {
        action: Action::ForwardTo {
            target: Target::MixnodeIndex(MixnodeIndex { raw: 3 }),
            delay: Delay { units: 65536 },
        },
        out: Box::new([3; PACKET_SIZE]),
    };

    let step = mixnet.handle_packet(&packet, PacketEvent::Received, 1000);
    assert_eq!(
        step,
        PacketStep::Peel {
            rel_session_index: RelSessionIndex::Current,
            session_index: 1,
            secret: [9; 32],
        }
    );
    let step = mixnet.handle_packet(
        &packet,
        PacketEvent::Peeled { rel_session_index: RelSessionIndex::Current, result: Ok(forward()) },
        1000,
    );
    assert_eq!(step, PacketStep::Done(None));
    assert_eq!(mixnet.forward_packet_queue_len(), 1);
    assert_eq!(mixnet.next_forward_packet_deadline(), Some(1_000_001_000));

    let step = mixnet.handle_packet(&packet, PacketEvent::Received, 2000);
    assert_eq!(step, PacketStep::Done(None));
    assert_eq!(mixnet.forward_packet_queue_len(), 1);
    assert_eq!(
        mixnet.pop_next_forward_packet(),
        Some(AddressedPacket { peer_id: peer(3), packet: Box::new([3; PACKET_SIZE]) })
    );
}

#[test]
fn reply_without_surbs_has_too_many_fragments() {
    let mut mixnet = engine_as_mixnode(Config::default(), SessionPhase::RequestsAndRepliesToCurrent);
    let mut surbs: Vec<[u8; SURB_SIZE]> = Vec::new();
    let posted = mixnet.post_reply(&mut surbs, 1, &[1; 32], b"reply");
    assert_eq!(posted, Err(PostErr::TooManyFragments));
    assert!(surbs.is_empty());
    assert_eq!(mixnet.authored_packet_queue_len(RelSessionIndex::Current), 0);
}

#[test]
fn reply_for_unknown_surb_is_dropped() {
    let mut mixnet = engine_as_mixnode(Config::default(), SessionPhase::RequestsAndRepliesToCurrent);
    mixnet.take_invalidated();
    let packet = packet_with_key(78);
    let step = mixnet.handle_packet(
        &packet,
        PacketEvent::Peeled {
            rel_session_index: RelSessionIndex::Current,
            result: Ok(Peeled {
                action: Action::DeliverReply { surb_id: [42; 16] },
                out: Box::new([8; PACKET_SIZE]),
            }),
        },
        5,
    );
    assert_eq!(step, PacketStep::Done(None));
    assert_eq!(mixnet.forward_packet_queue_len(), 0);
    assert_eq!(mixnet.surb_keystore_len(), 0);
    assert_eq!(mixnet.num_incomplete_messages(), 0);
    assert!(!mixnet.has_seen(RelSessionIndex::Current, &kx(78)));
    assert_eq!(mixnet.take_invalidated(), Invalidated::empty());
    assert_eq!(mixnet.pop_next_authored_packet(&Connected).map(|p| matches!(p, AuthoredPacket::Cover(_))), Some(true));
}
