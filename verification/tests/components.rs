use mixnet::assembler::{parse_fragment, CompleteMessage, FragmentAssembler};
use mixnet::cover::gen_cover_packet_from;
use mixnet::fragment::{fragment_blueprints, num_fragments, surb_offset, write_surb};
use mixnet::packet_queues::{AuthoredPacketQueue, ForwardPacket, ForwardPacketQueue};
use mixnet::replay_filter::ReplayFilter;
use mixnet::request_builder::RequestBuilder;
use mixnet::route::{pick_except, pick_gateway, random_draws, RouteGenerator, RouteKind};
use mixnet::sphinx::{kx_public, plain_packet, same_bytes, surb_first_hop};
use mixnet::surb_keystore::SurbKeystore;
use mixnet::topology::Topology;
use mixnet::{
    gen_cover_packet, AddressedPacket, AuthoredPacket, Config, CoverKind, Delay, Invalidated,
    KxStore, Mixnode, MixnodeIndex, NetworkStatus, PeerId, Proportion, RelSessionIndex,
    SessionKeys, SessionPhase, Target, TopologyErr, MAX_MIXNODE_INDEX, PACKET_SIZE, SURB_SIZE,
};

fn kx(n: u8) -> [u8; 32] {
    [n; 32]
}

fn peer(n: u8) -> PeerId {
    [n.wrapping_add(100); 32]
}

fn roster(count: u8) -> Vec<Mixnode> {
    (0..count)
        .map(|n| Mixnode { kx_public: kx(n), peer_id: peer(n), addresses: vec![vec![n]] })
        .collect()
}

struct OnlyConnectedTo(Vec<PeerId>);

impl NetworkStatus for OnlyConnectedTo {
    fn local_peer_id(&self) -> PeerId {
        [250; 32]
    }

    fn is_connected(&self, peer_id: &PeerId) -> bool {
        self.0.contains(peer_id)
    }
}

fn index(raw: u16) -> MixnodeIndex {
    MixnodeIndex { raw }
}

fn forward_packet(deadline: u64, fill: u8) -> ForwardPacket {
    ForwardPacket {
        deadline,
        packet: AddressedPacket { peer_id: [fill; 32], packet: Box::new([fill; PACKET_SIZE]) },
    }
}

fn written_fragment(id: u8, data: &[u8], num_surbs: usize, i: usize) -> [u8; 2048] {
    let blueprints = fragment_blueprints(&[id; 32], data, num_surbs).unwrap();
    let mut fragment = [0u8; 2048];
    blueprints[i].write_except_surbs(&mut fragment);
    for s in 0..blueprints[i].num_surbs {
        write_surb(&mut fragment, s, &[(i * 10 + s) as u8; SURB_SIZE]);
    }
    fragment
}

#[test]
fn delay_arithmetic() {
    assert_eq!(Delay::zero(), Delay { units: 0 });
    assert_eq!(Delay { units: 65536 }.to_duration(1_000_000_000), 1_000_000_000);
    assert_eq!(Delay { units: 98304 }.to_duration(1_000_000_000), 1_500_000_000);
    assert_eq!(Delay { units: 1 }.to_duration(65535), 0);
    assert_eq!(Delay { units: 1 }.to_duration(65536), 1);
    assert_eq!(Delay { units: 3 }.to_duration(100_000), 4);
    assert_eq!(Delay { units: u64::MAX }.to_duration(65536), u64::MAX);
    assert_eq!(Delay { units: u64::MAX }.to_duration(65537), u64::MAX);
    assert_eq!(Delay { units: u64::MAX }.to_duration(u64::MAX), u64::MAX);
    assert_eq!(Delay { units: 5 }.max(Delay { units: 7 }), Delay { units: 7 });
    assert_eq!(Delay { units: 7 }.max(Delay { units: 5 }), Delay { units: 7 });
    assert_eq!(Delay { units: 5 }.saturating_add(Delay { units: 7 }), Delay { units: 12 });
    assert_eq!(Delay { units: u64::MAX }.saturating_add(Delay { units: 7 }), Delay { units: u64::MAX });
}

#[test]
fn mixnode_index_is_capped() {
    assert_eq!(MAX_MIXNODE_INDEX, 0xfeff);
    assert_eq!(MixnodeIndex::new(0xfeff), Some(index(0xfeff)));
    assert_eq!(MixnodeIndex::new(0xff00), None);
    assert_eq!(MixnodeIndex::from_position(0xfeff), Some(index(0xfeff)));
    assert_eq!(MixnodeIndex::from_position(0xff00), None);
    assert_eq!(index(7).get(), 7);
}

#[test]
fn surb_names_its_first_mixnode() {
    let mut surb = [9u8; SURB_SIZE];
    surb[0] = 0x34;
    surb[1] = 0x12;
    assert_eq!(surb_first_hop(&surb), Some(index(0x1234)));
    surb[0] = 0xff;
    surb[1] = 0xfe;
    assert_eq!(surb_first_hop(&surb), Some(index(0xfeff)));
    surb[0] = 0x00;
    surb[1] = 0xff;
    assert_eq!(surb_first_hop(&surb), None);
}

#[test]
fn packet_bytes() {
    let mut packet = [0u8; PACKET_SIZE];
    for (i, byte) in packet.iter_mut().enumerate() {
        *byte = i as u8;
    }
    let key = kx_public(&packet);
    assert_eq!(key.to_vec(), (0u8..32).collect::<Vec<u8>>());
    assert!(same_bytes(&key, &key));
    assert!(!same_bytes(&key, &[0; 32]));
    let plain = plain_packet(&[3; 2048]);
    assert!(plain[..204].iter().all(|b| *b == 0));
    assert!(plain[204..2252].iter().all(|b| *b == 3));
    assert!(plain[2252..].iter().all(|b| *b == 0));
}

#[test]
fn invalidated_flags() {
    assert_eq!(Invalidated::reserved_peers().bits(), 0b001);
    assert_eq!(Invalidated::next_forward_packet_deadline().bits(), 0b010);
    assert_eq!(Invalidated::next_authored_packet_deadline().bits(), 0b100);
    assert_eq!(Invalidated::sessions_changed().bits(), 0b101);
    assert!(Invalidated::empty().is_empty());
    let both = Invalidated::reserved_peers().union(Invalidated::next_forward_packet_deadline());
    assert_eq!(both.bits(), 0b011);
    assert!(both.contains(Invalidated::reserved_peers()));
    assert!(!both.contains(Invalidated::next_authored_packet_deadline()));
    assert!(both.contains(Invalidated::empty()));
    assert_eq!(Invalidated::from_bits_truncate(0xff), Invalidated { bits: 0b111 });
}

#[test]
fn proportion_validity() {
    assert!(Proportion { numerator: 0, denominator: 1 }.is_valid());
    assert!(Proportion { numerator: 4, denominator: 4 }.is_valid());
    assert!(!Proportion { numerator: 5, denominator: 4 }.is_valid());
    assert!(!Proportion { numerator: 0, denominator: 0 }.is_valid());
    assert!(Config::default().loop_cover_proportion.is_valid());
    assert_eq!(Config::default().min_mixnodes, 3);
}

#[test]
fn phase_tables() {
    let phases = [
        SessionPhase::ConnectToCurrent,
        SessionPhase::CoverToCurrent,
        SessionPhase::RequestsAndRepliesToCurrent,
        SessionPhase::CoverToPrev,
        SessionPhase::DisconnectFromPrev,
    ];
    let (current, prev) = (RelSessionIndex::Current, RelSessionIndex::Prev);
    let need_prev = [true, true, true, true, false];
    let cover_current = [false, true, true, true, true];
    let cover_prev = [true, true, true, true, false];
    let requests_prev = [true, true, true, false, false];
    let default = [prev, prev, current, current, current];
    for (i, phase) in phases.iter().enumerate() {
        assert_eq!(phase.need_prev(), need_prev[i]);
        assert_eq!(phase.gen_cover_packets(current), cover_current[i]);
        assert_eq!(phase.gen_cover_packets(prev), cover_prev[i]);
        assert!(phase.allow_requests_and_replies(current));
        assert_eq!(phase.allow_requests_and_replies(prev), requests_prev[i]);
        assert_eq!(phase.default_request_session(), default[i]);
    }
}

#[test]
fn relative_session_indices() {
    assert_eq!(RelSessionIndex::Current.session_index(5), 5);
    assert_eq!(RelSessionIndex::Prev.session_index(5), 4);
    assert_eq!(RelSessionIndex::Prev.session_index(0), 0);
    assert_eq!(RelSessionIndex::from_session_index(5, 5), Some(RelSessionIndex::Current));
    assert_eq!(RelSessionIndex::from_session_index(4, 5), Some(RelSessionIndex::Prev));
    assert_eq!(RelSessionIndex::from_session_index(3, 5), None);
    assert_eq!(RelSessionIndex::from_session_index(6, 5), None);
    assert_eq!(RelSessionIndex::from_session_index(u32::MAX, 0), Some(RelSessionIndex::Prev));
}

#[test]
fn forward_queue_orders_by_deadline_and_arrival() {
    let mut queue = ForwardPacketQueue::new(4);
    assert_eq!(queue.next_deadline(), None);
    assert_eq!(queue.remaining_capacity(), 4);
    assert!(queue.insert(forward_packet(50, 1)));
    assert!(!queue.insert(forward_packet(50, 2)));
    assert!(!queue.insert(forward_packet(70, 3)));
    assert!(queue.insert(forward_packet(10, 4)));
    assert_eq!(queue.remaining_capacity(), 0);
    assert_eq!(queue.len(), 4);
    assert_eq!(queue.next_deadline(), Some(10));
    let order: Vec<u8> = std::iter::from_fn(|| queue.pop()).map(|p| p.packet.peer_id[0]).collect();
    assert_eq!(order, vec![4, 1, 2, 3]);
    assert_eq!(queue.pop(), None);
}

#[test]
fn authored_queue_is_first_in_first_out() {
    let mut queue = AuthoredPacketQueue::new(2);
    let built = |fill: u8| {
        AuthoredPacket::Built(AddressedPacket { peer_id: [fill; 32], packet: Box::new([fill; PACKET_SIZE]) })
    };
    assert_eq!(queue.pop(), None);
    queue.push(built(1));
    queue.push(built(2));
    assert_eq!(queue.remaining_capacity(), 0);
    assert_eq!(queue.len(), 2);
    assert_eq!(queue.pop(), Some(built(1)));
    assert_eq!(queue.pop(), Some(built(2)));
    assert_eq!(queue.remaining_capacity(), 2);
}

#[test]
fn replay_filter_reports_exactly_what_was_inserted() {
    let mut filter = ReplayFilter::new();
    let mut seeded = ReplayFilter::with_seed(0);
    for n in 0..50u8 {
        assert!(!filter.contains(&kx(n)));
        filter.insert(&kx(n));
        seeded.insert(&kx(n));
        seeded.insert(&kx(n));
    }
    for n in 0..50u8 {
        assert!(filter.contains(&kx(n)));
        assert!(seeded.contains(&kx(n)));
    }
    for n in 50..100u8 {
        assert!(!filter.contains(&kx(n)));
        assert!(!seeded.contains(&kx(n)));
    }
    let mut near = kx(1);
    near[31] = 2;
    assert!(!filter.contains(&near));
}

#[test]
fn kx_store_keeps_pending_and_active_keys_apart() {
    let key = |i: u32| SessionKeys { session_index: i, secret: [i as u8; 32], public: [i as u8 + 1; 32] };
    let mut store = KxStore::new();
    assert!(store.add_session_keys(key(3)));
    assert!(!store.add_session_keys(key(3)));
    assert_eq!(store.public_for_session(3), Some([4; 32]));
    assert_eq!(store.session_secret(3), None);
    store.add_pending_session_secrets();
    assert_eq!(store.session_secret(3), Some([3; 32]));
    assert!(!store.add_session_keys(key(3)));
    assert!(store.add_session_keys(key(4)));
    assert!(store.add_session_keys(key(5)));
    assert_eq!(store.keys_for_session(4), Some(key(4)));

    store.discard_sessions_before(4);
    assert!(store.is_discarded(3));
    assert!(!store.is_discarded(4));
    assert_eq!(store.public_for_session(3), None);
    assert_eq!(store.session_secret(3), None);
    assert_eq!(store.public_for_session(4), Some([5; 32]));
    assert!(!store.add_session_keys(key(2)));
    // Discarding never goes back.
    store.discard_sessions_before(1);
    assert!(store.is_discarded(3));
    assert!(!store.add_session_keys(key(3)));
    store.discard_sessions_before(6);
    assert_eq!(store.public_for_session(5), None);
    assert!(store.add_session_keys(key(6)));
}

#[test]
fn surb_keystore_evicts_the_oldest_and_gives_keys_out_once() {
    let mut store = SurbKeystore::new(2);
    store.insert([1; 16], vec![1]);
    store.insert([2; 16], vec![2]);
    store.insert([3; 16], vec![3]);
    assert_eq!(store.len(), 2);
    assert!(!store.contains(&[1; 16]));
    assert_eq!(store.take(&[1; 16]), None);
    assert_eq!(store.take(&[2; 16]), Some(vec![2]));
    assert_eq!(store.take(&[2; 16]), None);
    assert_eq!(store.len(), 1);
    // An identifier that comes again replaces its older entry.
    store.insert([4; 16], vec![4]);
    store.insert([3; 16], vec![33]);
    assert_eq!(store.len(), 2);
    store.insert([5; 16], vec![5]);
    assert!(!store.contains(&[4; 16]));
    assert_eq!(store.take(&[3; 16]), Some(vec![33]));
    let mut none = SurbKeystore::new(0);
    none.insert([1; 16], vec![1]);
    assert_eq!(none.len(), 0);
    assert_ne!(SurbKeystore::gen_id(), SurbKeystore::gen_id());
}

#[test]
fn fragment_counts() {
    assert_eq!(num_fragments(0, 0), Some(1));
    assert_eq!(num_fragments(2009, 0), Some(1));
    assert_eq!(num_fragments(2010, 0), Some(2));
    assert_eq!(num_fragments(4018, 0), Some(2));
    assert_eq!(num_fragments(0, 8), Some(1));
    assert_eq!(num_fragments(105, 8), Some(1));
    assert_eq!(num_fragments(106, 8), Some(2));
    assert_eq!(num_fragments(0, 9), Some(2));
    assert_eq!(num_fragments(2009 * 65536, 0), Some(65536));
    assert_eq!(num_fragments(2009 * 65536 + 1, 0), None);
    assert_eq!(surb_offset(0), 2048 - 238);
    assert_eq!(surb_offset(7), 2048 - 8 * 238);
}

#[test]
fn blueprints_split_data_and_surbs() {
    let data: Vec<u8> = (0..3000u32).map(|i| (i % 251) as u8).collect();
    let blueprints = fragment_blueprints(&[1; 32], &data, 10).unwrap();
    assert_eq!(blueprints.len(), 3);
    let sizes: Vec<(usize, usize)> = blueprints.iter().map(|b| (b.data.len(), b.num_surbs)).collect();
    assert_eq!(sizes, vec![(105, 8), (1533, 2), (1362, 0)]);
    let joined: Vec<u8> = blueprints.iter().flat_map(|b| b.data.iter().copied()).collect();
    assert_eq!(joined, data);
    for (i, blueprint) in blueprints.iter().enumerate() {
        assert_eq!(blueprint.message_id, [1; 32]);
        assert_eq!(blueprint.index as usize, i);
        assert_eq!(blueprint.last_index, 2);
    }
    assert!(fragment_blueprints(&[1; 32], &vec![0; 2009 * 65536 + 1], 0).is_none());
}

#[test]
fn written_fragment_parses_back() {
    let data: Vec<u8> = (0..200u8).collect();
    let fragment = written_fragment(5, &data, 9, 1);
    let parsed = parse_fragment(&fragment).unwrap();
    assert_eq!(parsed.message_id, [5; 32]);
    assert_eq!(parsed.last_index, 1);
    assert_eq!(parsed.index, 1);
    assert_eq!(parsed.data, data[105..].to_vec());
    assert_eq!(parsed.surbs, vec![[10u8; SURB_SIZE]]);

    let mut bad = fragment;
    bad[34] = 2;
    assert_eq!(parse_fragment(&bad), None);
    let mut bad = fragment;
    bad[38] = 9;
    assert_eq!(parse_fragment(&bad), None);
    let mut bad = fragment;
    bad[36] = 0xff;
    bad[37] = 0xff;
    assert_eq!(parse_fragment(&bad), None);
}

#[test]
fn assembler_puts_a_message_back_together() {
    let data: Vec<u8> = (0..5000u32).map(|i| (i % 253) as u8).collect();
    let count = num_fragments(data.len(), 3).unwrap();
    assert_eq!(count, 3);
    for order in [[0usize, 1, 2], [2, 0, 1], [1, 2, 0]] {
        let mut assembler = FragmentAssembler::new(4, 10, 5);
        for (k, i) in order.iter().enumerate() {
            let message = assembler.insert(&written_fragment(9, &data, 3, *i));
            if k < 2 {
                assert_eq!(message, None);
                assert_eq!(assembler.num_incomplete_messages(), 1);
                assert_eq!(assembler.num_incomplete_fragments(), k + 1);
            } else {
                assert_eq!(
                    message,
                    Some(CompleteMessage {
                        id: [9; 32],
                        data: data.clone(),
                        surbs: vec![[0; SURB_SIZE], [1; SURB_SIZE], [2; SURB_SIZE]],
                    })
                );
                assert_eq!(assembler.num_incomplete_messages(), 0);
                assert_eq!(assembler.num_incomplete_fragments(), 0);
            }
        }
    }
}

#[test]
fn assembler_ignores_bad_and_repeated_fragments() {
    let data = vec![1u8; 5000];
    let mut assembler = FragmentAssembler::new(4, 10, 3);
    assert_eq!(assembler.insert(&written_fragment(1, &data, 0, 0)), None);
    assert_eq!(assembler.insert(&written_fragment(1, &data, 0, 0)), None);
    assert_eq!(assembler.num_incomplete_fragments(), 1);
    // Same message, another number of fragments.
    assert_eq!(assembler.insert(&written_fragment(1, &data[..3000], 0, 1)), None);
    assert_eq!(assembler.num_incomplete_fragments(), 1);
    // More fragments than a message may have.
    assert_eq!(assembler.insert(&written_fragment(2, &vec![0; 7000], 0, 0)), None);
    assert_eq!(assembler.num_incomplete_messages(), 1);
    let mut garbage = [0xffu8; 2048];
    garbage[36] = 0;
    assert_eq!(assembler.insert(&garbage), None);
    assert_eq!(assembler.num_incomplete_messages(), 1);
}

#[test]
fn assembler_makes_room_by_dropping_the_least_recently_touched() {
    let data = vec![1u8; 5000];
    let mut assembler = FragmentAssembler::new(2, 3, 3);
    assert_eq!(assembler.insert(&written_fragment(1, &data, 0, 0)), None);
    assert_eq!(assembler.insert(&written_fragment(2, &data, 0, 0)), None);
    assert_eq!(assembler.insert(&written_fragment(1, &data, 0, 1)), None);
    // Message 2 is now the least recently touched; a third message drops it.
    assert_eq!(assembler.insert(&written_fragment(3, &data, 0, 0)), None);
    assert_eq!(assembler.num_incomplete_messages(), 2);
    assert_eq!(assembler.num_incomplete_fragments(), 3);
    assert!(assembler.insert(&written_fragment(1, &data, 0, 2)).is_some());
    assert_eq!(assembler.num_incomplete_fragments(), 1);
    // Message 2 starts over.
    assert_eq!(assembler.insert(&written_fragment(2, &data, 0, 1)), None);
    assert_eq!(assembler.insert(&written_fragment(2, &data, 0, 2)), None);
    // No room for a fourth fragment: the least recently touched message goes.
    assert_eq!(assembler.insert(&written_fragment(2, &data, 0, 0)), Some(CompleteMessage {
        id: [2; 32],
        data: data.clone(),
        surbs: vec![],
    }));
    assert_eq!(assembler.num_incomplete_messages(), 1);
    let mut tight = FragmentAssembler::new(2, 1, 3);
    assert_eq!(tight.insert(&written_fragment(1, &data, 0, 0)), None);
    assert_eq!(tight.insert(&written_fragment(1, &data, 0, 1)), None);
    assert_eq!(tight.num_incomplete_messages(), 0);
    // A message of one fragment needs no room at all.
    let mut none = FragmentAssembler::new(0, 0, 1);
    assert!(none.insert(&written_fragment(1, b"x", 0, 0)).is_some());
}

#[test]
fn topology_places_the_local_node() {
    let topology = Topology::new(roster(5), &kx(2), 3);
    assert!(topology.is_mixnode());
    assert_eq!(topology.local_index(), Some(index(2)));
    assert_eq!(topology.num_mixnodes(), 5);
    assert!(topology.gateways().is_empty());
    assert_eq!(topology.local_kx_public(), kx(2));
    assert_eq!(topology.mixnode_kx_public(index(4)), Ok(kx(4)));
    assert_eq!(topology.mixnode_kx_public(index(5)), Err(TopologyErr::BadMixnodeIndex(index(5))));
    assert_eq!(topology.mixnode_index_to_peer_id(index(4)), Ok(peer(4)));
    assert_eq!(topology.mixnode_index_to_peer_id(index(5)), Err(TopologyErr::BadMixnodeIndex(index(5))));
    assert_eq!(topology.target_to_peer_id(&Target::MixnodeIndex(index(0))), Ok(peer(0)));
    assert_eq!(topology.target_to_peer_id(&Target::PeerId([1; 32])), Ok([1; 32]));
    assert_eq!(topology.reserved_peer_addresses(), vec![vec![0], vec![1], vec![3], vec![4]]);
}

#[test]
fn topology_samples_distinct_gateways() {
    for _ in 0..20 {
        let topology = Topology::new(roster(5), &kx(9), 3);
        assert!(!topology.is_mixnode());
        assert_eq!(topology.local_index(), None);
        let mut gateways: Vec<u16> = topology.gateways().iter().map(|g| g.raw).collect();
        assert_eq!(gateways.len(), 3);
        gateways.sort();
        gateways.dedup();
        assert_eq!(gateways.len(), 3);
        assert!(gateways.iter().all(|g| *g < 5));
        let mut reserved = topology.reserved_peer_addresses();
        reserved.sort();
        assert_eq!(reserved, gateways.iter().map(|g| vec![*g as u8]).collect::<Vec<_>>());
    }
    let few = Topology::new(roster(2), &kx(9), 3);
    assert_eq!(few.gateways().len(), 2);
    let chosen = Topology::with_gateways(roster(5), &kx(9), &vec![4, 1]);
    assert_eq!(chosen.gateways(), vec![index(4), index(1)]);
}

#[test]
fn picks_skip_what_is_excluded() {
    assert_eq!(pick_except(0, 5, None, None), Some(0));
    assert_eq!(pick_except(7, 5, None, None), Some(2));
    let picks: Vec<_> = (0..6).map(|d| pick_except(d, 5, Some(1), Some(3)).unwrap()).collect();
    assert_eq!(picks, vec![0, 2, 4, 0, 2, 4]);
    let picks: Vec<_> = (0..4).map(|d| pick_except(d, 5, Some(3), Some(3)).unwrap()).collect();
    assert_eq!(picks, vec![0, 1, 2, 4]);
    let picks: Vec<_> = (0..5).map(|d| pick_except(d, 5, Some(9), None).unwrap()).collect();
    assert_eq!(picks, vec![0, 1, 2, 3, 4]);
    assert_eq!(pick_except(3, 2, Some(0), Some(1)), None);
    assert_eq!(pick_except(3, 1, Some(0), None), None);
    assert_eq!(pick_except(3, 0, None, None), None);
    let gateways = vec![index(4), index(1), index(3)];
    assert_eq!(pick_gateway(&gateways, 0, None, None), Some(4));
    assert_eq!(pick_gateway(&gateways, 5, None, None), Some(3));
    assert_eq!(pick_gateway(&gateways, 1, Some(1), None), Some(3));
    assert_eq!(pick_gateway(&gateways, 0, Some(4), Some(1)), Some(3));
    assert_eq!(pick_gateway(&vec![index(2)], 0, None, Some(2)), None);
}

#[test]
fn random_draws_are_in_range() {
    for _ in 0..50 {
        let draws = random_draws();
        assert_eq!(draws.len(), 6);
        assert!(draws.iter().all(|d| *d < u64::MAX));
    }
}

#[test]
fn routes_of_a_mixnode() {
    let topology = Topology::new(roster(5), &kx(2), 3);
    let generator = RouteGenerator::from_status(&topology, [250; 32], &vec![]);
    let route = generator.gen_route_from(RouteKind::ToMixnode(index(4)), 4, &vec![0, 0, 0, 0, 0, 0]).unwrap();
    // Hop by hop: not the local node 2; not the hop before; not the hop
    // before nor the destination.
    let hops: Vec<_> = (0..4).map(|i| route.hop(i).unwrap()).collect();
    assert_eq!(route.first_hop, index(0));
    assert_eq!(route.num_hops(), 4);
    assert_eq!(hops.iter().map(|h| h.kx_public[0]).collect::<Vec<_>>(), vec![0, 1, 0, 4]);
    assert_eq!(hops[0].forward_to, Some(Target::MixnodeIndex(index(1))));
    assert_eq!(hops[2].forward_to, Some(Target::MixnodeIndex(index(4))));
    assert_eq!(hops[3].forward_to, None);

    let route = generator.gen_route_from(RouteKind::Loop, 3, &vec![6, 7, 8, 9, 10, 11]).unwrap();
    let keys: Vec<u8> = (0..3).map(|i| route.hop(i).unwrap().kx_public[0]).collect();
    // Draw 6 of four candidates 0 1 3 4 is 3; draw 7 of three candidates 0 1 4 is 1.
    assert_eq!(keys, vec![3, 1, 2]);
    let route = generator.gen_route_from(RouteKind::FromMixnode(index(0)), 2, &vec![0; 6]).unwrap();
    assert_eq!(route.first_hop, index(1));
    assert_eq!(route.hop(1).unwrap().kx_public, kx(2));

    assert_eq!(generator.gen_route_from(RouteKind::Loop, 0, &vec![0; 6]), Err(TopologyErr::BadNumHops(0)));
    assert_eq!(generator.gen_route_from(RouteKind::Loop, 7, &vec![0; 6]), Err(TopologyErr::BadNumHops(7)));
    assert_eq!(
        generator.gen_route_from(RouteKind::ToMixnode(index(5)), 2, &vec![0; 6]),
        Err(TopologyErr::BadMixnodeIndex(index(5)))
    );
    assert_eq!(generator.choose_destination_index_from(2), Ok(index(3)));
    assert_eq!(generator.choose_destination_index_from(4), Ok(index(0)));

    let alone = Topology::new(roster(1), &kx(0), 3);
    let generator = RouteGenerator::from_status(&alone, [250; 32], &vec![]);
    assert_eq!(generator.choose_destination_index_from(0), Err(TopologyErr::TooFewMixnodes));
    assert_eq!(generator.choose_destination_index(), Err(TopologyErr::TooFewMixnodes));
    assert_eq!(generator.gen_route_from(RouteKind::Loop, 2, &vec![0; 6]), Err(TopologyErr::TooFewMixnodes));
}

#[test]
fn routes_of_a_node_that_is_no_mixnode() {
    let topology = Topology::with_gateways(roster(5), &kx(9), &vec![4, 1, 3]);
    let ns = OnlyConnectedTo(vec![peer(1), peer(3), peer(0)]);
    let generator = RouteGenerator::new(&topology, &ns);
    assert_eq!(generator.connected_gateways, vec![index(1), index(3)]);
    assert_eq!(generator.local_peer_id, [250; 32]);

    let route = generator.gen_route_from(RouteKind::Loop, 4, &vec![0, 2, 0, 0, 0, 0]).unwrap();
    let hops: Vec<_> = (0..4).map(|i| route.hop(i).unwrap()).collect();
    // Gateway 1; any but 1, the third of which is 3; a gateway other than 3; home.
    assert_eq!(route.first_hop, index(1));
    assert_eq!(hops.iter().map(|h| h.kx_public[0]).collect::<Vec<_>>(), vec![1, 3, 1, 9]);
    assert_eq!(hops[2].forward_to, Some(Target::PeerId([250; 32])));
    assert_eq!(hops[3].forward_to, None);

    let route = generator.gen_route_from(RouteKind::ToMixnode(index(1)), 2, &vec![0; 6]).unwrap();
    assert_eq!(route.first_hop, index(3));
    assert_eq!(generator.gen_route_from(RouteKind::Loop, 1, &vec![0; 6]), Err(TopologyErr::BadNumHops(1)));

    let generator = RouteGenerator::from_status(&topology, [250; 32], &vec![false, true]);
    assert_eq!(generator.connected_gateways, vec![index(1)]);
    assert_eq!(
        generator.gen_route_from(RouteKind::ToMixnode(index(1)), 2, &vec![0; 6]),
        Err(TopologyErr::NoConnectedGatewayMixnodes)
    );
    // With one connected gateway, a route home exists only if the hop before
    // the gateway is another mixnode.
    for _ in 0..40 {
        match generator.gen_route(RouteKind::FromMixnode(index(0)), 3) {
            Ok(route) => {
                assert_ne!(route.first_hop, index(0));
                assert_ne!(route.first_hop, index(1));
                assert_eq!(route.hop(1).unwrap().kx_public, kx(1));
                assert_eq!(route.hop(2).unwrap().kx_public, kx(9));
            },
            Err(e) => assert_eq!(e, TopologyErr::NoConnectedGatewayMixnodes),
        }
    }
    assert_eq!(
        generator.gen_route_from(RouteKind::FromMixnode(index(0)), 3, &vec![0; 6]),
        Err(TopologyErr::NoConnectedGatewayMixnodes)
    );
    assert!(generator.gen_route_from(RouteKind::FromMixnode(index(0)), 3, &vec![1; 6]).is_ok());
}

#[test]
fn request_builder_routes() {
    let topology = Topology::new(roster(5), &kx(2), 3);
    let ns = OnlyConnectedTo(vec![]);
    let builder = RequestBuilder::new(&topology, &ns, Some(index(3))).unwrap();
    assert_eq!(builder.destination_index(), index(3));
    for _ in 0..20 {
        let route = builder.request_route(3).unwrap();
        assert_eq!(route.hop(2).unwrap().kx_public, kx(3));
        assert_ne!(route.first_hop, index(2));
        assert_ne!(route.hop(1).unwrap().kx_public, kx(3));
        let route = builder.surb_route(3).unwrap();
        assert_eq!(route.hop(2).unwrap().kx_public, kx(2));
        assert_ne!(route.first_hop, index(3));
        let random = RequestBuilder::new(&topology, &ns, None).unwrap();
        assert_ne!(random.destination_index(), index(2));
        assert!(random.destination_index().raw < 5);
    }
    let generator = RouteGenerator::from_status(&topology, [250; 32], &vec![]);
    let chosen = RequestBuilder::with_generator(generator, None, 3).unwrap();
    assert_eq!(chosen.destination_index(), index(4));
}

#[test]
fn cover_packets() {
    let topology = Topology::new(roster(5), &kx(2), 3);
    let generator = RouteGenerator::from_status(&topology, [250; 32], &vec![]);
    let config = Config::default();
    let cover = gen_cover_packet_from(&generator, CoverKind::Drop, &config, 3, &vec![0; 6]).unwrap();
    assert_eq!(cover.peer_id, peer(0));
    assert_eq!(cover.route.num_hops(), 4);
    assert_eq!(cover.route.hop(3).unwrap().kx_public, kx(4));
    let cover = gen_cover_packet_from(&generator, CoverKind::Loop, &config, 3, &vec![0; 6]).unwrap();
    assert_eq!(cover.route.hop(3).unwrap().kx_public, kx(2));

    let mut off = Config::default();
    off.gen_cover_packets = false;
    assert_eq!(gen_cover_packet_from(&generator, CoverKind::Loop, &off, 3, &vec![0; 6]), None);
    let ns = OnlyConnectedTo(vec![]);
    assert_eq!(gen_cover_packet(&topology, &ns, CoverKind::Drop, &off), None);
    let mut long = Config::default();
    long.num_hops = 7;
    assert_eq!(gen_cover_packet(&topology, &ns, CoverKind::Drop, &long), None);
    for _ in 0..20 {
        let cover = gen_cover_packet(&topology, &ns, CoverKind::Drop, &config).unwrap();
        assert_ne!(cover.route.hop(3).unwrap().kx_public, kx(2));
        assert_eq!(cover.peer_id, peer(cover.route.first_hop.raw as u8));
    }
}
