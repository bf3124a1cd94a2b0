//! The mixnet engine: the one object that owns the sessions, the queues and
//! the stores, and decides what happens to every packet.
//!
//! The engine does no cryptography and no I/O. Where the Sphinx primitive is
//! needed, the engine says what is to be done and takes the outcome in: it
//! hands out the secret to peel a packet with, the route to build a packet
//! along, the SURB to complete a reply with, and is told what came of it.

use crate::assembler::FragmentAssembler;
use crate::config::Config;
use crate::cover::{CoverKind, gen_cover_packet};
use crate::fragment::{
    BlueprintView, fragment_blueprints, FRAGMENT_SIZE, FragmentBlueprint, MAX_FRAGMENTS,
    MESSAGE_ID_SIZE, MessageId, num_fragments, spec_fragment, spec_num_fragments,
};
use crate::invalidated::Invalidated;
use crate::kx_store::{KxStore, SessionKeys};
use crate::messages::{
    AuthoredChoice, BuiltFragment, BuiltSurb, Message, MixnodeId, PacketEvent, PacketStep, Peeled,
    PostErr, RequestFragment, RequestPlan, SurbPlan,
};
use crate::model::{request_fails, route_fails, 
    authored_after_fragments, built_view, distinct_addresses, fragment_planned, is_route,
    keystore_after_fragments, keystore_after_surbs, MAX_PERIOD_UNITS, max_reply_delay,
    max_request_delay, max_surb_delay, MixnetView, spec_first_bad_surb, spec_fragment_packet,
    spec_kept_roster, spec_post_session, spec_reply_peer, spec_reply_surb,
};
use crate::packet_queues::{
    AddressedPacket, AuthoredPacket, AuthoredPacketQueue, ForwardPacket, ForwardPacketQueue,
    ReplyPacket,
};
use crate::random::{random_below, random_bytes, random_u64_below};
use crate::replay_filter::ReplayFilter;
use crate::request_builder::{spec_destination, RequestBuilder};
use crate::route::{connected_within, RouteNode, lemma_routes_are_sound, spec_choose_destination, spec_route_nodes, route_matches, RouteKind, spec_gen_route};
use crate::sessions::{
    RelSessionIndex, Session, SessionIndex, Sessions, SessionSlot, SessionStatus, SessionsView,
    SessionView, SlotView,
};
use crate::sphinx::{
    Action, Delay, kx_public, KxPublic, MAX_MIXNODE_INDEX, MixnodeIndex, Nanos, Packet, Payload,
    PAYLOAD_DATA_SIZE, PAYLOAD_SIZE, PayloadData, PeelErr, PeerId, plain_packet, Route, Surb,
    surb_first_hop, zeros,
};
use crate::surb_keystore::SurbKeystore;
use crate::topology::{
    copy_bytes, lists, Mixnode, NetworkStatus, Topology, TopologyErr, TopologyView,
};
use vstd::prelude::*;

verus! {

/// Returns which of the two sessions a request or a reply for session
/// `index` goes to. Fails if the session is neither the current one nor the
/// one before it, if the phase of the current session does not allow
/// requests and replies there, or if the mixnet is not available there.
pub fn post_session(sessions: &Sessions, status: SessionStatus, index: SessionIndex) -> (r: Result<
    RelSessionIndex,
    PostErr,
>)
    ensures
        r == spec_post_session(sessions@, status, index),
{
    let rel_index = match RelSessionIndex::from_session_index(index, status.current_index) {
        Some(rel_index) => rel_index,
        None => {
            return Err(PostErr::BadSessionIndex(index));
        },
    };
    if !status.phase.allow_requests_and_replies(rel_index) {
        return Err(PostErr::RequestsAndRepliesBlocked(index));
    }
    let slot = match rel_index {
        RelSessionIndex::Current => &sessions.current,
        RelSessionIndex::Prev => &sessions.prev,
    };
    match slot {
        SessionSlot::Empty => Err(PostErr::SessionEmpty(index)),
        SessionSlot::Disabled => Err(PostErr::SessionDisabled(index)),
        SessionSlot::Full(_) => Ok(rel_index),
    }
}

/// Returns the payload at the start of what peeling wrote.
pub fn copy_payload(out: &Packet) -> (r: Payload)
    ensures
        r@ == out@.subrange(0, PAYLOAD_SIZE as int),
{
    let mut payload: Payload = [0u8; PAYLOAD_SIZE];
    let mut i: usize = 0;
    while i < PAYLOAD_SIZE
        invariant
            i <= PAYLOAD_SIZE,
            forall|j: int| 0 <= j < i ==> payload[j] == out[j],
        decreases PAYLOAD_SIZE - i,
    {
        payload[i] = out[i];
        i += 1;
    }
    assert(payload@ =~= out@.subrange(0, PAYLOAD_SIZE as int));
    payload
}

/// Returns the payload data at the start of a payload, or of what peeling
/// wrote.
pub fn copy_payload_data<const N: usize>(out: &[u8; N]) -> (r: PayloadData)
    requires
        N >= PAYLOAD_DATA_SIZE,
    ensures
        r@ == out@.subrange(0, PAYLOAD_DATA_SIZE as int),
{
    let mut data: PayloadData = [0u8; PAYLOAD_DATA_SIZE];
    let mut i: usize = 0;
    while i < PAYLOAD_DATA_SIZE
        invariant
            i <= PAYLOAD_DATA_SIZE,
            N >= PAYLOAD_DATA_SIZE,
            forall|j: int| 0 <= j < i ==> data[j] == out[j],
        decreases PAYLOAD_DATA_SIZE - i,
    {
        data[i] = out[i];
        i += 1;
    }
    assert(data@ =~= out@.subrange(0, PAYLOAD_DATA_SIZE as int));
    data
}

/// Whether two byte strings are the same.
pub fn bytes_equal(a: &Vec<u8>, b: &Vec<u8>) -> (r: bool)
    ensures
        r == (a@ == b@),
{
    if a.len() != b.len() {
        return false;
    }
    let mut i: usize = 0;
    while i < a.len()
        invariant
            i <= a@.len(),
            a@.len() == b@.len(),
            forall|j: int| 0 <= j < i ==> a@[j] == b@[j],
        decreases a@.len() - i,
    {
        if a[i] != b[i] {
            return false;
        }
        i += 1;
    }
    assert(a@ =~= b@);
    true
}

/// Appends to `to` the addresses in `from` that it does not hold yet.
fn append_unique(to: &mut Vec<Vec<u8>>, from: &Vec<Vec<u8>>)
    requires
        distinct_addresses(old(to)@),
    ensures
        distinct_addresses(final(to)@),
        forall|address: Seq<u8>|
            #![trigger lists(final(to)@, address)]
            lists(final(to)@, address) <==> lists(old(to)@, address) || lists(from@, address),
{
    let mut i: usize = 0;
    while i < from.len()
        invariant
            i <= from@.len(),
            distinct_addresses(to@),
            forall|address: Seq<u8>|
                lists(to@, address) <==> lists(old(to)@, address) || lists(
                    from@.take(i as int),
                    address,
                ),
        decreases from@.len() - i,
    {
        let ghost before = to@;
        let ghost item = from@[i as int]@;
        let mut found = false;
        let mut j: usize = 0;
        while j < to.len() && !found
            invariant
                j <= to@.len(),
                to@ == before,
                i < from@.len(),
                item == from@[i as int]@,
                found ==> lists(to@, item),
                !found ==> forall|k: int| 0 <= k < j ==> (#[trigger] to@[k])@ != item,
            decreases to@.len() - j + if found { 0int } else { 1int },
        {
            if bytes_equal(&to[j], &from[i]) {
                found = true;
            } else {
                j += 1;
            }
        }
        if !found {
            to.push(copy_bytes(&from[i]));
            assert(to@[before.len() as int]@ == item);
        }
        proof {
            assert(from@.take(i + 1)[i as int]@ == item);
            assert forall|address: Seq<u8>|
                lists(to@, address) <==> lists(old(to)@, address) || lists(
                    from@.take(i + 1),
                    address,
                ) by {
                if lists(to@, address) {
                    let k = choose|k: int| 0 <= k < to@.len() && (#[trigger] to@[k])@ == address;
                    if k < before.len() {
                        assert(before[k]@ == address);
                        assert(lists(before, address));
                        if lists(from@.take(i as int), address) {
                            let q = choose|q: int|
                                0 <= q < from@.take(i as int).len() && (#[trigger] from@.take(
                                    i as int,
                                )[q])@ == address;
                            assert(from@.take(i + 1)[q]@ == address);
                        }
                    } else {
                        assert(address == item);
                        assert(lists(from@.take(i + 1), address));
                    }
                }
                if lists(old(to)@, address) {
                    assert(lists(before, address));
                    let k = choose|k: int| 0 <= k < before.len() && (#[trigger] before[k])@ == address;
                    assert(to@[k]@ == address);
                }
                if lists(from@.take(i + 1), address) {
                    let q = choose|q: int|
                        0 <= q < from@.take(i + 1).len() && (#[trigger] from@.take(i + 1)[q])@
                            == address;
                    if q < i {
                        assert(from@.take(i as int)[q]@ == address);
                        assert(lists(before, address));
                        let k = choose|k: int|
                            0 <= k < before.len() && (#[trigger] before[k])@ == address;
                        assert(to@[k]@ == address);
                    } else {
                        assert(address == item);
                        if found {
                            assert(lists(to@, address));
                        } else {
                            assert(to@[before.len() as int]@ == address);
                        }
                    }
                }
            }
        }
        i += 1;
    }
    proof {
        assert(from@.take(from@.len() as int) =~= from@);
    }
}

/// Plans the SURBs of one fragment of a request.
fn plan_surbs(builder: &RequestBuilder, num_surbs: usize, num_hops: u32) -> (r: Result<
    Vec<SurbPlan>,
    TopologyErr,
>)
    requires
        builder.wf(),
    ensures
        match r {
            Ok(surbs) => surbs@.len() == num_surbs && forall|s: int|
                0 <= s < surbs@.len() ==> is_route(
                    builder.route_generator.topology@,
                    (#[trigger] surbs@[s]).route,
                    RouteKind::FromMixnode(builder.destination_index),
                    num_hops,
                ),
            Err(e) => route_fails(
                builder.route_generator.topology@,
                RouteKind::FromMixnode(builder.destination_index),
                num_hops,
                e,
            ),
        },
{
    let mut surbs: Vec<SurbPlan> = Vec::new();
    let mut s: usize = 0;
    while s < num_surbs
        invariant
            s <= num_surbs,
            builder.wf(),
            surbs@.len() == s,
            forall|k: int|
                0 <= k < surbs@.len() ==> is_route(
                    builder.route_generator.topology@,
                    (#[trigger] surbs@[k]).route,
                    RouteKind::FromMixnode(builder.destination_index),
                    num_hops,
                ),
        decreases num_surbs - s,
    {
        let id = SurbKeystore::gen_id();
        let outcome = builder.surb_route(num_hops);
        proof {
            lemma_is_route(builder, outcome, RouteKind::FromMixnode(builder.destination_index), num_hops);
        }
        let route = match outcome {
            Ok(route) => route,
            Err(e) => {
                return Err(e);
            },
        };
        let ghost before = surbs@;
        surbs.push(SurbPlan { id, route });
        assert forall|k: int| 0 <= k < surbs@.len() implies is_route(
            builder.route_generator.topology@,
            (#[trigger] surbs@[k]).route,
            RouteKind::FromMixnode(builder.destination_index),
            num_hops,
        ) by {
            if k < before.len() {
                assert(surbs@[k] == before[k]);
            }
        }
        s += 1;
    }
    Ok(surbs)
}

/// What the generator of a builder returns is a route through its topology,
/// with a first hop that is in the roster, or a failure to find one.
proof fn lemma_is_route(builder: &RequestBuilder, outcome: Result<Route, TopologyErr>, kind: RouteKind, num_hops: u32)
    requires
        builder.wf(),
        builder.is_route_outcome(outcome, kind, num_hops),
    ensures
        match outcome {
            Ok(route) => is_route(builder.route_generator.topology@, route, kind, num_hops)
                && builder.route_generator.topology@.mixnode_index_to_peer_id(route.first_hop) is Ok,
            Err(e) => route_fails(builder.route_generator.topology@, kind, num_hops, e),
        },
{
    let topology = builder.route_generator.topology@;
    let gateways = builder.route_generator.connected();
    let draws = choose|draws: Seq<u64>|
        draws.len() == crate::sphinx::MAX_HOPS && route_matches(
            outcome,
            #[trigger] spec_gen_route(
                topology,
                gateways,
                builder.route_generator.local_peer_id,
                kind,
                num_hops,
                draws,
            ),
        );
    let expected = spec_gen_route(
        topology,
        gateways,
        builder.route_generator.local_peer_id,
        kind,
        num_hops,
        draws,
    );
    assert(route_matches(outcome, expected));
    if expected is Ok {
        lemma_routes_are_sound(topology, gateways, kind, num_hops, draws);
        let nodes = spec_route_nodes(topology, gateways, kind, num_hops, draws)->Ok_0;
        assert(nodes[0] is Mixnode);
    }
}

/// A route to a mixnode ends in the roster.
proof fn lemma_destination_in_roster(topology: TopologyView, route: Route, destination: MixnodeIndex, num_hops: u32)
    requires
        topology.wf(),
        is_route(topology, route, RouteKind::ToMixnode(destination), num_hops),
    ensures
        destination.raw < topology.mixnodes.len(),
{
    let kind = RouteKind::ToMixnode(destination);
    let (gateways, local_peer_id, draws) = choose|
        gateways: Seq<int>,
        local_peer_id: PeerId,
        draws: Seq<u64>,
    |
        connected_within(topology, gateways) && route_matches(
            Ok::<Route, TopologyErr>(route),
            #[trigger] spec_gen_route(topology, gateways, local_peer_id, kind, num_hops, draws),
        );
    lemma_routes_are_sound(topology, gateways, kind, num_hops, draws);
    let nodes = spec_route_nodes(topology, gateways, kind, num_hops, draws)->Ok_0;
    assert(nodes[nodes.len() - 1] == RouteNode::Mixnode(destination));
}

/// Plans the packet of one fragment of a request.
fn plan_fragment(builder: &RequestBuilder, blueprint: &FragmentBlueprint, num_hops: u32) -> (r: Result<
    RequestFragment,
    TopologyErr,
>)
    requires
        builder.wf(),
        blueprint@.wf(),
    ensures
        match r {
            Ok(fragment) => fragment_planned(
                fragment,
                builder.route_generator.topology@,
                builder.destination_index,
                num_hops,
                blueprint@,
            ),
            Err(e) => route_fails(
                builder.route_generator.topology@,
                RouteKind::ToMixnode(builder.destination_index),
                num_hops,
                e,
            ) || route_fails(
                builder.route_generator.topology@,
                RouteKind::FromMixnode(builder.destination_index),
                num_hops,
                e,
            ),
        },
{
    let outcome = builder.request_route(num_hops);
    proof {
        lemma_is_route(builder, outcome, RouteKind::ToMixnode(builder.destination_index), num_hops);
    }
    let route = match outcome {
        Ok(route) => route,
        Err(e) => {
            return Err(e);
        },
    };
    let peer_id = match builder.route_generator.topology.mixnode_index_to_peer_id(route.first_hop) {
        Ok(peer_id) => peer_id,
        Err(e) => {
            return Err(e);
        },
    };
    let mut payload_data: PayloadData = [0u8; FRAGMENT_SIZE];
    assert(payload_data@ =~= zeros(FRAGMENT_SIZE as nat));
    blueprint.write_except_surbs(&mut payload_data);
    let surbs = match plan_surbs(builder, blueprint.num_surbs, num_hops) {
        Ok(surbs) => surbs,
        Err(e) => {
            return Err(e);
        },
    };
    Ok(RequestFragment { peer_id, route, payload_data: Box::new(payload_data), surbs })
}

/// Appends `packet` to the authored packet queue of the session in `slot`.
fn slot_push_authored(slot: &mut SessionSlot, packet: AuthoredPacket)
    requires
        old(slot).wf(),
        old(slot)@ is Full,
        old(slot)@->Full_0.authored.len() < old(slot)@->Full_0.authored_capacity,
    ensures
        final(slot).wf(),
        final(slot)@ == SlotView::Full(
            SessionView {
                authored: old(slot)@->Full_0.authored.push(packet),
                ..old(slot)@->Full_0
            },
        ),
{
    match slot {
        SessionSlot::Full(session) => {
            session.authored_packet_queue.push(packet);
        },
        _ => {},
    }
}

/// Takes the packet at the head of the authored packet queue of the session
/// in `slot`.
fn slot_pop_authored(slot: &mut SessionSlot) -> (r: Option<AuthoredPacket>)
    requires
        old(slot).wf(),
        old(slot)@ is Full,
    ensures
        final(slot).wf(),
        r == if old(slot)@->Full_0.authored.len() > 0 {
            Some(old(slot)@->Full_0.authored[0])
        } else {
            None
        },
        final(slot)@ == SlotView::Full(
            SessionView {
                authored: if old(slot)@->Full_0.authored.len() > 0 {
                    old(slot)@->Full_0.authored.drop_first()
                } else {
                    old(slot)@->Full_0.authored
                },
                ..old(slot)@->Full_0
            },
        ),
{
    match slot {
        SessionSlot::Full(session) => session.authored_packet_queue.pop(),
        _ => None,
    }
}

/// Enters `key` in the replay filter of the session in `slot`.
fn slot_replay_insert(slot: &mut SessionSlot, key: &KxPublic)
    requires
        old(slot).wf(),
    ensures
        final(slot).wf(),
        final(slot)@ == match old(slot)@ {
            SlotView::Full(session) => SlotView::Full(
                SessionView { replay: session.replay.insert(key@), ..session },
            ),
            other => other,
        },
{
    match slot {
        SessionSlot::Full(session) => {
            session.replay_filter.insert(key);
        },
        _ => {},
    }
}

/// The mixnet engine.
pub struct Mixnet {
    config: Config,
    /// Index and phase of the current session.
    session_status: SessionStatus,
    /// The key-exchange keys of the local node, by session.
    kx_store: KxStore,
    /// The current and the previous session.
    sessions: Sessions,
    /// The packets to be forwarded, after some delay.
    forward_packet_queue: ForwardPacketQueue,
    /// The payload decryption keys of the SURBs handed out.
    surb_keystore: SurbKeystore,
    /// Reassembles fragments into messages. There is one assembler for
    /// requests and replies of all sessions.
    fragment_assembler: FragmentAssembler,
    /// The flags raised since the caller last took them.
    invalidated: Invalidated,
}

impl View for Mixnet {
    type V = MixnetView;

    closed spec fn view(&self) -> MixnetView {
        MixnetView {
            config: self.config,
            session_status: self.session_status,
            kx_store: self.kx_store@,
            sessions: self.sessions@,
            forward_packet_queue: self.forward_packet_queue@,
            surb_keystore: self.surb_keystore@,
            fragment_assembler: self.fragment_assembler@,
            invalidated: self.invalidated,
        }
    }
}

impl Mixnet {
    /// Every part of the engine is well-formed, and the queues, the SURB
    /// keystore and the fragment assembler have the bounds that the
    /// configuration gives them.
    pub closed spec fn wf(&self) -> bool {
        &&& self.kx_store@.wf()
        &&& self.sessions.wf()
        &&& self.forward_packet_queue.wf()
        &&& self.forward_packet_queue.spec_capacity() == self.config.forward_packet_queue_capacity
        &&& self.surb_keystore.wf()
        &&& self.surb_keystore.spec_capacity() == self.config.surb_keystore_capacity
        &&& self.fragment_assembler.wf()
        &&& self.fragment_assembler.spec_limits() == self@.limits()
    }

    /// What a well-formed engine holds is well-formed: the forward packet
    /// queue is ordered by deadline and within its capacity, every queue of
    /// authored packets is within its capacity, and the SURB keystore and
    /// the fragment assembler are within their bounds.
    pub proof fn lemma_wf(&self)
        requires
            self.wf(),
        ensures
            self@.wf(),
    {
        self.fragment_assembler.lemma_wf();
    }

    /// Returns an engine with no sessions and nothing queued, which takes its
    /// key-exchange keys from `kx_store`.
    pub fn new(config: Config, kx_store: KxStore) -> (r: Mixnet)
        requires
            kx_store@.wf(),
        ensures
            r.wf(),
            r@ == (MixnetView {
                config,
                session_status: SessionStatus {
                    current_index: 0,
                    phase: crate::sessions::SessionPhase::ConnectToCurrent,
                },
                kx_store: kx_store@,
                sessions: SessionsView::empty(),
                forward_packet_queue: Seq::empty(),
                surb_keystore: Seq::empty(),
                fragment_assembler: Seq::empty(),
                invalidated: Invalidated::spec_empty(),
            }),
    {
        let forward_packet_queue = ForwardPacketQueue::new(
            config.forward_packet_queue_capacity as usize,
        );
        let surb_keystore = SurbKeystore::new(config.surb_keystore_capacity as usize);
        let fragment_assembler = FragmentAssembler::new(
            config.max_incomplete_messages as usize,
            config.max_incomplete_fragments as usize,
            config.max_fragments_per_message as usize,
        );
        Mixnet {
            config,
            session_status: SessionStatus {
                current_index: 0,
                phase: crate::sessions::SessionPhase::ConnectToCurrent,
            },
            kx_store,
            sessions: Sessions::new(),
            forward_packet_queue,
            surb_keystore,
            fragment_assembler,
            invalidated: Invalidated::empty(),
        }
    }

    /// Returns the configuration.
    pub fn config(&self) -> (r: Config)
        ensures
            r == self@.config,
    {
        self.config
    }

    /// Returns the index and the phase of the current session.
    pub fn session_status(&self) -> (r: SessionStatus)
        ensures
            r == self@.session_status,
    {
        self.session_status
    }

    /// Returns the key-exchange key store.
    pub fn kx_store(&self) -> (r: &KxStore)
        ensures
            r@ == self@.kx_store,
    {
        &self.kx_store
    }

    /// Offers a key-exchange key pair of the local node to the key store.
    /// Returns whether it was kept.
    pub fn add_session_keys(&mut self, keys: SessionKeys) -> (kept: bool)
        requires
            old(self).wf(),
        ensures
            final(self).wf(),
            kept == old(self)@.kx_store.accepts(keys.session_index),
            final(self)@ == (MixnetView { kx_store: old(self)@.kx_store.add(keys), ..old(self)@ }),
    {
        self.kx_store.add_session_keys(keys)
    }

    fn slot(&self, rel_session_index: RelSessionIndex) -> (r: &SessionSlot)
        ensures
            r@ == self@.sessions.slot(rel_session_index),
            self.wf() ==> r.wf(),
    {
        match rel_session_index {
            RelSessionIndex::Current => &self.sessions.current,
            RelSessionIndex::Prev => &self.sessions.prev,
        }
    }

    fn set_slot(&mut self, rel_session_index: RelSessionIndex, slot: SessionSlot)
        requires
            old(self).wf(),
            slot.wf(),
        ensures
            final(self).wf(),
            final(self)@ == old(self)@.with_slot(rel_session_index, slot@),
    {
        match rel_session_index {
            RelSessionIndex::Current => {
                self.sessions.current = slot;
            },
            RelSessionIndex::Prev => {
                self.sessions.prev = slot;
            },
        }
    }

    /// Returns whether the mixnodes of the session are still to be provided.
    pub fn is_session_empty(&self, rel_session_index: RelSessionIndex) -> (r: bool)
        ensures
            r == (self@.sessions.slot(rel_session_index) is Empty),
    {
        self.slot(rel_session_index).is_empty()
    }

    /// Returns whether the mixnet is available in the session.
    pub fn is_session_full(&self, rel_session_index: RelSessionIndex) -> (r: bool)
        ensures
            r == (self@.sessions.slot(rel_session_index) is Full),
    {
        self.slot(rel_session_index).is_full()
    }

    /// Returns whether the local node is a mixnode in the session; `None`
    /// if the mixnet is not available there.
    pub fn is_mixnode(&self, rel_session_index: RelSessionIndex) -> (r: Option<bool>)
        ensures
            r == match self@.sessions.slot(rel_session_index) {
                SlotView::Full(session) => Some(session.topology.is_mixnode()),
                _ => None,
            },
    {
        match self.slot(rel_session_index) {
            SessionSlot::Full(session) => Some(session.topology.is_mixnode()),
            _ => None,
        }
    }

    /// Returns whether the session has processed a packet with the given
    /// key-exchange public key; `false` if the mixnet is not available there.
    pub fn has_seen(&self, rel_session_index: RelSessionIndex, key: &KxPublic) -> (r: bool)
        ensures
            r == match self@.sessions.slot(rel_session_index) {
                SlotView::Full(session) => session.replay.contains(key@),
                _ => false,
            },
    {
        match self.slot(rel_session_index) {
            SessionSlot::Full(session) => session.replay_filter.contains(key),
            _ => false,
        }
    }

    /// Returns the number of packets in the authored packet queue of the
    /// session; zero if the mixnet is not available there.
    pub fn authored_packet_queue_len(&self, rel_session_index: RelSessionIndex) -> (r: usize)
        ensures
            r == match self@.sessions.slot(rel_session_index) {
                SlotView::Full(session) => session.authored.len(),
                _ => 0,
            },
    {
        match self.slot(rel_session_index) {
            SessionSlot::Full(session) => session.authored_packet_queue.len(),
            _ => 0,
        }
    }

    /// Returns the number of packets in the forward packet queue.
    pub fn forward_packet_queue_len(&self) -> (r: usize)
        ensures
            r == self@.forward_packet_queue.len(),
    {
        self.forward_packet_queue.len()
    }

    /// Returns the number of SURBs whose keys are kept.
    pub fn surb_keystore_len(&self) -> (r: usize)
        ensures
            r == self@.surb_keystore.len(),
    {
        self.surb_keystore.len()
    }

    /// Returns the number of messages under reassembly.
    pub fn num_incomplete_messages(&self) -> (r: usize)
        ensures
            r == self@.fragment_assembler.len(),
    {
        self.fragment_assembler.num_incomplete_messages()
    }

    /// Sets the index and the phase of the current session. The mixnodes of
    /// the current and of the previous session may have to be provided
    /// afterwards; see `maybe_set_mixnodes`.
    pub fn set_session_status(&mut self, session_status: SessionStatus)
        requires
            old(self).wf(),
        ensures
            final(self).wf(),
            final(self)@ == old(self)@.set_session_status(session_status),
    {
        if self.session_status == session_status {
            return ;
        }
        if self.session_status.current_index != session_status.current_index {
            if session_status.current_index.saturating_sub(self.session_status.current_index) == 1 {
                self.sessions.advance_by_one();
            } else {
                self.sessions = Sessions::new();
            }
        }
        if !session_status.phase.need_prev() {
            self.sessions.prev = SessionSlot::Disabled;
        }
        let min_needed_rel_session_index = if session_status.phase.need_prev() {
            RelSessionIndex::Prev
        } else {
            RelSessionIndex::Current
        };
        self.kx_store.discard_sessions_before(
            min_needed_rel_session_index.session_index(session_status.current_index),
        );
        self.invalidated = self.invalidated.union(Invalidated::sessions_changed());
        self.session_status = session_status;
    }

    /// Provides the mixnodes of a session, if they are needed: `mixnodes` is
    /// called only if the slot of the session is empty. Afterwards the slot
    /// is full or disabled. The key-exchange key pair of the local node for
    /// the session has to be in the key store before: without it the session
    /// is disabled.
    pub fn maybe_set_mixnodes<E, F: FnOnce() -> Result<Vec<Mixnode>, E>>(
        &mut self,
        rel_session_index: RelSessionIndex,
        mixnodes: F,
    ) -> (r: Result<(), E>)
        requires
            old(self).wf(),
            mixnodes.requires(()),
        ensures
            final(self).wf(),
            match r {
                Err(e) => old(self)@.sessions.slot(rel_session_index) is Empty && mixnodes.ensures(
                    (),
                    Err(e),
                ) && final(self)@ == old(self)@,
                Ok(_) => if old(self)@.sessions.slot(rel_session_index) is Empty {
                    exists|roster: Vec<Mixnode>| #[trigger]
                        mixnodes.ensures((), Ok(roster)) && old(self)@.populated(
                            final(self)@,
                            rel_session_index,
                            roster@,
                        )
                } else {
                    final(self)@ == old(self)@
                },
            },
    {
        // The session is made only if the slot is empty. If the slot is
        // disabled, the mixnodes are not even asked for.
        if !self.slot(rel_session_index).is_empty() {
            return Ok(());
        }
        let session_index = rel_session_index.session_index(self.session_status.current_index);
        let mut roster = match mixnodes() {
            Ok(roster) => roster,
            Err(e) => {
                return Err(e);
            },
        };
        let ghost provided = roster;
        assert(mixnodes.ensures((), Ok(provided)));
        if roster.len() < self.config.min_mixnodes as usize {
            self.set_slot(rel_session_index, SessionSlot::Disabled);
            assert(old(self)@.populated(self@, rel_session_index, provided@));
            return Ok(());
        }
        let max_mixnodes: usize = MAX_MIXNODE_INDEX as usize + 1;
        if roster.len() > max_mixnodes {
            roster.truncate(max_mixnodes);
        }
        assert(roster@ =~= spec_kept_roster(provided@));
        let local_kx_public = match self.kx_store.public_for_session(session_index) {
            Some(local_kx_public) => local_kx_public,
            None => {
                self.set_slot(rel_session_index, SessionSlot::Disabled);
                assert(old(self)@.populated(self@, rel_session_index, provided@));
                return Ok(());
            },
        };
        let topology = Topology::new(roster, &local_kx_public, self.config.num_gateway_mixnodes);
        let session_config = if topology.is_mixnode() {
            self.config.mixnode_session
        } else {
            match self.config.non_mixnode_session {
                Some(session_config) => session_config,
                None => {
                    self.set_slot(rel_session_index, SessionSlot::Disabled);
                    assert(old(self)@.populated(self@, rel_session_index, provided@));
                    return Ok(());
                },
            }
        };
        let session = Session {
            topology,
            authored_packet_queue: AuthoredPacketQueue::new(
                session_config.authored_packet_queue_capacity as usize,
            ),
            mean_authored_packet_period: session_config.mean_authored_packet_period,
            replay_filter: ReplayFilter::new(),
        };
        self.set_slot(rel_session_index, SessionSlot::Full(session));
        self.invalidated = self.invalidated.union(Invalidated::sessions_changed());
        assert(old(self)@.populated(self@, rel_session_index, provided@));
        Ok(())
    }

    fn slot_reserved_peer_addresses(&self, rel_session_index: RelSessionIndex) -> (r: Vec<Vec<u8>>)
        ensures
            forall|address: Seq<u8>|
                self@.slot_reserved_addresses(rel_session_index).contains(address) <==> lists(
                    r@,
                    address,
                ),
    {
        match self.slot(rel_session_index) {
            SessionSlot::Full(session) => session.topology.reserved_peer_addresses(),
            _ => Vec::new(),
        }
    }

    /// Returns the addresses of the peers that the local node keeps
    /// connections to in the sessions in which the mixnet is available, each
    /// address once.
    pub fn reserved_peer_addresses(&self) -> (r: Vec<Vec<u8>>)
        ensures
            distinct_addresses(r@),
            forall|address: Seq<u8>|
                self@.reserved_addresses().contains(address) <==> lists(r@, address),
    {
        let mut addresses: Vec<Vec<u8>> = Vec::new();
        let current = self.slot_reserved_peer_addresses(RelSessionIndex::Current);
        let prev = self.slot_reserved_peer_addresses(RelSessionIndex::Prev);
        let ghost none = addresses@;
        append_unique(&mut addresses, &current);
        let ghost first = addresses@;
        append_unique(&mut addresses, &prev);
        proof {
            assert forall|address: Seq<u8>|
                self@.reserved_addresses().contains(address) <==> lists(addresses@, address) by {
                assert(!lists(none, address));
                assert(lists(first, address) <==> lists(none, address) || lists(current@, address));
                assert(lists(addresses@, address) <==> lists(first, address) || lists(
                    prev@,
                    address,
                ));
                assert(self@.slot_reserved_addresses(RelSessionIndex::Current).contains(address)
                    <==> lists(current@, address));
                assert(self@.slot_reserved_addresses(RelSessionIndex::Prev).contains(address)
                    <==> lists(prev@, address));
            }
        }
        addresses
    }

    fn try_session(&self, packet: &Packet, rel_session_index: RelSessionIndex) -> (r: Option<PacketStep>)
        requires
            self.wf(),
        ensures
            match r {
                Some(step) => Some(step@) == self@.try_session(*packet, rel_session_index),
                None => self@.try_session(*packet, rel_session_index) is None,
            },
    {
        match self.slot(rel_session_index) {
            SessionSlot::Full(session) => {
                let key = kx_public(packet);
                if session.replay_filter.contains(&key) {
                    return Some(PacketStep::Done(None));
                }
                let session_index = rel_session_index.session_index(
                    self.session_status.current_index,
                );
                match self.kx_store.session_secret(session_index) {
                    Some(secret) => Some(
                        PacketStep::Peel { rel_session_index, session_index, secret },
                    ),
                    None => None,
                }
            },
            _ => None,
        }
    }

    fn try_prev(&self, packet: &Packet) -> (r: PacketStep)
        requires
            self.wf(),
        ensures
            r@ == self@.try_prev(*packet),
    {
        match self.try_session(packet, RelSessionIndex::Prev) {
            Some(step) => step,
            None => PacketStep::Done(None),
        }
    }

    fn replay_insert(&mut self, rel_session_index: RelSessionIndex, key: &KxPublic)
        requires
            old(self).wf(),
        ensures
            final(self).wf(),
            final(self)@ == (MixnetView {
                sessions: old(self)@.sessions.with_slot(
                    rel_session_index,
                    match old(self)@.sessions.slot(rel_session_index) {
                        SlotView::Full(session) => SlotView::Full(
                            SessionView { replay: session.replay.insert(key@), ..session },
                        ),
                        other => other,
                    },
                ),
                ..old(self)@
            }),
    {
        match rel_session_index {
            RelSessionIndex::Current => slot_replay_insert(&mut self.sessions.current, key),
            RelSessionIndex::Prev => slot_replay_insert(&mut self.sessions.prev, key),
        }
    }

    /// Acts on a packet that was peeled with the secret of the given
    /// session.
    pub fn dispatch(&mut self, packet: &Packet, rel_session_index: RelSessionIndex, peeled: Peeled, now: Nanos) -> (r:
        PacketStep)
        requires
            old(self).wf(),
        ensures
            final(self).wf(),
            (final(self)@, r@) == old(self)@.dispatch(*packet, rel_session_index, peeled, now),
    {
        let key = kx_public(packet);
        let (is_mixnode, peer_id) = match self.slot(rel_session_index) {
            SessionSlot::Full(session) => (
                session.topology.is_mixnode(),
                match &peeled.action {
                    Action::ForwardTo { target, delay } => match session.topology.target_to_peer_id(
                        target,
                    ) {
                        Ok(peer_id) => Some(peer_id),
                        Err(_) => None,
                    },
                    _ => None,
                },
            ),
            _ => {
                return PacketStep::Done(None);
            },
        };
        match peeled.action {
            Action::ForwardTo { target, delay } => {
                if !is_mixnode {
                    return PacketStep::Done(None);
                }
                if self.forward_packet_queue.remaining_capacity() == 0 {
                    return PacketStep::Done(None);
                }
                // Only now, so that nothing is entered in the replay filter
                // of a session in which the local node is not a mixnode.
                self.replay_insert(rel_session_index, &key);
                match peer_id {
                    Some(peer_id) => {
                        let deadline = now.saturating_add(
                            delay.to_duration(self.config.mean_forwarding_delay),
                        );
                        let forward_packet = ForwardPacket {
                            deadline,
                            packet: AddressedPacket { peer_id, packet: peeled.out },
                        };
                        if self.forward_packet_queue.insert(forward_packet) {
                            self.invalidated = self.invalidated.union(
                                Invalidated::next_forward_packet_deadline(),
                            );
                        }
                    },
                    None => {},
                }
                PacketStep::Done(None)
            },
            Action::DeliverRequest => {
                if !is_mixnode {
                    return PacketStep::Done(None);
                }
                self.replay_insert(rel_session_index, &key);
                let payload_data = copy_payload_data(&*peeled.out);
                let session_index = rel_session_index.session_index(
                    self.session_status.current_index,
                );
                match self.fragment_assembler.insert(&payload_data) {
                    Some(message) => PacketStep::Done(
                        Some(Message::Request { session_index, data: message.data, surbs: message.surbs }),
                    ),
                    None => PacketStep::Done(None),
                }
            },
            Action::DeliverReply { surb_id } => {
                // Nothing is entered in the replay filter here: the keys of
                // a SURB are given out once, so a replayed reply finds none.
                match self.surb_keystore.take(&surb_id) {
                    Some(keys) => PacketStep::DecryptReply {
                        keys,
                        payload: Box::new(copy_payload(&*peeled.out)),
                    },
                    None => PacketStep::Done(None),
                }
            },
            Action::DeliverCover { cover_id } => PacketStep::Done(None),
        }
    }

    /// Takes in what has happened to an incoming packet, and returns what is
    /// to happen next. The caller starts with `PacketEvent::Received`, does
    /// what each step asks for, and reports the outcome as the next event,
    /// until the step is `PacketStep::Done`. `now` is the time of the call.
    pub fn handle_packet(&mut self, packet: &Packet, event: PacketEvent, now: Nanos) -> (r: PacketStep)
        requires
            old(self).wf(),
        ensures
            final(self).wf(),
            (final(self)@, r@) == old(self)@.handle_packet(*packet, event, now),
    {
        match event {
            PacketEvent::Received => {
                self.kx_store.add_pending_session_secrets();
                match self.try_session(packet, RelSessionIndex::Current) {
                    Some(step) => step,
                    None => self.try_prev(packet),
                }
            },
            PacketEvent::Peeled { rel_session_index, result } => match result {
                Err(PeelErr::Mac) => match rel_session_index {
                    RelSessionIndex::Current => self.try_prev(packet),
                    RelSessionIndex::Prev => PacketStep::Done(None),
                },
                Err(_) => PacketStep::Done(None),
                Ok(peeled) => self.dispatch(packet, rel_session_index, peeled, now),
            },
            PacketEvent::ReplyDecrypted { payload } => match payload {
                None => PacketStep::Done(None),
                Some(payload) => {
                    let payload_data = copy_payload_data(&*payload);
                    match self.fragment_assembler.insert(&payload_data) {
                        Some(message) => PacketStep::Done(
                            Some(Message::Reply { id: message.id, data: message.data }),
                        ),
                        None => PacketStep::Done(None),
                    }
                },
            },
        }
    }

    /// Returns the deadline of the packet at the head of the forward packet
    /// queue, if the queue is not empty.
    pub fn next_forward_packet_deadline(&self) -> (r: Option<Nanos>)
        requires
            self.wf(),
        ensures
            r == if self@.forward_packet_queue.len() > 0 {
                Some(self@.forward_packet_queue[0].deadline)
            } else {
                None
            },
    {
        self.forward_packet_queue.next_deadline()
    }

    /// Removes and returns the packet at the head of the forward packet
    /// queue. Returns `None` if the queue is empty.
    pub fn pop_next_forward_packet(&mut self) -> (r: Option<AddressedPacket>)
        requires
            old(self).wf(),
        ensures
            final(self).wf(),
            final(self)@ == old(self)@.pop_next_forward_packet(),
            r == if old(self)@.forward_packet_queue.len() > 0 {
                Some(old(self)@.forward_packet_queue[0].packet)
            } else {
                None
            },
    {
        self.invalidated = self.invalidated.union(Invalidated::next_forward_packet_deadline());
        match self.forward_packet_queue.pop() {
            Some(packet) => Some(packet.packet),
            None => None,
        }
    }

    fn active_period(&self, rel_session_index: RelSessionIndex) -> (r: Option<Nanos>)
        ensures
            r == self@.active_period(rel_session_index),
    {
        match self.slot(rel_session_index) {
            SessionSlot::Full(session) => if self.session_status.phase.gen_cover_packets(
                rel_session_index,
            ) {
                Some(session.mean_authored_packet_period)
            } else {
                None
            },
            _ => None,
        }
    }

    /// Returns the time to wait before the next authored packet is sent,
    /// given a draw from the exponential distribution with mean one.
    /// Returns `None` if no session is active. Packets are sent at the rate
    /// of the most active session; `pop_next_authored_packet` shares them
    /// out between the sessions.
    pub fn next_authored_packet_delay(&self, unit_delay: Delay) -> (r: Option<Nanos>)
        ensures
            r == self@.next_authored_packet_delay(unit_delay),
    {
        let mean = match (
            self.active_period(RelSessionIndex::Current),
            self.active_period(RelSessionIndex::Prev),
        ) {
            (Some(current), Some(prev)) => if current <= prev {
                current
            } else {
                prev
            },
            (Some(current), None) => current,
            (None, Some(prev)) => prev,
            (None, None) => {
                return None;
            },
        };
        let capped = Delay {
            units: if unit_delay.units > MAX_PERIOD_UNITS {
                MAX_PERIOD_UNITS
            } else {
                unit_delay.units
            },
        };
        Some(capped.to_duration(mean))
    }

    /// Returns the number of draws for the session that are equally likely.
    pub fn session_draw_bound(&self) -> (r: u128)
        ensures
            r == self@.session_draw_bound(),
            r > 0,
    {
        match (
            self.active_period(RelSessionIndex::Current),
            self.active_period(RelSessionIndex::Prev),
        ) {
            (Some(current), Some(prev)) => {
                let total: u128 = current as u128 + prev as u128;
                if total == 0 {
                    1
                } else {
                    total
                }
            },
            _ => 1,
        }
    }

    /// Returns the number of draws for the kind of cover packet that are
    /// equally likely.
    pub fn loop_draw_bound(&self) -> (r: u64)
        ensures
            r == self@.loop_draw_bound(),
            r > 0,
    {
        if self.config.loop_cover_proportion.denominator == 0 {
            1
        } else {
            self.config.loop_cover_proportion.denominator as u64
        }
    }

    /// Decides what to send next, given the two draws: `session_draw` for the
    /// session, `loop_draw` for the kind of cover packet.
    pub fn choose_authored(&mut self, session_draw: u128, loop_draw: u64) -> (r: AuthoredChoice)
        requires
            old(self).wf(),
        ensures
            final(self).wf(),
            (final(self)@, r) == old(self)@.choose_authored(session_draw, loop_draw),
    {
        let rel_session_index = match (
            self.active_period(RelSessionIndex::Current),
            self.active_period(RelSessionIndex::Prev),
        ) {
            (Some(current), Some(prev)) => {
                // Both sessions are active: each is chosen in proportion to
                // its rate, which is one over its mean period.
                let total: u128 = current as u128 + prev as u128;
                if total == 0 || session_draw % total < prev as u128 {
                    RelSessionIndex::Current
                } else {
                    RelSessionIndex::Prev
                }
            },
            (Some(_), None) => RelSessionIndex::Current,
            (None, Some(_)) => RelSessionIndex::Prev,
            (None, None) => {
                return AuthoredChoice::Nothing;
            },
        };
        self.invalidated = self.invalidated.union(Invalidated::next_authored_packet_deadline());
        let proportion = self.config.loop_cover_proportion;
        if proportion.denominator > 0 && loop_draw % (proportion.denominator as u64)
            < proportion.numerator as u64 {
            return AuthoredChoice::Cover { rel_session_index, kind: CoverKind::Loop };
        }
        if self.session_status.phase.allow_requests_and_replies(rel_session_index) {
            let popped = match rel_session_index {
                RelSessionIndex::Current => slot_pop_authored(&mut self.sessions.current),
                RelSessionIndex::Prev => slot_pop_authored(&mut self.sessions.prev),
            };
            match popped {
                Some(packet) => {
                    return AuthoredChoice::Packet(packet);
                },
                None => {
                    assert(self@.sessions =~= old(self)@.sessions);
                },
            }
        }
        AuthoredChoice::Cover { rel_session_index, kind: CoverKind::Drop }
    }

    /// Returns the packet to send next: the packet at the head of the
    /// authored packet queue of one of the sessions, or a cover packet to
    /// build. Returns `None` if no session is active, if cover packets are
    /// not generated, or if no route is found for a cover packet.
    ///
    /// This function is meant to be called at the times of a Poisson process.
    /// Choosing at random between the sessions and between the kinds of
    /// packet then amounts to one independent Poisson process for each.
    pub fn pop_next_authored_packet<N: NetworkStatus>(&mut self, ns: &N) -> (r: Option<AuthoredPacket>)
        requires
            old(self).wf(),
        ensures
            final(self).wf(),
            exists|session_draw: u128, loop_draw: u64|
                session_draw < old(self)@.session_draw_bound() && loop_draw < old(
                    self,
                )@.loop_draw_bound() && final(self)@ == (#[trigger] old(self)@.choose_authored(
                    session_draw,
                    loop_draw,
                )).0 && old(self)@.is_authored_outcome(
                    old(self)@.choose_authored(session_draw, loop_draw).1,
                    r,
                ),
    {
        let session_draw = random_below(self.session_draw_bound());
        let loop_draw = random_u64_below(self.loop_draw_bound());
        let choice = self.choose_authored(session_draw, loop_draw);
        let r = match choice {
            AuthoredChoice::Nothing => None,
            AuthoredChoice::Packet(packet) => Some(packet),
            AuthoredChoice::Cover { rel_session_index, kind } => match self.slot(rel_session_index) {
                SessionSlot::Full(session) => match gen_cover_packet(
                    &session.topology,
                    ns,
                    kind,
                    &self.config,
                ) {
                    Some(cover) => Some(AuthoredPacket::Cover(cover)),
                    None => None,
                },
                _ => None,
            },
        };
        proof {
            assert(self@ == old(self)@.choose_authored(session_draw, loop_draw).0);
            assert(old(self)@.is_authored_outcome(
                old(self)@.choose_authored(session_draw, loop_draw).1,
                r,
            ));
        }
        r
    }

    fn push_authored(&mut self, rel_session_index: RelSessionIndex, packet: AuthoredPacket)
        requires
            old(self).wf(),
            old(self)@.sessions.slot(rel_session_index) is Full,
            old(self)@.sessions.slot(rel_session_index)->Full_0.authored.len() < old(
                self,
            )@.sessions.slot(rel_session_index)->Full_0.authored_capacity,
        ensures
            final(self).wf(),
            final(self)@ == old(self)@.with_session(
                rel_session_index,
                SessionView {
                    authored: old(self)@.sessions.slot(rel_session_index)->Full_0.authored.push(
                        packet,
                    ),
                    ..old(self)@.sessions.slot(rel_session_index)->Full_0
                },
            ),
    {
        match rel_session_index {
            RelSessionIndex::Current => slot_push_authored(&mut self.sessions.current, packet),
            RelSessionIndex::Prev => slot_push_authored(&mut self.sessions.prev, packet),
        }
    }

    /// Resolves the session that `count` packets for session `session_index`
    /// are queued in.
    fn queue_session(&self, session_index: SessionIndex, count: usize) -> (r: Result<
        RelSessionIndex,
        PostErr,
    >)
        requires
            self.wf(),
        ensures
            r == self@.queue_session(session_index, count as nat),
    {
        let rel_session_index = match post_session(
            &self.sessions,
            self.session_status,
            session_index,
        ) {
            Ok(rel_session_index) => rel_session_index,
            Err(e) => {
                return Err(e);
            },
        };
        match self.slot(rel_session_index) {
            SessionSlot::Full(session) => {
                if count > session.authored_packet_queue.remaining_capacity() {
                    return Err(PostErr::NotEnoughSpaceInQueue);
                }
            },
            _ => {},
        }
        Ok(rel_session_index)
    }

    /// Plans a request. If `destination` is `None`, a destination mixnode is
    /// chosen at random, and on success the session and the mixnode are
    /// written back to `destination`. The message is split into fragments,
    /// and each fragment gets a route of its own to the destination, and
    /// each of its SURBs a route of its own back.
    ///
    /// Nothing is queued yet: the packets and the SURBs of the plan are to be
    /// built, and handed in with `finish_request`.
    pub fn post_request<N: NetworkStatus>(
        &self,
        destination: &mut Option<MixnodeId>,
        data: &[u8],
        num_surbs: usize,
        ns: &N,
    ) -> (r: Result<RequestPlan, PostErr>)
        requires
            self.wf(),
        ensures
            match self@.check_request(*old(destination), data@.len(), num_surbs as nat) {
                Err(e) => r is Err && r->Err_0 == e && *final(destination) == *old(destination),
                Ok(rel_session_index) => match r {
                    Err(e) => e is Topology && *final(destination) == *old(destination)
                        && request_fails(
                        self@.sessions.slot(rel_session_index)->Full_0.topology,
                        match *old(destination) {
                            Some(asked) => Some(asked.mixnode_index),
                            None => None,
                        },
                        self@.config.num_hops,
                        e->Topology_0,
                    ),
                    Ok(plan) => self@.request_planned(
                        plan,
                        rel_session_index,
                        *old(destination),
                        *final(destination),
                        data@,
                        num_surbs as nat,
                    ),
                },
            },
    {
        // Split the message into fragments
        let message_id: MessageId = random_bytes::<MESSAGE_ID_SIZE>();
        let count = match num_fragments(data.len(), num_surbs) {
            Some(count) => count,
            None => {
                return Err(PostErr::TooManyFragments);
            },
        };
        if count > self.config.max_fragments_per_message as usize {
            return Err(PostErr::TooManyFragments);
        }
        // Find the session, and check that there is room in its queue
        let asked: Option<MixnodeId> = *destination;
        let session_index = match asked {
            Some(asked) => asked.session_index,
            None => self.session_status.phase.default_request_session().session_index(
                self.session_status.current_index,
            ),
        };
        let rel_session_index = match self.queue_session(session_index, count) {
            Ok(rel_session_index) => rel_session_index,
            Err(e) => {
                return Err(e);
            },
        };
        match self.slot(rel_session_index) {
            SessionSlot::Full(session) => {
                // Plan the packets
                let asked_index = match asked {
                    Some(asked) => Some(asked.mixnode_index),
                    None => None,
                };
                let builder = match RequestBuilder::new(&session.topology, ns, asked_index) {
                    Ok(builder) => builder,
                    Err(e) => {
                        proof {
                            let draw = choose|draw: u64|
                                #[trigger] spec_choose_destination(session.topology@, draw) == Err::<
                                    MixnodeIndex,
                                    TopologyErr,
                                >(e);
                            assert(spec_destination(session.topology@, asked_index, draw) == Err::<
                                MixnodeIndex,
                                TopologyErr,
                            >(e));
                        }
                        return Err(PostErr::Topology(e));
                    },
                };
                let ghost destination_draw = choose|draw: u64|
                    Ok::<MixnodeIndex, TopologyErr>(builder.destination_index)
                        == #[trigger] spec_destination(session.topology@, asked_index, draw);
                let blueprints = match fragment_blueprints(&message_id, data, num_surbs) {
                    Some(blueprints) => blueprints,
                    None => {
                        return Err(PostErr::TooManyFragments);
                    },
                };
                let ghost topology = session.topology@;
                let mut fragments: Vec<RequestFragment> = Vec::new();
                let mut i: usize = 0;
                while i < count
                    invariant
                        i <= count <= MAX_FRAGMENTS,
                        builder.wf(),
                        builder.route_generator.topology@ == topology,
                        topology == self@.sessions.slot(rel_session_index)->Full_0.topology,
                        *destination == asked,
                        asked == *old(destination),
                        self@.check_request(asked, data@.len(), num_surbs as nat) == Ok::<
                            RelSessionIndex,
                            PostErr,
                        >(rel_session_index),
                        session_index == self@.request_session_index(asked),
                        asked_index == match asked {
                            Some(asked) => Some(asked.mixnode_index),
                            None => None::<MixnodeIndex>,
                        },
                        spec_destination(topology, asked_index, destination_draw) == Ok::<
                            MixnodeIndex,
                            TopologyErr,
                        >(builder.destination_index),
                        count == spec_num_fragments(data@.len(), num_surbs as nat),
                        asked is Some ==> builder.destination_index == asked->0.mixnode_index,
                        fragments@.len() == i,
                        blueprints@.len() == count,
                        forall|k: int|
                            0 <= k < count ==> (#[trigger] blueprints@[k])@ == (BlueprintView {
                                message_id: message_id@,
                                last_index: (count - 1) as u16,
                                index: k as u16,
                                data: spec_fragment(data@, num_surbs as nat, k as nat).0,
                                num_surbs: spec_fragment(data@, num_surbs as nat, k as nat).1,
                            }) && blueprints@[k]@.wf(),
                        forall|k: int|
                            0 <= k < i ==> fragment_planned(
                                #[trigger] fragments@[k],
                                topology,
                                builder.destination_index,
                                self.config.num_hops,
                                BlueprintView {
                                    message_id: message_id@,
                                    last_index: (count - 1) as u16,
                                    index: k as u16,
                                    data: spec_fragment(data@, num_surbs as nat, k as nat).0,
                                    num_surbs: spec_fragment(data@, num_surbs as nat, k as nat).1,
                                },
                            ),
                    decreases count - i,
                {
                    let fragment = match plan_fragment(
                        &builder,
                        &blueprints[i],
                        self.config.num_hops,
                    ) {
                        Ok(fragment) => fragment,
                        Err(e) => {
                            return Err(PostErr::Topology(e));
                        },
                    };
                    let ghost before = fragments@;
                    fragments.push(fragment);
                    assert forall|k: int| 0 <= k < i + 1 implies fragment_planned(
                        #[trigger] fragments@[k],
                        topology,
                        builder.destination_index,
                        self.config.num_hops,
                        BlueprintView {
                            message_id: message_id@,
                            last_index: (count - 1) as u16,
                            index: k as u16,
                            data: spec_fragment(data@, num_surbs as nat, k as nat).0,
                            num_surbs: spec_fragment(data@, num_surbs as nat, k as nat).1,
                        },
                    ) by {
                        if k < i {
                            assert(fragments@[k] == before[k]);
                        }
                    }
                    i += 1;
                }
                let destination_index = builder.destination_index();
                proof {
                    lemma_destination_in_roster(
                        topology,
                        fragments@[0].route,
                        destination_index,
                        self.config.num_hops,
                    );
                }
                *destination = Some(MixnodeId { session_index, mixnode_index: destination_index });
                Ok(RequestPlan { session_index, destination_index, message_id, fragments })
            },
            _ => Err(PostErr::SessionEmpty(session_index)),
        }
    }

    /// Stores the keys of the SURBs of one built packet, and returns the
    /// longest of `longest` and their delays.
    fn store_surbs(&mut self, surbs: Vec<BuiltSurb>, longest: Delay) -> (r: Delay)
        requires
            old(self).wf(),
        ensures
            final(self).wf(),
            final(self)@ == (MixnetView {
                surb_keystore: keystore_after_surbs(
                    old(self)@.surb_keystore,
                    old(self)@.config.surb_keystore_capacity as nat,
                    surbs@.map_values(|s: BuiltSurb| s@),
                ),
                ..old(self)@
            }),
            r == max_surb_delay(longest, surbs@.map_values(|s: BuiltSurb| s@)),
    {
        let ghost all = surbs@.map_values(|s: BuiltSurb| s@);
        let mut surbs = surbs;
        let ghost first_longest = longest;
        let mut longest = longest;
        while surbs.len() > 0
            invariant
                self.wf(),
                self@ == (MixnetView { surb_keystore: self@.surb_keystore, ..old(self)@ }),
                keystore_after_surbs(
                    self@.surb_keystore,
                    self@.config.surb_keystore_capacity as nat,
                    surbs@.map_values(|s: BuiltSurb| s@),
                ) == keystore_after_surbs(
                    old(self)@.surb_keystore,
                    old(self)@.config.surb_keystore_capacity as nat,
                    all,
                ),
                max_surb_delay(longest, surbs@.map_values(|s: BuiltSurb| s@)) == max_surb_delay(
                    first_longest,
                    all,
                ),
            decreases surbs@.len(),
        {
            let ghost before = surbs@.map_values(|s: BuiltSurb| s@);
            let surb = surbs.remove(0);
            assert(surbs@.map_values(|s: BuiltSurb| s@) =~= before.drop_first());
            assert(surb@ == before[0]);
            longest = longest.max(surb.delay);
            self.surb_keystore.insert(surb.id, surb.keys);
        }
        longest
    }

    /// Hands in the built packets of a request for session `session_index`.
    /// Either the keys of all their SURBs are stored and all the packets are
    /// queued, or nothing changes at all. Returns the longest total
    /// forwarding delay of a packet and a SURB; this bounds from below the
    /// time that a reply takes to arrive, unless a mixnode misbehaves.
    pub fn finish_request(&mut self, session_index: SessionIndex, fragments: Vec<BuiltFragment>) -> (r:
        Result<Nanos, PostErr>)
        requires
            old(self).wf(),
        ensures
            final(self).wf(),
            (final(self)@, r) == old(self)@.finish_request(session_index, built_view(fragments@)),
    {
        let rel_session_index = match self.queue_session(session_index, fragments.len()) {
            Ok(rel_session_index) => rel_session_index,
            Err(e) => {
                return Err(e);
            },
        };
        let ghost all = built_view(fragments@);
        let ghost session = self@.sessions.slot(rel_session_index)->Full_0;
        let mut fragments = fragments;
        let mut longest_request = Delay::zero();
        let mut longest_reply = Delay::zero();
        assert(self@ == old(self)@.with_session(
            rel_session_index,
            SessionView { authored: session.authored, ..session },
        ));
        while fragments.len() > 0
            invariant
                self.wf(),
                old(self)@.sessions.slot(rel_session_index) is Full,
                session == old(self)@.sessions.slot(rel_session_index)->Full_0,
                self@.sessions.slot(rel_session_index) is Full,
                self@ == (MixnetView {
                    surb_keystore: self@.surb_keystore,
                    ..old(self)@.with_session(
                        rel_session_index,
                        SessionView {
                            authored: self@.sessions.slot(rel_session_index)->Full_0.authored,
                            ..session
                        },
                    )
                }),
                self@.sessions.slot(rel_session_index)->Full_0.authored.len() + fragments@.len()
                    <= session.authored_capacity,
                keystore_after_fragments(
                    self@.surb_keystore,
                    self@.config.surb_keystore_capacity as nat,
                    built_view(fragments@),
                ) == keystore_after_fragments(
                    old(self)@.surb_keystore,
                    old(self)@.config.surb_keystore_capacity as nat,
                    all,
                ),
                authored_after_fragments(
                    self@.sessions.slot(rel_session_index)->Full_0.authored,
                    built_view(fragments@),
                ) == authored_after_fragments(session.authored, all),
                max_request_delay(longest_request, built_view(fragments@)) == max_request_delay(
                    Delay { units: 0 },
                    all,
                ),
                max_reply_delay(longest_reply, built_view(fragments@)) == max_reply_delay(
                    Delay { units: 0 },
                    all,
                ),
            decreases fragments@.len(),
        {
            let ghost before = built_view(fragments@);
            let fragment = fragments.remove(0);
            assert(built_view(fragments@) =~= before.drop_first());
            assert(fragment@ == before[0]);
            longest_request = longest_request.max(fragment.delay);
            longest_reply = self.store_surbs(fragment.surbs, longest_reply);
            self.push_authored(rel_session_index, AuthoredPacket::Built(fragment.packet));
        }
        Ok(longest_request.saturating_add(longest_reply).to_duration(self.config.mean_forwarding_delay))
    }

    /// Returns the peers that the first `count` fragments of a reply are
    /// sent to, given the SURBs that they are completed with.
    fn reply_peers(&self, rel_session_index: RelSessionIndex, surbs: &Vec<Surb>, count: usize) -> (r:
        Result<Vec<PeerId>, PostErr>)
        requires
            self.wf(),
            self@.sessions.slot(rel_session_index) is Full,
            count <= surbs@.len(),
        ensures
            match r {
                Ok(peers) => {
                    &&& spec_first_bad_surb(
                        self@.sessions.slot(rel_session_index)->Full_0.topology,
                        surbs@,
                        0,
                        count as nat,
                    ) is None
                    &&& peers@.len() == count
                    &&& forall|i: int|
                        0 <= i < count ==> Ok::<PeerId, PostErr>(#[trigger] peers@[i])
                            == spec_reply_peer(
                            self@.sessions.slot(rel_session_index)->Full_0.topology,
                            spec_reply_surb(surbs@, i),
                        )
                },
                Err(e) => spec_first_bad_surb(
                    self@.sessions.slot(rel_session_index)->Full_0.topology,
                    surbs@,
                    0,
                    count as nat,
                ) == Some(e),
            },
    {
        let mut peers: Vec<PeerId> = Vec::new();
        match self.slot(rel_session_index) {
            SessionSlot::Full(session) => {
                let ghost topology = session.topology@;
                let mut i: usize = 0;
                while i < count
                    invariant
                        i <= count <= surbs@.len(),
                        topology == session.topology@,
                        topology == self@.sessions.slot(rel_session_index)->Full_0.topology,
                        peers@.len() == i,
                        spec_first_bad_surb(topology, surbs@, 0, count as nat)
                            == spec_first_bad_surb(topology, surbs@, i as nat, count as nat),
                        forall|j: int|
                            0 <= j < i ==> Ok::<PeerId, PostErr>(#[trigger] peers@[j])
                                == spec_reply_peer(topology, spec_reply_surb(surbs@, j)),
                    decreases count - i,
                {
                    let surb = &surbs[surbs.len() - 1 - i];
                    assert(*surb == spec_reply_surb(surbs@, i as int));
                    let index = match surb_first_hop(surb) {
                        Some(index) => index,
                        None => {
                            return Err(PostErr::BadSurb);
                        },
                    };
                    let peer_id = match session.topology.mixnode_index_to_peer_id(index) {
                        Ok(peer_id) => peer_id,
                        Err(e) => {
                            return Err(PostErr::Topology(e));
                        },
                    };
                    peers.push(peer_id);
                    i += 1;
                }
                Ok(peers)
            },
            _ => Ok(peers),
        }
    }

    /// Posts a reply, using SURBs from the end of `surbs`: one for each
    /// fragment, which is sent to the first mixnode that its SURB names. The
    /// session index must be that of the session that the SURBs were built
    /// for. Either all fragments are queued and their SURBs removed from
    /// `surbs`, or nothing changes at all.
    ///
    /// The packets that are queued still lack their encryption:
    /// `pop_next_authored_packet` hands them out as reply packets to be
    /// completed with their SURBs.
    pub fn post_reply(
        &mut self,
        surbs: &mut Vec<Surb>,
        session_index: SessionIndex,
        message_id: &MessageId,
        data: &[u8],
    ) -> (r: Result<(), PostErr>)
        requires
            old(self).wf(),
        ensures
            final(self).wf(),
            match old(self)@.check_reply(old(surbs)@, session_index, data@.len()) {
                Err(e) => r == Err::<(), PostErr>(e) && final(self)@ == old(self)@ && final(surbs)@
                    == old(surbs)@,
                Ok(rel_session_index) => {
                    &&& r is Ok
                    &&& final(surbs)@ == old(surbs)@.take(
                        old(surbs)@.len() - spec_num_fragments(data@.len(), 0),
                    )
                    &&& old(self)@.reply_queued(
                        final(self)@,
                        rel_session_index,
                        old(surbs)@,
                        message_id@,
                        data@,
                        spec_num_fragments(data@.len(), 0) as int,
                    )
                },
            },
    {
        // Split the message into fragments
        let count = match num_fragments(data.len(), 0) {
            Some(count) => count,
            None => {
                return Err(PostErr::TooManyFragments);
            },
        };
        if count > self.config.max_fragments_per_message as usize || count > surbs.len() {
            return Err(PostErr::TooManyFragments);
        }
        // Find the session, and check that there is room in its queue
        let rel_session_index = match self.queue_session(session_index, count) {
            Ok(rel_session_index) => rel_session_index,
            Err(e) => {
                return Err(e);
            },
        };
        // Check every SURB before any is used
        let peers = match self.reply_peers(rel_session_index, surbs, count) {
            Ok(peers) => peers,
            Err(e) => {
                return Err(e);
            },
        };
        let blueprints = match fragment_blueprints(message_id, data, 0) {
            Some(blueprints) => blueprints,
            None => {
                return Err(PostErr::TooManyFragments);
            },
        };
        // Make the packets and push them into the queue
        let ghost session = self@.sessions.slot(rel_session_index)->Full_0;
        let ghost all_surbs = surbs@;
        let mut i: usize = 0;
        assert(surbs@ =~= all_surbs.take(all_surbs.len() - 0));
        assert(self@ == old(self)@.with_session(
            rel_session_index,
            SessionView { authored: session.authored, ..session },
        ));
        while i < count
            invariant
                i <= count <= all_surbs.len(),
                self.wf(),
                all_surbs == old(surbs)@,
                session == old(self)@.sessions.slot(rel_session_index)->Full_0,
                old(self)@.sessions.slot(rel_session_index) is Full,
                session.authored.len() + count <= session.authored_capacity,
                surbs@ == all_surbs.take(all_surbs.len() - i),
                peers@.len() == count,
                blueprints@.len() == count,
                count == spec_num_fragments(data@.len(), 0),
                forall|k: int|
                    0 <= k < count ==> Ok::<PeerId, PostErr>(#[trigger] peers@[k])
                        == spec_reply_peer(session.topology, spec_reply_surb(all_surbs, k)),
                forall|k: int|
                    0 <= k < count ==> (#[trigger] blueprints@[k])@ == (BlueprintView {
                        message_id: message_id@,
                        last_index: (count - 1) as u16,
                        index: k as u16,
                        data: spec_fragment(data@, 0, k as nat).0,
                        num_surbs: spec_fragment(data@, 0, k as nat).1,
                    }) && blueprints@[k]@.wf(),
                old(self)@.reply_queued(
                    self@,
                    rel_session_index,
                    all_surbs,
                    message_id@,
                    data@,
                    i as int,
                ),
            decreases count - i,
        {
            let ghost before = self@;
            let ghost queued_before = self@.sessions.slot(rel_session_index)->Full_0.authored;
            let mut fragment: crate::sphinx::PayloadData = [0u8; FRAGMENT_SIZE];
            assert(fragment@ =~= zeros(FRAGMENT_SIZE as nat));
            blueprints[i].write_except_surbs(&mut fragment);
            let packet = plain_packet(&fragment);
            let surb = match surbs.pop() {
                Some(surb) => surb,
                None => {
                    return Err(PostErr::TooManyFragments);
                },
            };
            assert(surb == spec_reply_surb(all_surbs, i as int));
            assert(surbs@ =~= all_surbs.take(all_surbs.len() - (i + 1)));
            let reply = AuthoredPacket::Reply(
                ReplyPacket { peer_id: peers[i], packet: Box::new(packet), surb: Box::new(surb) },
            );
            self.push_authored(rel_session_index, reply);
            proof {
                let queued = self@.sessions.slot(rel_session_index)->Full_0.authored;
                assert(queued == queued_before.push(reply));
                assert forall|j: int| 0 <= j < session.authored.len() implies queued[j]
                    == session.authored[j] by {
                    assert(queued[j] == queued_before[j]);
                }
                assert forall|k: int| 0 <= k < i + 1 implies {
                    &&& (#[trigger] queued[session.authored.len() + k]) is Reply
                    &&& Ok::<PeerId, PostErr>(queued[session.authored.len() + k]->Reply_0.peer_id)
                        == spec_reply_peer(session.topology, spec_reply_surb(all_surbs, k))
                    &&& *queued[session.authored.len() + k]->Reply_0.surb == spec_reply_surb(
                        all_surbs,
                        k,
                    )
                    &&& queued[session.authored.len() + k]->Reply_0.packet@ == spec_fragment_packet(
                        message_id@,
                        data@,
                        0,
                        k,
                    )
                } by {
                    if k < i {
                        assert(queued[session.authored.len() + k] == queued_before[session.authored.len()
                            + k]);
                    } else {
                        assert(queued[session.authored.len() + k] == reply);
                    }
                }
                assert(self@ == old(self)@.with_session(
                    rel_session_index,
                    SessionView { authored: queued, ..session },
                ));
            }
            i += 1;
        }
        Ok(())
    }

    /// Returns the flags raised since the last call, and lowers them.
    pub fn take_invalidated(&mut self) -> (r: Invalidated)
        requires
            old(self).wf(),
        ensures
            final(self).wf(),
            r == old(self)@.invalidated,
            final(self)@ == old(self)@.take_invalidated(),
    {
        let invalidated = self.invalidated;
        self.invalidated = Invalidated::empty();
        invalidated
    }
}



} // verus!
