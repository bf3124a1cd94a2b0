//! What the engine holds, and what each of its operations does to it, as
//! mathematical functions.

use crate::assembler::{CompleteMessageView, Limits, MessageView, spec_insert_bytes, well_formed};
use crate::config::{Config, Proportion, SessionConfig};
use crate::cover::{CoverKind, is_cover_outcome};
use crate::fragment::{
    BlueprintView, FRAGMENT_SIZE, MAX_FRAGMENTS, spec_fragment, spec_num_fragments,
};
use crate::invalidated::Invalidated;
use crate::kx_store::{keys_for_session, KxStoreView};
use crate::messages::{
    AuthoredChoice, BuiltFragment, BuiltFragmentView, BuiltSurbView, MessageContent, MixnodeId,
    PacketEvent, Peeled, PostErr, RequestFragment, RequestPlan, StepView,
};
use crate::packet_queues::{AddressedPacket, AuthoredPacket, ForwardPacket, sorted_by_deadline};
use crate::request_builder::spec_destination;
use crate::route::{connected_within, route_matches, RouteKind, RouteView, spec_gen_route};
use crate::sessions::{
    RelSessionIndex, SessionIndex, SessionStatus, SessionsView, SessionView, SlotView,
};
use crate::sphinx::{
    Action, Delay, KxPublic, MAX_MIXNODE_INDEX, MixnodeIndex, Nanos, Packet, PAYLOAD_DATA_SIZE,
    PAYLOAD_SIZE, PeelErr, PeerId, Route, spec_kx_public, spec_plain_packet, spec_surb_first_hop,
    Surb, zeros,
};
use crate::surb_keystore::{distinct_ids, holds_id, position_of, SurbEntryView, without_id};
use crate::topology::{LocalView, Mixnode, position_of_key, TopologyErr, TopologyView};
use vstd::prelude::*;

verus! {

/// The session that a request or a reply for session `index` goes to, unless
/// it cannot be posted there.
pub open spec fn spec_post_session(sessions: SessionsView, status: SessionStatus, index: SessionIndex) -> Result<
    RelSessionIndex,
    PostErr,
> {
    match RelSessionIndex::spec_from_session_index(index, status.current_index) {
        None => Err(PostErr::BadSessionIndex(index)),
        Some(rel_index) => if !status.phase.spec_allow_requests_and_replies(rel_index) {
            Err(PostErr::RequestsAndRepliesBlocked(index))
        } else {
            match sessions.slot(rel_index) {
                SlotView::Empty => Err(PostErr::SessionEmpty(index)),
                SlotView::Disabled => Err(PostErr::SessionDisabled(index)),
                SlotView::Full(_) => Ok(rel_index),
            }
        },
    }
}

/// The views of a list of built packets.
pub open spec fn built_view(fragments: Seq<BuiltFragment>) -> Seq<BuiltFragmentView> {
    fragments.map_values(|f: BuiltFragment| f@)
}

/// The SURB keystore after the keys of the given SURBs have been stored, in
/// order.
pub open spec fn keystore_after_surbs(entries: Seq<SurbEntryView>, capacity: nat, surbs: Seq<BuiltSurbView>) -> Seq<
    SurbEntryView,
>
    decreases surbs.len(),
{
    if surbs.len() == 0 {
        entries
    } else {
        keystore_after_surbs(
            crate::surb_keystore::spec_insert(
                entries,
                capacity,
                SurbEntryView { id: surbs[0].id, keys: surbs[0].keys },
            ),
            capacity,
            surbs.drop_first(),
        )
    }
}

/// The SURB keystore after the keys of the SURBs in the given packets have
/// been stored, in order.
pub open spec fn keystore_after_fragments(
    entries: Seq<SurbEntryView>,
    capacity: nat,
    fragments: Seq<BuiltFragmentView>,
) -> Seq<SurbEntryView>
    decreases fragments.len(),
{
    if fragments.len() == 0 {
        entries
    } else {
        keystore_after_fragments(
            keystore_after_surbs(entries, capacity, fragments[0].surbs),
            capacity,
            fragments.drop_first(),
        )
    }
}

/// The authored packet queue after the given packets have been queued, in
/// order.
pub open spec fn authored_after_fragments(authored: Seq<AuthoredPacket>, fragments: Seq<BuiltFragmentView>) -> Seq<
    AuthoredPacket,
>
    decreases fragments.len(),
{
    if fragments.len() == 0 {
        authored
    } else {
        authored_after_fragments(
            authored.push(AuthoredPacket::Built(fragments[0].packet)),
            fragments.drop_first(),
        )
    }
}

/// The longest of `longest` and the delays of the given SURBs.
pub open spec fn max_surb_delay(longest: Delay, surbs: Seq<BuiltSurbView>) -> Delay
    decreases surbs.len(),
{
    if surbs.len() == 0 {
        longest
    } else {
        max_surb_delay(longest.spec_max(surbs[0].delay), surbs.drop_first())
    }
}

/// The longest of `longest` and the delays of the SURBs in the given
/// packets.
pub open spec fn max_reply_delay(longest: Delay, fragments: Seq<BuiltFragmentView>) -> Delay
    decreases fragments.len(),
{
    if fragments.len() == 0 {
        longest
    } else {
        max_reply_delay(max_surb_delay(longest, fragments[0].surbs), fragments.drop_first())
    }
}

/// The longest of `longest` and the delays of the given packets.
pub open spec fn max_request_delay(longest: Delay, fragments: Seq<BuiltFragmentView>) -> Delay
    decreases fragments.len(),
{
    if fragments.len() == 0 {
        longest
    } else {
        max_request_delay(longest.spec_max(fragments[0].delay), fragments.drop_first())
    }
}

/// Whether `route` is a route of the given kind and length through the
/// topology that some draws select, for some state of the network.
pub open spec fn is_route(topology: TopologyView, route: Route, kind: RouteKind, num_hops: u32) -> bool {
    exists|gateways: Seq<int>, local_peer_id: PeerId, draws: Seq<u64>|
        connected_within(topology, gateways) && route_matches(
            Ok::<Route, TopologyErr>(route),
            #[trigger] spec_gen_route(topology, gateways, local_peer_id, kind, num_hops, draws),
        )
}

/// Whether the generation of a route of the given kind and length through
/// the topology fails with `e` on some draws, for some state of the network.
pub open spec fn route_fails(topology: TopologyView, kind: RouteKind, num_hops: u32, e: TopologyErr) -> bool {
    exists|gateways: Seq<int>, local_peer_id: PeerId, draws: Seq<u64>|
        connected_within(topology, gateways) && #[trigger] spec_gen_route(
            topology,
            gateways,
            local_peer_id,
            kind,
            num_hops,
            draws,
        ) == Err::<RouteView, TopologyErr>(e)
}

/// Whether the planning of a request can fail with `e`: on some draw no
/// destination is found, or for the destination of some draw no route is
/// found there or back.
pub open spec fn request_fails(topology: TopologyView, asked: Option<MixnodeIndex>, num_hops: u32, e: TopologyErr) -> bool {
    exists|draw: u64|
        match #[trigger] spec_destination(topology, asked, draw) {
            Err(failure) => failure == e,
            Ok(destination) => route_fails(
                topology,
                RouteKind::ToMixnode(destination),
                num_hops,
                e,
            ) || route_fails(topology, RouteKind::FromMixnode(destination), num_hops, e),
        }
}

/// Whether `fragment` is a plan for the fragment that `blueprint` describes,
/// in a request to `destination`: the payload data holds the fragment but
/// for its SURBs; the packet goes along a route to the destination, by way
/// of the peer that is the first hop; and there is one SURB to build for
/// each SURB of the fragment, along a route back from the destination.
pub open spec fn fragment_planned(
    fragment: RequestFragment,
    topology: TopologyView,
    destination: MixnodeIndex,
    num_hops: u32,
    blueprint: BlueprintView,
) -> bool {
    &&& fragment.payload_data@ == blueprint.write(zeros(FRAGMENT_SIZE as nat))
    &&& fragment.surbs@.len() == blueprint.num_surbs
    &&& topology.mixnode_index_to_peer_id(fragment.route.first_hop) == Ok::<PeerId, TopologyErr>(
        fragment.peer_id,
    )
    &&& is_route(topology, fragment.route, RouteKind::ToMixnode(destination), num_hops)
    &&& forall|s: int|
        0 <= s < fragment.surbs@.len() ==> is_route(
            topology,
            (#[trigger] fragment.surbs@[s]).route,
            RouteKind::FromMixnode(destination),
            num_hops,
        )
}

/// The peer that a reply packet is to be sent to, given the SURB that it is
/// completed with: the first mixnode that the SURB names.
pub open spec fn spec_reply_peer(topology: TopologyView, surb: Surb) -> Result<PeerId, PostErr> {
    match spec_surb_first_hop(surb) {
        None => Err(PostErr::BadSurb),
        Some(index) => match topology.mixnode_index_to_peer_id(index) {
            Ok(peer_id) => Ok(peer_id),
            Err(e) => Err(PostErr::Topology(e)),
        },
    }
}

/// The SURB that fragment `i` of a reply is sent with: SURBs are used from
/// the end of the list.
pub open spec fn spec_reply_surb(surbs: Seq<Surb>, i: int) -> Surb {
    surbs[surbs.len() - 1 - i]
}

/// The error of the first of the fragments from `i` up to `count` whose SURB
/// names no peer, if there is one.
pub open spec fn spec_first_bad_surb(topology: TopologyView, surbs: Seq<Surb>, i: nat, count: nat) -> Option<
    PostErr,
>
    decreases count - i,
{
    if i >= count {
        None
    } else {
        match spec_reply_peer(topology, spec_reply_surb(surbs, i as int)) {
            Err(e) => Some(e),
            Ok(_) => spec_first_bad_surb(topology, surbs, i + 1, count),
        }
    }
}

/// The bytes of the packet of fragment `i` of a message, before it is
/// encrypted: the fragment without SURBs in the payload data, and zeroes
/// elsewhere.
pub open spec fn spec_fragment_packet(message_id: Seq<u8>, data: Seq<u8>, num_surbs: nat, i: int) -> Seq<
    u8,
> {
    spec_plain_packet(
        (BlueprintView {
            message_id,
            last_index: (spec_num_fragments(data.len(), num_surbs) - 1) as u16,
            index: i as u16,
            data: spec_fragment(data, num_surbs, i as nat).0,
            num_surbs: spec_fragment(data, num_surbs, i as nat).1,
        }).write(zeros(FRAGMENT_SIZE as nat)),
    )
}

/// The largest factor, in units of the mean, by which a mean period is
/// stretched: ten times the mean, which an exponential delay exceeds about
/// once in twenty thousand draws. The cap keeps the product in range.
pub const MAX_PERIOD_UNITS: u64 = 655360;

/// Whether `draw` selects a loop cover packet: the draw is reduced to the
/// range of the denominator, and selects a loop if it is below the numerator.
pub open spec fn spec_is_loop(proportion: Proportion, draw: u64) -> bool {
    proportion.denominator > 0 && draw % (proportion.denominator as u64) < proportion.numerator
}

/// Whether `draw` selects the current session, where both sessions are
/// active: the draw is reduced to the range of the sum of the two mean
/// periods, and selects the current session if it is below the mean period
/// of the previous one. So each session is selected in proportion to its
/// rate, which is one over its mean period. Where both mean periods are
/// zero, the current session is selected.
pub open spec fn spec_pick_current(current: Nanos, prev: Nanos, draw: u128) -> bool {
    current + prev == 0 || draw as int % (current + prev) < prev
}

/// The smaller of two optional periods, where `None` stands for no period.
pub open spec fn spec_min_period(a: Option<Nanos>, b: Option<Nanos>) -> Option<Nanos> {
    match (a, b) {
        (Some(x), Some(y)) => Some(if x <= y { x } else { y }),
        (Some(x), None) => Some(x),
        (None, y) => y,
    }
}

/// The roster that is kept of the mixnodes registered for a session: as
/// many as mixnode indices can tell apart.
pub open spec fn spec_kept_roster(roster: Seq<Mixnode>) -> Seq<Mixnode> {
    if roster.len() > MAX_MIXNODE_INDEX + 1 {
        roster.take(MAX_MIXNODE_INDEX + 1)
    } else {
        roster
    }
}

/// The time at which a packet that arrives at `now` is to be forwarded.
pub open spec fn spec_deadline(now: Nanos, delay: Delay, mean_forwarding_delay: Nanos) -> Nanos {
    if now + delay.spec_to_duration(mean_forwarding_delay) > u64::MAX {
        u64::MAX
    } else {
        (now + delay.spec_to_duration(mean_forwarding_delay)) as Nanos
    }
}

/// The request that a completed message is, in session `session_index`.
pub open spec fn as_request(message: Option<CompleteMessageView>, session_index: SessionIndex) -> Option<
    MessageContent,
> {
    match message {
        Some(message) => Some(
            MessageContent::Request { session_index, data: message.data, surbs: message.surbs },
        ),
        None => None,
    }
}

/// The reply that a completed message is. Its SURBs, if it has any, are
/// dropped.
pub open spec fn as_reply(message: Option<CompleteMessageView>) -> Option<MessageContent> {
    match message {
        Some(message) => Some(MessageContent::Reply { id: message.id, data: message.data }),
        None => None,
    }
}

/// What the engine holds.
pub struct MixnetView {
    pub config: Config,
    /// Index and phase of the current session.
    pub session_status: SessionStatus,
    /// The key-exchange keys of the local node.
    pub kx_store: KxStoreView,
    /// The current and the previous session.
    pub sessions: SessionsView,
    /// The packets waiting to be forwarded, in the order in which they leave.
    pub forward_packet_queue: Seq<ForwardPacket>,
    /// The keys of the SURBs handed out, oldest first.
    pub surb_keystore: Seq<SurbEntryView>,
    /// The messages under reassembly, least recently touched first.
    pub fragment_assembler: Seq<MessageView>,
    /// The flags raised since the caller last took them.
    pub invalidated: Invalidated,
}

impl MixnetView {
    /// What every engine satisfies: the key store is well-formed, the
    /// forward packet queue is ordered by deadline and within its capacity,
    /// every queue of authored packets is within its capacity and every
    /// topology is well-formed, the SURB keystore holds no identifier twice
    /// and no more than its capacity, and the fragment assembler is within
    /// its limits.
    pub open spec fn wf(self) -> bool {
        &&& self.kx_store.wf()
        &&& sorted_by_deadline(self.forward_packet_queue)
        &&& self.forward_packet_queue.len() <= self.config.forward_packet_queue_capacity
        &&& self.slot_wf(RelSessionIndex::Current)
        &&& self.slot_wf(RelSessionIndex::Prev)
        &&& distinct_ids(self.surb_keystore)
        &&& self.surb_keystore.len() <= self.config.surb_keystore_capacity
        &&& well_formed(self.fragment_assembler, self.limits())
    }

    /// Whether the session in the given slot, if there is one, is
    /// well-formed.
    pub open spec fn slot_wf(self, rel_session_index: RelSessionIndex) -> bool {
        match self.sessions.slot(rel_session_index) {
            SlotView::Full(session) => session.topology.wf() && session.authored.len()
                <= session.authored_capacity,
            _ => true,
        }
    }

    /// The limits of the fragment assembler.
    pub open spec fn limits(self) -> Limits {
        Limits {
            max_incomplete_messages: self.config.max_incomplete_messages as nat,
            max_incomplete_fragments: self.config.max_incomplete_fragments as nat,
            max_fragments_per_message: self.config.max_fragments_per_message as nat,
        }
    }

    /// The absolute index of a session.
    pub open spec fn session_index(self, rel_session_index: RelSessionIndex) -> SessionIndex {
        rel_session_index.spec_session_index(self.session_status.current_index)
    }

    /// The engine with more flags raised.
    pub open spec fn raise(self, flags: Invalidated) -> MixnetView {
        MixnetView { invalidated: self.invalidated.spec_union(flags), ..self }
    }

    /// The engine with the given slot in place of the one there.
    pub open spec fn with_slot(self, rel_session_index: RelSessionIndex, slot: SlotView) -> MixnetView {
        MixnetView { sessions: self.sessions.with_slot(rel_session_index, slot), ..self }
    }

    /// The engine with the given session in place of the one in the slot.
    pub open spec fn with_session(self, rel_session_index: RelSessionIndex, session: SessionView) -> MixnetView {
        MixnetView {
            sessions: self.sessions.with_slot(rel_session_index, SlotView::Full(session)),
            ..self
        }
    }

    /// The sessions after the current session has come to have the index
    /// `current_index`: they stay if the index is the same, advance by one if
    /// the index is the next, and are dropped otherwise.
    pub open spec fn sessions_for_index(self, current_index: SessionIndex) -> SessionsView {
        if current_index == self.session_status.current_index {
            self.sessions
        } else if current_index == self.session_status.current_index + 1 {
            self.sessions.advance_by_one()
        } else {
            SessionsView::empty()
        }
    }

    /// The oldest session whose keys are still needed under `status`.
    pub open spec fn oldest_needed_session(status: SessionStatus) -> SessionIndex {
        if status.phase.spec_need_prev() {
            RelSessionIndex::Prev.spec_session_index(status.current_index)
        } else {
            RelSessionIndex::Current.spec_session_index(status.current_index)
        }
    }

    /// The engine after the session status has been set to `status`. If
    /// nothing changes, nothing happens.
    pub open spec fn set_session_status(self, status: SessionStatus) -> MixnetView {
        if self.session_status == status {
            self
        } else {
            let shifted = self.sessions_for_index(status.current_index);
            MixnetView {
                session_status: status,
                sessions: if status.phase.spec_need_prev() {
                    shifted
                } else {
                    SessionsView { prev: SlotView::Disabled, ..shifted }
                },
                kx_store: self.kx_store.discard_before(MixnetView::oldest_needed_session(status)),
                invalidated: self.invalidated.spec_union(Invalidated::spec_sessions_changed()),
                ..self
            }
        }
    }

    /// The session configuration for a session with the given roster, in
    /// which the local node has the given key-exchange public key: that for
    /// mixnodes if the local node is in the roster, else that for other
    /// nodes, if there is one.
    pub open spec fn session_config(self, roster: Seq<Mixnode>, local_kx_public: KxPublic) -> Option<
        SessionConfig,
    > {
        if position_of_key(roster, local_kx_public) is Some {
            Some(self.config.mixnode_session)
        } else {
            self.config.non_mixnode_session
        }
    }

    /// Whether `post` is the engine after the mixnodes in `roster` have been
    /// provided for a session whose slot was empty.
    ///
    /// The session is disabled, and nothing else changes, in three cases:
    /// with fewer mixnodes than the configured minimum; without a
    /// key-exchange key pair for the session in the key store, be it that
    /// the keys were discarded or that none were ever added; and without a
    /// session configuration for the role of the local node. Otherwise the
    /// slot holds a new session: its topology is that of the kept roster,
    /// its authored packet queue and its replay filter are empty, and the
    /// flags for a change of the sessions are raised.
    pub open spec fn populated(
        self,
        post: MixnetView,
        rel_session_index: RelSessionIndex,
        roster: Seq<Mixnode>,
    ) -> bool {
        let kept = spec_kept_roster(roster);
        if roster.len() < self.config.min_mixnodes {
            post == self.with_slot(rel_session_index, SlotView::Disabled)
        } else {
            match self.kx_store.keys(self.session_index(rel_session_index)) {
                None => post == self.with_slot(rel_session_index, SlotView::Disabled),
                Some(keys) => match self.session_config(kept, keys.public) {
                    None => post == self.with_slot(rel_session_index, SlotView::Disabled),
                    Some(session_config) => {
                        &&& post.sessions.slot(rel_session_index) is Full
                        &&& post == self.with_slot(
                            rel_session_index,
                            post.sessions.slot(rel_session_index),
                        ).raise(Invalidated::spec_sessions_changed())
                        &&& spec_new_session(
                            post.sessions.slot(rel_session_index)->Full_0,
                            kept,
                            keys.public,
                            session_config,
                            self.config.num_gateway_mixnodes,
                        )
                    },
                },
            }
        }
    }

    /// The addresses of the peers that the local node keeps connections to,
    /// for the session in the given slot.
    pub open spec fn slot_reserved_addresses(self, rel_session_index: RelSessionIndex) -> Set<Seq<u8>> {
        match self.sessions.slot(rel_session_index) {
            SlotView::Full(session) => session.topology.reserved_addresses(),
            _ => Set::empty(),
        }
    }

    /// The addresses of the peers that the local node keeps connections to:
    /// those of both sessions.
    pub open spec fn reserved_addresses(self) -> Set<Seq<u8>> {
        self.slot_reserved_addresses(RelSessionIndex::Current).union(
            self.slot_reserved_addresses(RelSessionIndex::Prev),
        )
    }

    /// What is to happen to a packet as far as one session is concerned:
    /// nothing more if the session has seen the packet; a peel with the
    /// secret of the session if there is one in use; else `None`, which
    /// leaves the packet to the other session.
    pub open spec fn try_session(self, packet: Packet, rel_session_index: RelSessionIndex) -> Option<
        StepView,
    > {
        match self.sessions.slot(rel_session_index) {
            SlotView::Full(session) => if session.replay.contains(spec_kx_public(packet)) {
                Some(StepView::Done(None))
            } else {
                match keys_for_session(self.kx_store.active, self.session_index(rel_session_index)) {
                    Some(keys) => Some(
                        StepView::Peel {
                            rel_session_index,
                            session_index: self.session_index(rel_session_index),
                            secret: keys.secret,
                        },
                    ),
                    None => None,
                }
            },
            _ => None,
        }
    }

    /// What is to happen to a packet that the current session leaves alone.
    pub open spec fn try_prev(self, packet: Packet) -> StepView {
        match self.try_session(packet, RelSessionIndex::Prev) {
            Some(step) => step,
            None => StepView::Done(None),
        }
    }

    /// What is to happen to a packet that has just come in.
    pub open spec fn try_current(self, packet: Packet) -> StepView {
        match self.try_session(packet, RelSessionIndex::Current) {
            Some(step) => step,
            None => self.try_prev(packet),
        }
    }

    /// The engine after it has acted on a packet that was peeled with the
    /// secret of the given session, and what is to happen next.
    ///
    /// A packet to forward is taken only where the local node is a mixnode,
    /// and only while the forward packet queue has room; it is then entered
    /// in the replay filter of the session, and queued if its target is
    /// known. A request fragment is taken only where the local node is a
    /// mixnode; it is entered in the replay filter and handed to the
    /// fragment assembler. A reply fragment is taken only if its SURB is
    /// known; the keys of the SURB leave the keystore for good, and the
    /// payload is to be decrypted with them. Cover packets are dropped.
    pub open spec fn dispatch(
        self,
        packet: Packet,
        rel_session_index: RelSessionIndex,
        peeled: Peeled,
        now: Nanos,
    ) -> (MixnetView, StepView) {
        match self.sessions.slot(rel_session_index) {
            SlotView::Full(session) => {
                let seen = SessionView {
                    replay: session.replay.insert(spec_kx_public(packet)),
                    ..session
                };
                match peeled.action {
                    Action::ForwardTo { target, delay } => if !session.topology.is_mixnode()
                        || self.forward_packet_queue.len()
                        >= self.config.forward_packet_queue_capacity {
                        (self, StepView::Done(None))
                    } else {
                        match session.topology.target_to_peer_id(target) {
                            Ok(peer_id) => {
                                let forward_packet = ForwardPacket {
                                    deadline: spec_deadline(
                                        now,
                                        delay,
                                        self.config.mean_forwarding_delay,
                                    ),
                                    packet: AddressedPacket { peer_id, packet: peeled.out },
                                };
                                (
                                    MixnetView {
                                        forward_packet_queue: crate::packet_queues::spec_insert(
                                            self.forward_packet_queue,
                                            forward_packet,
                                        ),
                                        invalidated: if self.forward_packet_queue.len() == 0
                                            || forward_packet.deadline
                                            < self.forward_packet_queue[0].deadline {
                                            self.invalidated.spec_union(
                                                Invalidated::spec_next_forward_packet_deadline(),
                                            )
                                        } else {
                                            self.invalidated
                                        },
                                        ..self.with_session(rel_session_index, seen)
                                    },
                                    StepView::Done(None),
                                )
                            },
                            Err(_) => (
                                self.with_session(rel_session_index, seen),
                                StepView::Done(None),
                            ),
                        }
                    },
                    Action::DeliverRequest => if !session.topology.is_mixnode() {
                        (self, StepView::Done(None))
                    } else {
                        let assembled = spec_insert_bytes(
                            self.fragment_assembler,
                            self.limits(),
                            peeled.out@.subrange(0, PAYLOAD_DATA_SIZE as int),
                        );
                        (
                            MixnetView {
                                fragment_assembler: assembled.0,
                                ..self.with_session(rel_session_index, seen)
                            },
                            StepView::Done(
                                as_request(assembled.1, self.session_index(rel_session_index)),
                            ),
                        )
                    },
                    Action::DeliverReply { surb_id } => if !holds_id(self.surb_keystore, surb_id) {
                        (self, StepView::Done(None))
                    } else {
                        (
                            MixnetView {
                                surb_keystore: without_id(self.surb_keystore, surb_id),
                                ..self
                            },
                            StepView::DecryptReply {
                                keys: self.surb_keystore[position_of(
                                    self.surb_keystore,
                                    surb_id,
                                )].keys,
                                payload: peeled.out@.subrange(0, PAYLOAD_SIZE as int),
                            },
                        )
                    },
                    Action::DeliverCover { cover_id } => (self, StepView::Done(None)),
                }
            },
            _ => (self, StepView::Done(None)),
        }
    }

    /// The engine after something has happened to an incoming packet, and
    /// what is to happen next.
    ///
    /// When the packet comes in, the pending key-exchange secrets are taken
    /// into use, and the current session is tried, then the previous one. A
    /// MAC failure most likely means that the secret of the wrong session
    /// was used, so the other session is tried if it has not been; any other
    /// failure means that the packet is bad. A decrypted reply payload goes
    /// to the fragment assembler; one that failed to decrypt is dropped.
    pub open spec fn handle_packet(self, packet: Packet, event: PacketEvent, now: Nanos) -> (
        MixnetView,
        StepView,
    ) {
        match event {
            PacketEvent::Received => {
                let ready = MixnetView { kx_store: self.kx_store.promote(), ..self };
                (ready, ready.try_current(packet))
            },
            PacketEvent::Peeled { rel_session_index, result } => match result {
                Err(PeelErr::Mac) => (
                    self,
                    if rel_session_index == RelSessionIndex::Current {
                        self.try_prev(packet)
                    } else {
                        StepView::Done(None)
                    },
                ),
                Err(_) => (self, StepView::Done(None)),
                Ok(peeled) => self.dispatch(packet, rel_session_index, peeled, now),
            },
            PacketEvent::ReplyDecrypted { payload } => match payload {
                None => (self, StepView::Done(None)),
                Some(payload) => {
                    let assembled = spec_insert_bytes(
                        self.fragment_assembler,
                        self.limits(),
                        payload@.subrange(0, PAYLOAD_DATA_SIZE as int),
                    );
                    (
                        MixnetView { fragment_assembler: assembled.0, ..self },
                        StepView::Done(as_reply(assembled.1)),
                    )
                },
            },
        }
    }

    /// The engine after the packet at the head of the forward packet queue
    /// has left, if there was one.
    pub open spec fn pop_next_forward_packet(self) -> MixnetView {
        MixnetView {
            forward_packet_queue: if self.forward_packet_queue.len() > 0 {
                self.forward_packet_queue.drop_first()
            } else {
                self.forward_packet_queue
            },
            invalidated: self.invalidated.spec_union(
                Invalidated::spec_next_forward_packet_deadline(),
            ),
            ..self
        }
    }

    /// The mean authored packet period of the session in the given slot, if
    /// packets are authored for it: the mixnet is available in the session
    /// and the phase asks for cover packets there.
    pub open spec fn active_period(self, rel_session_index: RelSessionIndex) -> Option<Nanos> {
        match self.sessions.slot(rel_session_index) {
            SlotView::Full(session) => if self.session_status.phase.spec_gen_cover_packets(
                rel_session_index,
            ) {
                Some(session.mean_authored_packet_period)
            } else {
                None
            },
            _ => None,
        }
    }

    /// The time to wait before the next authored packet, given a draw from
    /// the exponential distribution with mean one: the draw, capped at ten,
    /// times the smallest mean period of the active sessions. `None` if no
    /// session is active.
    pub open spec fn next_authored_packet_delay(self, unit_delay: Delay) -> Option<Nanos> {
        match spec_min_period(
            self.active_period(RelSessionIndex::Current),
            self.active_period(RelSessionIndex::Prev),
        ) {
            Some(mean) => Some(
                (Delay {
                    units: if unit_delay.units > MAX_PERIOD_UNITS {
                        MAX_PERIOD_UNITS
                    } else {
                        unit_delay.units
                    },
                }).spec_to_duration(mean),
            ),
            None => None,
        }
    }

    /// The number of draws for the session that are equally likely: the sum
    /// of the mean periods where both sessions are active, else one.
    pub open spec fn session_draw_bound(self) -> u128 {
        match (
            self.active_period(RelSessionIndex::Current),
            self.active_period(RelSessionIndex::Prev),
        ) {
            (Some(current), Some(prev)) => if current + prev == 0 {
                1
            } else {
                (current + prev) as u128
            },
            _ => 1,
        }
    }

    /// The number of draws for the kind of cover packet that are equally
    /// likely: the denominator of the loop cover proportion.
    pub open spec fn loop_draw_bound(self) -> u64 {
        if self.config.loop_cover_proportion.denominator == 0 {
            1
        } else {
            self.config.loop_cover_proportion.denominator as u64
        }
    }

    /// The session that the next authored packet is for, if any session is
    /// active. Where both are, `session_draw` selects one.
    pub open spec fn authored_session(self, session_draw: u128) -> Option<RelSessionIndex> {
        match (
            self.active_period(RelSessionIndex::Current),
            self.active_period(RelSessionIndex::Prev),
        ) {
            (Some(current), Some(prev)) => Some(
                if spec_pick_current(current, prev, session_draw) {
                    RelSessionIndex::Current
                } else {
                    RelSessionIndex::Prev
                },
            ),
            (Some(_), None) => Some(RelSessionIndex::Current),
            (None, Some(_)) => Some(RelSessionIndex::Prev),
            (None, None) => None,
        }
    }

    /// The engine after it has decided what to send next, and the decision.
    ///
    /// With no active session nothing is sent and nothing changes. Otherwise
    /// the flag for the next authored packet deadline is raised. If
    /// `loop_draw` selects a loop, a loop cover packet is sent. If not, the
    /// packet at the head of the authored packet queue of the session is
    /// sent, where the phase allows requests and replies in the session and
    /// the queue is not empty; else a drop cover packet.
    pub open spec fn choose_authored(self, session_draw: u128, loop_draw: u64) -> (
        MixnetView,
        AuthoredChoice,
    ) {
        match self.authored_session(session_draw) {
            None => (self, AuthoredChoice::Nothing),
            Some(rel_session_index) => {
                let raised = self.raise(Invalidated::spec_next_authored_packet_deadline());
                let session = self.sessions.slot(rel_session_index)->Full_0;
                if spec_is_loop(self.config.loop_cover_proportion, loop_draw) {
                    (raised, AuthoredChoice::Cover { rel_session_index, kind: CoverKind::Loop })
                } else if self.session_status.phase.spec_allow_requests_and_replies(
                    rel_session_index,
                ) && session.authored.len() > 0 {
                    (
                        raised.with_session(
                            rel_session_index,
                            SessionView { authored: session.authored.drop_first(), ..session },
                        ),
                        AuthoredChoice::Packet(session.authored[0]),
                    )
                } else {
                    (raised, AuthoredChoice::Cover { rel_session_index, kind: CoverKind::Drop })
                }
            },
        }
    }

    /// Whether `r` is what is sent once the engine has decided on `choice`:
    /// the packet chosen, or a cover packet of the chosen kind for the chosen
    /// session, if one could be generated.
    pub open spec fn is_authored_outcome(self, choice: AuthoredChoice, r: Option<AuthoredPacket>) -> bool {
        match choice {
            AuthoredChoice::Nothing => r is None,
            AuthoredChoice::Packet(packet) => r == Some(packet),
            AuthoredChoice::Cover { rel_session_index, kind } => {
                &&& self.sessions.slot(rel_session_index) is Full
                &&& !self.config.gen_cover_packets ==> r is None
                &&& r is Some ==> r->0 is Cover
                &&& is_cover_outcome(
                    match r {
                        Some(AuthoredPacket::Cover(cover)) => Some(cover),
                        _ => None,
                    },
                    self.sessions.slot(rel_session_index)->Full_0.topology,
                    kind,
                    self.config,
                )
            },
        }
    }

    /// The number of fragments of a message, unless they are too many.
    pub open spec fn fragment_count(self, data_len: nat, num_surbs: nat) -> Option<nat> {
        if spec_num_fragments(data_len, num_surbs) > MAX_FRAGMENTS || spec_num_fragments(
            data_len,
            num_surbs,
        ) > self.config.max_fragments_per_message {
            None
        } else {
            Some(spec_num_fragments(data_len, num_surbs))
        }
    }

    /// The session that `count` packets for session `session_index` are
    /// queued in, unless they cannot be: the session must take requests and
    /// replies, and its authored packet queue must have room for all of them.
    pub open spec fn queue_session(self, session_index: SessionIndex, count: nat) -> Result<
        RelSessionIndex,
        PostErr,
    > {
        match spec_post_session(self.sessions, self.session_status, session_index) {
            Err(e) => Err(e),
            Ok(rel_session_index) => {
                let session = self.sessions.slot(rel_session_index)->Full_0;
                if count > session.authored_capacity - session.authored.len() {
                    Err(PostErr::NotEnoughSpaceInQueue)
                } else {
                    Ok(rel_session_index)
                }
            },
        }
    }

    /// The session that a request is for: the session of its destination, if
    /// it names one, else the default session of the phase.
    pub open spec fn request_session_index(self, destination: Option<MixnodeId>) -> SessionIndex {
        match destination {
            Some(destination) => destination.session_index,
            None => self.session_index(self.session_status.phase.spec_default_request_session()),
        }
    }

    /// The session that a request goes to, unless it cannot be posted: the
    /// request must not need more fragments than the limit allows, and the
    /// session must have room for it.
    pub open spec fn check_request(self, destination: Option<MixnodeId>, data_len: nat, num_surbs: nat) -> Result<
        RelSessionIndex,
        PostErr,
    > {
        match self.fragment_count(data_len, num_surbs) {
            None => Err(PostErr::TooManyFragments),
            Some(count) => self.queue_session(self.request_session_index(destination), count),
        }
    }

    /// Whether `plan` is a plan for a request with the given data and number
    /// of SURBs in the given session, and `chosen` names its destination:
    /// the destination is a mixnode of the session, the one asked for if one
    /// was; there is a planned packet for each fragment of the message, in
    /// order.
    pub open spec fn request_planned(
        self,
        plan: RequestPlan,
        rel_session_index: RelSessionIndex,
        asked: Option<MixnodeId>,
        chosen: Option<MixnodeId>,
        data: Seq<u8>,
        num_surbs: nat,
    ) -> bool {
        let topology = self.sessions.slot(rel_session_index)->Full_0.topology;
        &&& plan.session_index == self.request_session_index(asked)
        &&& chosen == Some(
            MixnodeId {
                session_index: plan.session_index,
                mixnode_index: plan.destination_index,
            },
        )
        &&& asked is Some ==> plan.destination_index == asked->0.mixnode_index
        &&& plan.destination_index.raw < topology.mixnodes.len()
        &&& plan.fragments@.len() == spec_num_fragments(data.len(), num_surbs)
        &&& forall|i: int|
            0 <= i < plan.fragments@.len() ==> fragment_planned(
                #[trigger] plan.fragments@[i],
                topology,
                plan.destination_index,
                self.config.num_hops,
                BlueprintView {
                    message_id: plan.message_id@,
                    last_index: (plan.fragments@.len() - 1) as u16,
                    index: i as u16,
                    data: spec_fragment(data, num_surbs, i as nat).0,
                    num_surbs: spec_fragment(data, num_surbs, i as nat).1,
                },
            )
    }

    /// The engine after the built packets of a request have been handed in
    /// for session `session_index`, and the time that a reply takes at the
    /// least, or the reason why nothing was queued.
    ///
    /// If the session takes requests and has room for all the packets, the
    /// keys of all their SURBs are stored, the packets are queued in order,
    /// and the time is the longest delay of a packet plus the longest delay
    /// of a SURB. Otherwise nothing changes.
    pub open spec fn finish_request(self, session_index: SessionIndex, fragments: Seq<BuiltFragmentView>) -> (
        MixnetView,
        Result<Nanos, PostErr>,
    ) {
        match self.queue_session(session_index, fragments.len()) {
            Err(e) => (self, Err(e)),
            Ok(rel_session_index) => {
                let session = self.sessions.slot(rel_session_index)->Full_0;
                (
                    MixnetView {
                        surb_keystore: keystore_after_fragments(
                            self.surb_keystore,
                            self.config.surb_keystore_capacity as nat,
                            fragments,
                        ),
                        ..self.with_session(
                            rel_session_index,
                            SessionView {
                                authored: authored_after_fragments(session.authored, fragments),
                                ..session
                            },
                        )
                    },
                    Ok(
                        max_request_delay(Delay { units: 0 }, fragments).spec_saturating_add(
                            max_reply_delay(Delay { units: 0 }, fragments),
                        ).spec_to_duration(self.config.mean_forwarding_delay),
                    ),
                )
            },
        }
    }

    /// The session that a reply goes to, unless it cannot be posted: the
    /// reply must not need more fragments than the limit allows or than
    /// there are SURBs, the session must have room for it, and each SURB
    /// that it uses must name a mixnode of the session.
    pub open spec fn check_reply(self, surbs: Seq<Surb>, session_index: SessionIndex, data_len: nat) -> Result<
        RelSessionIndex,
        PostErr,
    > {
        match self.fragment_count(data_len, 0) {
            None => Err(PostErr::TooManyFragments),
            Some(count) => if count > surbs.len() {
                Err(PostErr::TooManyFragments)
            } else {
                match self.queue_session(session_index, count) {
                    Err(e) => Err(e),
                    Ok(rel_session_index) => match spec_first_bad_surb(
                        self.sessions.slot(rel_session_index)->Full_0.topology,
                        surbs,
                        0,
                        count,
                    ) {
                        Some(e) => Err(e),
                        None => Ok(rel_session_index),
                    },
                }
            },
        }
    }

    /// Whether `post` is the engine after the first `count` fragments of a
    /// reply have been queued in the given session: the packets queued before
    /// are still there, and behind them stands one reply packet for each
    /// fragment, in order, each with its SURB and the peer that the SURB
    /// names.
    pub open spec fn reply_queued(
        self,
        post: MixnetView,
        rel_session_index: RelSessionIndex,
        surbs: Seq<Surb>,
        message_id: Seq<u8>,
        data: Seq<u8>,
        count: int,
    ) -> bool {
        let session = self.sessions.slot(rel_session_index)->Full_0;
        let queued = post.sessions.slot(rel_session_index)->Full_0.authored;
        &&& post.sessions.slot(rel_session_index) is Full
        &&& post == self.with_session(rel_session_index, SessionView { authored: queued, ..session })
        &&& queued.len() == session.authored.len() + count
        &&& forall|j: int| 0 <= j < session.authored.len() ==> queued[j] == session.authored[j]
        &&& forall|i: int|
            0 <= i < count ==> {
                &&& (#[trigger] queued[session.authored.len() + i]) is Reply
                &&& Ok::<PeerId, PostErr>(queued[session.authored.len() + i]->Reply_0.peer_id)
                    == spec_reply_peer(session.topology, spec_reply_surb(surbs, i))
                &&& *queued[session.authored.len() + i]->Reply_0.surb == spec_reply_surb(surbs, i)
                &&& queued[session.authored.len() + i]->Reply_0.packet@ == spec_fragment_packet(
                    message_id,
                    data,
                    0,
                    i,
                )
            }
    }

    /// The engine after the flags have been taken.
    pub open spec fn take_invalidated(self) -> MixnetView {
        MixnetView { invalidated: Invalidated::spec_empty(), ..self }
    }
}

/// Whether `session` is a new session for the given roster, key and session
/// configuration: its topology is that of the roster, with the local node in
/// the place that its key gives it, or else with the asked number of
/// gateways, as far as there are that many mixnodes; its authored packet
/// queue and its replay filter are empty.
pub open spec fn spec_new_session(
    session: SessionView,
    roster: Seq<Mixnode>,
    local_kx_public: KxPublic,
    session_config: SessionConfig,
    num_gateway_mixnodes: u32,
) -> bool {
    &&& session.topology.wf()
    &&& session.topology.mixnodes == roster
    &&& session.topology.local_kx_public == local_kx_public
    &&& match position_of_key(roster, local_kx_public) {
        Some(i) => session.topology.local == LocalView::Mixnode(i),
        None => session.topology.local is NonMixnode
            && session.topology.local->NonMixnode_0.len() == if roster.len() < num_gateway_mixnodes {
            roster.len()
        } else {
            num_gateway_mixnodes as nat
        },
    }
    &&& session.authored == Seq::<AuthoredPacket>::empty()
    &&& session.authored_capacity == session_config.authored_packet_queue_capacity
    &&& session.mean_authored_packet_period == session_config.mean_authored_packet_period
    &&& session.replay == Set::<Seq<u8>>::empty()
}

/// Whether no address occurs twice in `addresses`.
pub open spec fn distinct_addresses(addresses: Seq<Vec<u8>>) -> bool {
    forall|i: int, j: int| 0 <= i < j < addresses.len() ==> addresses[i]@ != addresses[j]@
}

} // verus!
