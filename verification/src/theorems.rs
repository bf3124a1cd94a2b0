//! What holds of the engine as a whole, proved from the definitions of its
//! operations.

use crate::assembler::{
    assembled_data, assembled_surbs, complete, empty_slots, holds_message, lemma_received_empty, lemma_received_update, make_room, message_position, received, settle,
    spec_insert, total_fragments, CompleteMessageView, ContentView, Limits, MessageView,
};
use crate::config::Proportion;
use crate::fragment::{
    first_data_size, first_num_surbs, spec_fragment, spec_num_fragments, FragmentView,
    FRAGMENT_PAYLOAD_SIZE, MAX_SURBS_PER_FRAGMENT,
};
use crate::invalidated::{lemma_sessions_changed, lemma_union_contains, Invalidated};
use crate::cover::{cover_matches, lemma_mixnode_cover_exists, spec_gen_cover_packet, CoverKind};
use crate::messages::{
    AuthoredChoice, BuiltFragmentView, PacketEvent, Peeled, PostErr, StepView,
};
use crate::model::{
    authored_after_fragments, keystore_after_fragments, keystore_after_surbs, max_reply_delay,
    max_request_delay, max_surb_delay, request_fails, route_fails, spec_is_loop,
    spec_kept_roster, spec_pick_current, MixnetView,
};
use crate::request_builder::spec_destination;
use crate::route::{
    connected_within, lemma_mixnode_routes_exist, lemma_pick_except, spec_gen_route, RouteKind,
    RouteView,
};
use crate::sphinx::{MixnodeIndex, PeerId, MAX_HOPS};
use crate::topology::{Mixnode, TopologyErr, TopologyView};
use crate::packet_queues::AuthoredPacket;
use crate::sessions::{RelSessionIndex, SessionIndex, SessionStatus, SessionView, SlotView};
use crate::sphinx::{spec_kx_public, Action, Delay, Nanos, Packet, PeelErr, SURB_SIZE};
use vstd::prelude::*;
use vstd::set_lib::{lemma_int_range, set_int_range};

verus! {

/// Whether a packet that is peeled with the secret of the given session, to
/// the given action, is entered in the replay filter of the session: the
/// local node must be a mixnode there, and a packet to forward needs room in
/// the forward packet queue.
pub open spec fn enters_replay_filter(engine: MixnetView, rel_session_index: RelSessionIndex, action: Action) -> bool {
    match engine.sessions.slot(rel_session_index) {
        SlotView::Full(session) => session.topology.is_mixnode() && match action {
            Action::ForwardTo { target, delay } => engine.forward_packet_queue.len()
                < engine.config.forward_packet_queue_capacity,
            Action::DeliverRequest => true,
            _ => false,
        },
        _ => false,
    }
}

/// Replay immunity. Once a packet has been taken in the current session, to
/// be forwarded or as a fragment of a request, the same packet coming in
/// again is dropped at once: no peel is asked for, and neither the forward
/// packet queue nor any session changes.
pub proof fn lemma_replay_immunity(engine: MixnetView, packet: Packet, peeled: Peeled, now: Nanos, later: Nanos)
    requires
        enters_replay_filter(engine, RelSessionIndex::Current, peeled.action),
    ensures
        ({
            let taken = engine.dispatch(packet, RelSessionIndex::Current, peeled, now).0;
            let again = taken.handle_packet(packet, PacketEvent::Received, later);
            &&& again.1 == StepView::Done(None)
            &&& again.0.forward_packet_queue == taken.forward_packet_queue
            &&& again.0.sessions == taken.sessions
            &&& again.0.fragment_assembler == taken.fragment_assembler
        }),
{
}

/// Session isolation, first part. A peel is only ever asked for with the
/// secret that the key store has in use for the very session whose slot is
/// tried, and only while the mixnet is available in that session and the
/// session has not seen the packet.
pub proof fn lemma_peel_uses_secret_of_session(engine: MixnetView, packet: Packet, event: PacketEvent, now: Nanos)
    ensures
        match engine.handle_packet(packet, event, now).1 {
            StepView::Peel { rel_session_index, session_index, secret } => {
                let ready = engine.handle_packet(packet, event, now).0;
                &&& ready.sessions.slot(rel_session_index) is Full
                &&& !ready.sessions.slot(rel_session_index)->Full_0.replay.contains(
                    spec_kx_public(packet),
                )
                &&& session_index == ready.session_index(rel_session_index)
                &&& crate::kx_store::keys_for_session(ready.kx_store.active, session_index) is Some
                &&& crate::kx_store::keys_for_session(
                    ready.kx_store.active,
                    session_index,
                )->0.secret == secret
            },
            _ => true,
        },
{
}

/// Session isolation, second part. While the mixnet is not available in a
/// session, because the session was discarded or never set up, whatever is
/// reported of a peel with its secret changes nothing: no packet is queued,
/// no message delivered, and the replay filter of the other session is left
/// alone.
pub proof fn lemma_discarded_session_is_inert(
    engine: MixnetView,
    packet: Packet,
    rel_session_index: RelSessionIndex,
    result: Result<Peeled, PeelErr>,
    now: Nanos,
)
    requires
        !(engine.sessions.slot(rel_session_index) is Full),
    ensures
        ({
            let after = engine.handle_packet(
                packet,
                PacketEvent::Peeled { rel_session_index, result },
                now,
            );
            &&& after.0 == engine
            &&& result != Err::<Peeled, PeelErr>(PeelErr::Mac) ==> after.1 == StepView::Done(None)
            &&& after.1 is Peel ==> after.1->Peel_rel_session_index != rel_session_index
        }),
{
}

/// Session isolation, third part. A packet that comes in, and a peel that
/// fails, leave every replay filter as it is.
pub proof fn lemma_only_taken_packets_are_recorded(
    engine: MixnetView,
    packet: Packet,
    event: PacketEvent,
    now: Nanos,
)
    requires
        match event {
            PacketEvent::Peeled { rel_session_index, result } => result is Err,
            _ => true,
        },
    ensures
        engine.handle_packet(packet, event, now).0.sessions == engine.sessions,
{
}

/// When the phase no longer needs the previous session, or the index of the
/// current session moves by more than one, the sessions whose time is over
/// are gone: their slots are disabled or empty, and the key store serves no
/// session before the oldest one still needed.
pub proof fn lemma_status_discards_sessions(engine: MixnetView, status: SessionStatus)
    requires
        status != engine.session_status,
    ensures
        ({
            let after = engine.set_session_status(status);
            &&& !status.phase.spec_need_prev() ==> after.sessions.prev == SlotView::Disabled
            &&& status.current_index != engine.session_status.current_index && status.current_index
                != engine.session_status.current_index + 1 ==> after.sessions.current
                == SlotView::Empty && !(after.sessions.prev is Full)
            &&& status.current_index == engine.session_status.current_index + 1
                ==> after.sessions.current == SlotView::Empty
            &&& after.kx_store.discarded_before >= MixnetView::oldest_needed_session(status)
        }),
{
}

/// Cover proportion. Of the draws that `pop_next_authored_packet` can make
/// for the kind of a cover packet, which are the numbers below the
/// denominator of the loop cover proportion, as many select a loop cover
/// packet as the numerator says. So with draws that are equally likely, the
/// proportion of loop cover packets is the one configured.
pub proof fn lemma_loop_cover_proportion(proportion: Proportion)
    requires
        proportion.valid(),
    ensures
        Set::new(
            |draw: int| 0 <= draw < proportion.denominator && spec_is_loop(proportion, draw as u64),
        ).finite(),
        Set::new(
            |draw: int| 0 <= draw < proportion.denominator && spec_is_loop(proportion, draw as u64),
        ).len() == proportion.numerator,
{
    let loops = Set::new(
        |draw: int| 0 <= draw < proportion.denominator && spec_is_loop(proportion, draw as u64),
    );
    assert forall|draw: int| loops.contains(draw) <==> set_int_range(
        0,
        proportion.numerator as int,
    ).contains(draw) by {
        if 0 <= draw < proportion.denominator {
            vstd::arithmetic::div_mod::lemma_small_mod(draw as nat, proportion.denominator as nat);
        }
    }
    assert(loops =~= set_int_range(0, proportion.numerator as int));
    lemma_int_range(0, proportion.numerator as int);
}

/// Poisson splitting. Where both sessions are active, with mean periods
/// `current` and `prev` that are not both zero, the draws that can be made
/// for the session are the numbers below the sum of the two, and as many of
/// them select the current session as the mean period of the previous
/// session says. So with draws that are equally likely, the current session
/// is selected with probability `prev / (current + prev)`: in proportion to
/// its rate.
pub proof fn lemma_session_split(current: Nanos, prev: Nanos)
    requires
        0 < current + prev,
    ensures
        Set::new(
            |draw: int| 0 <= draw < current + prev && spec_pick_current(current, prev, draw as u128),
        ).finite(),
        Set::new(
            |draw: int| 0 <= draw < current + prev && spec_pick_current(current, prev, draw as u128),
        ).len() == prev,
{
    let picks = Set::new(
        |draw: int| 0 <= draw < current + prev && spec_pick_current(current, prev, draw as u128),
    );
    assert forall|draw: int| picks.contains(draw) <==> set_int_range(0, prev as int).contains(
        draw,
    ) by {
        if 0 <= draw < current + prev {
            vstd::arithmetic::div_mod::lemma_small_mod(draw as nat, (current + prev) as nat);
        }
    }
    assert(picks =~= set_int_range(0, prev as int));
    lemma_int_range(0, prev as int);
}

/// The draws for the session are those that the splitting counts: where
/// both sessions are active and their mean periods are not both zero, the
/// number of draws that are equally likely is the sum of the two mean
/// periods, and a draw selects the current session exactly when it is below
/// the mean period of the previous session.
pub proof fn lemma_session_draws(engine: MixnetView, draw: u128)
    requires
        engine.active_period(RelSessionIndex::Current) is Some,
        engine.active_period(RelSessionIndex::Prev) is Some,
        engine.active_period(RelSessionIndex::Current)->0 + engine.active_period(
            RelSessionIndex::Prev,
        )->0 > 0,
        draw < engine.session_draw_bound(),
    ensures
        engine.session_draw_bound() == engine.active_period(RelSessionIndex::Current)->0
            + engine.active_period(RelSessionIndex::Prev)->0,
        engine.authored_session(draw) == Some(
            if draw < engine.active_period(RelSessionIndex::Prev)->0 {
                RelSessionIndex::Current
            } else {
                RelSessionIndex::Prev
            },
        ),
{
    let current = engine.active_period(RelSessionIndex::Current)->0;
    let prev = engine.active_period(RelSessionIndex::Prev)->0;
    vstd::arithmetic::div_mod::lemma_small_mod(draw as nat, (current + prev) as nat);
}

/// The queue after some packets have been queued is as much longer as there
/// are packets, and starts with what was queued before.
pub proof fn lemma_authored_after_fragments(authored: Seq<AuthoredPacket>, fragments: Seq<BuiltFragmentView>)
    ensures
        authored_after_fragments(authored, fragments).len() == authored.len() + fragments.len(),
        forall|i: int|
            0 <= i < authored.len() ==> authored_after_fragments(authored, fragments)[i]
                == authored[i],
        forall|i: int|
            0 <= i < fragments.len() ==> authored_after_fragments(
                authored,
                fragments,
            )[authored.len() + i] == AuthoredPacket::Built(fragments[i].packet),
    decreases fragments.len(),
{
    if fragments.len() > 0 {
        let next = authored.push(AuthoredPacket::Built(fragments[0].packet));
        lemma_authored_after_fragments(next, fragments.drop_first());
        let after = authored_after_fragments(authored, fragments);
        assert forall|i: int| 0 <= i < authored.len() implies after[i] == authored[i] by {
            assert(next[i] == authored[i]);
        }
        assert forall|i: int| 0 <= i < fragments.len() implies after[authored.len() + i]
            == AuthoredPacket::Built(fragments[i].packet) by {
            if i == 0 {
                assert(after[authored.len() as int] == next[authored.len() as int]);
            } else {
                assert(fragments.drop_first()[i - 1] == fragments[i]);
                assert(after[next.len() + (i - 1)] == AuthoredPacket::Built(
                    fragments.drop_first()[i - 1].packet,
                ));
            }
        }
    }
}

/// Queue atomicity for requests. When the built packets of a request are
/// handed in, either nothing changes at all, or every one of them is queued,
/// in order, behind what was queued before.
pub proof fn lemma_request_all_or_nothing(
    engine: MixnetView,
    session_index: SessionIndex,
    fragments: Seq<BuiltFragmentView>,
)
    ensures
        ({
            let after = engine.finish_request(session_index, fragments);
            match engine.queue_session(session_index, fragments.len()) {
                Err(e) => after.0 == engine && after.1 == Err::<Nanos, PostErr>(e),
                Ok(rel_session_index) => {
                    let before = engine.sessions.slot(rel_session_index)->Full_0.authored;
                    let queued = after.0.sessions.slot(rel_session_index)->Full_0.authored;
                    &&& after.1 is Ok
                    &&& queued.len() == before.len() + fragments.len()
                    &&& queued.len() <= engine.sessions.slot(
                        rel_session_index,
                    )->Full_0.authored_capacity
                    &&& forall|i: int| 0 <= i < before.len() ==> queued[i] == before[i]
                    &&& forall|i: int|
                        0 <= i < fragments.len() ==> queued[before.len() + i]
                            == AuthoredPacket::Built(fragments[i].packet)
                },
            }
        }),
{
    match engine.queue_session(session_index, fragments.len()) {
        Err(e) => {},
        Ok(rel_session_index) => {
            lemma_authored_after_fragments(
                engine.sessions.slot(rel_session_index)->Full_0.authored,
                fragments,
            );
        },
    }
}

/// Deadline monotonicity. The packet that leaves the forward packet queue is
/// due no later than any packet that stays, so packets that leave one after
/// the other leave in the order of their deadlines.
pub proof fn lemma_forward_packets_leave_by_deadline(engine: MixnetView)
    requires
        engine.wf(),
        engine.forward_packet_queue.len() > 0,
    ensures
        forall|i: int|
            0 <= i < engine.pop_next_forward_packet().forward_packet_queue.len()
                ==> engine.forward_packet_queue[0].deadline
                <= (#[trigger] engine.pop_next_forward_packet().forward_packet_queue[i]).deadline,
        crate::packet_queues::sorted_by_deadline(
            engine.pop_next_forward_packet().forward_packet_queue,
        ),
{
    let before = engine.forward_packet_queue;
    let after = engine.pop_next_forward_packet().forward_packet_queue;
    assert forall|i: int| 0 <= i < after.len() implies before[0].deadline <= (#[trigger] after[i]).deadline by {
        assert(after[i] == before[i + 1]);
    }
    assert forall|i: int, j: int| 0 <= i <= j < after.len() implies after[i].deadline
        <= after[j].deadline by {
        assert(after[i] == before[i + 1]);
        assert(after[j] == before[j + 1]);
    }
}

/// Invalidation, on a change of the session status. After any change, the
/// flags that the caller takes next hold at least the flag for the reserved
/// peers and the flag for the next authored packet deadline, and every flag
/// that was raised before.
pub proof fn lemma_status_change_raises_flags(engine: MixnetView, status: SessionStatus)
    requires
        status != engine.session_status,
    ensures
        engine.set_session_status(status).invalidated.spec_contains(
            Invalidated::spec_reserved_peers(),
        ),
        engine.set_session_status(status).invalidated.spec_contains(
            Invalidated::spec_next_authored_packet_deadline(),
        ),
        engine.set_session_status(status).invalidated.spec_contains(engine.invalidated),
{
    lemma_sessions_changed();
    lemma_union_contains(
        engine.invalidated,
        Invalidated::spec_sessions_changed(),
        Invalidated::spec_reserved_peers(),
    );
    lemma_union_contains(
        engine.invalidated,
        Invalidated::spec_sessions_changed(),
        Invalidated::spec_next_authored_packet_deadline(),
    );
}

/// Invalidation, on a packet leaving the forward packet queue. After
/// `pop_next_forward_packet`, whether it returned a packet or not, the flags
/// that the caller takes next hold the flag for the next forward packet
/// deadline.
pub proof fn lemma_forward_pop_raises_flag(engine: MixnetView)
    ensures
        engine.pop_next_forward_packet().invalidated.spec_contains(
            Invalidated::spec_next_forward_packet_deadline(),
        ),
        engine.pop_next_forward_packet().invalidated.spec_contains(engine.invalidated),
{
    lemma_union_contains(
        engine.invalidated,
        Invalidated::spec_next_forward_packet_deadline(),
        Invalidated::spec_next_forward_packet_deadline(),
    );
}

/// The data of the first `n` fragments of a message, in order.
pub open spec fn joined_fragment_data(data: Seq<u8>, num_surbs: nat, n: nat) -> Seq<u8>
    decreases n,
{
    if n == 0 {
        Seq::empty()
    } else {
        joined_fragment_data(data, num_surbs, (n - 1) as nat) + spec_fragment(
            data,
            num_surbs,
            (n - 1) as nat,
        ).0
    }
}

/// The number of SURBs in the first `n` fragments of a message.
pub open spec fn joined_fragment_surbs(data: Seq<u8>, num_surbs: nat, n: nat) -> nat
    decreases n,
{
    if n == 0 {
        0
    } else {
        joined_fragment_surbs(data, num_surbs, (n - 1) as nat) + spec_fragment(
            data,
            num_surbs,
            (n - 1) as nat,
        ).1
    }
}

proof fn lemma_joined_shift(data: Seq<u8>, num_surbs: nat, n: nat)
    ensures
        joined_fragment_data(data, num_surbs, n + 1) == data.take(
            first_data_size(data.len(), num_surbs) as int,
        ) + joined_fragment_data(
            data.skip(first_data_size(data.len(), num_surbs) as int),
            (num_surbs - first_num_surbs(num_surbs)) as nat,
            n,
        ),
        joined_fragment_surbs(data, num_surbs, n + 1) == first_num_surbs(num_surbs)
            + joined_fragment_surbs(
            data.skip(first_data_size(data.len(), num_surbs) as int),
            (num_surbs - first_num_surbs(num_surbs)) as nat,
            n,
        ),
    decreases n,
{
    let d = first_data_size(data.len(), num_surbs) as int;
    let rest = data.skip(d);
    let rest_surbs = (num_surbs - first_num_surbs(num_surbs)) as nat;
    if n == 0 {
        assert(joined_fragment_data(data, num_surbs, 0) =~= Seq::<u8>::empty());
        assert(joined_fragment_data(data, num_surbs, 1) =~= data.take(d));
        assert(data.take(d) + joined_fragment_data(rest, rest_surbs, 0) =~= data.take(d));
        assert(joined_fragment_surbs(data, num_surbs, 0) == 0);
        assert(joined_fragment_surbs(data, num_surbs, 1) == joined_fragment_surbs(data, num_surbs, 0)
            + spec_fragment(data, num_surbs, 0).1);
        assert(joined_fragment_surbs(rest, rest_surbs, 0) == 0);
    } else {
        lemma_joined_shift(data, num_surbs, (n - 1) as nat);
        assert(spec_fragment(data, num_surbs, n) == spec_fragment(rest, rest_surbs, (n - 1) as nat));
        assert(joined_fragment_data(data, num_surbs, n + 1) =~= data.take(d) + joined_fragment_data(
            rest,
            rest_surbs,
            n,
        ));
        assert(joined_fragment_surbs(data, num_surbs, n + 1) == joined_fragment_surbs(
            data,
            num_surbs,
            n,
        ) + spec_fragment(data, num_surbs, n).1);
        assert(joined_fragment_surbs(rest, rest_surbs, n) == joined_fragment_surbs(
            rest,
            rest_surbs,
            (n - 1) as nat,
        ) + spec_fragment(rest, rest_surbs, (n - 1) as nat).1);
    }
}

/// Splitting loses nothing. The data of the fragments of a message, put
/// together in order, is the data of the message, and the fragments hold as
/// many SURBs as the message asks for.
pub proof fn lemma_fragments_cover_message(data: Seq<u8>, num_surbs: nat)
    ensures
        joined_fragment_data(data, num_surbs, spec_num_fragments(data.len(), num_surbs)) == data,
        joined_fragment_surbs(data, num_surbs, spec_num_fragments(data.len(), num_surbs))
            == num_surbs,
    decreases data.len() + num_surbs,
{
    let s = first_num_surbs(num_surbs);
    let d = first_data_size(data.len(), num_surbs);
    lemma_joined_shift(data, num_surbs, (spec_num_fragments(data.len(), num_surbs) - 1) as nat);
    if data.len() - d == 0 && num_surbs - s == 0 {
        assert(joined_fragment_data(data.skip(d as int), 0, 0) =~= Seq::<u8>::empty());
        assert(data.take(d as int) + Seq::<u8>::empty() =~= data);
    } else {
        lemma_fragments_cover_message(data.skip(d as int), (num_surbs - s) as nat);
        assert(data.take(d as int) + data.skip(d as int) =~= data);
    }
}

/// Whether `fragments` are the fragments of one message with identifier
/// `id`, in order.
pub open spec fn fragments_of_message(fragments: Seq<FragmentView>, id: Seq<u8>) -> bool {
    &&& 1 <= fragments.len() <= crate::fragment::MAX_FRAGMENTS
    &&& forall|i: int|
        0 <= i < fragments.len() ==> {
            &&& (#[trigger] fragments[i]).message_id == id
            &&& fragments[i].last_index == fragments.len() - 1
            &&& fragments[i].index == i
        }
}

/// The slots of a message of which the first `k` of `fragments` have
/// arrived.
pub open spec fn filled_slots(fragments: Seq<FragmentView>, k: int) -> Seq<Option<ContentView>> {
    Seq::new(
        fragments.len(),
        |i: int|
            if i < k {
                Some(ContentView { data: fragments[i].data, surbs: fragments[i].surbs })
            } else {
                None
            },
    )
}

/// The messages under reassembly after the first `k` of `fragments` have
/// arrived in order, and what the last of them completed.
pub open spec fn after_fragments(messages: Seq<MessageView>, limits: Limits, fragments: Seq<FragmentView>, k: nat) -> (
    Seq<MessageView>,
    Option<CompleteMessageView>,
)
    decreases k,
{
    if k == 0 {
        (messages, None)
    } else {
        spec_insert(
            after_fragments(messages, limits, fragments, (k - 1) as nat).0,
            limits,
            fragments[k - 1],
        )
    }
}

proof fn lemma_received_filled(fragments: Seq<FragmentView>, k: int)
    requires
        0 <= k <= fragments.len(),
    ensures
        received(filled_slots(fragments, k)) == k,
        k < fragments.len() ==> !complete(filled_slots(fragments, k)),
        k == fragments.len() ==> complete(filled_slots(fragments, k)),
    decreases k,
{
    if k == 0 {
        assert(filled_slots(fragments, 0) =~= empty_slots(fragments.len()));
        lemma_received_empty(fragments.len());
    } else {
        lemma_received_filled(fragments, k - 1);
        let content = ContentView { data: fragments[k - 1].data, surbs: fragments[k - 1].surbs };
        assert(filled_slots(fragments, k) =~= filled_slots(fragments, k - 1).update(
            k - 1,
            Some(content),
        ));
        lemma_received_update(filled_slots(fragments, k - 1), k - 1, content);
    }
    if k < fragments.len() {
        assert(filled_slots(fragments, k)[k].is_none());
    }
}

/// The data that is put together from the first `j` slots of a message of
/// which all fragments have arrived.
proof fn lemma_assembled_filled(fragments: Seq<FragmentView>, j: int)
    requires
        0 <= j <= fragments.len(),
    ensures
        assembled_data(filled_slots(fragments, fragments.len() as int).take(j)) == joined_data(
            fragments.take(j),
        ),
        assembled_surbs(filled_slots(fragments, fragments.len() as int).take(j)) == joined_surbs(
            fragments.take(j),
        ),
    decreases j,
{
    let slots = filled_slots(fragments, fragments.len() as int);
    if j > 0 {
        lemma_assembled_filled(fragments, j - 1);
        assert(slots.take(j).drop_last() =~= slots.take(j - 1));
        assert(fragments.take(j).drop_last() =~= fragments.take(j - 1));
        assert(slots.take(j).last() == slots[j - 1]);
        assert(fragments.take(j).last() == fragments[j - 1]);
    }
}

/// The data of `fragments`, in order.
pub open spec fn joined_data(fragments: Seq<FragmentView>) -> Seq<u8>
    decreases fragments.len(),
{
    if fragments.len() == 0 {
        Seq::empty()
    } else {
        joined_data(fragments.drop_last()) + fragments.last().data
    }
}

/// The SURBs of `fragments`, in order.
pub open spec fn joined_surbs(fragments: Seq<FragmentView>) -> Seq<Seq<u8>>
    decreases fragments.len(),
{
    if fragments.len() == 0 {
        Seq::empty()
    } else {
        joined_surbs(fragments.drop_last()) + fragments.last().surbs
    }
}

/// Whether the limits leave room to reassemble one message of `count`
/// fragments.
pub open spec fn room_for_message(limits: Limits, count: nat) -> bool {
    &&& limits.max_incomplete_messages >= 1
    &&& limits.max_fragments_per_message >= count
    &&& limits.max_incomplete_fragments + 1 >= count
}

proof fn lemma_fragments_in_order(limits: Limits, fragments: Seq<FragmentView>, id: Seq<u8>, k: nat)
    requires
        fragments_of_message(fragments, id),
        room_for_message(limits, fragments.len()),
        1 <= k <= fragments.len(),
    ensures
        k < fragments.len() ==> after_fragments(Seq::empty(), limits, fragments, k) == (
            seq![MessageView { id, slots: filled_slots(fragments, k as int) }],
            None::<CompleteMessageView>,
        ),
        k == fragments.len() ==> after_fragments(Seq::empty(), limits, fragments, k) == (
            Seq::<MessageView>::empty(),
            Some(
                CompleteMessageView {
                    id,
                    data: assembled_data(filled_slots(fragments, k as int)),
                    surbs: assembled_surbs(filled_slots(fragments, k as int)),
                },
            ),
        ),
    decreases k,
{
    let n = fragments.len();
    let fragment = fragments[k - 1];
    let content = ContentView { data: fragment.data, surbs: fragment.surbs };
    let before: Seq<MessageView> = if k == 1 {
        Seq::empty()
    } else {
        seq![MessageView { id, slots: filled_slots(fragments, k - 1) }]
    };
    if k > 1 {
        lemma_fragments_in_order(limits, fragments, id, (k - 1) as nat);
    }
    assert(after_fragments(Seq::empty(), limits, fragments, (k - 1) as nat).0 == before);
    let message = MessageView { id, slots: filled_slots(fragments, k as int) };
    lemma_received_filled(fragments, k as int);
    lemma_received_filled(fragments, k - 1);
    let rest = Seq::<MessageView>::empty();
    assert(settle(rest, limits, message) == if k == n {
        (
            rest,
            Some(
                CompleteMessageView {
                    id,
                    data: assembled_data(message.slots),
                    surbs: assembled_surbs(message.slots),
                },
            ),
        )
    } else {
        (seq![message], None::<CompleteMessageView>)
    }) by {
        if k < n {
            assert(make_room(rest, limits, received(message.slots)) == rest);
            assert(total_fragments(rest) == 0);
            assert(rest.push(message) =~= seq![message]);
        }
    }
    if k == 1 {
        assert(!holds_message(before, id));
        assert(empty_slots(n).update(0, Some(content)) =~= filled_slots(fragments, 1));
    } else {
        assert(before[0].id == id);
        assert(holds_message(before, id));
        assert(message_position(before, id) == 0);
        assert(filled_slots(fragments, k - 1)[k - 1].is_none());
        assert(filled_slots(fragments, k - 1).update(k - 1, Some(content)) =~= filled_slots(
            fragments,
            k as int,
        ));
        assert(before.remove(0) =~= rest);
    }
}

/// Reassembly undoes splitting. When the fragments of one message arrive in
/// order at an assembler that holds nothing and has room for the message,
/// the last fragment completes the message: its data and its SURBs are
/// those of the fragments, put together in order, and nothing is left under
/// reassembly.
pub proof fn lemma_reassembly(limits: Limits, fragments: Seq<FragmentView>, id: Seq<u8>)
    requires
        fragments_of_message(fragments, id),
        room_for_message(limits, fragments.len()),
    ensures
        after_fragments(Seq::empty(), limits, fragments, fragments.len()) == (
            Seq::<MessageView>::empty(),
            Some(
                CompleteMessageView {
                    id,
                    data: joined_data(fragments),
                    surbs: joined_surbs(fragments),
                },
            ),
        ),
{
    lemma_fragments_in_order(limits, fragments, id, fragments.len());
    lemma_assembled_filled(fragments, fragments.len() as int);
    assert(filled_slots(fragments, fragments.len() as int).take(fragments.len() as int)
        =~= filled_slots(fragments, fragments.len() as int));
    assert(fragments.take(fragments.len() as int) =~= fragments);
}

/// A mixnode always finds routes for its requests. Where the local node is
/// a mixnode among at least three, the planning of a request to any
/// destination in the roster, or to a random one, fails on no draw, for any
/// number of hops that a packet allows.
pub proof fn lemma_mixnode_requests_find_routes(
    topology: TopologyView,
    asked: Option<MixnodeIndex>,
    num_hops: u32,
    e: TopologyErr,
)
    requires
        topology.wf(),
        topology.local is Mixnode,
        topology.mixnodes.len() >= 3,
        1 <= num_hops <= MAX_HOPS,
        asked is Some ==> asked->0.raw < topology.mixnodes.len(),
    ensures
        !request_fails(topology, asked, num_hops, e),
{
    if request_fails(topology, asked, num_hops, e) {
        let draw = choose|draw: u64|
            match #[trigger] spec_destination(topology, asked, draw) {
                Err(failure) => failure == e,
                Ok(destination) => route_fails(
                    topology,
                    RouteKind::ToMixnode(destination),
                    num_hops,
                    e,
                ) || route_fails(topology, RouteKind::FromMixnode(destination), num_hops, e),
            };
        lemma_pick_except(
            draw,
            topology.mixnodes.len() as int,
            Some(topology.local->Mixnode_0),
            None,
        );
        let destination = spec_destination(topology, asked, draw)->Ok_0;
        let kind = if route_fails(topology, RouteKind::ToMixnode(destination), num_hops, e) {
            RouteKind::ToMixnode(destination)
        } else {
            RouteKind::FromMixnode(destination)
        };
        let (gateways, local_peer_id, draws) = choose|
            gateways: Seq<int>,
            local_peer_id: PeerId,
            draws: Seq<u64>,
        |
            connected_within(topology, gateways) && #[trigger] spec_gen_route(
                topology,
                gateways,
                local_peer_id,
                kind,
                num_hops,
                draws,
            ) == Err::<RouteView, TopologyErr>(e);
        lemma_mixnode_routes_exist(topology, gateways, local_peer_id, kind, num_hops, draws);
    }
}

/// A mixnode always has something to send. Where cover packets are
/// generated and the engine has decided on a cover packet for a session in
/// which the local node is a mixnode among at least three, a cover packet
/// comes out.
pub proof fn lemma_mixnode_sends_cover(
    engine: MixnetView,
    rel_session_index: RelSessionIndex,
    kind: CoverKind,
    r: Option<AuthoredPacket>,
)
    requires
        engine.is_authored_outcome(AuthoredChoice::Cover { rel_session_index, kind }, r),
        engine.slot_wf(rel_session_index),
        engine.sessions.slot(rel_session_index)->Full_0.topology.local is Mixnode,
        engine.sessions.slot(rel_session_index)->Full_0.topology.mixnodes.len() >= 3,
        engine.config.gen_cover_packets,
        1 <= engine.config.num_hops <= MAX_HOPS,
    ensures
        r is Some,
        r->0 is Cover,
{
    let topology = engine.sessions.slot(rel_session_index)->Full_0.topology;
    let cover = match r {
        Some(AuthoredPacket::Cover(cover)) => Some(cover),
        _ => None,
    };
    let (gateways, local_peer_id, destination_draw, draws) = choose|
        gateways: Seq<int>,
        local_peer_id: PeerId,
        destination_draw: u64,
        draws: Seq<u64>,
    |
        connected_within(topology, gateways) && cover_matches(
            cover,
            #[trigger] spec_gen_cover_packet(
                topology,
                gateways,
                local_peer_id,
                kind,
                engine.config,
                destination_draw,
                draws,
            ),
        );
    lemma_mixnode_cover_exists(
        topology,
        gateways,
        local_peer_id,
        kind,
        engine.config,
        destination_draw,
        draws,
    );
}

/// Once the mixnodes of a session have been provided, its slot is settled:
/// it is disabled or full, never empty. It is disabled exactly when the
/// mixnodes are fewer than the configured minimum, when the key store holds
/// no key-exchange key pair for the session, or when there is no session
/// configuration for the role of the local node. The other slot, the queues
/// and the stores are as they were.
pub proof fn lemma_provided_mixnodes_settle_the_slot(
    engine: MixnetView,
    after: MixnetView,
    rel_session_index: RelSessionIndex,
    roster: Seq<Mixnode>,
)
    requires
        engine.populated(after, rel_session_index, roster),
    ensures
        after.sessions.slot(rel_session_index) is Disabled || after.sessions.slot(
            rel_session_index,
        ) is Full,
        after.sessions.slot(rel_session_index) is Disabled <==> {
            ||| roster.len() < engine.config.min_mixnodes
            ||| engine.kx_store.keys(engine.session_index(rel_session_index)) is None
            ||| engine.session_config(
                spec_kept_roster(roster),
                engine.kx_store.keys(engine.session_index(rel_session_index))->0.public,
            ) is None
        },
        after.sessions.slot(
            match rel_session_index {
                RelSessionIndex::Current => RelSessionIndex::Prev,
                RelSessionIndex::Prev => RelSessionIndex::Current,
            },
        ) == engine.sessions.slot(
            match rel_session_index {
                RelSessionIndex::Current => RelSessionIndex::Prev,
                RelSessionIndex::Prev => RelSessionIndex::Current,
            },
        ),
        after == (MixnetView {
            sessions: after.sessions,
            invalidated: after.invalidated,
            ..engine
        }),
        after.sessions.slot(rel_session_index) is Disabled ==> after.invalidated
            == engine.invalidated,
{
}

/// A message that fits one fragment is accepted for the current session.
/// Where the phase sends requests to the current session by default, the
/// mixnet is available there, the data and the SURBs fit one fragment, and
/// the authored packet queue of the session has room for one packet, a
/// request that names no destination passes every check of its own, for the
/// current session, and has one fragment.
pub proof fn lemma_small_request_is_accepted(engine: MixnetView, data_len: nat, num_surbs: nat)
    requires
        engine.session_status.phase.spec_default_request_session() == RelSessionIndex::Current,
        engine.sessions.current is Full,
        engine.sessions.current->Full_0.authored.len()
            < engine.sessions.current->Full_0.authored_capacity,
        engine.config.max_fragments_per_message >= 1,
        num_surbs <= MAX_SURBS_PER_FRAGMENT,
        data_len + num_surbs * SURB_SIZE <= FRAGMENT_PAYLOAD_SIZE,
    ensures
        spec_num_fragments(data_len, num_surbs) == 1,
        engine.request_session_index(None) == engine.session_status.current_index,
        engine.check_request(None, data_len, num_surbs) == Ok::<RelSessionIndex, PostErr>(
            RelSessionIndex::Current,
        ),
{
}

/// What comes of a request of one packet. When the one built packet of a
/// request is handed in for a session that takes it, the authored packet
/// queue of that session grows by that packet and nothing else is queued
/// anywhere; the keys of its SURBs are stored; and the time returned is the
/// delay of the packet plus the longest delay of its SURBs, as a span of
/// time under the mean forwarding delay.
pub proof fn lemma_request_of_one_packet(
    engine: MixnetView,
    session_index: SessionIndex,
    fragment: BuiltFragmentView,
)
    requires
        engine.queue_session(session_index, 1) is Ok,
    ensures
        ({
            let rel_session_index = engine.queue_session(session_index, 1)->Ok_0;
            let session = engine.sessions.slot(rel_session_index)->Full_0;
            let after = engine.finish_request(session_index, seq![fragment]);
            &&& after.1 == Ok::<Nanos, PostErr>(
                fragment.delay.spec_saturating_add(
                    max_surb_delay(Delay { units: 0 }, fragment.surbs),
                ).spec_to_duration(engine.config.mean_forwarding_delay),
            )
            &&& after.0 == (MixnetView {
                surb_keystore: keystore_after_surbs(
                    engine.surb_keystore,
                    engine.config.surb_keystore_capacity as nat,
                    fragment.surbs,
                ),
                ..engine.with_session(
                    rel_session_index,
                    SessionView {
                        authored: session.authored.push(AuthoredPacket::Built(fragment.packet)),
                        ..session
                    },
                )
            })
            &&& after.0.forward_packet_queue == engine.forward_packet_queue
        }),
{
    let fragments = seq![fragment];
    let rest = fragments.drop_first();
    assert(rest.len() == 0);
    assert(fragments[0] == fragment);
    let rel_session_index = engine.queue_session(session_index, 1)->Ok_0;
    let session = engine.sessions.slot(rel_session_index)->Full_0;
    let zero = Delay { units: 0 };
    assert(max_request_delay(zero, fragments) == max_request_delay(zero.spec_max(fragment.delay), rest));
    assert(max_reply_delay(zero, fragments) == max_reply_delay(
        max_surb_delay(zero, fragment.surbs),
        rest,
    ));
    assert(keystore_after_fragments(
        engine.surb_keystore,
        engine.config.surb_keystore_capacity as nat,
        fragments,
    ) == keystore_after_fragments(
        keystore_after_surbs(
            engine.surb_keystore,
            engine.config.surb_keystore_capacity as nat,
            fragment.surbs,
        ),
        engine.config.surb_keystore_capacity as nat,
        rest,
    ));
    assert(authored_after_fragments(session.authored, fragments) == authored_after_fragments(
        session.authored.push(AuthoredPacket::Built(fragment.packet)),
        rest,
    ));
}

} // verus!
