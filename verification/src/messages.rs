//! What goes into the engine and what comes out of it: messages, errors, and
//! the steps by which packets, requests and authored packets are handled
//! together with the Sphinx primitive.

use crate::assembler::surbs_view;
use crate::cover::CoverKind;
use crate::fragment::MessageId;
use crate::packet_queues::{AddressedPacket, AuthoredPacket};
use crate::sessions::{RelSessionIndex, SessionIndex};
use crate::sphinx::{
    Action, Delay, KxSecret, MixnodeIndex, Packet, Payload, PayloadData, PeelErr, PeerId, Route,
    Surb, SurbId,
};
use crate::topology::TopologyErr;
use vstd::prelude::*;

verus! {

/// A mixnode of a session.
#[derive(Clone, Copy, Debug, PartialEq, Eq, Structural)]
pub struct MixnodeId {
    pub session_index: SessionIndex,
    /// Index of the mixnode in the roster of session `session_index`.
    pub mixnode_index: MixnodeIndex,
}

/// A message that has arrived at the local node.
#[derive(Debug, PartialEq, Eq)]
pub enum Message {
    /// A request, with the SURBs to answer it with.
    Request { session_index: SessionIndex, data: Vec<u8>, surbs: Vec<Surb> },
    /// A reply to the request with identifier `id`.
    Reply { id: MessageId, data: Vec<u8> },
}

/// What a message holds.
pub enum MessageContent {
    Request { session_index: SessionIndex, data: Seq<u8>, surbs: Seq<Seq<u8>> },
    Reply { id: Seq<u8>, data: Seq<u8> },
}

impl View for Message {
    type V = MessageContent;

    open spec fn view(&self) -> MessageContent {
        match self {
            Message::Request { session_index, data, surbs } => MessageContent::Request {
                session_index: *session_index,
                data: data@,
                surbs: surbs_view(surbs@),
            },
            Message::Reply { id, data } => MessageContent::Reply { id: id@, data: data@ },
        }
    }
}

/// Why a request or a reply was not posted.
#[derive(Clone, Copy, Debug, PartialEq, Eq, Structural)]
pub enum PostErr {
    /// The message would need to be split into too many fragments.
    TooManyFragments,
    /// The session is neither the current one nor the one before it.
    BadSessionIndex(SessionIndex),
    /// Requests and replies are currently blocked for the session.
    RequestsAndRepliesBlocked(SessionIndex),
    /// The mixnodes of the session are not yet known.
    SessionEmpty(SessionIndex),
    /// The mixnet is disabled for the session.
    SessionDisabled(SessionIndex),
    /// There is not enough space in the authored packet queue.
    NotEnoughSpaceInQueue,
    /// No route could be found.
    Topology(TopologyErr),
    /// A SURB does not name a first mixnode.
    BadSurb,
}

/// A SURB that is to be built: its identifier, under which its keys are to
/// be stored, and its route back to the local node.
#[derive(Debug, PartialEq, Eq)]
pub struct SurbPlan {
    pub id: SurbId,
    pub route: Route,
}

/// A packet of a request that is to be built.
#[derive(Debug, PartialEq, Eq)]
pub struct RequestFragment {
    /// The peer that the built packet is to be sent to.
    pub peer_id: PeerId,
    /// The route to build the packet along.
    pub route: Route,
    /// The payload data, with the fragment written but for its SURBs.
    pub payload_data: Box<PayloadData>,
    /// The SURBs to build and to write into the payload data, in order.
    pub surbs: Vec<SurbPlan>,
}

/// A request that is to be built: one packet for each fragment.
#[derive(Debug, PartialEq, Eq)]
pub struct RequestPlan {
    /// The session that the request is for.
    pub session_index: SessionIndex,
    /// The mixnode that the request goes to.
    pub destination_index: MixnodeIndex,
    /// The identifier of the message.
    pub message_id: MessageId,
    pub fragments: Vec<RequestFragment>,
}

/// A SURB that has been built: the keys to decrypt the reply with, and the
/// delay that the reply meets on the route of the SURB.
#[derive(Debug, PartialEq, Eq)]
pub struct BuiltSurb {
    pub id: SurbId,
    pub keys: Vec<u8>,
    pub delay: Delay,
}

/// What a built SURB holds.
pub struct BuiltSurbView {
    pub id: SurbId,
    pub keys: Seq<u8>,
    pub delay: Delay,
}

impl View for BuiltSurb {
    type V = BuiltSurbView;

    open spec fn view(&self) -> BuiltSurbView {
        BuiltSurbView { id: self.id, keys: self.keys@, delay: self.delay }
    }
}

/// A packet of a request that has been built, with the delay that it meets
/// on its route, and the SURBs in it.
#[derive(Debug, PartialEq, Eq)]
pub struct BuiltFragment {
    pub packet: AddressedPacket,
    pub delay: Delay,
    pub surbs: Vec<BuiltSurb>,
}

/// What a built packet of a request holds.
pub struct BuiltFragmentView {
    pub packet: AddressedPacket,
    pub delay: Delay,
    pub surbs: Seq<BuiltSurbView>,
}

impl View for BuiltFragment {
    type V = BuiltFragmentView;

    open spec fn view(&self) -> BuiltFragmentView {
        BuiltFragmentView {
            packet: self.packet,
            delay: self.delay,
            surbs: self.surbs@.map_values(|s: BuiltSurb| s@),
        }
    }
}

/// What the engine has decided to send next, before any cover packet is
/// generated.
#[derive(Debug, PartialEq, Eq)]
pub enum AuthoredChoice {
    /// Nothing: no session is active.
    Nothing,
    /// A packet from the authored packet queue of a session.
    Packet(AuthoredPacket),
    /// A cover packet of the given kind for the given session.
    Cover { rel_session_index: RelSessionIndex, kind: CoverKind },
}

/// A packet with its outermost layer removed, and what is to be done with
/// it.
#[derive(Debug, PartialEq, Eq)]
pub struct Peeled {
    pub action: Action,
    /// What peeling wrote: the packet to send on, if the action is to forward
    /// it, else the payload, at the start.
    pub out: Box<Packet>,
}

/// What has happened to an incoming packet.
#[derive(Debug, PartialEq, Eq)]
pub enum PacketEvent {
    /// The packet has come in.
    Received,
    /// The packet has been put to the Sphinx primitive, with the secret of
    /// the session `rel_session_index`, and this has come of it.
    Peeled { rel_session_index: RelSessionIndex, result: Result<Peeled, PeelErr> },
    /// The payload of a reply has been put to the Sphinx primitive for
    /// decryption, and this has come of it; `None` if the decryption failed.
    ReplyDecrypted { payload: Option<Box<Payload>> },
}

/// What is to happen next to an incoming packet.
#[derive(Debug, PartialEq, Eq)]
pub enum PacketStep {
    /// Derive the shared secret from `secret` and the key-exchange public
    /// key of the packet, and peel the packet with it.
    Peel { rel_session_index: RelSessionIndex, session_index: SessionIndex, secret: KxSecret },
    /// Decrypt the payload of the reply with the keys of its SURB.
    DecryptReply { keys: Vec<u8>, payload: Box<Payload> },
    /// Nothing more; the message that the packet completed, if any, is
    /// delivered.
    Done(Option<Message>),
}

/// What is to happen next to an incoming packet.
pub enum StepView {
    Peel { rel_session_index: RelSessionIndex, session_index: SessionIndex, secret: KxSecret },
    DecryptReply { keys: Seq<u8>, payload: Seq<u8> },
    Done(Option<MessageContent>),
}

impl View for PacketStep {
    type V = StepView;

    open spec fn view(&self) -> StepView {
        match self {
            PacketStep::Peel { rel_session_index, session_index, secret } => StepView::Peel {
                rel_session_index: *rel_session_index,
                session_index: *session_index,
                secret: *secret,
            },
            PacketStep::DecryptReply { keys, payload } => StepView::DecryptReply {
                keys: keys@,
                payload: payload@,
            },
            PacketStep::Done(message) => StepView::Done(
                match message {
                    Some(message) => Some(message@),
                    None => None,
                },
            ),
        }
    }
}

} // verus!
