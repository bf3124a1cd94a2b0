//! Network-agnostic core of a mix network node.
//!
//! The core takes in the packets that the transport receives, decides for
//! each whether it is forwarded, delivered or dropped, and authors the
//! requests, replies and cover packets that the node sends. It does no I/O,
//! keeps no clock and does no cryptography: the caller drives it, tells it
//! the time, and puts packets to the Sphinx primitive where the core asks
//! for that.

pub mod assembler;
pub mod config;
pub mod cover;
pub mod fragment;
pub mod invalidated;
pub mod kx_store;
pub mod messages;
pub mod mixnet;
pub mod model;
pub mod packet_queues;
pub mod random;
pub mod replay_filter;
pub mod request_builder;
pub mod route;
pub mod sessions;
pub mod sphinx;
pub mod surb_keystore;
pub mod theorems;
pub mod topology;

pub use crate::config::{Config, Proportion, SessionConfig};
pub use crate::cover::{gen_cover_packet, CoverKind};
pub use crate::fragment::{MessageId, MESSAGE_ID_SIZE};
pub use crate::invalidated::Invalidated;
pub use crate::kx_store::{KxStore, SessionKeys};
pub use crate::messages::{
    AuthoredChoice, BuiltFragment, BuiltSurb, Message, MixnodeId, PacketEvent, PacketStep, Peeled,
    PostErr, RequestFragment, RequestPlan, SurbPlan,
};
pub use crate::mixnet::{post_session, Mixnet};
pub use crate::packet_queues::{AddressedPacket, AuthoredPacket, CoverPacket, ReplyPacket};
pub use crate::sessions::{RelSessionIndex, SessionIndex, SessionPhase, SessionStatus};
pub use crate::sphinx::{
    Action, Delay, Hop, KxPublic, KxSecret, MixnodeIndex, Nanos, Packet, Payload, PayloadData,
    PeelErr, PeerId, RawMixnodeIndex, Route, Surb, SurbId, Target, KX_PUBLIC_SIZE,
    MAX_MIXNODE_INDEX, PACKET_SIZE, PEER_ID_SIZE, SURB_SIZE,
};
pub use crate::topology::{Mixnode, NetworkStatus, TopologyErr};
