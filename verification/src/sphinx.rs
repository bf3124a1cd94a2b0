//! Plain values shared with the Sphinx packet primitive.
//!
//! The onion cryptography itself (key exchange, header MACs, layer and payload
//! encryption) is performed by a collaborator outside this crate. This module
//! fixes the sizes of the byte strings involved and the values that cross the
//! boundary: routes to build packets along, and the outcome of peeling a layer.

use arrayvec::ArrayVec;
use vstd::prelude::*;

verus! {

/// Maximum number of hops of a route.
pub const MAX_HOPS: usize = 6;

/// Size in bytes of a key-exchange public key.
pub const KX_PUBLIC_SIZE: usize = 32;

/// Size in bytes of a key-exchange secret key.
pub const KX_SECRET_SIZE: usize = 32;

/// Size in bytes of a peer identity.
pub const PEER_ID_SIZE: usize = 32;

/// Size in bytes of a MAC.
pub const MAC_SIZE: usize = 16;

/// Size in bytes of the encrypted routing actions in a header.
pub const ACTIONS_SIZE: usize = 156;

/// Size in bytes of a packet header: key-exchange public key, MAC and
/// actions.
pub const HEADER_SIZE: usize = 204;

/// Size in bytes of the data part of a payload.
pub const PAYLOAD_DATA_SIZE: usize = 2048;

/// Size in bytes of the integrity tag that follows the payload data.
pub const PAYLOAD_TAG_SIZE: usize = 16;

/// Size in bytes of a payload: data and tag.
pub const PAYLOAD_SIZE: usize = 2064;

/// Size in bytes of a packet: header and payload.
pub const PACKET_SIZE: usize = 2268;

/// Size in bytes of a mixnode index on the wire.
pub const RAW_MIXNODE_INDEX_SIZE: usize = 2;

/// Size in bytes of the payload encryption secret at the end of a SURB.
pub const SHARED_SECRET_SIZE: usize = 32;

/// Size in bytes of a single-use reply block: the index of the first
/// mixnode, a header and a payload encryption secret.
pub const SURB_SIZE: usize = 238;

/// Size in bytes of a SURB identifier.
pub const SURB_ID_SIZE: usize = 16;

/// Size in bytes of a cover packet identifier.
pub const COVER_ID_SIZE: usize = 16;

/// The largest mixnode index that can be encoded in a packet.
pub const MAX_MIXNODE_INDEX: RawMixnodeIndex = 0xfeff;

/// Number of fixed-point delay units that make up one mean forwarding delay.
pub const DELAY_UNITS_PER_MEAN: u64 = 65536;

/// A point in time or a span of time, in nanoseconds. Points in time are
/// measured from an epoch that the caller chooses and keeps.
pub type Nanos = u64;

pub type KxPublic = [u8; KX_PUBLIC_SIZE];

pub type KxSecret = [u8; KX_SECRET_SIZE];

pub type PeerId = [u8; PEER_ID_SIZE];

pub type Packet = [u8; PACKET_SIZE];

pub type Payload = [u8; PAYLOAD_SIZE];

pub type PayloadData = [u8; PAYLOAD_DATA_SIZE];

pub type Surb = [u8; SURB_SIZE];

pub type SurbId = [u8; SURB_ID_SIZE];

pub type CoverId = [u8; COVER_ID_SIZE];

pub type RawMixnodeIndex = u16;

/// Index of a mixnode in the roster of a session.
#[derive(Clone, Copy, Debug, PartialEq, Eq, Structural)]
pub struct MixnodeIndex {
    pub raw: RawMixnodeIndex,
}

impl MixnodeIndex {
    /// Whether the index can be encoded in a packet.
    pub open spec fn valid(self) -> bool {
        self.raw <= MAX_MIXNODE_INDEX
    }

    /// The index as a position in a roster.
    pub open spec fn position(self) -> int {
        self.raw as int
    }

    /// Returns the index with the given raw value, unless that value is above
    /// the largest index a packet can carry.
    pub fn new(raw: RawMixnodeIndex) -> (r: Option<MixnodeIndex>)
        ensures
            r == if raw <= MAX_MIXNODE_INDEX {
                Some(MixnodeIndex { raw })
            } else {
                None
            },
    {
        if raw <= MAX_MIXNODE_INDEX {
            Some(MixnodeIndex { raw })
        } else {
            None
        }
    }

    /// Returns the index for a roster position, unless the position is above
    /// the largest index a packet can carry.
    pub fn from_position(position: usize) -> (r: Option<MixnodeIndex>)
        ensures
            r == if position <= MAX_MIXNODE_INDEX {
                Some(MixnodeIndex { raw: position as RawMixnodeIndex })
            } else {
                None
            },
    {
        if position <= MAX_MIXNODE_INDEX as usize {
            Some(MixnodeIndex { raw: position as RawMixnodeIndex })
        } else {
            None
        }
    }

    pub fn get(self) -> (r: RawMixnodeIndex)
        ensures
            r == self.raw,
    {
        self.raw
    }
}

/// Where a hop sends a packet on to.
#[derive(Clone, Copy, Debug, PartialEq, Eq)]
pub enum Target {
    /// The mixnode with this index in the session's roster.
    MixnodeIndex(MixnodeIndex),
    /// The peer with this identity; used to reach nodes that are not mixnodes.
    PeerId(PeerId),
}

/// A forwarding delay, as a fixed-point multiple of the mean forwarding delay:
/// `units / DELAY_UNITS_PER_MEAN` times the mean.
#[derive(Clone, Copy, Debug, PartialEq, Eq, Structural)]
pub struct Delay {
    pub units: u64,
}

impl Delay {
    /// The sum of two delays, capped at the largest representable delay.
    pub open spec fn spec_saturating_add(self, other: Delay) -> Delay {
        Delay {
            units: if self.units + other.units > u64::MAX {
                u64::MAX
            } else {
                (self.units + other.units) as u64
            },
        }
    }

    /// The longer of two delays.
    pub open spec fn spec_max(self, other: Delay) -> Delay {
        if self.units >= other.units {
            self
        } else {
            other
        }
    }

    /// The delay as a span of time, for the given mean forwarding delay:
    /// rounded down to whole nanoseconds and capped at `u64::MAX`.
    pub open spec fn spec_to_duration(self, mean: Nanos) -> Nanos {
        let exact = (self.units as int * mean as int) / (DELAY_UNITS_PER_MEAN as int);
        if exact > u64::MAX {
            u64::MAX
        } else {
            exact as u64
        }
    }

    pub fn zero() -> (r: Delay)
        ensures
            r == (Delay { units: 0 }),
    {
        Delay { units: 0 }
    }

    pub fn saturating_add(self, other: Delay) -> (r: Delay)
        ensures
            r == self.spec_saturating_add(other),
    {
        Delay { units: self.units.saturating_add(other.units) }
    }

    pub fn max(self, other: Delay) -> (r: Delay)
        ensures
            r == self.spec_max(other),
    {
        if self.units >= other.units {
            self
        } else {
            other
        }
    }

    pub fn to_duration(self, mean: Nanos) -> (r: Nanos)
        ensures
            r == self.spec_to_duration(mean),
    {
        let units: u128 = self.units as u128;
        let mean_wide: u128 = mean as u128;
        assert(units * mean_wide <= 0xffff_ffff_ffff_ffff * 0xffff_ffff_ffff_ffff) by (nonlinear_arith)
            requires
                units <= 0xffff_ffff_ffff_ffff,
                mean_wide <= 0xffff_ffff_ffff_ffff,
        ;
        let exact: u128 = units * mean_wide / 65536;
        if exact > u64::MAX as u128 {
            u64::MAX
        } else {
            exact as u64
        }
    }
}

/// What the node is to do with a packet once its outermost layer is removed.
#[derive(Clone, Copy, Debug, PartialEq, Eq)]
pub enum Action {
    /// Send the peeled packet on to `target` after `delay`.
    ForwardTo { target: Target, delay: Delay },
    /// The payload is a fragment of a request addressed to this node.
    DeliverRequest,
    /// The payload is a fragment of a reply, encrypted with the keys that were
    /// stored under `surb_id` when the SURB was built.
    DeliverReply { surb_id: SurbId },
    /// The packet is cover traffic.
    DeliverCover { cover_id: Option<CoverId> },
}

/// Why peeling a layer off a packet failed.
#[derive(Clone, Copy, Debug, PartialEq, Eq, Structural)]
pub enum PeelErr {
    /// The header MAC did not match; the packet was most likely built for
    /// another key.
    Mac,
    /// The packet is malformed.
    Malformed,
}

/// One hop of a route: the key-exchange public key of the mixnode that peels
/// the layer, and where that mixnode sends the packet on to. The last hop of a
/// route sends the packet nowhere.
#[derive(Clone, Copy, Debug, PartialEq, Eq)]
pub struct Hop {
    pub kx_public: KxPublic,
    pub forward_to: Option<Target>,
}

/// `arrayvec::ArrayVec`: a vector with a fixed capacity. Nothing is known of
/// a value of it but what the functions below say.
#[verifier::external_type_specification]
#[verifier::external_body]
#[verifier::reject_recursive_types(T)]
pub struct ExArrayVec<T, const CAP: usize>(ArrayVec<T, CAP>);

/// What an `ArrayVec` of hops holds: its elements, in order.
pub uninterp spec fn hops_of(hops: ArrayVec<Hop, MAX_HOPS>) -> Seq<Hop>;

/// `ArrayVec::new`: a vector that holds nothing.
#[verifier::external_body]
pub(crate) fn hops_new() -> (r: ArrayVec<Hop, MAX_HOPS>)
    ensures
        hops_of(r) == Seq::<Hop>::empty(),
{
    ArrayVec::new()
}

/// `ArrayVec::push`: appends `hop`. The vector must not be full, as `push`
/// panics when it is.
#[verifier::external_body]
pub(crate) fn hops_push(hops: &mut ArrayVec<Hop, MAX_HOPS>, hop: Hop)
    requires
        hops_of(*old(hops)).len() < MAX_HOPS,
    ensures
        hops_of(*final(hops)) == hops_of(*old(hops)).push(hop),
{
    hops.push(hop)
}

/// `ArrayVec::as_slice`: a slice of all the elements held, in order.
#[verifier::external_body]
pub(crate) fn hops_as_slice(hops: &ArrayVec<Hop, MAX_HOPS>) -> (r: &[Hop])
    ensures
        r@ == hops_of(*hops),
{
    hops.as_slice()
}

/// A route through the mixnet: up to `MAX_HOPS` hops, and the roster index of
/// the first of them, to which the packet is handed.
#[derive(Debug, PartialEq, Eq)]
pub struct Route {
    pub first_hop: MixnodeIndex,
    pub hops: ArrayVec<Hop, MAX_HOPS>,
}

impl View for Route {
    type V = Seq<Hop>;

    open spec fn view(&self) -> Seq<Hop> {
        hops_of(self.hops)
    }
}

impl Route {
    /// Number of hops of the route.
    pub fn num_hops(&self) -> (r: usize)
        ensures
            r == self@.len(),
    {
        hops_as_slice(&self.hops).len()
    }

    /// The hop at position `i`, if the route is that long.
    pub fn hop(&self, i: usize) -> (r: Option<Hop>)
        ensures
            r == if i < self@.len() {
                Some(self@[i as int])
            } else {
                None
            },
    {
        let hops = hops_as_slice(&self.hops);
        if i < hops.len() {
            Some(hops[i])
        } else {
            None
        }
    }
}

/// The key-exchange public key at the start of a packet.
pub open spec fn spec_kx_public(packet: Packet) -> Seq<u8> {
    packet@.subrange(0, KX_PUBLIC_SIZE as int)
}

/// Returns the key-exchange public key at the start of `packet`.
pub fn kx_public(packet: &Packet) -> (r: KxPublic)
    ensures
        r@ == spec_kx_public(*packet),
{
    let mut r: KxPublic = [0u8; KX_PUBLIC_SIZE];
    let mut i: usize = 0;
    while i < KX_PUBLIC_SIZE
        invariant
            i <= KX_PUBLIC_SIZE,
            forall|j: int| 0 <= j < i ==> r[j] == packet[j],
        decreases KX_PUBLIC_SIZE - i,
    {
        r[i] = packet[i];
        i += 1;
    }
    assert(r@ =~= packet@.subrange(0, KX_PUBLIC_SIZE as int));
    r
}

/// The index of the first mixnode on the route of a SURB: the two bytes at
/// its start, low byte first, unless they are no mixnode index.
pub open spec fn spec_surb_first_hop(surb: Surb) -> Option<MixnodeIndex> {
    let raw = surb[0] + 256 * surb[1];
    if raw <= MAX_MIXNODE_INDEX {
        Some(MixnodeIndex { raw: raw as RawMixnodeIndex })
    } else {
        None
    }
}

/// Returns the index of the first mixnode on the route of a SURB, to which
/// the reply packet is to be sent. Returns `None` if the SURB names none.
pub fn surb_first_hop(surb: &Surb) -> (r: Option<MixnodeIndex>)
    ensures
        r == spec_surb_first_hop(*surb),
{
    let raw: u16 = surb[0] as u16 + 256 * (surb[1] as u16);
    MixnodeIndex::new(raw)
}

/// `len` bytes of zero.
pub open spec fn zeros(len: nat) -> Seq<u8> {
    Seq::new(len, |i: int| 0u8)
}

/// The bytes of a packet that holds a fragment in its payload data, and
/// zeroes in its header and in its payload tag.
pub open spec fn spec_plain_packet(fragment: Seq<u8>) -> Seq<u8> {
    zeros(HEADER_SIZE as nat) + fragment + zeros(PAYLOAD_TAG_SIZE as nat)
}

/// Returns a packet that holds `fragment` in its payload data, and zeroes in
/// its header and in its payload tag.
pub fn plain_packet(fragment: &PayloadData) -> (r: Packet)
    ensures
        r@ == spec_plain_packet(fragment@),
{
    let mut packet: Packet = [0u8; PACKET_SIZE];
    let mut i: usize = 0;
    while i < PAYLOAD_DATA_SIZE
        invariant
            i <= PAYLOAD_DATA_SIZE,
            forall|j: int| 0 <= j < HEADER_SIZE ==> packet[j] == 0,
            forall|j: int| 0 <= j < i ==> packet[HEADER_SIZE + j] == fragment[j],
            forall|j: int| HEADER_SIZE + i <= j < PACKET_SIZE ==> packet[j] == 0,
        decreases PAYLOAD_DATA_SIZE - i,
    {
        packet[HEADER_SIZE + i] = fragment[i];
        i += 1;
    }
    assert(packet@ =~= spec_plain_packet(fragment@));
    packet
}

/// Whether two byte strings of 32 bytes are the same.
pub fn same_bytes(a: &[u8; 32], b: &[u8; 32]) -> (r: bool)
    ensures
        r == (a@ == b@),
        r == (*a == *b),
{
    let mut i: usize = 0;
    while i < 32
        invariant
            i <= 32,
            forall|j: int| 0 <= j < i ==> a[j] == b[j],
        decreases 32 - i,
    {
        if a[i] != b[i] {
            return false;
        }
        i += 1;
    }
    assert(a@ =~= b@);
    assert(*a =~= *b);
    true
}

} // verus!
