//! Flags that tell the caller which of the things it asked for earlier may
//! no longer hold.

use vstd::prelude::*;

verus! {

/// Bit of the flag for the reserved peers.
pub const RESERVED_PEERS_BIT: u32 = 0b001;

/// Bit of the flag for the next forward packet deadline.
pub const NEXT_FORWARD_PACKET_DEADLINE_BIT: u32 = 0b010;

/// Bit of the flag for the next authored packet deadline.
pub const NEXT_AUTHORED_PACKET_DEADLINE_BIT: u32 = 0b100;

/// All the bits that are flags.
pub const ALL_BITS: u32 = 0b111;

/// A set of flags, each of which says that something the caller queried
/// earlier is no longer valid.
#[derive(Clone, Copy, Debug, PartialEq, Eq, Structural)]
pub struct Invalidated {
    pub bits: u32,
}

impl Invalidated {
    /// No flag.
    pub open spec fn spec_empty() -> Invalidated {
        Invalidated { bits: 0 }
    }

    /// The peers returned by `reserved_peer_addresses`.
    pub open spec fn spec_reserved_peers() -> Invalidated {
        Invalidated { bits: RESERVED_PEERS_BIT }
    }

    /// The deadline returned by `next_forward_packet_deadline`.
    pub open spec fn spec_next_forward_packet_deadline() -> Invalidated {
        Invalidated { bits: NEXT_FORWARD_PACKET_DEADLINE_BIT }
    }

    /// The deadline that follows from the delay returned by
    /// `next_authored_packet_delay`. The delay is drawn anew at each call,
    /// but the last deadline stays valid until this flag is raised. As the
    /// delays are memoryless, raising the flag without need does no harm.
    pub open spec fn spec_next_authored_packet_deadline() -> Invalidated {
        Invalidated { bits: NEXT_AUTHORED_PACKET_DEADLINE_BIT }
    }

    /// The flags of `self` and those of `other`.
    pub open spec fn spec_union(self, other: Invalidated) -> Invalidated {
        Invalidated { bits: self.bits | other.bits }
    }

    /// Whether every flag of `other` is a flag of `self`.
    pub open spec fn spec_contains(self, other: Invalidated) -> bool {
        self.bits & other.bits == other.bits
    }

    /// The flags raised by a change of the sessions: the reserved peers and
    /// the next authored packet deadline.
    pub open spec fn spec_sessions_changed() -> Invalidated {
        Invalidated { bits: RESERVED_PEERS_BIT | NEXT_AUTHORED_PACKET_DEADLINE_BIT }
    }

    pub fn empty() -> (r: Invalidated)
        ensures
            r == Invalidated::spec_empty(),
    {
        Invalidated { bits: 0 }
    }

    pub fn reserved_peers() -> (r: Invalidated)
        ensures
            r == Invalidated::spec_reserved_peers(),
    {
        Invalidated { bits: RESERVED_PEERS_BIT }
    }

    pub fn next_forward_packet_deadline() -> (r: Invalidated)
        ensures
            r == Invalidated::spec_next_forward_packet_deadline(),
    {
        Invalidated { bits: NEXT_FORWARD_PACKET_DEADLINE_BIT }
    }

    pub fn next_authored_packet_deadline() -> (r: Invalidated)
        ensures
            r == Invalidated::spec_next_authored_packet_deadline(),
    {
        Invalidated { bits: NEXT_AUTHORED_PACKET_DEADLINE_BIT }
    }

    pub fn sessions_changed() -> (r: Invalidated)
        ensures
            r == Invalidated::spec_sessions_changed(),
    {
        Invalidated { bits: RESERVED_PEERS_BIT | NEXT_AUTHORED_PACKET_DEADLINE_BIT }
    }

    /// Returns the flags with the given bits; bits that are no flags are
    /// dropped.
    pub fn from_bits_truncate(bits: u32) -> (r: Invalidated)
        ensures
            r.bits == bits & ALL_BITS,
    {
        Invalidated { bits: bits & ALL_BITS }
    }

    pub fn bits(self) -> (r: u32)
        ensures
            r == self.bits,
    {
        self.bits
    }

    pub fn is_empty(self) -> (r: bool)
        ensures
            r == (self.bits == 0),
    {
        self.bits == 0
    }

    pub fn union(self, other: Invalidated) -> (r: Invalidated)
        ensures
            r == self.spec_union(other),
    {
        Invalidated { bits: self.bits | other.bits }
    }

    pub fn contains(self, other: Invalidated) -> (r: bool)
        ensures
            r == self.spec_contains(other),
    {
        self.bits & other.bits == other.bits
    }
}

/// A union contains both of its parts, and whatever either part contains.
pub proof fn lemma_union_contains(a: Invalidated, b: Invalidated, c: Invalidated)
    ensures
        a.spec_union(b).spec_contains(a),
        a.spec_union(b).spec_contains(b),
        a.spec_contains(c) || b.spec_contains(c) ==> a.spec_union(b).spec_contains(c),
{
    let x = a.bits;
    let y = b.bits;
    let z = c.bits;
    assert((x | y) & x == x) by (bit_vector);
    assert((x | y) & y == y) by (bit_vector);
    assert(x & z == z ==> (x | y) & z == z) by (bit_vector);
    assert(y & z == z ==> (x | y) & z == z) by (bit_vector);
}

/// The flags raised by a change of the sessions are the two that their name
/// says.
pub proof fn lemma_sessions_changed()
    ensures
        Invalidated::spec_sessions_changed().spec_contains(Invalidated::spec_reserved_peers()),
        Invalidated::spec_sessions_changed().spec_contains(
            Invalidated::spec_next_authored_packet_deadline(),
        ),
        Invalidated::spec_sessions_changed() == Invalidated::spec_reserved_peers().spec_union(
            Invalidated::spec_next_authored_packet_deadline(),
        ),
{
    assert((0b001u32 | 0b100u32) & 0b001u32 == 0b001u32) by (bit_vector);
    assert((0b001u32 | 0b100u32) & 0b100u32 == 0b100u32) by (bit_vector);
}

} // verus!
