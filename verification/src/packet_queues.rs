//! Queues of packets waiting to leave the node.

use crate::sphinx::{Nanos, Packet, PeerId, Route, Surb};
use std::collections::VecDeque;
use vstd::prelude::*;

verus! {

/// A packet, and the peer it is to be sent to.
#[derive(Debug, PartialEq, Eq)]
pub struct AddressedPacket {
    pub peer_id: PeerId,
    pub packet: Box<Packet>,
}

/// A packet that was peeled here and waits for its forwarding deadline.
#[derive(Debug, PartialEq, Eq)]
pub struct ForwardPacket {
    /// When the packet is to be sent on.
    pub deadline: Nanos,
    pub packet: AddressedPacket,
}

/// Whether the deadlines in `packets` never decrease.
pub open spec fn sorted_by_deadline(packets: Seq<ForwardPacket>) -> bool {
    forall|i: int, j: int| 0 <= i <= j < packets.len() ==> packets[i].deadline <= packets[j].deadline
}

/// Whether `position` splits `packets` into those that are due no later than
/// `deadline`, in front, and those that are due later, behind.
pub open spec fn is_insert_position(packets: Seq<ForwardPacket>, deadline: Nanos, position: int) -> bool {
    &&& 0 <= position <= packets.len()
    &&& forall|i: int| 0 <= i < position ==> (#[trigger] packets[i]).deadline <= deadline
    &&& forall|i: int| position <= i < packets.len() ==> (#[trigger] packets[i]).deadline > deadline
}

/// The place of a new packet with the given deadline: behind every packet
/// that is due no later than it.
pub open spec fn insert_position(packets: Seq<ForwardPacket>, deadline: Nanos) -> int {
    choose|position: int| is_insert_position(packets, deadline, position)
}

/// The queue after `packet` has been inserted.
pub open spec fn spec_insert(packets: Seq<ForwardPacket>, packet: ForwardPacket) -> Seq<ForwardPacket> {
    packets.insert(insert_position(packets, packet.deadline), packet)
}

/// There is only one place where a packet with a given deadline can go.
pub proof fn lemma_insert_position_unique(packets: Seq<ForwardPacket>, deadline: Nanos, position: int)
    requires
        is_insert_position(packets, deadline, position),
    ensures
        insert_position(packets, deadline) == position,
{
    let chosen = insert_position(packets, deadline);
    assert(is_insert_position(packets, deadline, chosen));
    if chosen < position {
        assert(packets[chosen].deadline <= deadline);
        assert(packets[chosen].deadline > deadline);
    }
    if position < chosen {
        assert(packets[position].deadline <= deadline);
        assert(packets[position].deadline > deadline);
    }
}

/// Inserting into a sorted queue leaves it sorted.
pub proof fn lemma_insert_keeps_sorted(packets: Seq<ForwardPacket>, packet: ForwardPacket, position: int)
    requires
        sorted_by_deadline(packets),
        is_insert_position(packets, packet.deadline, position),
    ensures
        sorted_by_deadline(packets.insert(position, packet)),
{
    let after = packets.insert(position, packet);
    assert forall|i: int, j: int| 0 <= i <= j < after.len() implies after[i].deadline
        <= after[j].deadline by {
        if i < position {
            assert(after[i] == packets[i]);
        } else if i > position {
            assert(after[i] == packets[i - 1]);
        }
        if j < position {
            assert(after[j] == packets[j]);
        } else if j > position {
            assert(after[j] == packets[j - 1]);
        }
    }
}

/// The packets waiting to be forwarded, ordered by deadline. Packets with the
/// same deadline leave in the order in which they were inserted.
pub struct ForwardPacketQueue {
    capacity: usize,
    queue: VecDeque<ForwardPacket>,
}

impl View for ForwardPacketQueue {
    type V = Seq<ForwardPacket>;

    /// The queued packets, in the order in which they will leave.
    closed spec fn view(&self) -> Seq<ForwardPacket> {
        self.queue@
    }
}

impl ForwardPacketQueue {
    /// Maximum number of packets in the queue.
    pub closed spec fn spec_capacity(&self) -> nat {
        self.capacity as nat
    }

    /// The queue holds no more than its capacity, ordered by deadline.
    pub open spec fn wf(&self) -> bool {
        &&& self@.len() <= self.spec_capacity()
        &&& sorted_by_deadline(self@)
    }

    pub fn new(capacity: usize) -> (r: ForwardPacketQueue)
        ensures
            r.wf(),
            r@ == Seq::<ForwardPacket>::empty(),
            r.spec_capacity() == capacity,
    {
        ForwardPacketQueue { capacity, queue: VecDeque::new() }
    }

    /// Returns the deadline of the packet that leaves next, if there is one.
    pub fn next_deadline(&self) -> (r: Option<Nanos>)
        ensures
            r == if self@.len() > 0 {
                Some(self@[0].deadline)
            } else {
                None
            },
    {
        if self.queue.len() > 0 {
            Some(self.queue[0].deadline)
        } else {
            None
        }
    }

    /// Returns the number of packets that can still be inserted.
    pub fn remaining_capacity(&self) -> (r: usize)
        requires
            self.wf(),
        ensures
            r == self.spec_capacity() - self@.len(),
    {
        self.capacity - self.queue.len()
    }

    /// Returns the number of packets in the queue.
    pub fn len(&self) -> (r: usize)
        ensures
            r == self@.len(),
    {
        self.queue.len()
    }

    /// Inserts `packet` behind every packet that is due no later than it.
    /// Returns whether the deadline at the head of the queue changed.
    pub fn insert(&mut self, packet: ForwardPacket) -> (head_changed: bool)
        requires
            old(self).wf(),
            old(self)@.len() < old(self).spec_capacity(),
        ensures
            final(self).wf(),
            final(self).spec_capacity() == old(self).spec_capacity(),
            final(self)@ == spec_insert(old(self)@, packet),
            head_changed == (old(self)@.len() == 0 || packet.deadline < old(self)@[0].deadline),
    {
        let mut position: usize = 0;
        while position < self.queue.len() && self.queue[position].deadline <= packet.deadline
            invariant
                position <= self.queue@.len(),
                forall|i: int| 0 <= i < position ==> (#[trigger] self.queue@[i]).deadline <= packet.deadline,
            decreases self.queue@.len() - position,
        {
            position += 1;
        }
        proof {
            assert forall|i: int| position <= i < self.queue@.len() implies (
            #[trigger] self.queue@[i]).deadline > packet.deadline by {
                assert(self.queue@[position as int].deadline <= self.queue@[i].deadline);
            }
            lemma_insert_position_unique(self.queue@, packet.deadline, position as int);
            lemma_insert_keeps_sorted(self.queue@, packet, position as int);
        }
        self.queue.insert(position, packet);
        position == 0
    }

    /// Removes and returns the packet with the earliest deadline.
    pub fn pop(&mut self) -> (r: Option<ForwardPacket>)
        requires
            old(self).wf(),
        ensures
            final(self).wf(),
            final(self).spec_capacity() == old(self).spec_capacity(),
            r == if old(self)@.len() > 0 {
                Some(old(self)@[0])
            } else {
                None
            },
            final(self)@ == if old(self)@.len() > 0 {
                old(self)@.drop_first()
            } else {
                old(self)@
            },
    {
        let r = self.queue.pop_front();
        proof {
            if old(self)@.len() > 0 {
                assert(self.queue@ =~= old(self)@.drop_first());
            }
        }
        r
    }
}

/// A reply packet that still lacks its header and payload encryption, and the
/// SURB that supplies both.
#[derive(Debug, PartialEq, Eq)]
pub struct ReplyPacket {
    /// The peer that the completed packet is to be sent to.
    pub peer_id: PeerId,
    /// The packet, with the fragment in its payload data and zeroes elsewhere.
    pub packet: Box<Packet>,
    /// The SURB to complete the packet with.
    pub surb: Box<Surb>,
}

/// A cover packet that is still to be built.
#[derive(Debug, PartialEq, Eq)]
pub struct CoverPacket {
    /// The peer that the built packet is to be sent to.
    pub peer_id: PeerId,
    /// The route to build the packet along.
    pub route: Route,
}

/// A packet that the local node authors. Only a packet that needs no more
/// cryptographic work is ready to be sent as it is.
#[derive(Debug, PartialEq, Eq)]
pub enum AuthoredPacket {
    /// A packet that is ready to be sent.
    Built(AddressedPacket),
    /// A reply packet to be completed with its SURB, then sent.
    Reply(ReplyPacket),
    /// A cover packet to be built along its route, then sent.
    Cover(CoverPacket),
}

/// The packets that the local node authored for one session and has not sent
/// yet, oldest first.
pub struct AuthoredPacketQueue {
    capacity: usize,
    queue: VecDeque<AuthoredPacket>,
}

impl View for AuthoredPacketQueue {
    type V = Seq<AuthoredPacket>;

    /// The queued packets, oldest first.
    closed spec fn view(&self) -> Seq<AuthoredPacket> {
        self.queue@
    }
}

impl AuthoredPacketQueue {
    /// Maximum number of packets in the queue.
    pub closed spec fn spec_capacity(&self) -> nat {
        self.capacity as nat
    }

    /// The queue holds no more than its capacity.
    pub open spec fn wf(&self) -> bool {
        self@.len() <= self.spec_capacity()
    }

    pub fn new(capacity: usize) -> (r: AuthoredPacketQueue)
        ensures
            r.wf(),
            r@ == Seq::<AuthoredPacket>::empty(),
            r.spec_capacity() == capacity,
    {
        AuthoredPacketQueue { capacity, queue: VecDeque::new() }
    }

    /// Returns the number of packets that can still be pushed.
    pub fn remaining_capacity(&self) -> (r: usize)
        requires
            self.wf(),
        ensures
            r == self.spec_capacity() - self@.len(),
    {
        self.capacity - self.queue.len()
    }

    /// Returns the number of packets in the queue.
    pub fn len(&self) -> (r: usize)
        ensures
            r == self@.len(),
    {
        self.queue.len()
    }

    /// Appends `packet` to the queue.
    pub fn push(&mut self, packet: AuthoredPacket)
        requires
            old(self).wf(),
            old(self)@.len() < old(self).spec_capacity(),
        ensures
            final(self).wf(),
            final(self).spec_capacity() == old(self).spec_capacity(),
            final(self)@ == old(self)@.push(packet),
    {
        self.queue.push_back(packet);
    }

    /// Removes and returns the oldest packet.
    pub fn pop(&mut self) -> (r: Option<AuthoredPacket>)
        requires
            old(self).wf(),
        ensures
            final(self).wf(),
            final(self).spec_capacity() == old(self).spec_capacity(),
            r == if old(self)@.len() > 0 {
                Some(old(self)@[0])
            } else {
                None
            },
            final(self)@ == if old(self)@.len() > 0 {
                old(self)@.drop_first()
            } else {
                old(self)@
            },
    {
        let r = self.queue.pop_front();
        proof {
            if old(self)@.len() > 0 {
                assert(self.queue@ =~= old(self)@.drop_first());
            }
        }
        r
    }
}

} // verus!
