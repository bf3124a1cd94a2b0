//! The mixnodes of a session, and the place of the local node among them.

use crate::random::sample_indices;
use crate::sphinx::{same_bytes, KxPublic, MixnodeIndex, PeerId, Target, MAX_MIXNODE_INDEX};
use vstd::prelude::*;

verus! {

/// A mixnode, as registered for a session.
#[derive(Debug, PartialEq, Eq)]
pub struct Mixnode {
    /// Key-exchange public key of the mixnode.
    pub kx_public: KxPublic,
    /// Identity of the mixnode on the network.
    pub peer_id: PeerId,
    /// Addresses at which the mixnode can be reached, each in its binary
    /// form. The core does not look inside them.
    pub addresses: Vec<Vec<u8>>,
}

/// What the core asks about the network.
pub trait NetworkStatus {
    /// Returns the identity of the local node on the network.
    fn local_peer_id(&self) -> PeerId;

    /// Returns whether the local node is connected to the peer.
    fn is_connected(&self, peer_id: &PeerId) -> bool;
}

/// Errors of the topology.
#[derive(Clone, Copy, Debug, PartialEq, Eq, Structural)]
pub enum TopologyErr {
    /// The roster has no mixnode with this index.
    BadMixnodeIndex(MixnodeIndex),
    /// There are too few mixnodes to choose from.
    TooFewMixnodes,
    /// The local node is not a mixnode, and is not connected to any gateway
    /// mixnode that it could use.
    NoConnectedGatewayMixnodes,
    /// No route with this number of hops can be built.
    BadNumHops(u32),
}

/// The place of the local node in a session.
pub enum LocalNode {
    /// The local node is the mixnode with this index.
    Mixnode(MixnodeIndex),
    /// The local node is not a mixnode, and enters and leaves the mixnet
    /// through the gateway mixnodes with these indices.
    NonMixnode(Vec<MixnodeIndex>),
}

/// The place of the local node in a session, with roster positions.
pub enum LocalView {
    Mixnode(int),
    NonMixnode(Seq<int>),
}

/// What a topology holds.
pub struct TopologyView {
    pub mixnodes: Seq<Mixnode>,
    pub local_kx_public: KxPublic,
    pub local: LocalView,
}

/// The first position in `mixnodes` of a mixnode with the given key-exchange
/// public key, if there is one.
pub open spec fn position_of_key(mixnodes: Seq<Mixnode>, kx_public: KxPublic) -> Option<int>
    decreases mixnodes.len(),
{
    if mixnodes.len() == 0 {
        None
    } else {
        match position_of_key(mixnodes.drop_last(), kx_public) {
            Some(i) => Some(i),
            None => if mixnodes.last().kx_public == kx_public {
                Some(mixnodes.len() - 1)
            } else {
                None
            },
        }
    }
}

/// Whether `indices` are distinct positions below `len`.
pub open spec fn distinct_positions(indices: Seq<int>, len: int) -> bool {
    &&& forall|i: int| 0 <= i < indices.len() ==> 0 <= #[trigger] indices[i] < len
    &&& forall|i: int, j: int| 0 <= i < j < indices.len() ==> indices[i] != indices[j]
}

impl TopologyView {
    /// The roster fits the range of mixnode indices, and the place of the
    /// local node is the one that its key gives it.
    pub open spec fn wf(self) -> bool {
        &&& self.mixnodes.len() <= MAX_MIXNODE_INDEX + 1
        &&& match self.local {
            LocalView::Mixnode(i) => position_of_key(self.mixnodes, self.local_kx_public) == Some(i)
                && 0 <= i < self.mixnodes.len(),
            LocalView::NonMixnode(gateways) => position_of_key(
                self.mixnodes,
                self.local_kx_public,
            ).is_none() && distinct_positions(gateways, self.mixnodes.len() as int),
        }
    }

    /// Whether the local node is a mixnode.
    pub open spec fn is_mixnode(self) -> bool {
        self.local is Mixnode
    }

    /// The peer that a target stands for.
    pub open spec fn target_to_peer_id(self, target: Target) -> Result<PeerId, TopologyErr> {
        match target {
            Target::MixnodeIndex(index) => self.mixnode_index_to_peer_id(index),
            Target::PeerId(peer_id) => Ok(peer_id),
        }
    }

    /// The peer that is the mixnode with the given index.
    pub open spec fn mixnode_index_to_peer_id(self, index: MixnodeIndex) -> Result<
        PeerId,
        TopologyErr,
    > {
        if index.raw < self.mixnodes.len() {
            Ok(self.mixnodes[index.raw as int].peer_id)
        } else {
            Err(TopologyErr::BadMixnodeIndex(index))
        }
    }

    /// Whether the local node keeps connections to the mixnode at
    /// `position`: as a mixnode to every other mixnode, else to its gateways.
    pub open spec fn reserves(self, position: int) -> bool {
        &&& 0 <= position < self.mixnodes.len()
        &&& match self.local {
            LocalView::Mixnode(i) => position != i,
            LocalView::NonMixnode(gateways) => gateways.contains(position),
        }
    }

    /// The addresses of the peers that the local node keeps connections to.
    pub open spec fn reserved_addresses(self) -> Set<Seq<u8>> {
        Set::new(
            |address: Seq<u8>|
                exists|i: int, j: int|
                    self.reserves(i) && 0 <= j < self.mixnodes[i].addresses@.len()
                        && #[trigger] self.mixnodes[i].addresses@[j]@ == address,
        )
    }
}

/// The positions that a list of mixnode indices stands for.
pub open spec fn positions(indices: Seq<MixnodeIndex>) -> Seq<int> {
    indices.map_values(|i: MixnodeIndex| i.raw as int)
}

pub proof fn lemma_position_of_key(mixnodes: Seq<Mixnode>, kx_public: KxPublic)
    ensures
        match position_of_key(mixnodes, kx_public) {
            Some(i) => 0 <= i < mixnodes.len() && mixnodes[i].kx_public == kx_public,
            None => forall|i: int| 0 <= i < mixnodes.len() ==> (#[trigger] mixnodes[i]).kx_public != kx_public,
        },
    decreases mixnodes.len(),
{
    if mixnodes.len() > 0 {
        lemma_position_of_key(mixnodes.drop_last(), kx_public);
        match position_of_key(mixnodes.drop_last(), kx_public) {
            Some(i) => {
                assert(mixnodes.drop_last()[i] == mixnodes[i]);
            },
            None => {
                if position_of_key(mixnodes, kx_public).is_none() {
                    assert forall|i: int| 0 <= i < mixnodes.len() implies (
                    #[trigger] mixnodes[i]).kx_public != kx_public by {
                        if i < mixnodes.len() - 1 {
                            assert(mixnodes.drop_last()[i] == mixnodes[i]);
                        }
                    }
                }
            },
        }
    }
}

/// Whether `address` occurs in `addresses`.
pub open spec fn lists(addresses: Seq<Vec<u8>>, address: Seq<u8>) -> bool {
    exists|k: int| 0 <= k < addresses.len() && (#[trigger] addresses[k])@ == address
}

/// Returns a copy of `bytes`.
pub fn copy_bytes(bytes: &Vec<u8>) -> (r: Vec<u8>)
    ensures
        r@ == bytes@,
{
    let mut copy: Vec<u8> = Vec::new();
    let mut i: usize = 0;
    while i < bytes.len()
        invariant
            i <= bytes@.len(),
            copy@ == bytes@.take(i as int),
        decreases bytes@.len() - i,
    {
        copy.push(bytes[i]);
        assert(bytes@.take(i + 1) =~= bytes@.take(i as int).push(bytes@[i as int]));
        i += 1;
    }
    assert(bytes@.take(bytes@.len() as int) =~= bytes@);
    copy
}

/// The mixnodes of a session, and the place of the local node among them.
pub struct Topology {
    mixnodes: Vec<Mixnode>,
    local_kx_public: KxPublic,
    local_node: LocalNode,
}

impl View for Topology {
    type V = TopologyView;

    closed spec fn view(&self) -> TopologyView {
        TopologyView {
            mixnodes: self.mixnodes@,
            local_kx_public: self.local_kx_public,
            local: match self.local_node {
                LocalNode::Mixnode(index) => LocalView::Mixnode(index.raw as int),
                LocalNode::NonMixnode(gateways) => LocalView::NonMixnode(positions(gateways@)),
            },
        }
    }
}

fn find_key(mixnodes: &Vec<Mixnode>, kx_public: &KxPublic) -> (r: Option<usize>)
    ensures
        match r {
            Some(i) => position_of_key(mixnodes@, *kx_public) == Some(i as int),
            None => position_of_key(mixnodes@, *kx_public).is_none(),
        },
{
    let mut i: usize = 0;
    while i < mixnodes.len()
        invariant
            i <= mixnodes@.len(),
            position_of_key(mixnodes@.take(i as int), *kx_public).is_none(),
        decreases mixnodes@.len() - i,
    {
        proof {
            assert(mixnodes@.take(i + 1).drop_last() =~= mixnodes@.take(i as int));
            assert(mixnodes@.take(i + 1).last() == mixnodes@[i as int]);
        }
        if same_bytes(&mixnodes[i].kx_public, kx_public) {
            proof {
                lemma_position_found(mixnodes@, *kx_public, i + 1);
            }
            return Some(i);
        }
        i += 1;
    }
    assert(mixnodes@.take(mixnodes@.len() as int) =~= mixnodes@);
    None
}

/// A position found in a front part of the roster is the position found in
/// the whole roster.
proof fn lemma_position_found(mixnodes: Seq<Mixnode>, kx_public: KxPublic, len: int)
    requires
        0 <= len <= mixnodes.len(),
        position_of_key(mixnodes.take(len), kx_public).is_some(),
    ensures
        position_of_key(mixnodes, kx_public) == position_of_key(mixnodes.take(len), kx_public),
    decreases mixnodes.len() - len,
{
    if len < mixnodes.len() {
        assert(mixnodes.take(len + 1).drop_last() =~= mixnodes.take(len));
        lemma_position_found(mixnodes, kx_public, len + 1);
    } else {
        assert(mixnodes.take(len) =~= mixnodes);
    }
}

impl Topology {
    /// Returns the topology of a session with the given mixnodes, for a local
    /// node with the given key-exchange public key. If the local node is not
    /// among the mixnodes, it gets `num_gateway_mixnodes` of them as its
    /// gateways, or all of them if they are fewer, chosen at random.
    pub fn new(mixnodes: Vec<Mixnode>, local_kx_public: &KxPublic, num_gateway_mixnodes: u32) -> (r:
        Topology)
        requires
            mixnodes@.len() <= MAX_MIXNODE_INDEX + 1,
        ensures
            r@.wf(),
            r@.mixnodes == mixnodes@,
            r@.local_kx_public == *local_kx_public,
            match position_of_key(mixnodes@, *local_kx_public) {
                Some(i) => r@.local == LocalView::Mixnode(i),
                None => r@.local is NonMixnode && r@.local->NonMixnode_0.len() == if mixnodes@.len()
                    < num_gateway_mixnodes {
                    mixnodes@.len()
                } else {
                    num_gateway_mixnodes as nat
                },
            },
    {
        let amount: usize = if mixnodes.len() < num_gateway_mixnodes as usize {
            mixnodes.len()
        } else {
            num_gateway_mixnodes as usize
        };
        let gateways = if find_key(&mixnodes, local_kx_public).is_none() {
            sample_indices(mixnodes.len(), amount)
        } else {
            Vec::new()
        };
        Topology::with_gateways(mixnodes, local_kx_public, &gateways)
    }

    /// Returns the topology of a session with the given mixnodes, for a local
    /// node with the given key-exchange public key. If the local node is not
    /// among the mixnodes, the mixnodes at the positions in `gateways` are
    /// its gateways.
    pub fn with_gateways(mixnodes: Vec<Mixnode>, local_kx_public: &KxPublic, gateways: &Vec<usize>) -> (r:
        Topology)
        requires
            mixnodes@.len() <= MAX_MIXNODE_INDEX + 1,
            position_of_key(mixnodes@, *local_kx_public).is_none() ==> distinct_positions(
                gateways@.map_values(|g: usize| g as int),
                mixnodes@.len() as int,
            ),
        ensures
            r@.wf(),
            r@.mixnodes == mixnodes@,
            r@.local_kx_public == *local_kx_public,
            r@.local == match position_of_key(mixnodes@, *local_kx_public) {
                Some(i) => LocalView::Mixnode(i),
                None => LocalView::NonMixnode(gateways@.map_values(|g: usize| g as int)),
            },
    {
        proof {
            lemma_position_of_key(mixnodes@, *local_kx_public);
        }
        let local_node = match find_key(&mixnodes, local_kx_public) {
            Some(i) => LocalNode::Mixnode(MixnodeIndex { raw: i as u16 }),
            None => {
                let mut indices: Vec<MixnodeIndex> = Vec::new();
                let mut k: usize = 0;
                while k < gateways.len()
                    invariant
                        k <= gateways@.len(),
                        mixnodes@.len() <= MAX_MIXNODE_INDEX + 1,
                        distinct_positions(
                            gateways@.map_values(|g: usize| g as int),
                            mixnodes@.len() as int,
                        ),
                        indices@.len() == k,
                        forall|j: int| 0 <= j < k ==> (#[trigger] indices@[j]).raw == gateways@[j],
                    decreases gateways@.len() - k,
                {
                    assert(gateways@.map_values(|g: usize| g as int)[k as int] == gateways@[k as int]);
                    indices.push(MixnodeIndex { raw: gateways[k] as u16 });
                    k += 1;
                }
                assert(positions(indices@) =~= gateways@.map_values(|g: usize| g as int));
                LocalNode::NonMixnode(indices)
            },
        };
        Topology { mixnodes, local_kx_public: *local_kx_public, local_node }
    }

    /// Returns whether the local node is a mixnode in the session.
    pub fn is_mixnode(&self) -> (r: bool)
        ensures
            r == self@.is_mixnode(),
    {
        match &self.local_node {
            LocalNode::Mixnode(_) => true,
            LocalNode::NonMixnode(_) => false,
        }
    }

    /// Returns the number of mixnodes in the roster.
    pub fn num_mixnodes(&self) -> (r: usize)
        ensures
            r == self@.mixnodes.len(),
    {
        self.mixnodes.len()
    }

    /// Returns the index of the local node, if it is a mixnode.
    pub fn local_index(&self) -> (r: Option<MixnodeIndex>)
        ensures
            match r {
                Some(index) => self@.local == LocalView::Mixnode(index.raw as int),
                None => !self@.is_mixnode(),
            },
    {
        match &self.local_node {
            LocalNode::Mixnode(index) => Some(*index),
            LocalNode::NonMixnode(_) => None,
        }
    }

    /// Returns the gateways of the local node; none if it is a mixnode.
    pub fn gateways(&self) -> (r: Vec<MixnodeIndex>)
        ensures
            match self@.local {
                LocalView::Mixnode(_) => r@.len() == 0,
                LocalView::NonMixnode(gateways) => positions(r@) == gateways,
            },
    {
        let mut copy: Vec<MixnodeIndex> = Vec::new();
        match &self.local_node {
            LocalNode::Mixnode(_) => {},
            LocalNode::NonMixnode(gateways) => {
                let mut i: usize = 0;
                while i < gateways.len()
                    invariant
                        i <= gateways@.len(),
                        copy@ == gateways@.take(i as int),
                    decreases gateways@.len() - i,
                {
                    copy.push(gateways[i]);
                    assert(gateways@.take(i + 1) =~= gateways@.take(i as int).push(gateways@[i as int]));
                    i += 1;
                }
                assert(gateways@.take(gateways@.len() as int) =~= gateways@);
            },
        }
        copy
    }

    /// Returns the key-exchange public key of the local node.
    pub fn local_kx_public(&self) -> (r: KxPublic)
        ensures
            r == self@.local_kx_public,
    {
        self.local_kx_public
    }

    /// Returns the key-exchange public key of the mixnode with the given
    /// index.
    pub fn mixnode_kx_public(&self, index: MixnodeIndex) -> (r: Result<KxPublic, TopologyErr>)
        ensures
            r == if index.raw < self@.mixnodes.len() {
                Ok::<KxPublic, TopologyErr>(self@.mixnodes[index.raw as int].kx_public)
            } else {
                Err(TopologyErr::BadMixnodeIndex(index))
            },
    {
        if (index.raw as usize) < self.mixnodes.len() {
            Ok(self.mixnodes[index.raw as usize].kx_public)
        } else {
            Err(TopologyErr::BadMixnodeIndex(index))
        }
    }

    /// Returns the peer that is the mixnode with the given index.
    pub fn mixnode_index_to_peer_id(&self, index: MixnodeIndex) -> (r: Result<PeerId, TopologyErr>)
        ensures
            r == self@.mixnode_index_to_peer_id(index),
    {
        if (index.raw as usize) < self.mixnodes.len() {
            Ok(self.mixnodes[index.raw as usize].peer_id)
        } else {
            Err(TopologyErr::BadMixnodeIndex(index))
        }
    }

    /// Returns the peer that a target stands for.
    pub fn target_to_peer_id(&self, target: &Target) -> (r: Result<PeerId, TopologyErr>)
        ensures
            r == self@.target_to_peer_id(*target),
    {
        match target {
            Target::MixnodeIndex(index) => self.mixnode_index_to_peer_id(*index),
            Target::PeerId(peer_id) => Ok(*peer_id),
        }
    }

    fn is_reserved(&self, position: usize) -> (r: bool)
        requires
            position < self@.mixnodes.len(),
        ensures
            r == self@.reserves(position as int),
    {
        match &self.local_node {
            LocalNode::Mixnode(index) => position != index.raw as usize,
            LocalNode::NonMixnode(gateways) => {
                let mut i: usize = 0;
                while i < gateways.len()
                    invariant
                        i <= gateways@.len(),
                        position < self@.mixnodes.len(),
                        self@.local == LocalView::NonMixnode(positions(gateways@)),
                        forall|j: int| 0 <= j < i ==> (#[trigger] gateways@[j]).raw != position,
                    decreases gateways@.len() - i,
                {
                    if gateways[i].raw as usize == position {
                        assert(positions(gateways@)[i as int] == position);
                        assert(positions(gateways@).contains(position as int));
                        return true;
                    }
                    i += 1;
                }
                assert(!positions(gateways@).contains(position as int)) by {
                    if positions(gateways@).contains(position as int) {
                        let j = choose|j: int|
                            0 <= j < positions(gateways@).len() && positions(gateways@)[j] == position;
                        assert(gateways@[j].raw == position);
                    }
                }
                false
            },
        }
    }

    /// Returns the addresses of the peers that the local node keeps
    /// connections to: the other mixnodes if it is a mixnode, else its
    /// gateways. An address may occur more than once.
    pub fn reserved_peer_addresses(&self) -> (r: Vec<Vec<u8>>)
        ensures
            forall|address: Seq<u8>|
                self@.reserved_addresses().contains(address) <==> lists(r@, address),
    {
        let mut addresses: Vec<Vec<u8>> = Vec::new();
        let mut i: usize = 0;
        while i < self.mixnodes.len()
            invariant
                i <= self.mixnodes@.len(),
                forall|k: int|
                    0 <= k < addresses@.len() ==> self@.reserved_addresses().contains(
                        (#[trigger] addresses@[k])@,
                    ),
                forall|a: int, b: int|
                    0 <= a < i && self@.reserves(a) && 0 <= b < self.mixnodes@[a].addresses@.len()
                        ==> lists(addresses@, (#[trigger] self.mixnodes@[a].addresses@[b])@),
            decreases self.mixnodes@.len() - i,
        {
            if self.is_reserved(i) {
                let mut j: usize = 0;
                while j < self.mixnodes[i].addresses.len()
                    invariant
                        i < self.mixnodes@.len(),
                        self@.reserves(i as int),
                        j <= self.mixnodes@[i as int].addresses@.len(),
                        forall|k: int|
                            0 <= k < addresses@.len() ==> self@.reserved_addresses().contains(
                                (#[trigger] addresses@[k])@,
                            ),
                        forall|a: int, b: int|
                            0 <= a < i && self@.reserves(a) && 0 <= b
                                < self.mixnodes@[a].addresses@.len() ==> lists(
                                addresses@,
                                (#[trigger] self.mixnodes@[a].addresses@[b])@,
                            ),
                        forall|b: int|
                            0 <= b < j ==> lists(
                                addresses@,
                                (#[trigger] self.mixnodes@[i as int].addresses@[b])@,
                            ),
                    decreases self.mixnodes@[i as int].addresses@.len() - j,
                {
                    let ghost before = addresses@;
                    let copy = copy_bytes(&self.mixnodes[i].addresses[j]);
                    addresses.push(copy);
                    proof {
                        assert(self@.mixnodes[i as int].addresses@[j as int]@ == copy@);
                        assert(addresses@[before.len() as int]@ == copy@);
                        assert forall|address: Seq<u8>| lists(before, address) implies lists(
                            addresses@,
                            address,
                        ) by {
                            let k = choose|k: int| 0 <= k < before.len() && (#[trigger] before[k])@ == address;
                            assert(addresses@[k] == before[k]);
                        }
                        assert forall|k: int| 0 <= k < addresses@.len() implies self@.reserved_addresses().contains(
                            (#[trigger] addresses@[k])@,
                        ) by {
                            if k < before.len() {
                                assert(addresses@[k] == before[k]);
                            }
                        }
                    }
                    j += 1;
                }
            }
            i += 1;
        }
        proof {
            assert forall|address: Seq<u8>|
                self@.reserved_addresses().contains(address) implies lists(addresses@, address) by {
                let (a, b) = choose|a: int, b: int|
                    self@.reserves(a) && 0 <= b < self@.mixnodes[a].addresses@.len()
                        && #[trigger] self@.mixnodes[a].addresses@[b]@ == address;
                assert(lists(addresses@, self.mixnodes@[a].addresses@[b]@));
            }
        }
        addresses
    }
}

} // verus!
