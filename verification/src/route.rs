//! Generation of random routes through the mixnodes of a session.
//!
//! A route is built hop by hop, from a list of random draws, one for each
//! hop. A hop that is not fixed by the kind of the route is picked among the
//! mixnodes that differ from the hop before it and from a fixed hop after it,
//! so that no packet is ever forwarded from a mixnode to itself.

use crate::random::random_u64_below;
use crate::sphinx::{hops_new, hops_push, Hop, KxPublic, MixnodeIndex, PeerId, Route, Target, MAX_HOPS};
use crate::topology::{LocalView, NetworkStatus, Topology, TopologyErr, TopologyView};
use vstd::prelude::*;

verus! {

/// What a route is for.
#[derive(Clone, Copy, Debug, PartialEq, Eq, Structural)]
pub enum RouteKind {
    /// From the local node to the mixnode with this index.
    ToMixnode(MixnodeIndex),
    /// From the mixnode with this index back to the local node.
    FromMixnode(MixnodeIndex),
    /// From the local node back to itself.
    Loop,
}

/// A node on a route.
#[derive(Clone, Copy, Debug, PartialEq, Eq, Structural)]
pub enum RouteNode {
    /// The mixnode with this index.
    Mixnode(MixnodeIndex),
    /// The local node, which is not a mixnode.
    Local,
}

/// How the node at one position of a route is determined.
#[derive(Clone, Copy, Debug, PartialEq, Eq, Structural)]
pub enum Role {
    /// The kind of the route fixes the node.
    Fixed(MixnodeIndex),
    /// One of the connected gateways of the local node.
    Gateway,
    /// Any mixnode.
    Random,
    /// The local node, which is not a mixnode.
    Local,
}

/// The role of position `p` on a route of `k` hops.
pub open spec fn spec_role(local: LocalView, kind: RouteKind, k: int, p: int) -> Role {
    match local {
        LocalView::Mixnode(l) => if p == k - 1 {
            match kind {
                RouteKind::ToMixnode(d) => Role::Fixed(d),
                _ => Role::Fixed(MixnodeIndex { raw: l as u16 }),
            }
        } else {
            Role::Random
        },
        LocalView::NonMixnode(_) => if p == k - 1 {
            match kind {
                RouteKind::ToMixnode(d) => Role::Fixed(d),
                _ => Role::Local,
            }
        } else if p == k - 2 && !(kind is ToMixnode) {
            Role::Gateway
        } else if p == 0 && !(kind is FromMixnode) {
            Role::Gateway
        } else {
            Role::Random
        },
    }
}

/// The mixnode that hands the packet to the first hop, if it is a mixnode.
pub open spec fn spec_source(local: LocalView, kind: RouteKind) -> Option<int> {
    match kind {
        RouteKind::FromMixnode(s) => Some(s.raw as int),
        _ => match local {
            LocalView::Mixnode(l) => Some(l),
            LocalView::NonMixnode(_) => None,
        },
    }
}

/// The roster position of a node, if it is a mixnode.
pub open spec fn node_position(node: RouteNode) -> Option<int> {
    match node {
        RouteNode::Mixnode(i) => Some(i.raw as int),
        RouteNode::Local => None,
    }
}

/// The mixnode that the role of position `p + 1` fixes, if it fixes one.
pub open spec fn spec_next_fixed(local: LocalView, kind: RouteKind, k: int, p: int) -> Option<int> {
    if p + 1 < k {
        match spec_role(local, kind, k, p + 1) {
            Role::Fixed(i) => Some(i.raw as int),
            _ => None,
        }
    } else {
        None
    }
}

/// `x` if it is a position below `n`, else `n`.
pub open spec fn in_range_or(x: Option<int>, n: int) -> int {
    match x {
        Some(v) => if 0 <= v < n {
            v
        } else {
            n
        },
        None => n,
    }
}

/// The smaller of the two excluded positions, or `n` if nothing is excluded.
pub open spec fn excluded_low(n: int, a: Option<int>, b: Option<int>) -> int {
    if in_range_or(a, n) <= in_range_or(b, n) {
        in_range_or(a, n)
    } else {
        in_range_or(b, n)
    }
}

/// The larger of the two excluded positions, or `n` if at most one position
/// is excluded.
pub open spec fn excluded_high(n: int, a: Option<int>, b: Option<int>) -> int {
    if in_range_or(a, n) == in_range_or(b, n) {
        n
    } else if in_range_or(a, n) <= in_range_or(b, n) {
        in_range_or(b, n)
    } else {
        in_range_or(a, n)
    }
}

/// Number of positions below `n` other than `a` and `b`.
pub open spec fn num_candidates(n: int, a: Option<int>, b: Option<int>) -> int {
    n - (if excluded_low(n, a, b) < n {
        1int
    } else {
        0int
    }) - (if excluded_high(n, a, b) < n {
        1int
    } else {
        0int
    })
}

/// The position below `n`, other than `a` and `b`, that `draw` selects: the
/// candidates are counted in rising order, and the draw is reduced modulo
/// their number. `None` if there is no candidate.
pub open spec fn spec_pick_except(draw: u64, n: int, a: Option<int>, b: Option<int>) -> Option<int> {
    let count = num_candidates(n, a, b);
    if count <= 0 {
        None
    } else {
        let t = draw as int % count;
        let t1 = if t >= excluded_low(n, a, b) {
            t + 1
        } else {
            t
        };
        let t2 = if t1 >= excluded_high(n, a, b) {
            t1 + 1
        } else {
            t1
        };
        Some(t2)
    }
}

/// The selected position is a candidate.
pub proof fn lemma_pick_except(draw: u64, n: int, a: Option<int>, b: Option<int>)
    requires
        0 <= n,
    ensures
        match spec_pick_except(draw, n, a, b) {
            Some(x) => 0 <= x < n && a != Some(x) && b != Some(x),
            None => n <= 2,
        },
{
}

/// The positions in `gateways` other than `a` and `b`, in their order.
pub open spec fn eligible(gateways: Seq<int>, a: Option<int>, b: Option<int>) -> Seq<int>
    decreases gateways.len(),
{
    if gateways.len() == 0 {
        gateways
    } else if a != Some(gateways.last()) && b != Some(gateways.last()) {
        eligible(gateways.drop_last(), a, b).push(gateways.last())
    } else {
        eligible(gateways.drop_last(), a, b)
    }
}

/// The gateway, other than `a` and `b`, that `draw` selects. `None` if there
/// is no such gateway.
pub open spec fn spec_pick_gateway(gateways: Seq<int>, draw: u64, a: Option<int>, b: Option<int>) -> Option<int> {
    let candidates = eligible(gateways, a, b);
    if candidates.len() == 0 {
        None
    } else {
        Some(candidates[draw as int % candidates.len() as int])
    }
}

/// Every eligible gateway is a gateway other than `a` and `b`.
pub proof fn lemma_eligible(gateways: Seq<int>, a: Option<int>, b: Option<int>)
    ensures
        forall|i: int|
            0 <= i < eligible(gateways, a, b).len() ==> {
                &&& gateways.contains(#[trigger] eligible(gateways, a, b)[i])
                &&& a != Some(eligible(gateways, a, b)[i])
                &&& b != Some(eligible(gateways, a, b)[i])
            },
    decreases gateways.len(),
{
    if gateways.len() > 0 {
        let front = gateways.drop_last();
        lemma_eligible(front, a, b);
        let kept = eligible(gateways, a, b);
        let kept_front = eligible(front, a, b);
        assert forall|i: int| 0 <= i < kept.len() implies {
            &&& gateways.contains(#[trigger] kept[i])
            &&& a != Some(kept[i])
            &&& b != Some(kept[i])
        } by {
            if i < kept_front.len() {
                assert(kept[i] == kept_front[i]);
                let j = choose|j: int| 0 <= j < front.len() && front[j] == kept_front[i];
                assert(gateways[j] == kept[i]);
            } else {
                assert(gateways[gateways.len() - 1] == kept[i]);
            }
        }
    }
}

/// The node at position `p` of a route, given the position `prev` of the
/// node before it and the draw for this position.
pub open spec fn spec_node(
    topology: TopologyView,
    gateways: Seq<int>,
    kind: RouteKind,
    k: int,
    draw: u64,
    p: int,
    prev: Option<int>,
) -> Result<RouteNode, TopologyErr> {
    let n = topology.mixnodes.len() as int;
    let next = spec_next_fixed(topology.local, kind, k, p);
    match spec_role(topology.local, kind, k, p) {
        Role::Fixed(i) => if i.raw < n {
            Ok(RouteNode::Mixnode(i))
        } else {
            Err(TopologyErr::BadMixnodeIndex(i))
        },
        Role::Local => Ok(RouteNode::Local),
        Role::Random => match spec_pick_except(draw, n, prev, next) {
            Some(x) => Ok(RouteNode::Mixnode(MixnodeIndex { raw: x as u16 })),
            None => Err(TopologyErr::TooFewMixnodes),
        },
        Role::Gateway => match spec_pick_gateway(gateways, draw, prev, next) {
            Some(x) => Ok(RouteNode::Mixnode(MixnodeIndex { raw: x as u16 })),
            None => Err(TopologyErr::NoConnectedGatewayMixnodes),
        },
    }
}

/// The nodes of a route of `k` hops that starts with the nodes `nodes`, the
/// last of which, or else the source of the route, is at position `prev`.
pub open spec fn spec_nodes_from(
    topology: TopologyView,
    gateways: Seq<int>,
    kind: RouteKind,
    k: int,
    draws: Seq<u64>,
    nodes: Seq<RouteNode>,
    prev: Option<int>,
) -> Result<Seq<RouteNode>, TopologyErr>
    decreases k - nodes.len(),
{
    let p = nodes.len() as int;
    if p >= k {
        Ok(nodes)
    } else {
        match spec_node(topology, gateways, kind, k, draws[p], p, prev) {
            Err(e) => Err(e),
            Ok(node) => spec_nodes_from(
                topology,
                gateways,
                kind,
                k,
                draws,
                nodes.push(node),
                node_position(node),
            ),
        }
    }
}

/// Whether a route of `num_hops` hops can be built at all: a node that is
/// not a mixnode needs a gateway beside the far end.
pub open spec fn valid_num_hops(local: LocalView, num_hops: u32) -> bool {
    &&& 1 <= num_hops <= MAX_HOPS
    &&& local is NonMixnode ==> 2 <= num_hops
}

/// The hop at position `p` of a route through `nodes`.
pub open spec fn spec_hop(topology: TopologyView, local_peer_id: PeerId, nodes: Seq<RouteNode>, p: int) -> Hop {
    Hop {
        kx_public: match nodes[p] {
            RouteNode::Mixnode(i) => topology.mixnodes[i.raw as int].kx_public,
            RouteNode::Local => topology.local_kx_public,
        },
        forward_to: if p + 1 < nodes.len() {
            Some(
                match nodes[p + 1] {
                    RouteNode::Mixnode(i) => Target::MixnodeIndex(i),
                    RouteNode::Local => Target::PeerId(local_peer_id),
                },
            )
        } else {
            None
        },
    }
}

/// The hops of a route through `nodes`.
pub open spec fn spec_hops(topology: TopologyView, local_peer_id: PeerId, nodes: Seq<RouteNode>) -> Seq<Hop> {
    Seq::new(nodes.len(), |p: int| spec_hop(topology, local_peer_id, nodes, p))
}

/// A route: its first hop and its hops.
pub struct RouteView {
    pub first_hop: MixnodeIndex,
    pub hops: Seq<Hop>,
}

/// The index of the mixnode that a node is, or index zero for the local node.
pub open spec fn node_index(node: RouteNode) -> MixnodeIndex {
    match node {
        RouteNode::Mixnode(i) => i,
        RouteNode::Local => MixnodeIndex { raw: 0 },
    }
}

/// The route of `num_hops` hops of the given kind that `draws` selects.
pub open spec fn spec_gen_route(
    topology: TopologyView,
    gateways: Seq<int>,
    local_peer_id: PeerId,
    kind: RouteKind,
    num_hops: u32,
    draws: Seq<u64>,
) -> Result<RouteView, TopologyErr> {
    if !valid_num_hops(topology.local, num_hops) {
        Err(TopologyErr::BadNumHops(num_hops))
    } else {
        match spec_route_nodes(topology, gateways, kind, num_hops, draws) {
            Err(e) => Err(e),
            Ok(nodes) => Ok(
                RouteView {
                    first_hop: node_index(nodes[0]),
                    hops: spec_hops(topology, local_peer_id, nodes),
                },
            ),
        }
    }
}

/// The destination that `draw` selects: any mixnode but the local node.
pub open spec fn spec_choose_destination(topology: TopologyView, draw: u64) -> Result<
    MixnodeIndex,
    TopologyErr,
> {
    let exclude = match topology.local {
        LocalView::Mixnode(l) => Some(l),
        LocalView::NonMixnode(_) => None,
    };
    match spec_pick_except(draw, topology.mixnodes.len() as int, exclude, None) {
        Some(x) => Ok(MixnodeIndex { raw: x as u16 }),
        None => Err(TopologyErr::TooFewMixnodes),
    }
}

fn option_position(x: Option<usize>, n: usize) -> (r: usize)
    ensures
        r == in_range_or(
            match x {
                Some(v) => Some(v as int),
                None => None,
            },
            n as int,
        ),
{
    match x {
        Some(v) => if v < n {
            v
        } else {
            n
        },
        None => n,
    }
}

/// The position of `x` as a spec value.
pub open spec fn as_position(x: Option<usize>) -> Option<int> {
    match x {
        Some(v) => Some(v as int),
        None => None,
    }
}

/// Returns the position below `n`, other than `a` and `b`, that `draw`
/// selects.
pub fn pick_except(draw: u64, n: usize, a: Option<usize>, b: Option<usize>) -> (r: Option<usize>)
    ensures
        as_position(r) == spec_pick_except(draw, n as int, as_position(a), as_position(b)),
{
    let x = option_position(a, n);
    let y = option_position(b, n);
    let low: usize = if x <= y {
        x
    } else {
        y
    };
    let high: usize = if x == y {
        n
    } else if x <= y {
        y
    } else {
        x
    };
    let mut count: usize = n;
    if low < n {
        count = count - 1;
    }
    if high < n {
        count = count - 1;
    }
    if count == 0 {
        return None;
    }
    let t: usize = (draw % (count as u64)) as usize;
    let t1: usize = if t >= low {
        t + 1
    } else {
        t
    };
    let t2: usize = if t1 >= high {
        t1 + 1
    } else {
        t1
    };
    Some(t2)
}

/// Returns the gateway, other than `a` and `b`, that `draw` selects.
pub fn pick_gateway(gateways: &Vec<MixnodeIndex>, draw: u64, a: Option<usize>, b: Option<usize>) -> (r:
    Option<usize>)
    ensures
        as_position(r) == spec_pick_gateway(
            crate::topology::positions(gateways@),
            draw,
            as_position(a),
            as_position(b),
        ),
{
    let ghost all = crate::topology::positions(gateways@);
    let mut candidates: Vec<usize> = Vec::new();
    let mut i: usize = 0;
    while i < gateways.len()
        invariant
            i <= gateways@.len(),
            all == crate::topology::positions(gateways@),
            candidates@.map_values(|c: usize| c as int) == eligible(
                all.take(i as int),
                as_position(a),
                as_position(b),
            ),
        decreases gateways@.len() - i,
    {
        proof {
            assert(all.take(i + 1).drop_last() =~= all.take(i as int));
            assert(all.take(i + 1).last() == gateways@[i as int].raw as int);
        }
        let g: usize = gateways[i].raw as usize;
        let excluded_a = match a {
            Some(v) => v == g,
            None => false,
        };
        let excluded_b = match b {
            Some(v) => v == g,
            None => false,
        };
        if !excluded_a && !excluded_b {
            let ghost before = candidates@;
            candidates.push(g);
            assert(candidates@.map_values(|c: usize| c as int) =~= before.map_values(
                |c: usize| c as int,
            ).push(g as int));
        }
        i += 1;
    }
    proof {
        assert(all.take(all.len() as int) =~= all);
    }
    if candidates.len() == 0 {
        return None;
    }
    let t: usize = (draw % (candidates.len() as u64)) as usize;
    assert(candidates@.map_values(|c: usize| c as int)[t as int] == candidates@[t as int]);
    Some(candidates[t])
}

/// Whether `gateways` are gateways of the local node: positions in the
/// roster that the topology gives to a local node that is not a mixnode.
pub open spec fn connected_within(topology: TopologyView, gateways: Seq<int>) -> bool {
    forall|i: int|
        0 <= i < gateways.len() ==> 0 <= #[trigger] gateways[i] < topology.mixnodes.len()
            && topology.local is NonMixnode && topology.local->NonMixnode_0.contains(gateways[i])
}

/// Whether the outcome of a route generation is the expected one.
pub open spec fn route_matches(r: Result<Route, TopologyErr>, expected: Result<RouteView, TopologyErr>) -> bool {
    match expected {
        Ok(view) => r is Ok && r->Ok_0.first_hop == view.first_hop && r->Ok_0@ == view.hops,
        Err(e) => r is Err && r->Err_0 == e,
    }
}

/// Generates routes through the mixnodes of a session.
pub struct RouteGenerator<'a> {
    /// The topology of the session.
    pub topology: &'a Topology,
    /// The identity of the local node on the network.
    pub local_peer_id: PeerId,
    /// The gateways that the local node is connected to; none if the local
    /// node is a mixnode.
    pub connected_gateways: Vec<MixnodeIndex>,
}

impl<'a> RouteGenerator<'a> {
    /// The roster positions of the connected gateways.
    pub open spec fn connected(&self) -> Seq<int> {
        crate::topology::positions(self.connected_gateways@)
    }

    /// The topology is well-formed and the connected gateways are gateways
    /// of the local node.
    pub open spec fn wf(&self) -> bool {
        &&& self.topology@.wf()
        &&& connected_within(self.topology@, self.connected())
    }

    /// Returns a route generator for the topology, which asks `ns` which of
    /// the gateways of the local node are connected.
    pub fn new<N: NetworkStatus>(topology: &'a Topology, ns: &N) -> (r: RouteGenerator<'a>)
        requires
            topology@.wf(),
        ensures
            r.wf(),
            r.topology == topology,
            connected_within(topology@, r.connected()),
    {
        let gateways = topology.gateways();
        let mut flags: Vec<bool> = Vec::new();
        let mut i: usize = 0;
        while i < gateways.len()
            invariant
                i <= gateways@.len(),
                flags@.len() == i,
            decreases gateways@.len() - i,
        {
            let connected = match topology.mixnode_index_to_peer_id(gateways[i]) {
                Ok(peer_id) => ns.is_connected(&peer_id),
                Err(_) => false,
            };
            flags.push(connected);
            i += 1;
        }
        RouteGenerator::from_status(topology, ns.local_peer_id(), &flags)
    }

    /// Returns a route generator for the topology and a local node with the
    /// given identity. `connected` says of each gateway of the local node, in
    /// the order of the topology, whether the local node is connected to it;
    /// a gateway that it does not reach counts as not connected.
    pub fn from_status(topology: &'a Topology, local_peer_id: PeerId, connected: &Vec<bool>) -> (r:
        RouteGenerator<'a>)
        requires
            topology@.wf(),
        ensures
            r.wf(),
            r.topology == topology,
            r.local_peer_id == local_peer_id,
            r.connected() == spec_connected(
                match topology@.local {
                    LocalView::Mixnode(_) => Seq::empty(),
                    LocalView::NonMixnode(gateways) => gateways,
                },
                connected@,
            ),
            connected_within(topology@, r.connected()),
    {
        let gateways = topology.gateways();
        let ghost all = crate::topology::positions(gateways@);
        let mut kept: Vec<MixnodeIndex> = Vec::new();
        let mut i: usize = 0;
        while i < gateways.len()
            invariant
                i <= gateways@.len(),
                all == crate::topology::positions(gateways@),
                crate::topology::positions(kept@) == spec_connected(all.take(i as int), connected@),
            decreases gateways@.len() - i,
        {
            proof {
                assert(all.take(i + 1).drop_last() =~= all.take(i as int));
                assert(all.take(i + 1).last() == gateways@[i as int].raw as int);
            }
            if i < connected.len() && connected[i] {
                let ghost before = kept@;
                kept.push(gateways[i]);
                assert(crate::topology::positions(kept@) =~= crate::topology::positions(before).push(
                    gateways@[i as int].raw as int,
                ));
            }
            i += 1;
        }
        proof {
            assert(all.take(all.len() as int) =~= all);
            lemma_connected(all, connected@);
            match topology@.local {
                LocalView::Mixnode(_) => {
                    assert(all =~= Seq::<int>::empty());
                },
                LocalView::NonMixnode(g) => {},
            }
        }
        RouteGenerator { topology, local_peer_id, connected_gateways: kept }
    }

    /// Returns the destination that `draw` selects: any mixnode but the
    /// local node.
    pub fn choose_destination_index_from(&self, draw: u64) -> (r: Result<MixnodeIndex, TopologyErr>)
        requires
            self.wf(),
        ensures
            r == spec_choose_destination(self.topology@, draw),
    {
        let exclude: Option<usize> = match self.topology.local_index() {
            Some(index) => Some(index.raw as usize),
            None => None,
        };
        proof {
            lemma_pick_except(draw, self.topology@.mixnodes.len() as int, as_position(exclude), None);
        }
        match pick_except(draw, self.topology.num_mixnodes(), exclude, None) {
            Some(x) => Ok(MixnodeIndex { raw: x as u16 }),
            None => Err(TopologyErr::TooFewMixnodes),
        }
    }

    /// Returns a random destination: any mixnode but the local node.
    pub fn choose_destination_index(&self) -> (r: Result<MixnodeIndex, TopologyErr>)
        requires
            self.wf(),
        ensures
            exists|draw: u64| r == spec_choose_destination(self.topology@, draw),
    {
        let draw = random_u64_below(u64::MAX);
        self.choose_destination_index_from(draw)
    }

    fn role(&self, kind: RouteKind, k: usize, p: usize) -> (r: Role)
        requires
            self.wf(),
            p < k <= MAX_HOPS,
        ensures
            r == spec_role(self.topology@.local, kind, k as int, p as int),
    {
        match self.topology.local_index() {
            Some(local) => if p == k - 1 {
                match kind {
                    RouteKind::ToMixnode(d) => Role::Fixed(d),
                    _ => Role::Fixed(local),
                }
            } else {
                Role::Random
            },
            None => if p == k - 1 {
                match kind {
                    RouteKind::ToMixnode(d) => Role::Fixed(d),
                    _ => Role::Local,
                }
            } else if p + 2 == k && !matches!(kind, RouteKind::ToMixnode(_)) {
                Role::Gateway
            } else if p == 0 && !matches!(kind, RouteKind::FromMixnode(_)) {
                Role::Gateway
            } else {
                Role::Random
            },
        }
    }

    fn node(&self, kind: RouteKind, k: usize, draw: u64, p: usize, prev: Option<usize>) -> (r: Result<
        RouteNode,
        TopologyErr,
    >)
        requires
            self.wf(),
            p < k <= MAX_HOPS,
        ensures
            r == spec_node(
                self.topology@,
                self.connected(),
                kind,
                k as int,
                draw,
                p as int,
                as_position(prev),
            ),
            match r {
                Ok(RouteNode::Mixnode(i)) => i.raw < self.topology@.mixnodes.len(),
                _ => true,
            },
    {
        let n = self.topology.num_mixnodes();
        let next: Option<usize> = if p + 1 < k {
            match self.role(kind, k, p + 1) {
                Role::Fixed(i) => Some(i.raw as usize),
                _ => None,
            }
        } else {
            None
        };
        proof {
            lemma_pick_except(draw, n as int, as_position(prev), as_position(next));
            lemma_eligible(self.connected(), as_position(prev), as_position(next));
        }
        match self.role(kind, k, p) {
            Role::Fixed(i) => if (i.raw as usize) < n {
                Ok(RouteNode::Mixnode(i))
            } else {
                Err(TopologyErr::BadMixnodeIndex(i))
            },
            Role::Local => Ok(RouteNode::Local),
            Role::Random => match pick_except(draw, n, prev, next) {
                Some(x) => Ok(RouteNode::Mixnode(MixnodeIndex { raw: x as u16 })),
                None => Err(TopologyErr::TooFewMixnodes),
            },
            Role::Gateway => match pick_gateway(&self.connected_gateways, draw, prev, next) {
                Some(x) => {
                    proof {
                        let candidates = eligible(
                            self.connected(),
                            as_position(prev),
                            as_position(next),
                        );
                        let t = draw as int % candidates.len() as int;
                        assert(self.connected().contains(candidates[t]));
                    }
                    Ok(RouteNode::Mixnode(MixnodeIndex { raw: x as u16 }))
                },
                None => Err(TopologyErr::NoConnectedGatewayMixnodes),
            },
        }
    }

    /// Returns the route of `num_hops` hops of the given kind that `draws`
    /// selects; each hop has its own draw.
    pub fn gen_route_from(&self, kind: RouteKind, num_hops: u32, draws: &Vec<u64>) -> (r: Result<
        Route,
        TopologyErr,
    >)
        requires
            self.wf(),
            draws@.len() >= MAX_HOPS,
        ensures
            route_matches(
                r,
                spec_gen_route(
                    self.topology@,
                    self.connected(),
                    self.local_peer_id,
                    kind,
                    num_hops,
                    draws@,
                ),
            ),
    {
        let local = self.topology.local_index();
        if num_hops < 1 || num_hops > MAX_HOPS as u32 || (local.is_none() && num_hops < 2) {
            return Err(TopologyErr::BadNumHops(num_hops));
        }
        let k: usize = num_hops as usize;
        let source: Option<usize> = match kind {
            RouteKind::FromMixnode(s) => Some(s.raw as usize),
            _ => match local {
                Some(l) => Some(l.raw as usize),
                None => None,
            },
        };
        let ghost expected = spec_nodes_from(
            self.topology@,
            self.connected(),
            kind,
            k as int,
            draws@,
            Seq::empty(),
            spec_source(self.topology@.local, kind),
        );
        let mut nodes: Vec<RouteNode> = Vec::new();
        let mut prev: Option<usize> = source;
        let mut p: usize = 0;
        while p < k
            invariant
                self.wf(),
                p <= k <= MAX_HOPS,
                draws@.len() >= MAX_HOPS,
                nodes@.len() == p,
                k == num_hops,
                valid_num_hops(self.topology@.local, num_hops),
                expected == spec_nodes_from(
                    self.topology@,
                    self.connected(),
                    kind,
                    k as int,
                    draws@,
                    Seq::empty(),
                    spec_source(self.topology@.local, kind),
                ),
                expected == spec_nodes_from(
                    self.topology@,
                    self.connected(),
                    kind,
                    k as int,
                    draws@,
                    nodes@,
                    as_position(prev),
                ),
                forall|j: int|
                    0 <= j < p ==> match #[trigger] nodes@[j] {
                        RouteNode::Mixnode(i) => i.raw < self.topology@.mixnodes.len(),
                        RouteNode::Local => true,
                    },
            decreases k - p,
        {
            let node = match self.node(kind, k, draws[p], p, prev) {
                Ok(node) => node,
                Err(e) => {
                    assert(expected == Err::<Seq<RouteNode>, TopologyErr>(e));
                    return Err(e);
                },
            };
            prev = match node {
                RouteNode::Mixnode(i) => Some(i.raw as usize),
                RouteNode::Local => None,
            };
            nodes.push(node);
            p += 1;
        }
        assert(expected == Ok::<Seq<RouteNode>, TopologyErr>(nodes@));
        let first_hop: MixnodeIndex = match nodes[0] {
            RouteNode::Mixnode(i) => i,
            RouteNode::Local => MixnodeIndex { raw: 0 },
        };
        let mut hops = hops_new();
        let mut q: usize = 0;
        while q < k
            invariant
                self.wf(),
                q <= k <= MAX_HOPS,
                nodes@.len() == k,
                crate::sphinx::hops_of(hops) == spec_hops(
                    self.topology@,
                    self.local_peer_id,
                    nodes@,
                ).take(q as int),
                forall|j: int|
                    0 <= j < k ==> match #[trigger] nodes@[j] {
                        RouteNode::Mixnode(i) => i.raw < self.topology@.mixnodes.len(),
                        RouteNode::Local => true,
                    },
            decreases k - q,
        {
            let kx_public: KxPublic = match nodes[q] {
                RouteNode::Mixnode(i) => match self.topology.mixnode_kx_public(i) {
                    Ok(kx_public) => kx_public,
                    Err(e) => {
                        return Err(e);
                    },
                },
                RouteNode::Local => self.topology.local_kx_public(),
            };
            let forward_to: Option<Target> = if q + 1 < k {
                Some(
                    match nodes[q + 1] {
                        RouteNode::Mixnode(i) => Target::MixnodeIndex(i),
                        RouteNode::Local => Target::PeerId(self.local_peer_id),
                    },
                )
            } else {
                None
            };
            let ghost all = spec_hops(self.topology@, self.local_peer_id, nodes@);
            hops_push(&mut hops, Hop { kx_public, forward_to });
            assert(all.take(q + 1) =~= all.take(q as int).push(all[q as int]));
            q += 1;
        }
        proof {
            let all = spec_hops(self.topology@, self.local_peer_id, nodes@);
            assert(all.take(k as int) =~= all);
        }
        Ok(Route { first_hop, hops })
    }

    /// Returns a random route of `num_hops` hops of the given kind.
    pub fn gen_route(&self, kind: RouteKind, num_hops: u32) -> (r: Result<Route, TopologyErr>)
        requires
            self.wf(),
        ensures
            exists|draws: Seq<u64>|
                draws.len() == MAX_HOPS && route_matches(
                    r,
                    #[trigger] spec_gen_route(
                        self.topology@,
                        self.connected(),
                        self.local_peer_id,
                        kind,
                        num_hops,
                        draws,
                    ),
                ),
    {
        let draws = random_draws();
        self.gen_route_from(kind, num_hops, &draws)
    }
}

/// Returns one random draw for each hop that a route can have.
pub fn random_draws() -> (r: Vec<u64>)
    ensures
        r@.len() == MAX_HOPS,
        forall|i: int| 0 <= i < r@.len() ==> r@[i] < u64::MAX,
{
    let mut draws: Vec<u64> = Vec::new();
    let mut i: usize = 0;
    while i < MAX_HOPS
        invariant
            i <= MAX_HOPS,
            draws@.len() == i,
            forall|j: int| 0 <= j < i ==> draws@[j] < u64::MAX,
        decreases MAX_HOPS - i,
    {
        draws.push(random_u64_below(u64::MAX));
        i += 1;
    }
    draws
}

/// The gateways that are flagged as connected, in their order.
pub open spec fn spec_connected(gateways: Seq<int>, flags: Seq<bool>) -> Seq<int>
    decreases gateways.len(),
{
    if gateways.len() == 0 {
        gateways
    } else if gateways.len() <= flags.len() && flags[gateways.len() - 1] {
        spec_connected(gateways.drop_last(), flags).push(gateways.last())
    } else {
        spec_connected(gateways.drop_last(), flags)
    }
}

/// Every connected gateway is a gateway.
pub proof fn lemma_connected(gateways: Seq<int>, flags: Seq<bool>)
    ensures
        forall|i: int|
            0 <= i < spec_connected(gateways, flags).len() ==> gateways.contains(
                #[trigger] spec_connected(gateways, flags)[i],
            ),
    decreases gateways.len(),
{
    if gateways.len() > 0 {
        let front = gateways.drop_last();
        lemma_connected(front, flags);
        let kept = spec_connected(gateways, flags);
        let kept_front = spec_connected(front, flags);
        assert forall|i: int| 0 <= i < kept.len() implies gateways.contains(#[trigger] kept[i]) by {
            if i < kept_front.len() {
                assert(kept[i] == kept_front[i]);
                let j = choose|j: int| 0 <= j < front.len() && front[j] == kept_front[i];
                assert(gateways[j] == kept[i]);
            } else {
                assert(gateways[gateways.len() - 1] == kept[i]);
            }
        }
    }
}

/// Whether the node at position `p` of `nodes` is one that its role allows:
/// a fixed node is the one that the kind of the route fixes; a picked node
/// is a mixnode of the roster, a connected gateway where the role asks for
/// one, and differs from the node before it and from a fixed node after it.
pub open spec fn node_fits(
    topology: TopologyView,
    gateways: Seq<int>,
    kind: RouteKind,
    k: int,
    nodes: Seq<RouteNode>,
    p: int,
) -> bool {
    let n = topology.mixnodes.len() as int;
    let prev = if p == 0 {
        spec_source(topology.local, kind)
    } else {
        node_position(nodes[p - 1])
    };
    let next = spec_next_fixed(topology.local, kind, k, p);
    match spec_role(topology.local, kind, k, p) {
        Role::Fixed(i) => nodes[p] == RouteNode::Mixnode(i) && i.raw < n,
        Role::Local => nodes[p] == RouteNode::Local,
        Role::Random => nodes[p] is Mixnode && 0 <= nodes[p]->Mixnode_0.raw < n && node_position(
            nodes[p],
        ) != prev && node_position(nodes[p]) != next,
        Role::Gateway => nodes[p] is Mixnode && gateways.contains(nodes[p]->Mixnode_0.raw as int)
            && node_position(nodes[p]) != prev && node_position(nodes[p]) != next,
    }
}

proof fn lemma_nodes_fit(
    topology: TopologyView,
    gateways: Seq<int>,
    kind: RouteKind,
    k: int,
    draws: Seq<u64>,
    nodes: Seq<RouteNode>,
    prev: Option<int>,
)
    requires
        topology.wf(),
        nodes.len() <= k,
        forall|i: int| 0 <= i < gateways.len() ==> 0 <= #[trigger] gateways[i] < topology.mixnodes.len(),
        forall|p: int| 0 <= p < nodes.len() ==> node_fits(topology, gateways, kind, k, nodes, p),
        prev == if nodes.len() == 0 {
            spec_source(topology.local, kind)
        } else {
            node_position(nodes.last())
        },
    ensures
        match spec_nodes_from(topology, gateways, kind, k, draws, nodes, prev) {
            Ok(all) => all.len() == k && forall|p: int|
                0 <= p < k ==> node_fits(topology, gateways, kind, k, all, p),
            Err(_) => true,
        },
    decreases k - nodes.len(),
{
    let p = nodes.len() as int;
    let n = topology.mixnodes.len() as int;
    if p < k {
        let next = spec_next_fixed(topology.local, kind, k, p);
        lemma_pick_except(draws[p], n, prev, next);
        lemma_eligible(gateways, prev, next);
        match spec_node(topology, gateways, kind, k, draws[p], p, prev) {
            Err(_) => {},
            Ok(node) => {
                let longer = nodes.push(node);
                if spec_role(topology.local, kind, k, p) is Gateway {
                    let candidates = eligible(gateways, prev, next);
                    let t = draws[p] as int % candidates.len() as int;
                    assert(gateways.contains(candidates[t]));
                    let j = choose|j: int| 0 <= j < gateways.len() && gateways[j] == candidates[t];
                    assert(0 <= gateways[j] < n);
                }
                assert(node_fits(topology, gateways, kind, k, longer, p));
                assert forall|q: int| 0 <= q < longer.len() implies node_fits(
                    topology,
                    gateways,
                    kind,
                    k,
                    longer,
                    q,
                ) by {
                    if q < p {
                        assert(node_fits(topology, gateways, kind, k, nodes, q));
                        assert(longer[q] == nodes[q]);
                        if q > 0 {
                            assert(longer[q - 1] == nodes[q - 1]);
                        }
                    }
                }
                lemma_nodes_fit(topology, gateways, kind, k, draws, longer, node_position(node));
            },
        }
    }
}

/// The nodes of a route that some draws select.
pub open spec fn spec_route_nodes(
    topology: TopologyView,
    gateways: Seq<int>,
    kind: RouteKind,
    num_hops: u32,
    draws: Seq<u64>,
) -> Result<Seq<RouteNode>, TopologyErr> {
    spec_nodes_from(
        topology,
        gateways,
        kind,
        num_hops as int,
        draws,
        Seq::empty(),
        spec_source(topology.local, kind),
    )
}

/// Every route that is generated is sound, whatever the draws. It has the
/// number of hops asked for, and every mixnode on it is in the roster. It
/// ends where its kind says: at the destination, or at the local node. A
/// node that is not a mixnode enters the mixnet by one of its connected
/// gateways, and is reached by one. No mixnode on the route forwards to
/// itself, and the first hop is not the node that the packet starts from.
pub proof fn lemma_routes_are_sound(
    topology: TopologyView,
    gateways: Seq<int>,
    kind: RouteKind,
    num_hops: u32,
    draws: Seq<u64>,
)
    requires
        topology.wf(),
        valid_num_hops(topology.local, num_hops),
        forall|i: int| 0 <= i < gateways.len() ==> 0 <= #[trigger] gateways[i] < topology.mixnodes.len(),
    ensures
        match spec_route_nodes(topology, gateways, kind, num_hops, draws) {
            Ok(nodes) => {
                &&& nodes.len() == num_hops
                &&& forall|p: int|
                    0 <= p < nodes.len() ==> node_fits(
                        topology,
                        gateways,
                        kind,
                        num_hops as int,
                        nodes,
                        p,
                    )
                &&& forall|p: int|
                    0 <= p < nodes.len() && (#[trigger] nodes[p]) is Mixnode
                        ==> nodes[p]->Mixnode_0.raw < topology.mixnodes.len()
                &&& forall|p: int|
                    1 <= p < nodes.len() && nodes[p - 1] is Mixnode && (#[trigger] nodes[p]) is Mixnode
                        ==> nodes[p - 1] != nodes[p]
                &&& nodes[0] is Mixnode
                &&& kind is ToMixnode ==> nodes.last() == RouteNode::Mixnode(kind->ToMixnode_0)
                &&& !(kind is ToMixnode) ==> nodes.last() == match topology.local {
                    LocalView::Mixnode(l) => RouteNode::Mixnode(MixnodeIndex { raw: l as u16 }),
                    LocalView::NonMixnode(_) => RouteNode::Local,
                }
            },
            Err(_) => true,
        },
{
    let k = num_hops as int;
    lemma_nodes_fit(
        topology,
        gateways,
        kind,
        k,
        draws,
        Seq::empty(),
        spec_source(topology.local, kind),
    );
    match spec_route_nodes(topology, gateways, kind, num_hops, draws) {
        Ok(nodes) => {
            assert forall|p: int| 0 <= p < nodes.len() && (#[trigger] nodes[p]) is Mixnode implies nodes[p]->Mixnode_0.raw
                < topology.mixnodes.len() by {
                assert(node_fits(topology, gateways, kind, k, nodes, p));
                if spec_role(topology.local, kind, k, p) is Gateway {
                    let x = nodes[p]->Mixnode_0.raw as int;
                    let j = choose|j: int| 0 <= j < gateways.len() && gateways[j] == x;
                    assert(0 <= gateways[j] < topology.mixnodes.len());
                }
            }
            assert forall|p: int|
                1 <= p < nodes.len() && nodes[p - 1] is Mixnode && (#[trigger] nodes[p]) is Mixnode implies nodes[p
                    - 1] != nodes[p] by {
                assert(node_fits(topology, gateways, kind, k, nodes, p));
                assert(node_fits(topology, gateways, kind, k, nodes, p - 1));
            }
            assert(node_fits(topology, gateways, kind, k, nodes, 0));
            assert(node_fits(topology, gateways, kind, k, nodes, k - 1));
        },
        Err(_) => {},
    }
}

proof fn lemma_mixnode_nodes_exist(
    topology: TopologyView,
    gateways: Seq<int>,
    kind: RouteKind,
    k: int,
    draws: Seq<u64>,
    nodes: Seq<RouteNode>,
    prev: Option<int>,
)
    requires
        topology.wf(),
        topology.local is Mixnode,
        topology.mixnodes.len() >= 3,
        kind is ToMixnode ==> kind->ToMixnode_0.raw < topology.mixnodes.len(),
    ensures
        spec_nodes_from(topology, gateways, kind, k, draws, nodes, prev) is Ok,
    decreases k - nodes.len(),
{
    let p = nodes.len() as int;
    let n = topology.mixnodes.len() as int;
    if p < k {
        let next = spec_next_fixed(topology.local, kind, k, p);
        lemma_pick_except(draws[p], n, prev, next);
        let node = spec_node(topology, gateways, kind, k, draws[p], p, prev);
        assert(node is Ok);
        lemma_mixnode_nodes_exist(
            topology,
            gateways,
            kind,
            k,
            draws,
            nodes.push(node->Ok_0),
            node_position(node->Ok_0),
        );
    }
}

/// A mixnode always finds a route. Where the local node is a mixnode among
/// at least three, a route of any kind and of any length that a packet
/// allows can be generated whatever the draws, so long as a fixed
/// destination is in the roster.
pub proof fn lemma_mixnode_routes_exist(
    topology: TopologyView,
    gateways: Seq<int>,
    local_peer_id: PeerId,
    kind: RouteKind,
    num_hops: u32,
    draws: Seq<u64>,
)
    requires
        topology.wf(),
        topology.local is Mixnode,
        topology.mixnodes.len() >= 3,
        1 <= num_hops <= MAX_HOPS,
        kind is ToMixnode ==> kind->ToMixnode_0.raw < topology.mixnodes.len(),
    ensures
        spec_gen_route(topology, gateways, local_peer_id, kind, num_hops, draws) is Ok,
        topology.mixnode_index_to_peer_id(
            spec_gen_route(topology, gateways, local_peer_id, kind, num_hops, draws)->Ok_0.first_hop,
        ) is Ok,
{
    lemma_mixnode_nodes_exist(
        topology,
        gateways,
        kind,
        num_hops as int,
        draws,
        Seq::empty(),
        spec_source(topology.local, kind),
    );
    lemma_nodes_fit(
        topology,
        Seq::empty(),
        kind,
        num_hops as int,
        draws,
        Seq::empty(),
        spec_source(topology.local, kind),
    );
    lemma_gateways_do_not_matter(
        topology,
        gateways,
        kind,
        num_hops as int,
        draws,
        Seq::empty(),
        spec_source(topology.local, kind),
    );
    let nodes = spec_route_nodes(topology, Seq::empty(), kind, num_hops, draws)->Ok_0;
    assert(node_fits(topology, Seq::empty(), kind, num_hops as int, nodes, 0));
}

/// The route of a mixnode does not depend on any gateways: it has none.
proof fn lemma_gateways_do_not_matter(
    topology: TopologyView,
    gateways: Seq<int>,
    kind: RouteKind,
    k: int,
    draws: Seq<u64>,
    nodes: Seq<RouteNode>,
    prev: Option<int>,
)
    requires
        topology.local is Mixnode,
    ensures
        spec_nodes_from(topology, gateways, kind, k, draws, nodes, prev) == spec_nodes_from(
            topology,
            Seq::empty(),
            kind,
            k,
            draws,
            nodes,
            prev,
        ),
    decreases k - nodes.len(),
{
    let p = nodes.len() as int;
    if p < k {
        let node = spec_node(topology, gateways, kind, k, draws[p], p, prev);
        assert(node == spec_node(topology, Seq::empty(), kind, k, draws[p], p, prev));
        if node is Ok {
            lemma_gateways_do_not_matter(
                topology,
                gateways,
                kind,
                k,
                draws,
                nodes.push(node->Ok_0),
                node_position(node->Ok_0),
            );
        }
    }
}

} // verus!
