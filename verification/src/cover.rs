//! Cover packets: packets without content, sent so that an observer cannot
//! tell real traffic from none.

use crate::config::Config;
use crate::packet_queues::CoverPacket;
use crate::random::random_u64_below;
use crate::route::{
    connected_within, lemma_mixnode_routes_exist, lemma_pick_except, random_draws,
    spec_choose_destination, spec_gen_route, RouteGenerator, RouteKind, RouteView,
};
use crate::sphinx::{PeerId, Route, MAX_HOPS};
use crate::topology::{NetworkStatus, Topology, TopologyErr, TopologyView};
use vstd::prelude::*;

verus! {

/// The kinds of cover packet.
#[derive(Clone, Copy, Debug, PartialEq, Eq, Structural)]
pub enum CoverKind {
    /// A packet that ends at a random mixnode, which drops it.
    Drop,
    /// A packet that comes back to the local node.
    Loop,
}

/// A cover packet to build: the peer to send it to, and its route.
pub struct CoverView {
    pub peer_id: PeerId,
    pub route: RouteView,
}

/// The cover packet of the given kind that the draws select, if cover
/// packets are generated and a route can be found.
pub open spec fn spec_gen_cover_packet(
    topology: TopologyView,
    gateways: Seq<int>,
    local_peer_id: PeerId,
    kind: CoverKind,
    config: Config,
    destination_draw: u64,
    draws: Seq<u64>,
) -> Option<CoverView> {
    let route_kind: Result<RouteKind, TopologyErr> = match kind {
        CoverKind::Drop => match spec_choose_destination(topology, destination_draw) {
            Ok(destination) => Ok(RouteKind::ToMixnode(destination)),
            Err(e) => Err(e),
        },
        CoverKind::Loop => Ok(RouteKind::Loop),
    };
    if !config.gen_cover_packets {
        None
    } else {
        match route_kind {
            Err(_) => None,
            Ok(route_kind) => match spec_gen_route(
                topology,
                gateways,
                local_peer_id,
                route_kind,
                config.num_hops,
                draws,
            ) {
                Err(_) => None,
                Ok(route) => match topology.mixnode_index_to_peer_id(route.first_hop) {
                    Err(_) => None,
                    Ok(peer_id) => Some(CoverView { peer_id, route }),
                },
            },
        }
    }
}

/// Whether a cover packet is the expected one.
pub open spec fn cover_matches(r: Option<CoverPacket>, expected: Option<CoverView>) -> bool {
    match expected {
        Some(view) => r is Some && r->0.peer_id == view.peer_id && r->0.route.first_hop
            == view.route.first_hop && r->0.route@ == view.route.hops,
        None => r is None,
    }
}

/// Whether a cover packet is one that some draws select, for some state of
/// the network: some of the gateways of the local node are connected, and
/// the local node has some identity.
pub open spec fn is_cover_outcome(r: Option<CoverPacket>, topology: TopologyView, kind: CoverKind, config: Config) -> bool {
    exists|gateways: Seq<int>, local_peer_id: PeerId, destination_draw: u64, draws: Seq<u64>|
        connected_within(topology, gateways) && cover_matches(
            r,
            #[trigger] spec_gen_cover_packet(
                topology,
                gateways,
                local_peer_id,
                kind,
                config,
                destination_draw,
                draws,
            ),
        )
}

/// Returns the cover packet of the given kind that the draws select:
/// `destination_draw` selects the mixnode at which a drop cover packet ends,
/// and each hop has its own draw in `draws`.
pub fn gen_cover_packet_from(
    generator: &RouteGenerator,
    kind: CoverKind,
    config: &Config,
    destination_draw: u64,
    draws: &Vec<u64>,
) -> (r: Option<CoverPacket>)
    requires
        generator.wf(),
        draws@.len() >= MAX_HOPS,
    ensures
        cover_matches(
            r,
            spec_gen_cover_packet(
                generator.topology@,
                generator.connected(),
                generator.local_peer_id,
                kind,
                *config,
                destination_draw,
                draws@,
            ),
        ),
{
    if !config.gen_cover_packets {
        return None;
    }
    let route_kind = match kind {
        CoverKind::Drop => match generator.choose_destination_index_from(destination_draw) {
            Ok(destination) => RouteKind::ToMixnode(destination),
            Err(_) => {
                return None;
            },
        },
        CoverKind::Loop => RouteKind::Loop,
    };
    let route: Route = match generator.gen_route_from(route_kind, config.num_hops, draws) {
        Ok(route) => route,
        Err(_) => {
            return None;
        },
    };
    match generator.topology.mixnode_index_to_peer_id(route.first_hop) {
        Ok(peer_id) => Some(CoverPacket { peer_id, route }),
        Err(_) => None,
    }
}

/// Returns a cover packet of the given kind along a random route. Returns
/// `None` if cover packets are not generated, or if no route can be found.
pub fn gen_cover_packet<N: NetworkStatus>(topology: &Topology, ns: &N, kind: CoverKind, config: &Config) -> (r:
    Option<CoverPacket>)
    requires
        topology@.wf(),
    ensures
        !config.gen_cover_packets ==> r is None,
        is_cover_outcome(r, topology@, kind, *config),
{
    let generator = RouteGenerator::new(topology, ns);
    let destination_draw = random_u64_below(u64::MAX);
    let draws = random_draws();
    let r = gen_cover_packet_from(&generator, kind, config, destination_draw, &draws);
    proof {
        assert(cover_matches(
            r,
            spec_gen_cover_packet(
                topology@,
                generator.connected(),
                generator.local_peer_id,
                kind,
                *config,
                destination_draw,
                draws@,
            ),
        ));
    }
    r
}

/// A mixnode always has cover. Where cover packets are generated and the
/// local node is a mixnode among at least three, a cover packet of either
/// kind is generated whatever the draws, for any number of hops that a
/// packet allows.
pub proof fn lemma_mixnode_cover_exists(
    topology: TopologyView,
    gateways: Seq<int>,
    local_peer_id: PeerId,
    kind: CoverKind,
    config: Config,
    destination_draw: u64,
    draws: Seq<u64>,
)
    requires
        topology.wf(),
        topology.local is Mixnode,
        topology.mixnodes.len() >= 3,
        config.gen_cover_packets,
        1 <= config.num_hops <= MAX_HOPS,
    ensures
        spec_gen_cover_packet(
            topology,
            gateways,
            local_peer_id,
            kind,
            config,
            destination_draw,
            draws,
        ) is Some,
{
    let n = topology.mixnodes.len() as int;
    match kind {
        CoverKind::Drop => {
            lemma_pick_except(destination_draw, n, Some(topology.local->Mixnode_0), None);
            let destination = spec_choose_destination(topology, destination_draw)->Ok_0;
            lemma_mixnode_routes_exist(
                topology,
                gateways,
                local_peer_id,
                RouteKind::ToMixnode(destination),
                config.num_hops,
                draws,
            );
        },
        CoverKind::Loop => {
            lemma_mixnode_routes_exist(
                topology,
                gateways,
                local_peer_id,
                RouteKind::Loop,
                config.num_hops,
                draws,
            );
        },
    }
}

} // verus!
