//! Routes for the packets of a request and for the SURBs that it carries.

use crate::random::random_u64_below;
use crate::route::{
    random_draws, route_matches, spec_choose_destination, spec_gen_route, RouteGenerator, RouteKind,
};
use crate::sphinx::{MixnodeIndex, Route, MAX_HOPS};
use crate::topology::{NetworkStatus, Topology, TopologyErr, TopologyView};
use vstd::prelude::*;

verus! {

/// The destination of a request: the one asked for, if any, else the one
/// that `draw` selects.
pub open spec fn spec_destination(topology: TopologyView, destination_index: Option<MixnodeIndex>, draw: u64) -> Result<
    MixnodeIndex,
    TopologyErr,
> {
    match destination_index {
        Some(index) => Ok(index),
        None => spec_choose_destination(topology, draw),
    }
}

/// Builds the routes of one request: all its packets go to one destination,
/// and all its SURBs lead back from there.
pub struct RequestBuilder<'a> {
    pub route_generator: RouteGenerator<'a>,
    pub destination_index: MixnodeIndex,
}

impl<'a> RequestBuilder<'a> {
    pub open spec fn wf(&self) -> bool {
        self.route_generator.wf()
    }

    /// Returns a builder for requests to the given destination, or to a
    /// random one if none is given.
    pub fn new<N: NetworkStatus>(topology: &'a Topology, ns: &N, destination_index: Option<MixnodeIndex>) -> (r:
        Result<RequestBuilder<'a>, TopologyErr>)
        requires
            topology@.wf(),
        ensures
            match r {
                Ok(builder) => builder.wf() && builder.route_generator.topology == topology
                    && exists|draw: u64|
                    Ok::<MixnodeIndex, TopologyErr>(builder.destination_index) == #[trigger] spec_destination(
                        topology@,
                        destination_index,
                        draw,
                    ),
                Err(e) => destination_index is None && exists|draw: u64|
                    #[trigger] spec_choose_destination(topology@, draw) == Err::<
                        MixnodeIndex,
                        TopologyErr,
                    >(e),
            },
    {
        let generator = RouteGenerator::new(topology, ns);
        let draw = random_u64_below(u64::MAX);
        let r = RequestBuilder::with_generator(generator, destination_index, draw);
        proof {
            if r is Ok {
                assert(Ok::<MixnodeIndex, TopologyErr>(r->Ok_0.destination_index) == spec_destination(
                    topology@,
                    destination_index,
                    draw,
                ));
            } else {
                assert(spec_choose_destination(topology@, draw) == Err::<MixnodeIndex, TopologyErr>(
                    r->Err_0,
                ));
            }
        }
        r
    }

    /// Returns a builder for requests to the given destination, or to the
    /// one that `draw` selects if none is given.
    pub fn with_generator(generator: RouteGenerator<'a>, destination_index: Option<MixnodeIndex>, draw: u64) -> (r:
        Result<RequestBuilder<'a>, TopologyErr>)
        requires
            generator.wf(),
        ensures
            match r {
                Ok(builder) => builder.route_generator == generator && Ok::<
                    MixnodeIndex,
                    TopologyErr,
                >(builder.destination_index) == spec_destination(
                    generator.topology@,
                    destination_index,
                    draw,
                ),
                Err(e) => spec_destination(generator.topology@, destination_index, draw) == Err::<
                    MixnodeIndex,
                    TopologyErr,
                >(e),
            },
    {
        let destination_index = match destination_index {
            Some(index) => index,
            None => match generator.choose_destination_index_from(draw) {
                Ok(index) => index,
                Err(e) => {
                    return Err(e);
                },
            },
        };
        Ok(RequestBuilder { route_generator: generator, destination_index })
    }

    /// Returns the destination of the requests.
    pub fn destination_index(&self) -> (r: MixnodeIndex)
        ensures
            r == self.destination_index,
    {
        self.destination_index
    }

    /// Returns a random route for a packet of the request.
    pub fn request_route(&self, num_hops: u32) -> (r: Result<Route, TopologyErr>)
        requires
            self.wf(),
        ensures
            self.is_route_outcome(r, RouteKind::ToMixnode(self.destination_index), num_hops),
    {
        let draws = random_draws();
        let r = self.route_generator.gen_route_from(
            RouteKind::ToMixnode(self.destination_index),
            num_hops,
            &draws,
        );
        proof {
            assert(route_matches(
                r,
                spec_gen_route(
                    self.route_generator.topology@,
                    self.route_generator.connected(),
                    self.route_generator.local_peer_id,
                    RouteKind::ToMixnode(self.destination_index),
                    num_hops,
                    draws@,
                ),
            ));
        }
        r
    }

    /// Returns a random route for a SURB of the request.
    pub fn surb_route(&self, num_hops: u32) -> (r: Result<Route, TopologyErr>)
        requires
            self.wf(),
        ensures
            self.is_route_outcome(r, RouteKind::FromMixnode(self.destination_index), num_hops),
    {
        let draws = random_draws();
        let r = self.route_generator.gen_route_from(
            RouteKind::FromMixnode(self.destination_index),
            num_hops,
            &draws,
        );
        proof {
            assert(route_matches(
                r,
                spec_gen_route(
                    self.route_generator.topology@,
                    self.route_generator.connected(),
                    self.route_generator.local_peer_id,
                    RouteKind::FromMixnode(self.destination_index),
                    num_hops,
                    draws@,
                ),
            ));
        }
        r
    }

    /// Whether `r` is the route of the given kind that some draws select.
    pub open spec fn is_route_outcome(&self, r: Result<Route, TopologyErr>, kind: RouteKind, num_hops: u32) -> bool {
        exists|draws: Seq<u64>|
            draws.len() == MAX_HOPS && route_matches(
                r,
                #[trigger] spec_gen_route(
                    self.route_generator.topology@,
                    self.route_generator.connected(),
                    self.route_generator.local_peer_id,
                    kind,
                    num_hops,
                    draws,
                ),
            )
    }
}

} // verus!
