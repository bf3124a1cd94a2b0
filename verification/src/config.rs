//! Configuration of the mixnet core.

use crate::sphinx::Nanos;
use vstd::prelude::*;

verus! {

/// A proportion between zero and one, as a ratio of two integers.
#[derive(Clone, Copy, Debug, PartialEq, Eq, Structural)]
pub struct Proportion {
    pub numerator: u32,
    pub denominator: u32,
}

impl Proportion {
    /// Whether the ratio lies between zero and one.
    pub open spec fn valid(self) -> bool {
        self.denominator > 0 && self.numerator <= self.denominator
    }

    pub fn is_valid(self) -> (r: bool)
        ensures
            r == self.valid(),
    {
        self.denominator > 0 && self.numerator <= self.denominator
    }
}

/// Configuration that applies to one session, and depends on whether the
/// local node is a mixnode in that session.
#[derive(Clone, Copy, Debug, PartialEq, Eq, Structural)]
pub struct SessionConfig {
    /// Maximum number of packets in the authored packet queue of the session.
    pub authored_packet_queue_capacity: u32,
    /// Mean time between the packets that the node authors for the session,
    /// cover packets included.
    pub mean_authored_packet_period: Nanos,
}

/// Configuration of the mixnet core.
#[derive(Clone, Copy, Debug, PartialEq, Eq, Structural)]
pub struct Config {
    /// Session configuration for sessions in which the local node is a mixnode.
    pub mixnode_session: SessionConfig,
    /// Session configuration for sessions in which the local node is not a
    /// mixnode. With `None`, the mixnet is disabled in such sessions.
    pub non_mixnode_session: Option<SessionConfig>,
    /// Maximum number of packets waiting to be forwarded.
    pub forward_packet_queue_capacity: u32,
    /// Mean of the delay that a packet spends at each hop.
    pub mean_forwarding_delay: Nanos,
    /// Whether cover packets are generated.
    pub gen_cover_packets: bool,
    /// The proportion of cover packets that loop back to the local node.
    pub loop_cover_proportion: Proportion,
    /// Number of hops of the routes of authored packets.
    pub num_hops: u32,
    /// Number of mixnodes that a node which is not a mixnode connects to.
    pub num_gateway_mixnodes: u32,
    /// Below this number of mixnodes, the mixnet is disabled for a session.
    pub min_mixnodes: u32,
    /// Maximum number of SURBs whose keys are kept.
    pub surb_keystore_capacity: u32,
    /// Maximum number of messages under reassembly.
    pub max_incomplete_messages: u32,
    /// Maximum number of fragments held for messages under reassembly.
    pub max_incomplete_fragments: u32,
    /// Maximum number of fragments of one message.
    pub max_fragments_per_message: u32,
}

impl Config {
    /// The default configuration.
    pub open spec fn spec_default() -> Config {
        Config {
            mixnode_session: SessionConfig {
                authored_packet_queue_capacity: 50,
                mean_authored_packet_period: 100_000_000,
            },
            non_mixnode_session: Some(
                SessionConfig {
                    authored_packet_queue_capacity: 25,
                    mean_authored_packet_period: 1_000_000_000,
                },
            ),
            forward_packet_queue_capacity: 300,
            mean_forwarding_delay: 1_000_000_000,
            gen_cover_packets: true,
            loop_cover_proportion: Proportion { numerator: 1, denominator: 4 },
            num_hops: 4,
            num_gateway_mixnodes: 3,
            min_mixnodes: 3,
            surb_keystore_capacity: 200,
            max_incomplete_messages: 2000,
            max_incomplete_fragments: 2000,
            max_fragments_per_message: 25,
        }
    }
}

impl Default for Config {
    fn default() -> (r: Config)
        ensures
            r == Config::spec_default(),
    {
        Config {
            mixnode_session: SessionConfig {
                authored_packet_queue_capacity: 50,
                mean_authored_packet_period: 100_000_000,
            },
            non_mixnode_session: Some(
                SessionConfig {
                    authored_packet_queue_capacity: 25,
                    mean_authored_packet_period: 1_000_000_000,
                },
            ),
            forward_packet_queue_capacity: 300,
            mean_forwarding_delay: 1_000_000_000,
            gen_cover_packets: true,
            loop_cover_proportion: Proportion { numerator: 1, denominator: 4 },
            num_hops: 4,
            num_gateway_mixnodes: 3,
            min_mixnodes: 3,
            surb_keystore_capacity: 200,
            max_incomplete_messages: 2000,
            max_incomplete_fragments: 2000,
            max_fragments_per_message: 25,
        }
    }
}

} // verus!
