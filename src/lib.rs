//! The network behaviour of a peer-to-peer node: it merges the events of its
//! protocol engines (gossip pub-sub, request/response, liveness, identify,
//! discovery) into one ordered stream for the network driver, keeps track of
//! the connected peers, and turns the driver's requests into commands for the
//! engines. The engines themselves are driven outside this library.
use vstd::prelude::*;

pub mod behaviour;
pub mod engine;
pub mod model;
pub mod types;

verus! {

/// Largest number of listen addresses kept from an identified peer.
pub const MAX_IDENTIFY_ADDRESSES: usize = 20;

} // verus!
