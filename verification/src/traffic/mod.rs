//! Generators of traffic.
//!
//! - `Incast`: many senders, one receiver
//! - `RingAllReduce`: every node sends to its neighbour on a ring, step by step
//! - `AllToAll`: every node sends to every other
//! - `Permutation`: every node sends to one other node and receives from one other node
//! - `Synthetic`: pairs of nodes, flow sizes and arrival times from chosen distributions
//! - `Mix`: several lists of flows put together
use crate::network::packet::FlowId;
use crate::EntityId;
use vstd::prelude::*;

pub mod all_reduce;
pub mod all_to_all;
pub mod incast;
pub mod laws;
pub mod mix;
pub mod permute;
pub mod rng;
pub mod synthetic;

pub use all_reduce::RingAllReduce;
pub use all_to_all::AllToAll;
pub use incast::Incast;
pub use mix::{Mix, MixComponent};
pub use permute::{Permutation, PermuteKind};
pub use rng::SeededRng;
pub use synthetic::{ArrivalProcess, FlowSizeDist, PairPattern, Synthetic};

verus! {

/// A flow that is to be sent.
#[derive(Debug, Clone, Copy)]
pub struct FlowDesc {
    pub flow_id: FlowId,
    pub src: EntityId,
    pub dst: EntityId,
    pub bytes: u64,
    pub start_time_ns: u64,
}

/// No two of the flows have the same number.
pub open spec fn ids_distinct(flows: Seq<FlowDesc>) -> bool {
    forall|i: int, j: int|
        0 <= i < j < flows.len() ==> (#[trigger] flows[i]).flow_id != (
        #[trigger] flows[j]).flow_id
}

} // verus!
