//! The network elements.
//!
//! - `packet`: packets and their kinds
//! - `link`: one-way links with a bandwidth and a propagation delay
//! - `switch`: switches with priority queues, marking, flow control and routing
//! - `host_delay`: the delays inside a multi-GPU node
//! - `drop`: why and where packets are lost
pub mod drop;
pub mod host_delay;
pub mod laws;
pub mod link;
pub mod packet;
pub mod switch;

pub use drop::{DropCounters, DropEvent, DropReason, PerFlowDrops};
pub use host_delay::{GpuLink, NodeTopology};
pub use link::{Link, LinkId, LinkRegistry};
pub use packet::{FlowId, Packet, PacketId, PacketKind, SeqNum, MTU_BYTES};
pub use switch::{PortId, RoutingTable, Switch, SwitchPort};
