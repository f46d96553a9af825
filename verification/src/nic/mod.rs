//! The end hosts: transport protocols behind one interface.
//!
//! - `protocol`: the interface that every transport implements
//! - `sender`, `receiver`: what the transports share
//! - `tcp`, `reno`, `cubic`: window-based transports
//! - `dcqcn`, `hpcc`: rate-based transports
//! - `strack`: packet spraying over many paths, built from `tx`, `rx` and `cc`
//! - `rdma`, `rdma_protocol`: queue pairs and messages
//! - the modules in `_laws`: what holds of each of these
pub mod cc;
pub mod cubic;
pub mod cubic_laws;
pub mod dcqcn;
pub mod dcqcn_laws;
pub mod endpoint;
pub mod endpoint_laws;
pub mod hpcc;
pub mod hpcc_laws;
pub mod protocol;
pub mod rdma;
pub mod rdma_laws;
pub mod rdma_protocol;
pub mod receiver;
pub mod reno;
pub mod reno_laws;
pub mod rx;
pub mod send_laws;
pub mod sender;
pub mod spray_laws;
pub mod strack;
pub mod strack_laws;
pub mod tcp;
pub mod tcp_laws;
pub mod tx;

pub use protocol::{Protocol, ProtocolStats};
pub use cubic::TcpCubic;
pub use dcqcn::DcqcnProtocol;
pub use hpcc::HpccProtocol;
pub use rdma_protocol::RdmaProtocol;
pub use reno::TcpReno;
pub use strack::{PathState, STrackMode, STrackProtocol};
pub use tcp::SimpleTcp;

