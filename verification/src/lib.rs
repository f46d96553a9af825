//! STrack-Sim: a discrete-event simulator for data-centre transport protocols.
//!
//! The crate is organised bottom-up: the event engine (`engine`), the network
//! elements (`network`), the end-host protocols (`nic`), the topologies
//! (`topology`), the workloads (`traffic`, `training`), the measurements
//! (`monitor`, `viz`) and the driver that ties them together (`sim_runner`).
use vstd::prelude::*;

pub mod engine;
pub mod error;
pub mod monitor;
pub mod network;
pub mod nic;
pub mod sim_runner;
pub mod topology;
pub mod traffic;
pub mod training;
pub mod util;
pub mod viz;

verus! {

/// Simulated time in nanoseconds.
pub type SimTime = u64;

/// Identifier of a host or a switch.
pub type EntityId = u32;

} // verus!
