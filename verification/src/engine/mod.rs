//! The discrete-event engine: events, the event queue and the simulator.
//!
//! The engine knows nothing of networks, so that scheduling can be reasoned
//! about on its own.
pub mod event;
pub mod laws;
pub mod queue;
pub mod simulator;

pub use event::{Event, EventKind, EventSeq};
pub use queue::EventQueue;
pub use simulator::{EventHandler, Handler, Simulator};
