//! Bridges between a plant and the world around it.
//!
//! The plant publishes the readings of a tick and takes the commands that have arrived; the other
//! side reads and writes by name. Neither bridge knows a protocol.
pub mod command_queue;
pub mod opcua;
pub mod snapshot_bus;

use vstd::prelude::*;

verus! {

/// The adapters that a simulation accepts.
#[derive(Debug)]
pub enum AdapterConfig {
    OpcUa { endpoint: String },
}

} // verus!
