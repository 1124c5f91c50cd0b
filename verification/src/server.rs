//! What the server that talks to the workers reports.
use crate::protocol::worker;
use crate::protocol::ClientType;
use vstd::prelude::*;

verus! {

/// The id under which the server knows a connected worker.
#[derive(Debug, Clone, Copy, Hash, PartialEq, Eq, Structural)]
pub struct WorkerId(pub u32);

/// A report of the server.
#[derive(Debug)]
pub enum Event {
    /// A client has connected.
    New(WorkerId, ClientType),
    /// A worker has sent an event.
    Worker(WorkerId, worker::Event),
}

} // verus!
