//! Messages addressed to, or coming from, a position on a worker.
use crate::protocol::session;
use vstd::prelude::*;

verus! {

/// What a worker reports.
#[derive(Debug, Clone)]
pub enum Event {
    /// An event of the session at a position.
    Session(usize, session::Event),
}

/// What a worker is told.
#[derive(Debug, Clone)]
pub enum Command {
    /// A command for the session at a position.
    Session(usize, session::Command),
}

} // verus!
