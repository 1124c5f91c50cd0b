//! The messages exchanged with workers and the sessions they host.
pub mod game;
pub mod session;
pub mod worker;

use vstd::prelude::*;

verus! {

/// What a connecting client is.
#[derive(Debug, Clone, Copy, PartialEq, Eq, Structural)]
pub enum ClientType {
    /// A machine that hosts sessions.
    Worker,
    /// A user interface.
    Client,
}

} // verus!
