//! The farm: workers, sessions and parties.
pub mod actor;
pub mod laws;
pub mod layout;
pub mod nexus;
pub mod party;
pub mod slots;
pub mod supervisor;

pub use crate::ids::{PartyKey, SessionKey};
pub use layout::PartyLayout;
pub use nexus::{Command, Event, Nexus, PartyCommand, PartyCreate, SessionCreate, WorkerEvent};
