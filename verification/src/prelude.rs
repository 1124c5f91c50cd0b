//! The most commonly used items, to be imported together.
pub use crate::error::Error;
pub use crate::ids::{GroupKey, PartyKey, SessionKey, WorkerSlot};
