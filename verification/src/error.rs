//! The errors of the routing core.
use crate::ids::{PartyId, SessionId};
use crate::path_engine::BotId;
use crate::server::WorkerId;
use vstd::prelude::*;
use vstd::std_specs::convert::FromSpec;

verus! {

/// Domain errors produced by the farm routing core.
///
/// Using typed errors lets callers match on specific failure cases, e.g. when
/// deciding whether to retry after a `SessionNotFound` vs. a `WorkerNotFound`.
#[derive(Debug)]
pub enum Error {
    /// No such worker is connected.
    WorkerNotFound(WorkerId),
    /// The worker has no session at that position.
    SlotNotFound { wid: WorkerId, slot: usize },
    /// No such session.
    SessionNotFound(SessionId),
    /// The session has not reported its friend code yet.
    NoFriendCode(SessionId),
    /// No such party.
    PartyNotFound(PartyId),
    /// The party does not have the number of members it is meant for.
    PartySize { pid: PartyId, members: usize, party_size: usize },
    /// The party's engine has not been started.
    NoEngine,
    /// No such bot.
    BotNotFound(BotId),
    /// A lower-level transport error, as text.
    Send(String),
}

impl From<String> for Error {
    fn from(e: String) -> (r: Self) {
        Error::Send(e)
    }
}

impl vstd::std_specs::convert::FromSpecImpl<String> for Error {
    open spec fn obeys_from_spec() -> bool {
        true
    }

    open spec fn from_spec(e: String) -> Self {
        Error::Send(e)
    }
}

/// A text as an error is the error of the transport with that text.
pub proof fn lemma_error_of_text(text: String)
    ensures
        <Error as FromSpec<String>>::from_spec(text) == Error::Send(text),
{
}

} // verus!
