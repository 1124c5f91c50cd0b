//! What a party is set up for.
use vstd::prelude::*;

verus! {

/// Dynamic configuration for a single farm party, received from the server.
///
/// Grouping the values here makes the contract explicit and allows the server
/// to vary them per lobby without touching the party's logic.
#[derive(Debug, Clone)]
pub struct PartyLayout {
    /// Map identifier, e.g. `"de_vertigo"`.
    pub map: String,
    /// Number of players that must be in the party.
    pub party_size: usize,
}

} // verus!
