//! Settings shared across the farm.
use vstd::prelude::*;

verus! {

/// A span of time: whole seconds and the nanoseconds beyond them.
#[derive(Debug, Clone, Copy, PartialEq, Eq, Structural)]
pub struct Delay {
    /// Whole seconds.
    pub secs: u64,
    /// Nanoseconds beyond the whole seconds.
    pub nanos: u32,
}

impl Delay {
    /// A span of `secs` whole seconds.
    pub fn from_secs(secs: u64) -> (r: Self)
        ensures
            r == (Delay { secs, nanos: 0 }),
    {
        Delay { secs, nanos: 0 }
    }
}

/// Game-level configuration shared across the entire farm hierarchy.
///
/// A single `FarmConfig` is created once at startup and handed to whatever
/// spawns parties, so every tunable knob lives in one place.
#[derive(Debug, Clone)]
pub struct FarmConfig {
    /// How many ready sessions must accumulate before a party is formed and
    /// started automatically.
    pub party_size: usize,
    /// The map that every party session must be loaded into before the
    /// `GameReady` sync point is declared.
    pub map: String,
    /// How long to wait after all group masters have received their match
    /// before instructing every member to accept the match. The wait begins when
    /// the last member, master or slave, has reported the match: a member can
    /// accept only a match that has reached it.
    pub accept_match_delay: Delay,
}

impl Default for FarmConfig {
    fn default() -> (r: Self)
        ensures
            r.party_size == 4,
            r.map@ == "de_vertigo"@,
            r.accept_match_delay == (Delay { secs: 3, nanos: 0 }),
    {
        FarmConfig {
            party_size: 4,
            map: "de_vertigo".to_owned(),
            accept_match_delay: Delay::from_secs(3),
        }
    }
}

} // verus!
