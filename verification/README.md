# farm_core

Routing and party coordination for a farm of game sessions, verified with Verus.

Workers host sessions, sessions are grouped into parties, and every party walks
its members through invites, a lobby, a match and a round. The library holds the
decisions of that process as state machines: a step takes an input, changes the
state and returns the messages to send. Where messages can fail to arrive, the
caller reports how many did, and the state follows from that number.

- `src/ids.rs`, `src/config.rs`, `src/error.rs`, `src/protocol/`, `src/server.rs`,
  `src/path_engine.rs`: ids, settings, errors and messages.
- `src/farm/nexus.rs`, `src/farm/supervisor.rs`, `src/farm/actor.rs`: three
  routers between workers and parties. They differ in how they name sessions: by
  the keys of a slot map, by numbers of their own, by worker and position. The
  first also forms a party by itself as soon as enough sessions are ready.
- `src/farm/party/`: the party. `model.rs` says what a party is and what each
  step does to it, `actor.rs` does it.
- `src/farm/slots.rs`, `src/farm/party/roster.rs`, `src/pairing.rs`: what is
  relied on of `slotmap`, `indexmap` and `bimap`.
- `src/farm/laws/`, `src/farm/party/laws.rs`, `src/farm/party/walk.rs`: what
  holds over several calls, up to the walk of a party of any size from its start
  to its round.
- `src/sim.rs`: a script that plays such a party.
- `app/`: actors, timers and printing around the library.
