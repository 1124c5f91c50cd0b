//! Routing and party coordination for a farm of game sessions.
//!
//! Workers host sessions; sessions are grouped into parties; every party walks
//! its members through invites, a lobby, a match and a round. The modules here
//! hold the decisions of that process as plain state machines: each step takes
//! an input, changes the state, and returns the messages that have to be sent.
//! Delivering them is the caller's part.
pub mod config;
pub mod decimal;
pub mod error;
pub mod farm;
pub mod hub;
pub mod ids;
pub mod pairing;
pub mod path_engine;
pub mod prelude;
pub mod protocol;
pub mod server;
pub mod sim;
pub mod sim_laws;
