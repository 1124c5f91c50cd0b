//! What the program's hub does with the reports of the server.
use crate::farm::actor::Command;
use crate::protocol::ClientType;
use crate::server;
use vstd::prelude::*;

verus! {

/// What the farm is told of a server's report: workers that connect, and what
/// workers send. Other clients do not concern it.
pub open spec fn farm_command(event: server::Event) -> Option<Command> {
    match event {
        server::Event::New(wid, ClientType::Worker) => Some(Command::Connected(wid)),
        server::Event::New(_, ClientType::Client) => None,
        server::Event::Worker(wid, ev) => Some(Command::Worker(wid, ev)),
    }
}

/// Turns a server's report into what the farm is told of it.
pub fn handle_server(event: server::Event) -> (r: Option<Command>)
    ensures
        r == farm_command(event),
{
    match event {
        server::Event::New(wid, ClientType::Worker) => Some(Command::Connected(wid)),
        server::Event::New(_, ClientType::Client) => None,
        server::Event::Worker(wid, ev) => Some(Command::Worker(wid, ev)),
    }
}

} // verus!
