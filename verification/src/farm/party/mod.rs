//! A party: the members that play one lobby together.
pub mod actor;
pub mod effects;
pub mod events;
pub mod laws;
pub mod member;
pub mod model;
pub mod orders;
pub mod reports;
pub mod roster;
pub mod tables;
pub mod walk;

use crate::farm::layout::PartyLayout;
use crate::farm::party::member::{Command, MemberCreate};
use crate::ids::{PartyKey, SessionKey};
use crate::protocol::session;
use vstd::prelude::*;

verus! {

/// What the farm knows of a party: its key, and what it is set up for.
///
/// Its methods word the messages for the party.
#[derive(Debug)]
pub struct Party {
    /// The party's key.
    pub pid: PartyKey,
    /// What the party is set up for.
    pub layout: PartyLayout,
}

impl Party {
    /// A party under the given key.
    pub fn new(pid: PartyKey, layout: PartyLayout) -> (r: Self)
        ensures
            r == (Party { pid, layout }),
    {
        Party { pid, layout }
    }

    /// Asks the party to add a member.
    pub fn create(&self, sid: SessionKey, friend_code: &str) -> (r: MemberCreate)
        ensures
            r.sid == sid,
            r.friend_code@ == friend_code@,
    {
        MemberCreate { sid, friend_code: friend_code.to_owned() }
    }

    /// Asks the party to start.
    pub fn start(&self) -> (r: Command)
        ensures
            r == Command::Start,
    {
        Command::Start
    }

    /// Passes the report of a member's session on to the party.
    pub fn send_member(&self, sid: SessionKey, event: session::Event) -> (r: Command)
        ensures
            r == Command::Member(sid, event),
    {
        Command::Member(sid, event)
    }

    /// Tells the party that a member's session is gone.
    pub fn member_dead(&self, sid: SessionKey) -> (r: Command)
        ensures
            r == Command::MemberDead(sid),
    {
        Command::MemberDead(sid)
    }
}

} // verus!
