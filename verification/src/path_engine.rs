//! The gameplay engine that steers the bots of a party.
use crate::protocol::game::{GameplayTask, Team};
use vstd::prelude::*;

verus! {

/// The id of a bot inside its engine.
#[derive(Debug, Clone, Copy, Hash, PartialEq, Eq, Structural)]
pub struct BotId(pub u32);

/// What a bot reports about itself.
#[derive(Debug, Clone, Copy, PartialEq, Eq, Structural)]
pub enum BotEvent {
    /// How far the bot has come, as the bits of a single-precision fraction.
    Progress(u32),
}

/// What the engine wants a bot's session to do.
#[derive(Debug, Clone)]
pub enum CBotEvent {
    /// Replace the bot's steps, starting at `offset`.
    SetTasks { tasks: Vec<GameplayTask>, offset: usize },
    /// Start the bot.
    Start,
    /// Stop the bot.
    Stop,
    /// Signal the bot.
    Signal,
}

/// What an engine reports.
#[derive(Debug, Clone)]
pub enum Event {
    /// A report of a bot.
    Bot(BotId, BotEvent),
    /// An order for a bot's session.
    CBot(BotId, CBotEvent),
    /// The engine has finished.
    Stop,
}

/// The numbering of an engine's bots.
///
/// Its view is the number of the bot it creates next.
#[derive(Debug)]
pub struct Engine {
    next_id: u32,
}

impl View for Engine {
    type V = u32;

    closed spec fn view(&self) -> u32 {
        self.next_id
    }
}

/// The number after `n`, starting over at zero behind the largest one.
pub open spec fn succ_bot(n: u32) -> u32 {
    if n == u32::MAX {
        0
    } else {
        (n + 1) as u32
    }
}

impl Engine {
    /// An engine without bots.
    pub fn new() -> (r: Self)
        ensures
            r@ == 0,
    {
        Engine { next_id: 0 }
    }

    /// Creates a bot; bots are numbered in the order of their creation, and the
    /// numbers start over at zero behind the largest one.
    pub fn create(&mut self, _name: &str, _team: Team) -> (r: BotId)
        ensures
            r == BotId(old(self)@),
            final(self)@ == succ_bot(old(self)@),
    {
        let id = self.next_id;
        self.next_id = self.next_id.wrapping_add(1);
        BotId(id)
    }
}

/// The number of the bot that an engine creates after `n` others.
pub open spec fn nth_bot(n: nat) -> u32
    decreases n,
{
    if n == 0 {
        0
    } else {
        succ_bot(nth_bot((n - 1) as nat))
    }
}

proof fn lemma_nth_bot(n: nat)
    ensures
        nth_bot(n) == n % 0x1_0000_0000,
    decreases n,
{
    if n > 0 {
        lemma_nth_bot((n - 1) as nat);
    }
}

/// An engine gives no number to two of any 2^32 bots that it creates one after
/// the other.
pub proof fn lemma_bots_are_distinct(i: nat, j: nat)
    requires
        i < j,
        j - i < 0x1_0000_0000,
    ensures
        nth_bot(i) != nth_bot(j),
{
    lemma_nth_bot(i);
    lemma_nth_bot(j);
}

/// The bot after another has one number more, and behind the largest comes zero.
pub proof fn lemma_succ_bot(n: u32)
    ensures
        n < u32::MAX ==> succ_bot(n) == n + 1,
        succ_bot(u32::MAX) == 0,
        nth_bot(n as nat) == n,
{
    lemma_nth_bot(n as nat);
}

} // verus!
