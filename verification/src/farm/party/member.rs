//! The parts a party is made of, and the messages it takes and gives.
use crate::config::Delay;
use crate::ids::{numbers, SessionId};
use crate::path_engine::BotId;
use crate::protocol::game::Team;
use crate::protocol::session;
use vstd::prelude::*;

verus! {

/// A point that all members of a party have to reach together.
#[derive(Debug, Clone, Copy, PartialEq, Eq, Structural)]
pub enum SyncPoint {
    /// Nothing reached yet.
    Waiting,
    /// Invited, or done inviting.
    Ready,
    /// In the lobby.
    Lobby,
    /// A match has been found.
    RecvMatch,
    /// The match has been accepted.
    GameLoading,
    /// In the game, on the right map and in the right round.
    GameReady,
}

/// The menu steps a member is working through.
#[derive(Debug, Clone, Copy, PartialEq, Eq, Structural)]
pub struct InMenuTask {
    /// How many steps there are.
    pub total: usize,
    /// The point the member reaches with the last one.
    pub next_sync: SyncPoint,
}

/// A member of a party.
#[derive(Debug, Clone)]
pub struct Member {
    /// How often the party has started over since the member joined.
    pub sync_epoch: u32,
    /// The point the member has reached.
    pub sync: SyncPoint,
    /// The menu steps in progress.
    pub menu_task: Option<InMenuTask>,
    /// The code by which the member can be invited.
    pub friend_code: String,
    /// The side the member plays on.
    pub team: Option<Team>,
    /// The member's name in the game.
    pub name: Option<String>,
}

/// Members that share a lobby: one who invites, and those invited.
#[derive(Debug, Clone)]
pub struct Group {
    /// The member that invites the others.
    pub master: SessionId,
    /// The members that are invited.
    pub slaves: Vec<SessionId>,
    /// The match the master has found.
    pub match_id: Option<u64>,
}

/// The content of a [`Group`].
#[verifier::ext_equal]
pub struct GroupState {
    /// The number of the session that invites.
    pub master: u64,
    /// The numbers of the sessions that are invited.
    pub slaves: Seq<u64>,
    /// The match the master has found.
    pub match_id: Option<u64>,
}

impl View for Group {
    type V = GroupState;

    open spec fn view(&self) -> GroupState {
        GroupState {
            master: self.master@,
            slaves: numbers(self.slaves@),
            match_id: self.match_id,
        }
    }
}

/// Adds a member to a party.
#[derive(Debug)]
pub struct MemberCreate {
    /// The member's session.
    pub sid: SessionId,
    /// The code by which the member can be invited.
    pub friend_code: String,
}

/// What a party is told.
#[derive(Debug)]
pub enum Command {
    /// A member's session has reported something.
    Member(SessionId, session::Event),
    /// A member's session is gone.
    MemberDead(SessionId),
    /// Group the members and start inviting.
    Start,
    /// Let every member accept the match.
    AcceptMatchNow,
}

/// What a party reports.
#[derive(Debug)]
pub enum Event {
    /// A command for a member's session.
    Session(SessionId, session::Command),
    /// Everybody is in the round, and the engine is running.
    RoundComplete,
    /// The engine has finished.
    Done,
}

/// The content of an [`Event`].
pub enum EventView {
    /// The content of [`Event::Session`].
    Session(u64, session::CommandView),
    /// The content of [`Event::RoundComplete`].
    RoundComplete,
    /// The content of [`Event::Done`].
    Done,
}

impl View for Event {
    type V = EventView;

    open spec fn view(&self) -> EventView {
        match *self {
            Event::Session(sid, cmd) => EventView::Session(sid@, cmd@),
            Event::RoundComplete => EventView::RoundComplete,
            Event::Done => EventView::Done,
        }
    }
}

/// The content of a list of events.
pub open spec fn event_views(events: Seq<Event>) -> Seq<EventView> {
    events.map_values(|e: Event| e@)
}

/// A bot that the engine has to create.
#[derive(Debug)]
pub struct BotPlan {
    /// The session the bot steers.
    pub sid: SessionId,
    /// The bot's name.
    pub name: String,
    /// The side the bot plays on.
    pub team: Team,
}

/// The content of a [`BotPlan`].
pub struct BotPlanView {
    /// The number of the session the bot steers.
    pub sid: u64,
    /// The bot's name.
    pub name: Seq<char>,
    /// The side the bot plays on.
    pub team: Team,
}

impl View for BotPlan {
    type V = BotPlanView;

    open spec fn view(&self) -> BotPlanView {
        BotPlanView { sid: self.sid@, name: self.name@, team: self.team }
    }
}

/// The content of a list of planned bots.
pub open spec fn plan_views(plans: Seq<BotPlan>) -> Seq<BotPlanView> {
    plans.map_values(|p: BotPlan| p@)
}

/// What has to be done once all members have, or have not, reached a point.
#[derive(Debug)]
pub enum SyncStep {
    /// Nothing.
    Idle,
    /// Everybody is ready: send these events, then report how many were
    /// delivered.
    Join(Vec<Event>),
    /// Everybody has the match: accept it after a while.
    AcceptAfter(Delay),
    /// Everybody has a match, but the groups have found different ones, which
    /// are these: the party has started over.
    Mismatch(Vec<u64>),
    /// Everybody is in the game: create an engine with these bots, then report
    /// how far that went.
    Play(Vec<BotPlan>),
}

/// The content of a [`SyncStep`].
pub enum SyncStepView {
    /// The content of [`SyncStep::Idle`].
    Idle,
    /// The content of [`SyncStep::Join`].
    Join(Seq<EventView>),
    /// The content of [`SyncStep::AcceptAfter`].
    AcceptAfter(Delay),
    /// The content of [`SyncStep::Mismatch`].
    Mismatch(Seq<u64>),
    /// The content of [`SyncStep::Play`].
    Play(Seq<BotPlanView>),
}

impl View for SyncStep {
    type V = SyncStepView;

    open spec fn view(&self) -> SyncStepView {
        match *self {
            SyncStep::Idle => SyncStepView::Idle,
            SyncStep::Join(events) => SyncStepView::Join(event_views(events@)),
            SyncStep::AcceptAfter(delay) => SyncStepView::AcceptAfter(delay),
            SyncStep::Mismatch(ids) => SyncStepView::Mismatch(ids@),
            SyncStep::Play(plans) => SyncStepView::Play(plan_views(plans@)),
        }
    }
}

/// What has to be done after a member's report.
#[derive(Debug)]
pub enum MemberStep {
    /// Nothing.
    Idle,
    /// Tell the engine that a bot has completed a step.
    TaskCompleted { bot: BotId, id: usize },
    /// Send the event; once it is delivered, look at the sync points.
    SendThenSync(Event),
    /// Carry out a step that the sync points ask for.
    Sync(SyncStep),
}

/// The content of a [`MemberStep`].
pub enum MemberStepView {
    /// The content of [`MemberStep::Idle`].
    Idle,
    /// The content of [`MemberStep::TaskCompleted`].
    TaskCompleted { bot: BotId, id: usize },
    /// The content of [`MemberStep::SendThenSync`].
    SendThenSync(EventView),
    /// The content of [`MemberStep::Sync`].
    Sync(SyncStepView),
}

impl View for MemberStep {
    type V = MemberStepView;

    open spec fn view(&self) -> MemberStepView {
        match *self {
            MemberStep::Idle => MemberStepView::Idle,
            MemberStep::TaskCompleted { bot, id } => MemberStepView::TaskCompleted { bot, id },
            MemberStep::SendThenSync(event) => MemberStepView::SendThenSync(event@),
            MemberStep::Sync(step) => MemberStepView::Sync(step@),
        }
    }
}

/// What has to be done after a command.
#[derive(Debug)]
pub enum CommandStep {
    /// Nothing.
    Idle,
    /// Carry out what a member's report asks for.
    Member(MemberStep),
    /// Send the invites, then report how many were delivered.
    Invite(Vec<Event>),
    /// Send the orders to accept the match, then report how many were
    /// delivered.
    Accept(Vec<Event>),
}

/// The content of a [`CommandStep`].
pub enum CommandStepView {
    /// The content of [`CommandStep::Idle`].
    Idle,
    /// The content of [`CommandStep::Member`].
    Member(MemberStepView),
    /// The content of [`CommandStep::Invite`].
    Invite(Seq<EventView>),
    /// The content of [`CommandStep::Accept`].
    Accept(Seq<EventView>),
}

impl View for CommandStep {
    type V = CommandStepView;

    open spec fn view(&self) -> CommandStepView {
        match *self {
            CommandStep::Idle => CommandStepView::Idle,
            CommandStep::Member(step) => CommandStepView::Member(step@),
            CommandStep::Invite(events) => CommandStepView::Invite(event_views(events@)),
            CommandStep::Accept(events) => CommandStepView::Accept(event_views(events@)),
        }
    }
}

} // verus!
