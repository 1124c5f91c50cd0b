//! What a party is, and what each of its steps does to it.
use crate::config::Delay;
use crate::error::Error;
use crate::farm::party::member::{
    BotPlanView, Command, CommandStepView, Event, EventView, GroupState, InMenuTask, Member,
    MemberStepView, SyncPoint, SyncStepView,
};
use crate::ids::{succ_id, PartyId, SessionId};
use crate::pairing::{left_of, one_to_one, paired};
use crate::path_engine;
use crate::path_engine::{BotId, CBotEvent};
use crate::protocol::game;
use crate::protocol::game::{
    GameMap, MatchState, MenuTaskView, Phase, PlayerState, SignOnState, Team,
};
use crate::protocol::session;
use vstd::prelude::*;

verus! {

/// The state of a party.
#[verifier::ext_equal]
pub struct PartyState<E> {
    /// The party's id.
    pub pid: PartyId,
    /// The map the members have to be on.
    pub map: Seq<char>,
    /// The number of players that must be in the party.
    pub party_size: usize,
    /// How long to wait before a match is accepted.
    pub delay: Delay,
    /// The engine that steers the bots.
    pub engine: Option<E>,
    /// The round the members have to be in.
    pub round: usize,
    /// The number of the next group.
    pub next_group: u64,
    /// The members' sessions, in the order in which they joined.
    pub order: Seq<u64>,
    /// The members.
    pub members: Map<u64, Member>,
    /// The numbers of the groups, in the order in which they were formed.
    pub group_ids: Seq<u64>,
    /// The groups.
    pub groups: Map<u64, GroupState>,
    /// The session that each bot steers.
    pub bots: Map<u32, u64>,
}

/// `order` lists every key of `table` once, and nothing else.
pub open spec fn lists<V>(order: Seq<u64>, table: Map<u64, V>) -> bool {
    &&& order.no_duplicates()
    &&& forall|k: u64| #[trigger] table.contains_key(k) <==> order.contains(k)
}

/// Menu steps in progress are at least one, and end in a point that menu steps
/// lead to.
pub open spec fn menu_sound(task: Option<InMenuTask>) -> bool {
    task matches Some(t) ==> {
        &&& t.total >= 1
        &&& (t.next_sync == SyncPoint::Ready || t.next_sync == SyncPoint::Lobby || t.next_sync
            == SyncPoint::GameLoading)
    }
}

/// The steps by which a group's master invites its slaves can be counted.
pub open spec fn group_sound(g: GroupState) -> bool {
    1 + 2 * g.slaves.len() <= usize::MAX
}

impl<E> PartyState<E> {
    /// What holds of every party.
    pub open spec fn wf(self) -> bool {
        &&& lists(self.order, self.members)
        &&& lists(self.group_ids, self.groups)
        &&& one_to_one(self.bots)
        &&& forall|k: u64| #[trigger]
            self.members.contains_key(k) ==> menu_sound(self.members[k].menu_task)
        &&& forall|g: u64| #[trigger] self.groups.contains_key(g) ==> group_sound(self.groups[g])
    }

    /// A party of which nobody is a member yet.
    pub open spec fn fresh(pid: PartyId, map: Seq<char>, party_size: usize, delay: Delay) -> Self {
        PartyState {
            pid,
            map,
            party_size,
            delay,
            engine: None,
            round: 0,
            next_group: 0,
            order: Seq::empty(),
            members: Map::empty(),
            group_ids: Seq::empty(),
            groups: Map::empty(),
            bots: Map::empty(),
        }
    }

    /// The groups in the order in which they were formed.
    pub open spec fn group_seq(self) -> Seq<GroupState> {
        self.group_ids.map_values(|g: u64| self.groups[g])
    }

    /// The party with another value for one member.
    pub open spec fn with_member(self, sid: u64, m: Member) -> Self {
        PartyState { members: self.members.insert(sid, m), ..self }
    }

    /// The party after it has started over: see [`cleared`].
    pub open spec fn restarted(self) -> Self {
        PartyState { members: cleared(self.members), ..self }
    }

    /// The message by which an event of the party is sent.
    pub open spec fn message(self, event: Event) -> (PartyId, Event) {
        (self.pid, event)
    }

    /// The party can start over once more, and play one more round.
    pub open spec fn can_advance(self) -> bool {
        can_clear(self.members) && self.round < usize::MAX
    }

    /// A look at the sync points runs into no limit: where the party starts
    /// over nobody's epoch is at its limit, where a round begins there is
    /// another one.
    pub open spec fn sync_ok(self) -> bool {
        &&& synced(self.members, SyncPoint::RecvMatch) && !synced(self.members, SyncPoint::Ready)
            && !matches_agree(self.group_seq()) ==> can_clear(self.members)
        &&& synced(self.members, SyncPoint::GameReady) && !synced(self.members, SyncPoint::Ready)
            && !synced(self.members, SyncPoint::RecvMatch) ==> self.round < usize::MAX
    }

    /// The party has the number of members it is meant for.
    pub open spec fn complete(self) -> bool {
        self.order.len() == self.party_size
    }

    /// The party can be started: it is complete, and its members can be grouped.
    pub open spec fn can_start(self) -> bool {
        self.complete() && self.can_group()
    }

    /// The refusal to start a party that is not complete.
    pub open spec fn wrong_size(self) -> Error {
        Error::PartySize {
            pid: self.pid,
            members: self.order.len() as usize,
            party_size: self.party_size,
        }
    }

    /// The party has a member to be master, and everybody who was ever grouped
    /// as a slave is still a member.
    pub open spec fn can_group(self) -> bool {
        &&& self.order.len() > 0
        &&& forall|g: u64, i: int|
            #![trigger self.groups[g].slaves[i]]
            self.groups.contains_key(g) && 0 <= i < self.groups[g].slaves.len()
                ==> self.members.contains_key(self.groups[g].slaves[i])
    }

    /// The group that the members form now: the first invites all others.
    pub open spec fn next_group_state(self) -> GroupState {
        GroupState { master: self.order[0], slaves: self.order.skip(1), match_id: None }
    }

    /// The party with its members grouped.
    pub open spec fn grouped(self) -> Self {
        PartyState {
            next_group: succ_id(self.next_group),
            group_ids: if self.groups.contains_key(self.next_group) {
                self.group_ids
            } else {
                self.group_ids.push(self.next_group)
            },
            groups: self.groups.insert(self.next_group, self.next_group_state()),
            ..self
        }
    }
}

impl<E> PartyState<E> {
    /// The party with one more member, who waits; whoever is a member already
    /// starts over in the same place.
    pub open spec fn joined_by(self, sid: u64, friend_code: String) -> Self {
        PartyState {
            order: if self.members.contains_key(sid) {
                self.order
            } else {
                self.order.push(sid)
            },
            members: self.members.insert(sid, fresh_member(friend_code)),
            ..self
        }
    }

    /// The party without a member; the groups stay as they are.
    pub open spec fn left_by(self, sid: u64) -> Self {
        PartyState {
            order: self.order.remove_value(sid),
            members: self.members.remove(sid),
            ..self
        }
    }

    /// The party when `sent` of the events that tell the masters to invite have
    /// been delivered: the masters whose turn came have taken up the inviting.
    pub open spec fn invited(self, sent: nat) -> Self {
        let gs = self.group_seq();
        PartyState {
            members: inviting(self.members, gs.take(groups_reached(gs.len(), sent) as int)),
            ..self
        }
    }

    /// The party when `sent` of the events that tell the slaves to join have
    /// been delivered: the masters and slaves whose turn came move on, and the
    /// party starts over if all were.
    pub open spec fn told_to_join(self, sent: nat) -> Self {
        let gs = self.group_seq();
        let joined = PartyState { members: joining(self.members, gs, sent), ..self };
        if 2 * all_slaves(gs).len() <= sent {
            joined.restarted()
        } else {
            joined
        }
    }

    /// The party with everybody given the step of accepting the match.
    pub open spec fn told_to_accept(self) -> Self {
        PartyState { members: accepting(self.members), ..self }
    }

    /// The party when `sent` of the events that tell everybody to accept the
    /// match have been delivered: it starts over if all were.
    pub open spec fn accepted(self, sent: nat) -> Self {
        if 2 * self.order.len() <= sent {
            self.restarted()
        } else {
            self
        }
    }

    /// The party once the creation of an engine has got as far as the given
    /// bots: each is paired with its player, and if the engine is there the
    /// party starts over.
    pub open spec fn playing(self, created: Seq<BotId>, engine: Option<E>) -> Self {
        let bound = PartyState {
            bots: bots_bound(self.bots, created, players(self.order, self.members)),
            ..self
        };
        if engine is Some {
            PartyState { engine, ..bound.restarted() }
        } else {
            bound
        }
    }

    /// The party once its engine has finished: there is no engine, and no bot.
    pub open spec fn engine_stopped(self) -> Self {
        PartyState { bots: Map::empty(), engine: None, ..self }
    }
}

/// A member of whom nothing but the friend code is known.
pub open spec fn fresh_member(friend_code: String) -> Member {
    Member {
        sync_epoch: 0,
        sync: SyncPoint::Waiting,
        menu_task: None,
        friend_code,
        team: None,
        name: None,
    }
}

/// Nobody's epoch is at its limit.
pub open spec fn can_clear(members: Map<u64, Member>) -> bool {
    forall|k: u64| #[trigger] members.contains_key(k) ==> members[k].sync_epoch < u32::MAX
}

/// A member that waits in the next epoch.
pub open spec fn cleared_member(m: Member) -> Member {
    Member { sync_epoch: (m.sync_epoch + 1) as u32, sync: SyncPoint::Waiting, ..m }
}

/// Everybody waits in the next epoch.
pub open spec fn cleared(members: Map<u64, Member>) -> Map<u64, Member> {
    members.map_values(|m: Member| cleared_member(m))
}

/// `e` is the latest epoch of any member, or zero where there is none.
pub open spec fn is_latest_epoch(members: Map<u64, Member>, e: u32) -> bool {
    &&& forall|k: u64| #[trigger] members.contains_key(k) ==> members[k].sync_epoch <= e
    &&& (exists|k: u64| #[trigger] members.contains_key(k) && members[k].sync_epoch == e) || (e == 0
        && members.is_empty())
}

/// Everybody is at the point, in the given epoch.
pub open spec fn at_point(members: Map<u64, Member>, epoch: u32, point: SyncPoint) -> bool {
    forall|k: u64| #[trigger]
        members.contains_key(k) ==> members[k].sync_epoch == epoch && members[k].sync == point
}

/// Everybody is at the point, in one and the same epoch.
pub open spec fn synced(members: Map<u64, Member>, point: SyncPoint) -> bool {
    &&& forall|k: u64| #[trigger] members.contains_key(k) ==> members[k].sync == point
    &&& same_epoch(members)
}

/// Everybody is in one and the same epoch.
pub open spec fn same_epoch(members: Map<u64, Member>) -> bool {
    forall|a: u64, b: u64| #[trigger]
        members.contains_key(a) && #[trigger] members.contains_key(b) ==> members[a].sync_epoch
            == members[b].sync_epoch
}

/// The session is told to work through the menu steps from the first one on.
pub open spec fn set_menu(sid: u64, tasks: Seq<MenuTaskView>) -> EventView {
    EventView::Session(
        sid,
        session::CommandView::Game(game::CommandView::BotMenuSetTasks { tasks, offset: 0 }),
    )
}

/// The session is told to start with its menu steps.
pub open spec fn start_menu(sid: u64) -> EventView {
    EventView::Session(sid, session::CommandView::Game(game::CommandView::BotMenuStart))
}

/// The session is told to stop its menu bot.
pub open spec fn stop_menu(sid: u64) -> EventView {
    EventView::Session(sid, session::CommandView::Game(game::CommandView::BotMenuStop))
}

/// The steps by which a master invites its slaves one after the other, with a
/// clean menu before and after each invite.
pub open spec fn invite_tasks(members: Map<u64, Member>, slaves: Seq<u64>) -> Seq<MenuTaskView> {
    Seq::new(
        1 + 2 * slaves.len(),
        |i: int|
            if i % 2 == 0 {
                MenuTaskView::Clear
            } else {
                MenuTaskView::SendInvite { code: members[slaves[i / 2]].friend_code@ }
            },
    )
}

/// Every master is told to invite its slaves, and to start.
pub open spec fn invite_events(members: Map<u64, Member>, gs: Seq<GroupState>) -> Seq<EventView> {
    Seq::new(
        2 * gs.len(),
        |i: int|
            if i % 2 == 0 {
                set_menu(gs[i / 2].master, invite_tasks(members, gs[i / 2].slaves))
            } else {
                start_menu(gs[i / 2].master)
            },
    )
}

/// The members when the masters of the groups, one after the other, have taken
/// up the inviting.
pub open spec fn inviting(members: Map<u64, Member>, gs: Seq<GroupState>) -> Map<u64, Member>
    decreases gs.len(),
{
    if gs.len() == 0 {
        members
    } else {
        let before = inviting(members, gs.drop_last());
        let g = gs.last();
        if before.contains_key(g.master) {
            before.insert(
                g.master,
                Member {
                    menu_task: Some(
                        InMenuTask {
                            total: (1 + 2 * g.slaves.len()) as usize,
                            next_sync: SyncPoint::Ready,
                        },
                    ),
                    ..before[g.master]
                },
            )
        } else {
            before
        }
    }
}

/// How many groups are taken up when `sent` events have been delivered: one
/// whose events come next counts, one behind it does not.
pub open spec fn groups_reached(n: nat, sent: nat) -> nat {
    if sent / 2 + 1 <= n {
        sent / 2 + 1
    } else {
        n
    }
}

/// Everybody is told to accept the match, and to start.
pub open spec fn accept_events(order: Seq<u64>) -> Seq<EventView> {
    Seq::new(
        2 * order.len(),
        |i: int|
            if i % 2 == 0 {
                set_menu(order[i / 2], seq![MenuTaskView::AcceptMatch])
            } else {
                start_menu(order[i / 2])
            },
    )
}

/// Everybody has a single step to do, and loads the game with it.
pub open spec fn accepting(members: Map<u64, Member>) -> Map<u64, Member> {
    members.map_values(
        |m: Member|
            Member {
                menu_task: Some(InMenuTask { total: 1, next_sync: SyncPoint::GameLoading }),
                ..m
            },
    )
}

/// The slaves of all groups, group by group.
pub open spec fn all_slaves(gs: Seq<GroupState>) -> Seq<u64>
    decreases gs.len(),
{
    if gs.len() == 0 {
        Seq::empty()
    } else {
        all_slaves(gs.drop_last()) + gs.last().slaves
    }
}

/// Every slave is told to accept the invite, and to start.
pub open spec fn join_events(slaves: Seq<u64>) -> Seq<EventView> {
    Seq::new(
        2 * slaves.len(),
        |i: int|
            if i % 2 == 0 {
                set_menu(slaves[i / 2], seq![MenuTaskView::Clear, MenuTaskView::AcceptInvite])
            } else {
                start_menu(slaves[i / 2])
            },
    )
}

/// The session is the master of a group whose turn has come when `sent` events
/// have been delivered.
pub open spec fn master_reached(gs: Seq<GroupState>, sid: u64, sent: nat) -> bool {
    exists|i: int|
        0 <= i < gs.len() && (#[trigger] gs[i]).master == sid && 2 * all_slaves(gs.take(i)).len()
            <= sent
}

/// The session is a slave whose turn has come when `sent` events have been
/// delivered.
pub open spec fn slave_reached(slaves: Seq<u64>, sid: u64, sent: nat) -> bool {
    exists|p: int| 0 <= p < slaves.len() && #[trigger] slaves[p] == sid && 2 * p <= sent
}

/// A member once the slaves are being told to join: masters are in the lobby,
/// slaves have two steps to do to get there.
pub open spec fn joining_member(gs: Seq<GroupState>, sid: u64, m: Member, sent: nat) -> Member {
    Member {
        sync: if master_reached(gs, sid, sent) {
            SyncPoint::Lobby
        } else {
            m.sync
        },
        menu_task: if slave_reached(all_slaves(gs), sid, sent) {
            Some(InMenuTask { total: 2, next_sync: SyncPoint::Lobby })
        } else {
            m.menu_task
        },
        ..m
    }
}

/// The members once the slaves are being told to join.
pub open spec fn joining(members: Map<u64, Member>, gs: Seq<GroupState>, sent: nat) -> Map<
    u64,
    Member,
> {
    members.map_entries(|sid: u64, m: Member| joining_member(gs, sid, m, sent))
}

/// The matches that the groups have found, in order.
pub open spec fn found_matches(gs: Seq<GroupState>) -> Seq<u64>
    decreases gs.len(),
{
    if gs.len() == 0 {
        Seq::empty()
    } else {
        let before = found_matches(gs.drop_last());
        match gs.last().match_id {
            Some(id) => before.push(id),
            None => before,
        }
    }
}

/// The groups that have found a match have all found the same one.
pub open spec fn matches_agree(gs: Seq<GroupState>) -> bool {
    forall|i: int, j: int|
        #![trigger gs[i], gs[j]]
        0 <= i < gs.len() && 0 <= j < gs.len() && gs[i].match_id is Some && gs[j].match_id is Some
            ==> gs[i].match_id == gs[j].match_id
}

/// The groups once the session has found a match: those it is master of share
/// it.
pub open spec fn matched(groups: Map<u64, GroupState>, sid: u64, match_id: u64) -> Map<
    u64,
    GroupState,
> {
    groups.map_values(|g: GroupState| group_matched(g, sid, match_id))
}

/// A group once the session has found a match.
pub open spec fn group_matched(g: GroupState, sid: u64, match_id: u64) -> GroupState {
    if g.master == sid {
        GroupState { match_id: Some(match_id), ..g }
    } else {
        g
    }
}

/// The groups, in order, once the session has found a match.
pub open spec fn all_matched(gs: Seq<GroupState>, sid: u64, match_id: u64) -> Seq<GroupState> {
    gs.map_values(|g: GroupState| group_matched(g, sid, match_id))
}

/// The team takes part in the game.
pub open spec fn team_plays(team: Team) -> bool {
    team == Team::CounterTerrorists || team == Team::Terrorists
}

/// The member is known to play, and by what name.
pub open spec fn plays(m: Member) -> bool {
    m.name is Some && (m.team matches Some(team) && team_plays(team))
}

/// The sessions of the members that play, in the order in which they joined.
pub open spec fn players(order: Seq<u64>, members: Map<u64, Member>) -> Seq<u64> {
    order.filter(|k: u64| plays(members[k]))
}

/// The bots that the members who play need.
pub open spec fn bot_plan(order: Seq<u64>, members: Map<u64, Member>) -> Seq<BotPlanView> {
    players(order, members).map_values(
        |k: u64|
            BotPlanView { sid: k, name: members[k].name->0@, team: members[k].team->0 },
    )
}

/// The pairing once each bot has been paired with the session at its place.
pub open spec fn bots_bound(bots: Map<u32, u64>, created: Seq<BotId>, sids: Seq<u64>) -> Map<
    u32,
    u64,
>
    decreases created.len(),
{
    if created.len() == 0 {
        bots
    } else {
        paired(
            bots_bound(bots, created.drop_last(), sids),
            created.last().0,
            sids[created.len() - 1],
        )
    }
}

/// What a member's report makes of the party, before anybody looks at the sync
/// points; `None` where the report is of no interest.
pub open spec fn noted<E>(s: PartyState<E>, sid: u64, event: session::Event) -> Option<
    PartyState<E>,
> {
    let m = s.members[sid];
    match event {
        session::Event::Game(game::Event::InviteReceived) => Some(
            s.with_member(sid, Member { sync: SyncPoint::Ready, ..m }),
        ),
        session::Event::Game(game::Event::MatchReceived { match_id }) => Some(
            PartyState {
                groups: matched(s.groups, sid, match_id),
                ..s.with_member(sid, Member { sync: SyncPoint::RecvMatch, ..m })
            },
        ),
        session::Event::Game(
            game::Event::StateUpdate {
                sign_on_state: SignOnState::Full,
                player: Some(PlayerState { team, name }),
                map: GameMap::Base { name: map_name },
                match_state: Some(MatchState { phase: Phase::Round { number }, freeze: false }),
            },
        ) => if map_name@ == s.map && team_plays(team) && number == s.round {
            Some(
                s.with_member(
                    sid,
                    Member {
                        name: Some(name),
                        team: Some(team),
                        sync: SyncPoint::GameReady,
                        ..m
                    },
                ),
            )
        } else {
            None
        },
        session::Event::Game(game::Event::MenuTaskCompleted { id }) => match m.menu_task {
            Some(task) => if id + 1 == task.total {
                Some(s.with_member(sid, Member { menu_task: None, sync: task.next_sync, ..m }))
            } else {
                None
            },
            None => None,
        },
        _ => None,
    }
}

/// The party after a look at the sync points.
pub open spec fn sync_state<E>(s: PartyState<E>) -> PartyState<E> {
    if synced(s.members, SyncPoint::Ready) {
        s
    } else if synced(s.members, SyncPoint::RecvMatch) {
        if matches_agree(s.group_seq()) {
            s
        } else {
            s.restarted()
        }
    } else if synced(s.members, SyncPoint::GameReady) {
        PartyState { round: (s.round + 1) as usize, ..s }
    } else {
        s
    }
}

/// What the sync points ask for.
pub open spec fn sync_step<E>(s: PartyState<E>) -> SyncStepView {
    if synced(s.members, SyncPoint::Ready) {
        SyncStepView::Join(join_events(all_slaves(s.group_seq())))
    } else if synced(s.members, SyncPoint::RecvMatch) {
        if matches_agree(s.group_seq()) {
            SyncStepView::AcceptAfter(s.delay)
        } else {
            SyncStepView::Mismatch(found_matches(s.group_seq()))
        }
    } else if synced(s.members, SyncPoint::GameReady) {
        SyncStepView::Play(bot_plan(s.order, s.members))
    } else {
        SyncStepView::Idle
    }
}

/// What the engine's order for a bot means for the session it steers.
pub open spec fn bot_command(event: CBotEvent) -> game::CommandView {
    match event {
        CBotEvent::SetTasks { tasks, offset } => game::CommandView::BotGameplaySetTasks {
            tasks: tasks@,
            offset,
        },
        CBotEvent::Start => game::CommandView::BotGameplayStart,
        CBotEvent::Stop => game::CommandView::BotGameplayStop,
        CBotEvent::Signal => game::CommandView::BotGameplaySignal,
    }
}

/// The event by which the engine's order reaches the bot's session, if the bot
/// steers one.
pub open spec fn cbot_event(bots: Map<u32, u64>, id: BotId, event: CBotEvent) -> Option<
    EventView,
> {
    if bots.contains_key(id.0) {
        Some(EventView::Session(bots[id.0], session::CommandView::Game(bot_command(event))))
    } else {
        None
    }
}

/// A member's report runs into no limit.
pub open spec fn report_ok<E>(s: PartyState<E>, sid: u64, event: session::Event) -> bool {
    s.members.contains_key(sid) ==> match event {
        session::Event::Game(game::Event::MenuTaskCompleted { id }) => {
            s.members[sid].menu_task is Some ==> id < usize::MAX
        },
        _ => noted(s, sid, event) matches Some(after) ==> after.sync_ok(),
    }
}

/// The party after a member's report.
pub open spec fn report_state<E>(s: PartyState<E>, sid: u64, event: session::Event) -> PartyState<
    E,
> {
    if !s.members.contains_key(sid) {
        s
    } else {
        match noted(s, sid, event) {
            Some(after) => match event {
                session::Event::Game(game::Event::MenuTaskCompleted { .. }) => after,
                _ => sync_state(after),
            },
            None => s,
        }
    }
}

/// What a member's report asks for, or why it cannot be taken.
pub open spec fn report_step<E>(s: PartyState<E>, sid: SessionId, event: session::Event) -> Result<
    MemberStepView,
    Error,
> {
    if !s.members.contains_key(sid@) {
        Err(Error::SessionNotFound(sid))
    } else {
        match event {
            session::Event::Game(game::Event::BotTaskCompleted { id }) => {
                match left_of(s.bots, sid@) {
                    Some(bot) => if s.engine is Some {
                        Ok(MemberStepView::TaskCompleted { bot: BotId(bot), id })
                    } else {
                        Err(Error::NoEngine)
                    },
                    None => Err(Error::SessionNotFound(sid)),
                }
            },
            session::Event::Game(game::Event::MenuTaskCompleted { .. }) => {
                if noted(s, sid@, event) is Some {
                    Ok(MemberStepView::SendThenSync(stop_menu(sid@)))
                } else {
                    Ok(MemberStepView::Idle)
                }
            },
            _ => match noted(s, sid@, event) {
                Some(after) => Ok(MemberStepView::Sync(sync_step(after))),
                None => Ok(MemberStepView::Idle),
            },
        }
    }
}

/// What a report of the engine makes the party send.
pub open spec fn engine_answer(bots: Map<u32, u64>, event: path_engine::Event) -> Option<
    EventView,
> {
    match event {
        path_engine::Event::Bot(_, _) => None,
        path_engine::Event::CBot(id, order) => cbot_event(bots, id, order),
        path_engine::Event::Stop => Some(EventView::Done),
    }
}

/// The party after a report of the engine.
pub open spec fn engine_state<E>(s: PartyState<E>, event: path_engine::Event) -> PartyState<E> {
    match event {
        path_engine::Event::Stop => s.engine_stopped(),
        _ => s,
    }
}

/// What a command asks for, or why it is refused.
pub open spec fn command_step<E>(s: PartyState<E>, cmd: Command) -> Result<CommandStepView, Error> {
    match cmd {
        Command::Member(sid, event) => match report_step(s, sid, event) {
            Ok(step) => Ok(CommandStepView::Member(step)),
            Err(e) => Err(e),
        },
        Command::MemberDead(_) => Ok(CommandStepView::Idle),
        Command::Start => if s.complete() {
            Ok(CommandStepView::Invite(invite_events(s.members, s.grouped().group_seq())))
        } else {
            Err(s.wrong_size())
        },
        Command::AcceptMatchNow => Ok(CommandStepView::Accept(accept_events(s.order))),
    }
}

/// The party after a command.
pub open spec fn command_state<E>(s: PartyState<E>, cmd: Command) -> PartyState<E> {
    match cmd {
        Command::Member(sid, event) => report_state(s, sid@, event),
        Command::MemberDead(sid) => s.left_by(sid@),
        Command::Start => if s.complete() {
            s.grouped()
        } else {
            s
        },
        Command::AcceptMatchNow => s.told_to_accept(),
    }
}

} // verus!
