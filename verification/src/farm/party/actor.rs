//! The party's state machine.
use crate::config::Delay;
use crate::error::Error;
use crate::farm::layout::PartyLayout;
use crate::farm::party::events::{
    accepting_events, inviting_events, joining_events, stop_menu_event,
};
use crate::farm::party::laws::lemma_last_arrival;
use crate::farm::party::member::{
    event_views, plan_views, BotPlan, Command, CommandStep, CommandStepView, Event, Group,
    GroupState, Member, MemberCreate, MemberStep, MemberStepView, SyncPoint, SyncStep, SyncStepView,
};
use crate::farm::party::model::{
    accept_events, all_matched, all_slaves, at_point, bot_plan, bots_bound, can_clear, cbot_event,
    command_state, command_step, engine_answer, engine_state, found_matches, group_sound,
    invite_events, inviting, is_latest_epoch, join_events, lists, matched, matches_agree,
    menu_sound, noted, players, report_ok, report_state, report_step, sync_state, sync_step, synced,
    PartyState,
};
use crate::farm::party::roster::{
    bot_pairs, bots_clear, bots_get_by_left, bots_get_by_right, bots_new, group_map, group_order,
    groups_get_index, groups_insert, groups_len, groups_new, member_map, member_order, members_get,
    members_get_index, members_get_mut, members_insert, members_len, members_new,
    members_shift_remove,
};
use crate::farm::party::tables::{
    accept_members, agree, all_members, bind_bots, clear_members, everybody_at, group_views,
    groups_in_order, latest_epoch, mark_inviting, mark_joins, matches_found, members_can_clear,
    note_match, others_at, plan_bots, slaves_of,
};
use crate::ids::{numbers, GroupTag, IdGen, PartyId, SessionId};
use crate::pairing::{lemma_left_of, lemma_paired, one_to_one};
use crate::path_engine;
use crate::path_engine::{BotId, CBotEvent};
use crate::protocol::game;
use crate::protocol::game::{GameMap, MatchState, Phase, PlayerState, SignOnState, Team};
use crate::protocol::session;
use bimap::BiHashMap;
use indexmap::IndexMap;
use vstd::prelude::*;

verus! {

/// A party that walks its members from invite to round.
///
/// `E` is whatever handle stands for the engine that steers the bots.
pub struct PartyActor<E> {
    pid: PartyId,
    layout: PartyLayout,
    accept_match_delay: Delay,
    engine: Option<E>,
    round: usize,
    group_gen: IdGen<GroupTag>,
    members: IndexMap<u64, Member>,
    groups: IndexMap<u64, Group>,
    bot_to_session: BiHashMap<u32, u64>,
}

impl<E> View for PartyActor<E> {
    type V = PartyState<E>;

    closed spec fn view(&self) -> PartyState<E> {
        PartyState {
            pid: self.pid,
            map: self.layout.map@,
            party_size: self.layout.party_size,
            delay: self.accept_match_delay,
            engine: self.engine,
            round: self.round,
            next_group: self.group_gen@,
            order: member_order(self.members),
            members: member_map(self.members),
            group_ids: group_order(self.groups),
            groups: group_views(self.groups),
            bots: bot_pairs(self.bot_to_session),
        }
    }
}

impl<E> PartyActor<E> {
    /// A party without members.
    pub fn new(pid: PartyId, layout: PartyLayout, accept_match_delay: Delay) -> (r: Self)
        ensures
            r@ == PartyState::<E>::fresh(pid, layout.map@, layout.party_size, accept_match_delay),
            r@.wf(),
    {
        let r = PartyActor {
            pid,
            layout,
            accept_match_delay,
            engine: None,
            round: 0,
            group_gen: IdGen::default(),
            members: members_new(),
            groups: groups_new(),
            bot_to_session: bots_new(),
        };
        assert(r@.groups =~= Map::empty());
        r
    }

    /// Adds a member who waits; whoever is a member already starts over in the
    /// same place.
    pub fn create_member(&mut self, create: MemberCreate)
        requires
            old(self)@.wf(),
        ensures
            final(self)@.wf(),
            final(self)@ == old(self)@.joined_by(create.sid@, create.friend_code),
    {
        let MemberCreate { sid, friend_code } = create;
        let member = Member {
            sync_epoch: 0,
            sync: SyncPoint::Waiting,
            menu_task: None,
            friend_code,
            team: None,
            name: None,
        };
        members_insert(&mut self.members, sid.inner(), member);
        proof {
            lemma_lists_insert(old(self)@.order, old(self)@.members, sid@, member);
        }
    }

    /// Takes a member out; the groups stay as they are.
    pub fn member_dead(&mut self, sid: SessionId)
        requires
            old(self)@.wf(),
        ensures
            final(self)@.wf(),
            final(self)@ == old(self)@.left_by(sid@),
    {
        members_shift_remove(&mut self.members, sid.inner());
        proof {
            lemma_lists_remove(old(self)@.order, old(self)@.members, sid@);
        }
    }

    /// Moves everybody on to the next epoch, waiting.
    pub fn clear_sync(&mut self)
        requires
            old(self)@.wf(),
            can_clear(old(self)@.members),
        ensures
            final(self)@.wf(),
            final(self)@ == old(self)@.restarted(),
    {
        clear_members(&mut self.members);
    }

    /// The latest epoch of any member, or zero where there is none.
    pub fn current_epoch(&self) -> (r: u32)
        requires
            self@.wf(),
        ensures
            is_latest_epoch(self@.members, r),
    {
        latest_epoch(&self.members)
    }

    /// Whether everybody is at the point, in the given epoch.
    pub fn all_at(&self, epoch: u32, point: SyncPoint) -> (r: bool)
        requires
            self@.wf(),
        ensures
            r == at_point(self@.members, epoch, point),
    {
        everybody_at(&self.members, epoch, point)
    }
}

/// In a well-formed party, the groups in order are those of the table.
proof fn lemma_group_seq<E>(p: PartyActor<E>)
    requires
        p@.wf(),
    ensures
        p@.group_seq() == groups_in_order(p.groups),
        forall|i: int| 0 <= i < p@.group_seq().len() ==> group_sound(#[trigger] p@.group_seq()[i]),
        lists(group_order(p.groups), group_map(p.groups)),
{
    assert forall|i: int| 0 <= i < p@.group_ids.len() implies p@.groups.contains_key(
        #[trigger] p@.group_ids[i],
    ) by {
        assert(p@.group_ids.contains(p@.group_ids[i]));
    }
    assert(p@.group_seq() =~= groups_in_order(p.groups));
    assert(lists(group_order(p.groups), group_map(p.groups))) by {
        assert forall|k: u64| #[trigger]
            group_map(p.groups).contains_key(k) <==> group_order(p.groups).contains(k) by {
            assert(p@.groups.contains_key(k) == group_map(p.groups).contains_key(k));
        }
    }
}

impl<E> PartyActor<E> {
    /// Groups the members, the first one inviting all others, and returns the
    /// events by which every master is told to invite. The caller sends them in
    /// order up to the first failure, then calls [`PartyActor::invites_sent`].
    ///
    /// A party that does not have the number of members it is meant for is not
    /// started.
    pub fn start_party(&mut self) -> (r: Result<Vec<Event>, Error>)
        requires
            old(self)@.wf(),
            old(self)@.complete() ==> old(self)@.can_group(),
        ensures
            final(self)@.wf(),
            !old(self)@.complete() ==> {
                &&& r == Err::<Vec<Event>, Error>(old(self)@.wrong_size())
                &&& final(self)@ == old(self)@
            },
            old(self)@.complete() ==> {
                &&& r is Ok
                &&& final(self)@ == old(self)@.grouped()
                &&& event_views(r->Ok_0@) == invite_events(
                    old(self)@.members,
                    final(self)@.group_seq(),
                )
            },
    {
        let members = members_len(&self.members);
        if members != self.layout.party_size {
            return Err(
                Error::PartySize { pid: self.pid, members, party_size: self.layout.party_size },
            );
        }
        let ghost before = self@;
        let ghost order = self@.order;
        let mut slaves = self.member_ids();
        assert(slaves@.len() == numbers(slaves@).len());
        let master = slaves.remove(0);
        assert(numbers(slaves@) =~= order.skip(1));
        let gid = self.group_gen.next();
        let group = Group { master, slaves, match_id: None };
        assert(group@ =~= before.next_group_state());
        groups_insert(&mut self.groups, gid.inner(), group);
        assert(self@.groups =~= before.groups.insert(gid@, group@));
        assert(self@ =~= before.grouped());
        proof {
            lemma_lists_insert(before.group_ids, before.groups, gid@, group@);
            assert forall|g: u64, i: int|
                #![trigger group_map(self.groups)[g]@.slaves[i]]
                group_map(self.groups).contains_key(g) && 0 <= i < group_map(
                    self.groups,
                )[g]@.slaves.len() implies member_map(self.members).contains_key(
                group_map(self.groups)[g]@.slaves[i],
            ) by {
                if g == gid@ {
                    assert(group@.slaves[i] == order[i + 1]);
                    assert(order.contains(order[i + 1]));
                } else {
                    assert(before.groups.contains_key(g));
                    assert(before.groups[g].slaves[i] == group_map(self.groups)[g]@.slaves[i]);
                }
            }
        }
        let events = inviting_events(&self.members, &self.groups);
        proof {
            let gs = groups_in_order(self.groups);
            assert forall|i: int| 0 <= i < self@.group_ids.len() implies self@.groups.contains_key(
                #[trigger] self@.group_ids[i],
            ) by {
                assert(self@.group_ids.contains(self@.group_ids[i]));
            }
            assert(self@.group_seq() =~= gs);
            assert forall|g: u64| #[trigger] self@.groups.contains_key(g) implies group_sound(
                self@.groups[g],
            ) by {
                let i = self@.group_ids.index_of(g);
                assert(self@.group_ids[i] == g);
                assert(gs[i] == self@.groups[g]);
            }
        }
        Ok(events)
    }

    /// Notes how many of the events of [`PartyActor::start_party`] were
    /// delivered: the masters of the groups whose turn came have taken up the
    /// inviting.
    pub fn invites_sent(&mut self, sent: usize)
        requires
            old(self)@.wf(),
        ensures
            final(self)@.wf(),
            final(self)@ == old(self)@.invited(sent as nat),
    {
        proof {
            lemma_group_seq(*self);
        }
        let n = groups_len(&self.groups);
        let reach = if sent / 2 < n {
            sent / 2 + 1
        } else {
            n
        };
        mark_inviting(&mut self.members, &self.groups, reach);
        proof {
            lemma_inviting(old(self)@.members, old(self)@.group_seq().take(reach as int));
        }
    }

    /// Gives everybody the step of accepting the match, and returns the events
    /// by which they are told. The caller sends them in order up to the first
    /// failure, then calls [`PartyActor::accepts_sent`].
    pub fn send_accept_match(&mut self) -> (r: Vec<Event>)
        requires
            old(self)@.wf(),
        ensures
            final(self)@.wf(),
            final(self)@ == old(self)@.told_to_accept(),
            event_views(r@) == accept_events(old(self)@.order),
    {
        accept_members(&mut self.members);
        accepting_events(&self.members)
    }

    /// Notes how many of the events of [`PartyActor::send_accept_match`] were
    /// delivered: if all were, the party starts over.
    pub fn accepts_sent(&mut self, sent: usize)
        requires
            old(self)@.wf(),
            2 * old(self)@.order.len() <= sent ==> can_clear(old(self)@.members),
        ensures
            final(self)@.wf(),
            final(self)@ == old(self)@.accepted(sent as nat),
    {
        if members_len(&self.members) <= sent / 2 {
            self.clear_sync();
        }
    }

    /// The events by which every slave is told to join its master. The caller
    /// sends them in order up to the first failure, then calls
    /// [`PartyActor::joins_sent`].
    pub fn on_all_ready(&self) -> (r: Vec<Event>)
        requires
            self@.wf(),
        ensures
            event_views(r@) == join_events(all_slaves(self@.group_seq())),
    {
        proof {
            lemma_group_seq(*self);
        }
        let slaves = slaves_of(&self.groups);
        joining_events(&slaves)
    }

    /// Notes how many of the events of [`PartyActor::on_all_ready`] were
    /// delivered: the masters and slaves whose turn came move on, and if all
    /// were delivered, the party starts over.
    pub fn joins_sent(&mut self, sent: usize)
        requires
            old(self)@.wf(),
            2 * all_slaves(old(self)@.group_seq()).len() <= sent ==> can_clear(
                old(self)@.members,
            ),
        ensures
            final(self)@.wf(),
            final(self)@ == old(self)@.told_to_join(sent as nat),
    {
        proof {
            lemma_group_seq(*self);
        }
        let slaves = slaves_of(&self.groups);
        assert(slaves.len() == numbers(slaves@).len());
        mark_joins(&mut self.members, &self.groups, &slaves, sent);
        if slaves.len() <= sent / 2 {
            self.clear_sync();
        }
    }

    /// What follows once everybody has a match: it is accepted after a while if
    /// the groups agree on it; if not, the party starts over, and the matches
    /// that they have found are returned.
    pub fn on_all_recv_match(&mut self) -> (r: SyncStep)
        requires
            old(self)@.wf(),
            !matches_agree(old(self)@.group_seq()) ==> can_clear(old(self)@.members),
        ensures
            final(self)@.wf(),
            matches_agree(old(self)@.group_seq()) ==> {
                &&& final(self)@ == old(self)@
                &&& r == SyncStep::AcceptAfter(old(self)@.delay)
            },
            !matches_agree(old(self)@.group_seq()) ==> {
                &&& final(self)@ == old(self)@.restarted()
                &&& r@ == SyncStepView::Mismatch(found_matches(old(self)@.group_seq()))
            },
    {
        proof {
            lemma_group_seq(*self);
        }
        let found = matches_found(&self.groups, None);
        if !agree(&found, Ghost(self@.group_seq())) {
            self.clear_sync();
            return SyncStep::Mismatch(found);
        }
        SyncStep::AcceptAfter(self.accept_match_delay)
    }

    /// Begins the next round, and returns the bots it needs. The caller creates
    /// an engine with these bots in order up to the first failure, then calls
    /// [`PartyActor::game_started`].
    pub fn on_all_game_ready(&mut self) -> (r: Vec<BotPlan>)
        requires
            old(self)@.wf(),
            old(self)@.round < usize::MAX,
        ensures
            final(self)@.wf(),
            final(self)@ == (PartyState { round: (old(self)@.round + 1) as usize, ..old(self)@ }),
            plan_views(r@) == bot_plan(old(self)@.order, old(self)@.members),
    {
        self.round = self.round + 1;
        plan_bots(&self.members)
    }

    /// Notes how far the creation of an engine went: `created` are the bots it
    /// has, `engine` is there if all of them were created and it was started.
    /// Then the party starts over and reports the round; otherwise only the
    /// pairing of the bots is kept.
    pub fn game_started(&mut self, created: Vec<BotId>, engine: Option<E>) -> (r: Option<Event>)
        requires
            old(self)@.wf(),
            created@.len() <= players(old(self)@.order, old(self)@.members).len(),
            engine is Some ==> can_clear(old(self)@.members),
        ensures
            final(self)@.wf(),
            final(self)@ == old(self)@.playing(created@, engine),
            r == (if engine is Some {
                Some(Event::RoundComplete)
            } else {
                None
            }),
    {
        let plan = plan_bots(&self.members);
        let ghost sids = players(self@.order, self@.members);
        proof {
            assert(plan_views(plan@).len() == sids.len());
            assert forall|i: int| 0 <= i < plan@.len() implies (#[trigger] plan@[i]).sid@
                == sids[i] by {
                assert(plan_views(plan@)[i].sid == sids[i]);
            }
            lemma_bots_bound(self@.bots, created@, sids);
        }
        bind_bots(&mut self.bot_to_session, &plan, &created, Ghost(sids));
        match engine {
            Some(e) => {
                self.engine = Some(e);
                self.clear_sync();
                Some(Event::RoundComplete)
            },
            None => None,
        }
    }

    /// Looks at the sync points.
    pub fn sync_update(&mut self) -> (r: SyncStep)
        requires
            old(self)@.wf(),
            old(self)@.sync_ok(),
        ensures
            final(self)@.wf(),
            final(self)@ == sync_state(old(self)@),
            r@ == sync_step(old(self)@),
    {
        let epoch = self.current_epoch();
        proof {
            lemma_synced(self@.members, epoch, SyncPoint::Ready);
            lemma_synced(self@.members, epoch, SyncPoint::RecvMatch);
            lemma_synced(self@.members, epoch, SyncPoint::GameReady);
        }
        if self.all_at(epoch, SyncPoint::Ready) {
            return SyncStep::Join(self.on_all_ready());
        }
        if self.all_at(epoch, SyncPoint::RecvMatch) {
            return self.on_all_recv_match();
        }
        if self.all_at(epoch, SyncPoint::GameReady) {
            return SyncStep::Play(self.on_all_game_ready());
        }
        SyncStep::Idle
    }
}

impl<E> PartyActor<E> {
    /// Passes the engine's order for a bot on to the session it steers; a bot
    /// that steers none is ignored.
    pub fn handle_cbot(&self, id: BotId, event: CBotEvent) -> (r: Option<Event>)
        requires
            self@.wf(),
        ensures
            match r {
                Some(e) => cbot_event(self@.bots, id, event) == Some(e@),
                None => cbot_event(self@.bots, id, event) is None,
            },
    {
        match bots_get_by_left(&self.bot_to_session, id.0) {
            None => None,
            Some(raw) => {
                let cmd = match event {
                    CBotEvent::SetTasks { tasks, offset } => {
                        game::Command::BotGameplaySetTasks { tasks, offset }
                    },
                    CBotEvent::Start => game::Command::BotGameplayStart,
                    CBotEvent::Stop => game::Command::BotGameplayStop,
                    CBotEvent::Signal => game::Command::BotGameplaySignal,
                };
                Some(Event::Session(SessionId::from_raw(raw), session::Command::Game(cmd)))
            },
        }
    }

    /// Takes a report of the engine: progress is ignored, orders for bots are
    /// passed on, and when the engine has finished its bots are forgotten and
    /// the party is done.
    pub fn handle_engine(&mut self, event: path_engine::Event) -> (r: Option<Event>)
        requires
            old(self)@.wf(),
        ensures
            final(self)@.wf(),
            match event {
                path_engine::Event::Bot(_, _) => r is None && final(self)@ == old(self)@,
                path_engine::Event::CBot(id, ev) => {
                    &&& final(self)@ == old(self)@
                    &&& match r {
                        Some(e) => cbot_event(old(self)@.bots, id, ev) == Some(e@),
                        None => cbot_event(old(self)@.bots, id, ev) is None,
                    }
                },
                path_engine::Event::Stop => {
                    &&& final(self)@ == old(self)@.engine_stopped()
                    &&& r == Some(Event::Done)
                },
            },
            final(self)@ == engine_state(old(self)@, event),
            match r {
                Some(e) => engine_answer(old(self)@.bots, event) == Some(e@),
                None => engine_answer(old(self)@.bots, event) is None,
            },
    {
        match event {
            path_engine::Event::Bot(_, _) => None,
            path_engine::Event::CBot(id, ev) => self.handle_cbot(id, ev),
            path_engine::Event::Stop => {
                bots_clear(&mut self.bot_to_session);
                self.engine = None;
                Some(Event::Done)
            },
        }
    }

    /// Takes a report of a member's session.
    pub fn handle_member(&mut self, sid: SessionId, event: session::Event) -> (r: Result<
        MemberStep,
        Error,
    >)
        requires
            old(self)@.wf(),
            report_ok(old(self)@, sid@, event),
        ensures
            final(self)@.wf(),
            final(self)@ == report_state(old(self)@, sid@, event),
            match r {
                Ok(step) => report_step(old(self)@, sid, event) == Ok::<MemberStepView, Error>(
                    step@,
                ),
                Err(e) => report_step(old(self)@, sid, event) == Err::<MemberStepView, Error>(e),
            },
    {
        let ghost before = self@;
        let key = sid.inner();
        if members_get(&self.members, key).is_none() {
            return Err(Error::SessionNotFound(sid));
        }
        match event {
            session::Event::Game(game::Event::InviteReceived) => {
                if let Some(member) = members_get_mut(&mut self.members, key) {
                    member.sync = SyncPoint::Ready;
                }
                assert(noted(before, sid@, event) == Some(self@));
                proof {
                    lemma_member_changed(before, sid@, self@.members[sid@]);
                }
                Ok(MemberStep::Sync(self.sync_update()))
            },
            session::Event::Game(game::Event::MatchReceived { match_id }) => {
                proof {
                    lemma_group_seq(*self);
                }
                note_match(&mut self.groups, sid, match_id);
                if let Some(member) = members_get_mut(&mut self.members, key) {
                    member.sync = SyncPoint::RecvMatch;
                }
                assert(noted(before, sid@, event) == Some(self@));
                proof {
                    lemma_member_changed(before, sid@, self@.members[sid@]);
                    lemma_matched(before, sid@, match_id);
                }
                Ok(MemberStep::Sync(self.sync_update()))
            },
            session::Event::Game(
                game::Event::StateUpdate {
                    sign_on_state: SignOnState::Full,
                    player: Some(PlayerState { team, name }),
                    map: GameMap::Base { name: map_name },
                    match_state: Some(MatchState { phase: Phase::Round { number }, freeze: false }),
                },
            ) => {
                if map_name == self.layout.map && matches!(
                    team,
                    Team::CounterTerrorists | Team::Terrorists
                ) && number as usize == self.round {
                    if let Some(member) = members_get_mut(&mut self.members, key) {
                        member.name = Some(name);
                        member.team = Some(team);
                        member.sync = SyncPoint::GameReady;
                    }
                    assert(noted(before, sid@, event) == Some(self@));
                    proof {
                        lemma_member_changed(before, sid@, self@.members[sid@]);
                    }
                    Ok(MemberStep::Sync(self.sync_update()))
                } else {
                    Ok(MemberStep::Idle)
                }
            },
            session::Event::Game(game::Event::BotTaskCompleted { id }) => {
                match bots_get_by_right(&self.bot_to_session, key) {
                    None => Err(Error::SessionNotFound(sid)),
                    Some(bot) => {
                        proof {
                            lemma_left_of(self@.bots, bot);
                        }
                        if self.engine.is_none() {
                            return Err(Error::NoEngine);
                        }
                        Ok(MemberStep::TaskCompleted { bot: BotId(bot), id })
                    },
                }
            },
            session::Event::Game(game::Event::MenuTaskCompleted { id }) => {
                if let Some(member) = members_get_mut(&mut self.members, key) {
                    if let Some(task) = member.menu_task {
                        if id + 1 == task.total {
                            member.menu_task = None;
                            member.sync = task.next_sync;
                            assert(noted(before, sid@, event) == Some(self@));
                            proof {
                                lemma_member_changed(before, sid@, self@.members[sid@]);
                            }
                            return Ok(MemberStep::SendThenSync(stop_menu_event(sid)));
                        }
                    }
                }
                assert(self@ =~= before);
                Ok(MemberStep::Idle)
            },
            _ => Ok(MemberStep::Idle),
        }
    }
}

impl<E> PartyActor<E> {
    /// Takes a command.
    pub fn handle(&mut self, cmd: Command) -> (r: Result<CommandStep, Error>)
        requires
            old(self)@.wf(),
            match cmd {
                Command::Member(sid, event) => report_ok(old(self)@, sid@, event),
                Command::Start => old(self)@.complete() ==> old(self)@.can_group(),
                _ => true,
            },
        ensures
            final(self)@.wf(),
            match cmd {
                Command::Member(sid, event) => {
                    &&& final(self)@ == report_state(old(self)@, sid@, event)
                    &&& match r {
                        Ok(step) => step@ is Member && report_step(old(self)@, sid, event)
                            == Ok::<MemberStepView, Error>(step@->Member_0),
                        Err(e) => report_step(old(self)@, sid, event) == Err::<
                            MemberStepView,
                            Error,
                        >(e),
                    }
                },
                Command::MemberDead(sid) => {
                    &&& final(self)@ == old(self)@.left_by(sid@)
                    &&& r == Ok::<CommandStep, Error>(CommandStep::Idle)
                },
                Command::Start => if old(self)@.complete() {
                    &&& final(self)@ == old(self)@.grouped()
                    &&& r is Ok
                    &&& r->Ok_0@ == CommandStepView::Invite(
                        invite_events(old(self)@.members, final(self)@.group_seq()),
                    )
                } else {
                    &&& final(self)@ == old(self)@
                    &&& r == Err::<CommandStep, Error>(old(self)@.wrong_size())
                },
                Command::AcceptMatchNow => {
                    &&& final(self)@ == old(self)@.told_to_accept()
                    &&& r is Ok
                    &&& r->Ok_0@ == CommandStepView::Accept(accept_events(old(self)@.order))
                },
            },
            final(self)@ == command_state(old(self)@, cmd),
            match r {
                Ok(step) => command_step(old(self)@, cmd) == Ok::<CommandStepView, Error>(step@),
                Err(e) => command_step(old(self)@, cmd) == Err::<CommandStepView, Error>(e),
            },
    {
        match cmd {
            Command::Member(sid, event) => match self.handle_member(sid, event) {
                Ok(step) => Ok(CommandStep::Member(step)),
                Err(e) => Err(e),
            },
            Command::MemberDead(sid) => {
                self.member_dead(sid);
                Ok(CommandStep::Idle)
            },
            Command::Start => match self.start_party() {
                Ok(events) => Ok(CommandStep::Invite(events)),
                Err(e) => Err(e),
            },
            Command::AcceptMatchNow => Ok(CommandStep::Accept(self.send_accept_match())),
        }
    }

    /// Whether the party has the number of members it is meant for.
    pub fn is_complete(&self) -> (r: bool)
        ensures
            r == self@.complete(),
    {
        members_len(&self.members) == self.layout.party_size
    }

    /// Whether the party can be started: it is complete, and its members can be
    /// grouped.
    pub fn can_start(&self) -> (r: bool)
        requires
            self@.wf(),
        ensures
            r == self@.can_start(),
    {
        self.is_complete() && self.can_group()
    }

    /// Whether the members can be grouped: there is one, and everybody who was
    /// ever grouped as a slave is still a member.
    pub fn can_group(&self) -> (r: bool)
        requires
            self@.wf(),
        ensures
            r == self@.can_group(),
    {
        proof {
            lemma_group_seq(*self);
        }
        let ghost gs = self@.group_seq();
        let n = groups_len(&self.groups);
        if members_len(&self.members) == 0 {
            return false;
        }
        let mut i: usize = 0;
        while i < n
            invariant
                i <= n,
                n == gs.len(),
                gs == groups_in_order(self.groups),
                gs == self@.group_seq(),
                self@.wf(),
                self@.order.len() > 0,
                forall|j: int, p: int|
                    #![trigger gs[j].slaves[p]]
                    0 <= j < i && 0 <= p < gs[j].slaves.len() ==> self@.members.contains_key(
                        gs[j].slaves[p],
                    ),
            decreases n - i,
        {
            if let Some((gid, group)) = groups_get_index(&self.groups, i) {
                assert(gs[i as int] == group@);
                if !all_members(&self.members, &group.slaves) {
                    proof {
                        let p = choose|p: int|
                            0 <= p < group@.slaves.len() && !self@.members.contains_key(
                                #[trigger] group@.slaves[p],
                            );
                        assert(self@.groups.contains_key(gid));
                        assert(self@.groups[gid].slaves[p] == group@.slaves[p]);
                    }
                    return false;
                }
            }
            i += 1;
        }
        proof {
            assert forall|g: u64, p: int|
                #![trigger self@.groups[g].slaves[p]]
                self@.groups.contains_key(g) && 0 <= p
                    < self@.groups[g].slaves.len() implies self@.members.contains_key(
                self@.groups[g].slaves[p],
            ) by {
                let j = self@.group_ids.index_of(g);
                assert(self@.group_ids[j] == g);
                assert(gs[j].slaves[p] == self@.groups[g].slaves[p]);
            }
        }
        true
    }

    /// Whether a member's report runs into no limit.
    pub fn can_report(&self, sid: SessionId, event: &session::Event) -> (r: bool)
        requires
            self@.wf(),
        ensures
            r == report_ok(self@, sid@, *event),
    {
        let member = match members_get(&self.members, sid.inner()) {
            Some(member) => member,
            None => {
                return true;
            },
        };
        let epoch = member.sync_epoch;
        match event {
            session::Event::Game(game::Event::MenuTaskCompleted { id }) => {
                member.menu_task.is_none() || *id < usize::MAX
            },
            session::Event::Game(game::Event::MatchReceived { match_id }) => {
                proof {
                    lemma_last_arrival(self@, sid, *event);
                    lemma_group_seq(*self);
                    let after = noted(self@, sid@, *event)->0;
                    assert(after.members.contains_key(sid@));
                    assert forall|i: int|
                        0 <= i < self@.group_ids.len() implies self@.groups.contains_key(
                        #[trigger] self@.group_ids[i],
                    ) by {
                        assert(self@.group_ids.contains(self@.group_ids[i]));
                    }
                    assert(after.group_seq() =~= all_matched(
                        self@.group_seq(),
                        sid@,
                        *match_id,
                    ));
                    assert(can_clear(after.members) == can_clear(self@.members)) by {
                        assert forall|k: u64|
                            after.members.contains_key(k) == self@.members.contains_key(k) by {}
                        if can_clear(after.members) {
                            assert forall|k: u64| #[trigger]
                                self@.members.contains_key(k) implies self@.members[k].sync_epoch
                                < u32::MAX by {
                                assert(after.members.contains_key(k));
                            }
                        }
                    }
                }
                let found = matches_found(&self.groups, Some((sid, *match_id)));
                members_can_clear(&self.members) || !others_at(
                    &self.members,
                    sid.inner(),
                    epoch,
                    SyncPoint::RecvMatch,
                ) || agree(&found, Ghost(all_matched(self@.group_seq(), sid@, *match_id)))
            },
            session::Event::Game(
                game::Event::StateUpdate {
                    sign_on_state: SignOnState::Full,
                    player: Some(PlayerState { team, .. }),
                    map: GameMap::Base { name: map_name },
                    match_state: Some(MatchState { phase: Phase::Round { number }, freeze: false }),
                },
            ) => {
                if *map_name == self.layout.map && matches!(
                    team,
                    Team::CounterTerrorists | Team::Terrorists
                ) && *number as usize == self.round {
                    proof {
                        lemma_last_arrival(self@, sid, *event);
                        let after = noted(self@, sid@, *event)->0;
                        assert(after.members.contains_key(sid@));
                    }
                    self.round < usize::MAX || !others_at(
                        &self.members,
                        sid.inner(),
                        epoch,
                        SyncPoint::GameReady,
                    )
                } else {
                    true
                }
            },
            _ => {
                proof {
                    if noted(self@, sid@, *event) is Some {
                        let after = noted(self@, sid@, *event)->0;
                        assert(after.members.contains_key(sid@));
                    }
                }
                true
            },
        }
    }

    /// Whether a look at the sync points runs into no limit.
    pub fn can_sync(&self) -> (r: bool)
        requires
            self@.wf(),
        ensures
            r == self@.sync_ok(),
    {
        let epoch = self.current_epoch();
        proof {
            lemma_synced(self@.members, epoch, SyncPoint::Ready);
            lemma_synced(self@.members, epoch, SyncPoint::RecvMatch);
            lemma_synced(self@.members, epoch, SyncPoint::GameReady);
            lemma_group_seq(*self);
        }
        if self.all_at(epoch, SyncPoint::Ready) {
            return true;
        }
        if self.all_at(epoch, SyncPoint::RecvMatch) {
            let found = matches_found(&self.groups, None);
            return agree(&found, Ghost(self@.group_seq())) || members_can_clear(&self.members);
        }
        if self.all_at(epoch, SyncPoint::GameReady) {
            return self.round < usize::MAX;
        }
        true
    }

    /// Whether the party can start over once more.
    pub fn can_restart(&self) -> (r: bool)
        requires
            self@.wf(),
        ensures
            r == can_clear(self@.members),
    {
        members_can_clear(&self.members)
    }

    /// Whether the party can start over once more, and play one more round.
    pub fn can_advance(&self) -> (r: bool)
        requires
            self@.wf(),
        ensures
            r == self@.can_advance(),
    {
        self.round < usize::MAX && members_can_clear(&self.members)
    }

    /// The party's id.
    pub fn pid(&self) -> (r: PartyId)
        ensures
            r == self@.pid,
    {
        self.pid
    }

    /// The message by which an event of the party is sent: it carries the party's
    /// id.
    pub fn message(&self, event: Event) -> (r: (PartyId, Event))
        ensures
            r == self@.message(event),
    {
        (self.pid, event)
    }

    /// The round the members have to be in.
    pub fn round(&self) -> (r: usize)
        ensures
            r == self@.round,
    {
        self.round
    }

    /// The engine that steers the bots.
    pub fn engine(&self) -> (r: &Option<E>)
        ensures
            *r == self@.engine,
    {
        &self.engine
    }

    /// A member.
    pub fn member(&self, sid: SessionId) -> (r: Option<&Member>)
        ensures
            match r {
                Some(m) => self@.members.contains_key(sid@) && *m == self@.members[sid@],
                None => !self@.members.contains_key(sid@),
            },
    {
        members_get(&self.members, sid.inner())
    }

    /// The sessions of the members, in the order in which they joined.
    pub fn member_ids(&self) -> (r: Vec<SessionId>)
        ensures
            numbers(r@) == self@.order,
    {
        let ghost order = self@.order;
        let n = members_len(&self.members);
        let mut out: Vec<SessionId> = Vec::new();
        let mut i: usize = 0;
        assert(numbers(out@) =~= order.take(0));
        while i < n
            invariant
                i <= n,
                n == order.len(),
                order == member_order(self.members),
                numbers(out@) == order.take(i as int),
            decreases n - i,
        {
            let ghost done = out@;
            if let Some((k, _)) = members_get_index(&self.members, i) {
                out.push(SessionId::from_raw(k));
                assert(numbers(out@) =~= numbers(done).push(k));
                assert(order.take(i + 1) =~= order.take(i as int).push(k));
            }
            i += 1;
        }
        assert(order.take(n as int) =~= order);
        out
    }
}

/// A party stays well-formed when a member changes, as long as the member's menu
/// steps are sound.
proof fn lemma_member_changed<E>(s: PartyState<E>, sid: u64, m: Member)
    requires
        s.wf(),
        s.members.contains_key(sid),
        menu_sound(m.menu_task),
    ensures
        s.with_member(sid, m).wf(),
{
    lemma_lists_insert(s.order, s.members, sid, m);
}

/// A party's groups stay listed and sound when a match is noted.
proof fn lemma_matched<E>(s: PartyState<E>, sid: u64, match_id: u64)
    requires
        s.wf(),
    ensures
        lists(s.group_ids, matched(s.groups, sid, match_id)),
        forall|g: u64| #[trigger]
            matched(s.groups, sid, match_id).contains_key(g) ==> group_sound(
                matched(s.groups, sid, match_id)[g],
            ),
{
    assert forall|k: u64| #[trigger]
        matched(s.groups, sid, match_id).contains_key(k) <==> s.group_ids.contains(k) by {
        assert(s.groups.contains_key(k) == matched(s.groups, sid, match_id).contains_key(k));
    }
}

/// Everybody is at a point in the latest epoch exactly if everybody is there in
/// the same epoch.
proof fn lemma_synced(members: Map<u64, Member>, epoch: u32, point: SyncPoint)
    requires
        is_latest_epoch(members, epoch),
    ensures
        at_point(members, epoch, point) == synced(members, point),
{
}

/// Taking up the inviting keeps the members, and their menu steps sound.
proof fn lemma_inviting(members: Map<u64, Member>, gs: Seq<GroupState>)
    requires
        forall|k: u64| #[trigger] members.contains_key(k) ==> menu_sound(members[k].menu_task),
        forall|i: int| 0 <= i < gs.len() ==> group_sound(#[trigger] gs[i]),
    ensures
        inviting(members, gs).dom() == members.dom(),
        forall|k: u64| #[trigger]
            inviting(members, gs).contains_key(k) ==> menu_sound(
                inviting(members, gs)[k].menu_task,
            ),
    decreases gs.len(),
{
    if gs.len() > 0 {
        lemma_inviting(members, gs.drop_last());
        assert(group_sound(gs[gs.len() - 1]));
        assert(inviting(members, gs).dom() =~= members.dom());
    }
}

/// Binding bots keeps the pairing one-to-one.
proof fn lemma_bots_bound(bots: Map<u32, u64>, created: Seq<BotId>, sids: Seq<u64>)
    requires
        one_to_one(bots),
    ensures
        one_to_one(bots_bound(bots, created, sids)),
    decreases created.len(),
{
    if created.len() > 0 {
        lemma_bots_bound(bots, created.drop_last(), sids);
        lemma_paired(
            bots_bound(bots, created.drop_last(), sids),
            created.last().0,
            sids[created.len() - 1],
        );
    }
}

/// A table stays listed when a key is added, or a value replaced.
proof fn lemma_lists_insert<V>(order: Seq<u64>, table: Map<u64, V>, k: u64, v: V)
    requires
        lists(order, table),
    ensures
        table.contains_key(k) ==> lists(order, table.insert(k, v)),
        !table.contains_key(k) ==> lists(order.push(k), table.insert(k, v)),
{
    if !table.contains_key(k) {
        let after = order.push(k);
        assert forall|q: u64| #[trigger]
            table.insert(k, v).contains_key(q) <==> after.contains(q) by {
            if order.contains(q) {
                let i = order.index_of(q);
                assert(after[i] == q);
            }
            assert(after[order.len() as int] == k);
            if after.contains(q) && q != k {
                let i = after.index_of(q);
                assert(order[i] == q);
            }
        }
    }
}

/// A table stays listed when a key is taken out of both.
proof fn lemma_lists_remove<V>(order: Seq<u64>, table: Map<u64, V>, k: u64)
    requires
        lists(order, table),
    ensures
        lists(order.remove_value(k), table.remove(k)),
{
    order.index_of_first_ensures(k);
    let after = order.remove_value(k);
    if order.contains(k) {
        let at = order.index_of_first(k)->0;
        assert(after == order.remove(at));
        assert forall|q: u64| #[trigger] table.remove(k).contains_key(q) <==> after.contains(q) by {
            if order.contains(q) && q != k {
                let i = order.index_of(q);
                if i < at {
                    assert(after[i] == q);
                } else {
                    assert(after[i - 1] == q);
                }
            }
            if after.contains(q) {
                let i = after.index_of(q);
                if i < at {
                    assert(order[i] == q);
                } else {
                    assert(order[i + 1] == q);
                }
            }
        }
    }
}

} // verus!
