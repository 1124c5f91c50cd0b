//! A router of the farm that numbers sessions and parties itself.
use crate::error::Error;
use crate::farm::nexus::{action_views, outcome, start_order};
use crate::farm::party::member as party;
use crate::farm::party::Party;
use crate::ids::{
    id_of, lemma_id_is_its_number, lemma_id_of, lemma_numbers_taken, numbers, succ_id, IdGen,
    PartyId, PartyTag, SessionId, SessionTag,
};
use crate::protocol::game;
use crate::protocol::session;
use crate::protocol::session::{State, User};
use crate::protocol::worker;
use crate::server::WorkerId;
use std::collections::HashMap;
use vstd::prelude::*;

pub use crate::farm::nexus::{
    Action, ActionView, Command, Event, PartyCommand, SessionCreate, WorkerEvent, WorkerFarewell,
};

verus! {

/// A worker's sessions, by position.
struct Worker {
    next_slot: usize,
    slot_to_session: HashMap<usize, SessionId>,
}

/// The content of a worker's entry.
#[verifier::ext_equal]
pub struct WorkerState {
    /// The position that the next session gets.
    pub next_slot: usize,
    /// The session at each position.
    pub slots: Map<usize, SessionId>,
}

impl View for Worker {
    type V = WorkerState;

    closed spec fn view(&self) -> WorkerState {
        WorkerState { next_slot: self.next_slot, slots: self.slot_to_session@ }
    }
}

/// Creates a party.
#[derive(Debug)]
pub struct PartyCreate {}

/// What the router knows of a session.
#[derive(Debug)]
pub struct SessionRecord {
    /// The worker that hosts the session.
    pub worker_id: WorkerId,
    /// The session's position on the worker's wire.
    pub slot: usize,
    /// The party the session was last added to.
    pub party_id: Option<PartyId>,
    /// The code by which the session's player can be invited.
    pub friend_code: Option<String>,
}

/// The state of the router.
#[verifier::ext_equal]
pub struct SupervisorState {
    /// The number of the next session.
    pub next_session: u64,
    /// The number of the next party.
    pub next_party: u64,
    /// The parties, by number.
    pub parties: Map<u64, Party>,
    /// The workers.
    pub workers: Map<u32, WorkerState>,
    /// The sessions, by number.
    pub sessions: Map<u64, SessionRecord>,
}

impl SupervisorState {
    /// A router that knows of nothing.
    pub open spec fn fresh() -> Self {
        SupervisorState {
            next_session: 0,
            next_party: 0,
            parties: Map::empty(),
            workers: Map::empty(),
            sessions: Map::empty(),
        }
    }

    /// The router with another record for one session.
    pub open spec fn with_session(self, sid: u64, record: SessionRecord) -> Self {
        SupervisorState { sessions: self.sessions.insert(sid, record), ..self }
    }

    /// The session at a worker's position, or why there is none.
    pub open spec fn session_at(self, wid: WorkerId, slot: usize) -> Result<SessionId, Error> {
        if !self.workers.contains_key(wid.0) {
            Err(Error::WorkerNotFound(wid))
        } else if !self.workers[wid.0].slots.contains_key(slot) {
            Err(Error::SlotNotFound { wid, slot })
        } else {
            Ok(self.workers[wid.0].slots[slot])
        }
    }

    /// The session's wire address leads back to the session.
    pub open spec fn reachable(self, sid: SessionId) -> bool {
        &&& self.sessions.contains_key(sid@)
        &&& self.session_at(self.sessions[sid@].worker_id, self.sessions[sid@].slot) == Ok::<
            SessionId,
            Error,
        >(sid)
    }

    /// The command for a session, addressed to its worker, or why there is none.
    pub open spec fn routed(self, sid: SessionId, cmd: session::Command) -> Result<Action, Error> {
        if self.sessions.contains_key(sid@) {
            Ok(
                Action::Server(
                    self.sessions[sid@].worker_id,
                    worker::Command::Session(self.sessions[sid@].slot, cmd),
                ),
            )
        } else {
            Err(Error::SessionNotFound(sid))
        }
    }

    /// The router after a session's report: a new friend code is remembered.
    pub open spec fn session_noted(self, sid: u64, event: session::Event) -> Self {
        match event {
            session::Event::Game(game::Event::InviteCodeUpdate { code }) => {
                if self.sessions.contains_key(sid) {
                    self.with_session(
                        sid,
                        SessionRecord { friend_code: Some(code), ..self.sessions[sid] },
                    )
                } else {
                    self
                }
            },
            _ => self,
        }
    }

    /// What a session's report asks for: that a session is up is reported
    /// upward, and everything is passed on to the session's party.
    pub open spec fn session_actions(self, sid: SessionId, event: session::Event) -> Result<
        Seq<ActionView>,
        Error,
    > {
        if !self.sessions.contains_key(sid@) {
            Err(Error::SessionNotFound(sid))
        } else {
            let up = if event == session::Event::StateUpdate(State::Running) {
                seq![ActionView::Parent(Event::SessionReady(sid))]
            } else {
                Seq::empty()
            };
            let on = match self.sessions[sid@].party_id {
                Some(pid) => if self.parties.contains_key(pid@) {
                    seq![ActionView::Party(pid, party::Command::Member(sid, event))]
                } else {
                    Seq::empty()
                },
                None => Seq::empty(),
            };
            Ok(up + on)
        }
    }

    /// The router after a command.
    pub open spec fn handled(self, cmd: Command) -> Self {
        match cmd {
            Command::Connected(wid) => SupervisorState {
                workers: self.workers.insert(
                    wid.0,
                    WorkerState { next_slot: 0, slots: Map::empty() },
                ),
                ..self
            },
            Command::Worker(wid, worker::Event::Session(slot, event)) => {
                match self.session_at(wid, slot) {
                    Ok(sid) => self.session_noted(sid@, event),
                    Err(_) => self,
                }
            },
            Command::Party(pid, PartyCommand::Add(sid)) => {
                if self.parties.contains_key(pid@) && self.sessions.contains_key(sid@)
                    && self.sessions[sid@].friend_code is Some {
                    self.with_session(
                        sid@,
                        SessionRecord { party_id: Some(pid), ..self.sessions[sid@] },
                    )
                } else {
                    self
                }
            },
            Command::Party(_, PartyCommand::Start) => self,
        }
    }

    /// What a command asks for, or why it is refused.
    pub open spec fn answer(self, cmd: Command) -> Result<Seq<ActionView>, Error> {
        match cmd {
            Command::Connected(wid) => Ok(
                seq![ActionView::Parent(Event::Worker(wid, WorkerEvent::New))],
            ),
            Command::Worker(wid, worker::Event::Session(slot, event)) => {
                match self.session_at(wid, slot) {
                    Ok(sid) => self.session_actions(sid, event),
                    Err(e) => Err(e),
                }
            },
            Command::Party(pid, PartyCommand::Add(sid)) => {
                if !self.parties.contains_key(pid@) {
                    Err(Error::PartyNotFound(pid))
                } else if !self.sessions.contains_key(sid@) {
                    Err(Error::SessionNotFound(sid))
                } else {
                    match self.sessions[sid@].friend_code {
                        Some(code) => Ok(seq![ActionView::Join(pid, sid, code@)]),
                        None => Err(Error::NoFriendCode(sid)),
                    }
                }
            },
            Command::Party(pid, PartyCommand::Start) => {
                if self.parties.contains_key(pid@) {
                    Ok(seq![ActionView::Party(pid, party::Command::Start)])
                } else {
                    Err(Error::PartyNotFound(pid))
                }
            },
        }
    }

    /// The router once a session has been created on a known worker.
    pub open spec fn session_created(self, wid: WorkerId) -> Self {
        let w = self.workers[wid.0];
        SupervisorState {
            next_session: succ_id(self.next_session),
            workers: self.workers.insert(
                wid.0,
                WorkerState {
                    next_slot: (w.next_slot + 1) as usize,
                    slots: w.slots.insert(w.next_slot, id_of(self.next_session)),
                },
            ),
            sessions: self.sessions.insert(
                self.next_session,
                SessionRecord {
                    worker_id: wid,
                    slot: w.next_slot,
                    party_id: None,
                    friend_code: None,
                },
            ),
            ..self
        }
    }

    /// The router once a party has been numbered.
    pub open spec fn party_numbered(self) -> Self {
        SupervisorState { next_party: succ_id(self.next_party), ..self }
    }

    /// The router once a party has been spawned.
    pub open spec fn party_created(self, party: Party) -> Self {
        SupervisorState { parties: self.parties.insert(party.pid@, party), ..self }
    }

    /// What a party's report asks for, or why it is refused.
    pub open spec fn party_answer(self, pid: PartyId, event: party::Event) -> Result<
        Action,
        Error,
    > {
        match event {
            party::Event::Session(sid, cmd) => self.routed(sid, cmd),
            party::Event::RoundComplete => Ok(Action::Parent(Event::PartyRound(pid))),
            party::Event::Done => Ok(Action::Parent(Event::PartyDone(pid))),
        }
    }

    /// The router after a party's report.
    pub open spec fn party_reported(self, pid: PartyId, event: party::Event) -> Self {
        match event {
            party::Event::Done => self.party_done(pid),
            _ => self,
        }
    }

    /// The router once a party is done.
    pub open spec fn party_done(self, pid: PartyId) -> Self {
        SupervisorState { parties: self.parties.remove(pid@), ..self }
    }

    /// The router without a session.
    pub open spec fn session_dead(self, sid: SessionId) -> Self {
        SupervisorState { sessions: self.sessions.remove(sid@), ..self }
    }

    /// What the death of a session asks for: its party gets a notice, and the
    /// death is reported upward.
    pub open spec fn farewell(self, sid: SessionId) -> Seq<ActionView> {
        let notice = if self.sessions.contains_key(sid@) {
            match self.sessions[sid@].party_id {
                Some(pid) => if self.parties.contains_key(pid@) {
                    seq![ActionView::Notice(pid, party::Command::MemberDead(sid))]
                } else {
                    Seq::empty()
                },
                None => Seq::empty(),
            }
        } else {
            Seq::empty()
        };
        notice.push(ActionView::Parent(Event::SessionDead(sid)))
    }

    /// What the deaths of sessions, one after the other, ask for.
    pub open spec fn farewells(self, dead: Seq<SessionId>) -> Seq<ActionView>
        decreases dead.len(),
    {
        if dead.len() == 0 {
            Seq::empty()
        } else {
            self.farewells(dead.drop_last()) + self.farewell(dead.last())
        }
    }

    /// `dead` lists the sessions of a worker, each once, in some order.
    pub open spec fn hosts(self, wid: WorkerId, dead: Seq<SessionId>) -> bool {
        &&& dead.no_duplicates()
        &&& forall|i: int|
            0 <= i < dead.len() ==> self.sessions.contains_key((#[trigger] dead[i])@)
                && self.sessions[dead[i]@].worker_id == wid
        &&& forall|sid: SessionId|
            #![trigger self.sessions.contains_key(sid@)]
            self.sessions.contains_key(sid@) && self.sessions[sid@].worker_id == wid
                ==> dead.contains(sid)
    }

    /// The router without the sessions.
    pub open spec fn without(self, dead: Seq<SessionId>) -> Self {
        SupervisorState { sessions: self.sessions.remove_keys(numbers(dead).to_set()), ..self }
    }

    /// The router once `told` of the deaths of a worker's sessions have been
    /// reported: each is forgotten before its death is reported, and the worker
    /// when all have been.
    pub open spec fn worker_gone(self, wid: WorkerId, dead: Seq<SessionId>, told: nat) -> Self {
        if told < dead.len() {
            self.without(dead.take((told + 1) as int))
        } else {
            SupervisorState { workers: self.workers.remove(wid.0), ..self.without(dead) }
        }
    }
}

/// The router that numbers sessions and parties itself.
pub struct FarmSupervisor {
    session_gen: IdGen<SessionTag>,
    party_gen: IdGen<PartyTag>,
    parties: HashMap<u64, Party>,
    workers: HashMap<u32, Worker>,
    sessions: HashMap<u64, SessionRecord>,
}

impl View for FarmSupervisor {
    type V = SupervisorState;

    closed spec fn view(&self) -> SupervisorState {
        SupervisorState {
            next_session: self.session_gen@,
            next_party: self.party_gen@,
            parties: self.parties@,
            workers: self.workers@.map_values(|w: Worker| w@),
            sessions: self.sessions@,
        }
    }
}

impl FarmSupervisor {
    /// A router that knows of nothing.
    pub fn new() -> (r: Self)
        ensures
            r@ == SupervisorState::fresh(),
    {
        let r = FarmSupervisor {
            session_gen: IdGen::default(),
            party_gen: IdGen::default(),
            parties: HashMap::new(),
            workers: HashMap::new(),
            sessions: HashMap::new(),
        };
        assert(r@.workers =~= Map::<u32, WorkerState>::empty());
        r
    }

    /// What is known of a session.
    pub fn session(&self, sid: SessionId) -> (r: Option<&SessionRecord>)
        ensures
            match r {
                Some(rec) => self@.sessions.contains_key(sid@) && *rec == self@.sessions[sid@],
                None => !self@.sessions.contains_key(sid@),
            },
    {
        self.sessions.get(&sid.inner())
    }

    /// Routes a session command down to the session's worker.
    pub fn route_cmd(&self, sid: SessionId, cmd: session::Command) -> (r: Result<Action, Error>)
        ensures
            r == self@.routed(sid, cmd),
    {
        match self.sessions.get(&sid.inner()) {
            Some(rec) => Ok(
                Action::Server(rec.worker_id, worker::Command::Session(rec.slot, cmd)),
            ),
            None => Err(Error::SessionNotFound(sid)),
        }
    }

    /// Takes the report of a session.
    pub fn handle_session(&mut self, sid: SessionId, event: session::Event) -> (r: Result<
        Vec<Action>,
        Error,
    >)
        ensures
            final(self)@ == old(self)@.session_noted(sid@, event),
            outcome(r) == old(self)@.session_actions(sid, event),
    {
        let ghost before = self@;
        let party_id = match self.sessions.get(&sid.inner()) {
            Some(rec) => rec.party_id,
            None => {
                return Err(Error::SessionNotFound(sid));
            },
        };
        let mut actions: Vec<Action> = Vec::new();
        match &event {
            session::Event::StateUpdate(State::Running) => {
                actions.push(Action::Parent(Event::SessionReady(sid)));
            },
            session::Event::Game(game::Event::InviteCodeUpdate { code }) => {
                if let Some(mut rec) = self.sessions.remove(&sid.inner()) {
                    rec.friend_code = Some(code.clone());
                    self.sessions.insert(sid.inner(), rec);
                }
            },
            _ => {},
        }
        assert(self@ =~= before.session_noted(sid@, event));
        let ghost up = action_views(actions@);
        assert(up =~= (if event == session::Event::StateUpdate(State::Running) {
            seq![ActionView::Parent(Event::SessionReady(sid))]
        } else {
            Seq::empty()
        }));
        if let Some(pid) = party_id {
            if let Some(party) = self.parties.get(&pid.inner()) {
                actions.push(Action::Party(pid, party.send_member(sid, event)));
                assert(action_views(actions@) =~= up + seq![
                    ActionView::Party(pid, party::Command::Member(sid, event)),
                ]);
            }
        }
        assert(up + Seq::<ActionView>::empty() =~= up);
        Ok(actions)
    }

    /// Takes a command.
    pub fn handle(&mut self, cmd: Command) -> (r: Result<Vec<Action>, Error>)
        ensures
            final(self)@ == old(self)@.handled(cmd),
            outcome(r) == old(self)@.answer(cmd),
    {
        let ghost before = self@;
        let mut actions: Vec<Action> = Vec::new();
        match cmd {
            Command::Connected(wid) => {
                let worker = Worker { next_slot: 0, slot_to_session: HashMap::new() };
                self.workers.insert(wid.0, worker);
                assert(self@.workers =~= before.workers.insert(wid.0, worker@));
                actions.push(Action::Parent(Event::Worker(wid, WorkerEvent::New)));
                assert(action_views(actions@) =~= seq![
                    ActionView::Parent(Event::Worker(wid, WorkerEvent::New)),
                ]);
                Ok(actions)
            },
            Command::Worker(wid, worker::Event::Session(slot, event)) => {
                let sid = match self.workers.get(&wid.0) {
                    None => {
                        return Err(Error::WorkerNotFound(wid));
                    },
                    Some(worker) => match worker.slot_to_session.get(&slot) {
                        None => {
                            return Err(Error::SlotNotFound { wid, slot });
                        },
                        Some(sid) => *sid,
                    },
                };
                assert(before.session_at(wid, slot) == Ok::<SessionId, Error>(sid));
                self.handle_session(sid, event)
            },
            Command::Party(pid, PartyCommand::Add(sid)) => {
                if !self.parties.contains_key(&pid.inner()) {
                    return Err(Error::PartyNotFound(pid));
                }
                let code = match self.sessions.get(&sid.inner()) {
                    None => {
                        return Err(Error::SessionNotFound(sid));
                    },
                    Some(rec) => match &rec.friend_code {
                        None => {
                            return Err(Error::NoFriendCode(sid));
                        },
                        Some(code) => code.clone(),
                    },
                };
                if let Some(mut rec) = self.sessions.remove(&sid.inner()) {
                    rec.party_id = Some(pid);
                    self.sessions.insert(sid.inner(), rec);
                }
                assert(self@ =~= before.handled(cmd));
                if let Some(party) = self.parties.get(&pid.inner()) {
                    actions.push(Action::Join(pid, party.create(sid, code.as_str())));
                    assert(action_views(actions@) =~= seq![ActionView::Join(pid, sid, code@)]);
                }
                Ok(actions)
            },
            Command::Party(pid, PartyCommand::Start) => {
                match self.parties.get(&pid.inner()) {
                    None => Err(Error::PartyNotFound(pid)),
                    Some(party) => {
                        actions.push(Action::Party(pid, party.start()));
                        assert(action_views(actions@) =~= seq![
                            ActionView::Party(pid, party::Command::Start),
                        ]);
                        Ok(actions)
                    },
                }
            },
        }
    }

    /// Takes the report of a party.
    pub fn handle_party(&mut self, pid: PartyId, event: party::Event) -> (r: Result<Action, Error>)
        ensures
            match event {
                party::Event::Session(sid, cmd) => {
                    &&& final(self)@ == old(self)@
                    &&& r == old(self)@.routed(sid, cmd)
                },
                party::Event::RoundComplete => {
                    &&& final(self)@ == old(self)@
                    &&& r == Ok::<Action, Error>(Action::Parent(Event::PartyRound(pid)))
                },
                party::Event::Done => {
                    &&& final(self)@ == old(self)@.party_done(pid)
                    &&& r == Ok::<Action, Error>(Action::Parent(Event::PartyDone(pid)))
                },
            },
            final(self)@ == old(self)@.party_reported(pid, event),
            r == old(self)@.party_answer(pid, event),
    {
        match event {
            party::Event::Session(sid, cmd) => self.route_cmd(sid, cmd),
            party::Event::RoundComplete => Ok(Action::Parent(Event::PartyRound(pid))),
            party::Event::Done => {
                self.parties.remove(&pid.inner());
                Ok(Action::Parent(Event::PartyDone(pid)))
            },
        }
    }

    /// Creates a session on a worker: the session gets the next number and the
    /// worker's next position, and the worker is told to start it.
    pub fn create_session(&mut self, create: SessionCreate) -> (r: Result<
        (SessionId, Action),
        Error,
    >)
        requires
            old(self)@.workers.contains_key(create.wid.0) ==> old(
                self,
            )@.workers[create.wid.0].next_slot < usize::MAX,
        ensures
            !old(self)@.workers.contains_key(create.wid.0) ==> {
                &&& r == Err::<(SessionId, Action), Error>(Error::WorkerNotFound(create.wid))
                &&& final(self)@ == old(self)@
            },
            old(self)@.workers.contains_key(create.wid.0) ==> {
                &&& final(self)@ == old(self)@.session_created(create.wid)
                &&& r is Ok
                &&& r->Ok_0.0@ == old(self)@.next_session
                &&& r->Ok_0.1 == start_order(create, old(self)@.workers[create.wid.0].next_slot)
                &&& r->Ok_0.1 == Action::Server(
                    create.wid,
                    worker::Command::Session(
                        old(self)@.workers[create.wid.0].next_slot,
                        session::Command::Create {
                            user: User {
                                username: create.username,
                                password: create.password,
                                secret: create.secret,
                            },
                        },
                    ),
                )
            },
    {
        let ghost before = self@;
        let SessionCreate { wid, username, password, secret } = create;
        let mut worker = match self.workers.remove(&wid.0) {
            Some(worker) => worker,
            None => {
                assert(self@.workers =~= before.workers);
                return Err(Error::WorkerNotFound(wid));
            },
        };
        let slot = worker.next_slot;
        worker.next_slot = worker.next_slot + 1;
        let sid = self.session_gen.next();
        worker.slot_to_session.insert(slot, sid);
        self.workers.insert(wid.0, worker);
        proof {
            lemma_id_of::<SessionTag>(before.next_session);
            assert(self@.workers =~= before.session_created(wid).workers);
        }
        self.sessions.insert(
            sid.inner(),
            SessionRecord { worker_id: wid, slot, party_id: None, friend_code: None },
        );
        let user = User { username, password, secret };
        let command = worker::Command::Session(slot, session::Command::Create { user });
        Ok((sid, Action::Server(wid, command)))
    }

    /// Numbers a new party. Once the party has been spawned, the caller calls
    /// [`FarmSupervisor::party_spawned`].
    pub fn create_party(&mut self, _create: PartyCreate) -> (pid: PartyId)
        ensures
            pid@ == old(self)@.next_party,
            final(self)@ == (SupervisorState {
                next_party: succ_id(old(self)@.next_party),
                ..old(self)@
            }),
            final(self)@ == old(self)@.party_numbered(),
    {
        self.party_gen.next()
    }

    /// Remembers a party that has been spawned.
    pub fn party_spawned(&mut self, party: Party)
        ensures
            final(self)@ == old(self)@.party_created(party),
    {
        self.parties.insert(party.pid.inner(), party);
    }

    /// Whether a worker has a position left for one more session; a worker that
    /// is not known has.
    pub fn has_session_room(&self, wid: WorkerId) -> (r: bool)
        ensures
            r == (self@.workers.contains_key(wid.0) ==> self@.workers[wid.0].next_slot
                < usize::MAX),
    {
        match self.workers.get(&wid.0) {
            Some(worker) => worker.next_slot < usize::MAX,
            None => true,
        }
    }

    /// The messages about the death of a session.
    fn farewell(&self, sid: SessionId) -> (r: Vec<Action>)
        ensures
            action_views(r@) == self@.farewell(sid),
    {
        let mut actions: Vec<Action> = Vec::new();
        if let Some(rec) = self.sessions.get(&sid.inner()) {
            if let Some(pid) = rec.party_id {
                if let Some(party) = self.parties.get(&pid.inner()) {
                    actions.push(Action::Notice(pid, party.member_dead(sid)));
                }
            }
        }
        actions.push(Action::Parent(Event::SessionDead(sid)));
        assert(action_views(actions@) =~= self@.farewell(sid));
        actions
    }

    /// Takes a session out: its party gets a notice, and the death is reported
    /// upward.
    pub fn on_session_dead(&mut self, sid: SessionId) -> (r: Vec<Action>)
        ensures
            final(self)@ == old(self)@.session_dead(sid),
            action_views(r@) == old(self)@.farewell(sid),
    {
        let actions = self.farewell(sid);
        self.sessions.remove(&sid.inner());
        actions
    }

    /// The sessions of a dead worker, and the messages about their deaths. The
    /// caller delivers these in order up to the first report upward that fails,
    /// then calls [`FarmSupervisor::worker_gone`] with the number of those that
    /// did not.
    pub fn on_worker_dead(&self, wid: WorkerId) -> (r: WorkerFarewell)
        ensures
            self@.hosts(wid, r.dead@),
            action_views(r.actions@) == self@.farewells(r.dead@),
    {
        let mut dead: Vec<SessionId> = Vec::new();
        let mut actions: Vec<Action> = Vec::new();
        assert(action_views(actions@) =~= self@.farewells(dead@));
        for k in it: self.sessions.keys()
            invariant
                it.seq().unref().to_set() == self.sessions@.dom(),
                it.seq().no_duplicates(),
                numbers(dead@).no_duplicates(),
                forall|a: int|
                    0 <= a < dead@.len() ==> self@.sessions.contains_key((#[trigger] dead@[a])@)
                        && self@.sessions[dead@[a]@].worker_id == wid,
                forall|a: int|
                    0 <= a < dead@.len() ==> exists|b: int|
                        0 <= b < it.index() && *(#[trigger] it.seq()[b]) == (#[trigger] dead@[a])@,
                forall|b: int|
                    0 <= b < it.index() && self@.sessions[*(#[trigger] it.seq()[b])].worker_id
                        == wid ==> numbers(dead@).contains(*it.seq()[b]),
                it.index() == it.seq().len() ==> forall|k: u64| #[trigger]
                    self@.sessions.contains_key(k) && self@.sessions[k].worker_id == wid
                        ==> numbers(dead@).contains(k),
                action_views(actions@) == self@.farewells(dead@),
        {
            let sid = SessionId::from_raw(*k);
            let ghost done = dead@;
            let ghost said = actions@;
            let ghost here = it.index();
            assert(*it.seq()[here] == sid@);
            assert(it.seq().unref()[here] == sid@);
            assert(it.seq().unref().contains(sid@));
            assert(self@.sessions.contains_key(sid@));
            if let Some(rec) = self.sessions.get(k) {
                if rec.worker_id == wid {
                    dead.push(sid);
                    let mut farewell = self.farewell(sid);
                    actions.append(&mut farewell);
                    assert(dead@.drop_last() =~= done);
                    assert(action_views(actions@) =~= action_views(said) + self@.farewell(sid));
                    assert(numbers(dead@) =~= numbers(done).push(sid@));
                    assert(numbers(dead@)[done.len() as int] == sid@);
                    assert forall|a: int| 0 <= a < done.len() implies done[a]@ != sid@ by {
                        let b = choose|b: int|
                            0 <= b < here && *(#[trigger] it.seq()[b]) == done[a]@;
                        assert(it.seq()[b] != it.seq()[here]);
                    }
                    assert forall|b: int|
                        0 <= b < here && self@.sessions[*(#[trigger] it.seq()[b])].worker_id
                            == wid implies numbers(dead@).contains(*it.seq()[b]) by {
                        let j = numbers(done).index_of(*it.seq()[b]);
                        assert(numbers(dead@)[j] == *it.seq()[b]);
                    }
                }
            }
            assert forall|k: u64|
                here + 1 == it.seq().len() && #[trigger] self@.sessions.contains_key(k)
                    && self@.sessions[k].worker_id == wid implies numbers(dead@).contains(k) by {
                let b = it.seq().unref().index_of(k);
                assert(it.seq().unref()[b] == k);
                assert(*it.seq()[b] == k);
            }
        }
        proof {
            assert forall|a: int, b: int|
                0 <= a < b < dead@.len() implies dead@[a] != dead@[b] by {
                assert(numbers(dead@)[a] != numbers(dead@)[b]);
            }
            assert forall|sid: SessionId|
                #![trigger self@.sessions.contains_key(sid@)]
                self@.sessions.contains_key(sid@) && self@.sessions[sid@].worker_id
                    == wid implies dead@.contains(sid) by {
                let j = numbers(dead@).index_of(sid@);
                assert(numbers(dead@)[j] == dead@[j]@);
                lemma_id_is_its_number(dead@[j], sid);
            }
        }
        WorkerFarewell { dead, actions }
    }

    /// Notes how many of the deaths of a worker's sessions could be reported.
    pub fn worker_gone(&mut self, wid: WorkerId, dead: &Vec<SessionId>, told: usize)
        ensures
            final(self)@ == old(self)@.worker_gone(wid, dead@, told as nat),
    {
        let ghost before = self@;
        let n = dead.len();
        let reach = if told < n {
            told + 1
        } else {
            n
        };
        let mut i: usize = 0;
        assert(self@ =~= before.without(dead@.take(0)));
        while i < reach
            invariant
                i <= reach <= n,
                n == dead@.len(),
                self@ == before.without(dead@.take(i as int)),
            decreases reach - i,
        {
            self.sessions.remove(&dead[i].inner());
            i += 1;
            proof {
                lemma_numbers_taken(dead@, i - 1);
                assert(self@ =~= before.without(dead@.take(i as int)));
            }
        }
        if told >= n {
            self.workers.remove(&wid.0);
            assert(dead@.take(n as int) =~= dead@);
            assert(self@.workers =~= before.workers.remove(wid.0));
        }
    }
}

} // verus!
