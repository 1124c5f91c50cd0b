//! The core router of the farm.
//!
//! It sits between the server, which talks to workers, and the parties. On one
//! side it keeps the maps from workers to slots and from slots to sessions, and
//! routes every incoming event or outgoing command to the right wire address.
//! On the other side it decides which sessions belong to which party, creates
//! and removes parties, and reports what happens upward: as soon as enough
//! sessions are ready, it forms a party of them and starts it.
use crate::config::FarmConfig;
use crate::error::Error;
use crate::farm::layout::PartyLayout;
use crate::farm::party::member as party;
use crate::farm::party::member::MemberCreate;
use crate::farm::party::Party;
use crate::farm::slots::{
    has_slot_form, is_slot_key, party_keys_given, session_keys_given, parties_get, parties_insert,
    parties_len, parties_new, parties_remove, party_entries, session_entries, sessions_get,
    sessions_get_mut, sessions_insert, sessions_keys, sessions_len, sessions_new, sessions_remove,
    slot_index, turns, PartyTable, SessionRecord, SessionTable, KEY_TURNS, MAX_SLOTS,
};
use crate::ids::{
    lemma_id_is_its_number, lemma_numbers_taken, numbers, PartyKey, SessionKey, WorkerSlot,
};
use crate::protocol::game;
use crate::protocol::session;
use crate::protocol::session::{State, User};
use crate::protocol::worker;
use crate::server::WorkerId;
use std::collections::HashMap;
use vstd::prelude::*;

verus! {

/// A worker's sessions.
///
/// Its view lists their keys in wire-slot order.
#[derive(Debug)]
pub struct Worker {
    /// Dense list of session keys: the index into it equals the wire-level
    /// [`WorkerSlot`].
    slots: Vec<SessionKey>,
}

impl View for Worker {
    type V = Seq<SessionKey>;

    closed spec fn view(&self) -> Seq<SessionKey> {
        self.slots@
    }
}

impl Worker {
    /// A worker without sessions.
    pub fn new() -> (r: Self)
        ensures
            r@ == Seq::<SessionKey>::empty(),
    {
        Worker { slots: Vec::new() }
    }

    /// Appends `key` as the next slot and returns its [`WorkerSlot`].
    pub fn alloc_slot(&mut self, key: SessionKey) -> (r: WorkerSlot)
        ensures
            r.0 == old(self)@.len(),
            final(self)@ == old(self)@.push(key),
    {
        let slot = WorkerSlot(self.slots.len());
        self.slots.push(key);
        slot
    }

    /// The key of the session at a slot.
    pub fn lookup(&self, slot: WorkerSlot) -> (r: Option<SessionKey>)
        ensures
            match r {
                Some(key) => slot.0 < self@.len() && key == self@[slot.0 as int],
                None => slot.0 >= self@.len(),
            },
    {
        if slot.0 < self.slots.len() {
            Some(self.slots[slot.0])
        } else {
            None
        }
    }
}

/// Creates a session on a worker.
#[derive(Debug)]
pub struct SessionCreate {
    /// The worker.
    pub wid: WorkerId,
    /// The account's name.
    pub username: String,
    /// The account's password.
    pub password: String,
    /// The account's second factor.
    pub secret: String,
}

/// Creates a party.
#[derive(Debug)]
pub struct PartyCreate {
    /// What the party is set up for.
    pub layout: PartyLayout,
}

/// What is reported of a worker.
#[derive(Debug, Clone, Copy, PartialEq, Eq, Structural)]
pub enum WorkerEvent {
    /// The worker has connected.
    New,
}

/// What is reported upward.
#[derive(Debug)]
pub enum Event {
    /// Something happened to a worker.
    Worker(WorkerId, WorkerEvent),
    /// A session is up.
    SessionReady(SessionKey),
    /// A session is gone.
    SessionDead(SessionKey),
    /// A party has completed the preparation of a round.
    PartyRound(PartyKey),
    /// A party is done.
    PartyDone(PartyKey),
}

/// What to do with a party.
#[derive(Debug)]
pub enum PartyCommand {
    /// Add a session.
    Add(SessionKey),
    /// Start the party.
    Start,
}

/// What the router is told.
#[derive(Debug)]
pub enum Command {
    /// A worker has connected.
    Connected(WorkerId),
    /// A worker has sent an event.
    Worker(WorkerId, worker::Event),
    /// Something is to be done with a party.
    Party(PartyKey, PartyCommand),
}

/// A message that the router wants delivered.
///
/// The messages of one step are delivered in order, up to the first that fails;
/// only the failure of a [`Action::Notice`] does not stop the others. A party is
/// spawned in any case: [`Action::Form`] cannot fail.
#[derive(Debug)]
pub enum Action {
    /// Spawn a party.
    Form(PartyKey, PartyLayout),
    /// Report upward.
    Parent(Event),
    /// Send a command to a worker.
    Server(WorkerId, worker::Command),
    /// Add a member to a party.
    Join(PartyKey, MemberCreate),
    /// Give a party a command.
    Party(PartyKey, party::Command),
    /// Give a party a command, whether or not it arrives.
    Notice(PartyKey, party::Command),
}

/// The content of an [`Action`].
pub enum ActionView {
    /// The content of [`Action::Form`].
    Form(PartyKey, PartyLayout),
    /// The content of [`Action::Parent`].
    Parent(Event),
    /// The content of [`Action::Server`].
    Server(WorkerId, worker::Command),
    /// The content of [`Action::Join`]: party, session and friend code.
    Join(PartyKey, SessionKey, Seq<char>),
    /// The content of [`Action::Party`].
    Party(PartyKey, party::Command),
    /// The content of [`Action::Notice`].
    Notice(PartyKey, party::Command),
}

impl View for Action {
    type V = ActionView;

    open spec fn view(&self) -> ActionView {
        match *self {
            Action::Form(pid, layout) => ActionView::Form(pid, layout),
            Action::Parent(event) => ActionView::Parent(event),
            Action::Server(wid, cmd) => ActionView::Server(wid, cmd),
            Action::Join(pid, create) => ActionView::Join(pid, create.sid, create.friend_code@),
            Action::Party(pid, cmd) => ActionView::Party(pid, cmd),
            Action::Notice(pid, cmd) => ActionView::Notice(pid, cmd),
        }
    }
}

/// The content of a list of actions.
pub open spec fn action_views(actions: Seq<Action>) -> Seq<ActionView> {
    actions.map_values(|a: Action| a@)
}

/// The state of the router.
#[verifier::ext_equal]
pub struct NexusState {
    /// The settings.
    pub config: FarmConfig,
    /// The keys of each worker's sessions, in wire-slot order.
    pub workers: Map<u32, Seq<SessionKey>>,
    /// The sessions, by key.
    pub sessions: Map<u64, SessionRecord>,
    /// The parties, by key.
    pub parties: Map<u64, Party>,
    /// The keys of all sessions so far, in the order in which they were created.
    pub session_keys: Seq<u64>,
    /// The keys of all parties so far, in the order in which they were created.
    pub party_keys: Seq<u64>,
}

impl NexusState {
    /// A router that knows of nothing.
    pub open spec fn fresh(config: FarmConfig) -> Self {
        NexusState {
            config,
            workers: Map::empty(),
            sessions: Map::empty(),
            parties: Map::empty(),
            session_keys: Seq::empty(),
            party_keys: Seq::empty(),
        }
    }

    /// What holds of every router: its tables are finite, their keys have the
    /// form of slot keys and have been given out, and every party knows its own
    /// key.
    pub open spec fn wf(self) -> bool {
        &&& self.sessions.dom().finite()
        &&& self.parties.dom().finite()
        &&& forall|k: u64| #[trigger]
            self.sessions.contains_key(k) ==> is_slot_key(k) && self.session_keys.contains(k)
        &&& forall|k: u64| #[trigger]
            self.parties.contains_key(k) ==> is_slot_key(k) && self.party_keys.contains(k)
                && self.parties[k].pid@ == k
    }

    /// The router with another record for one session.
    pub open spec fn with_session(self, sid: u64, record: SessionRecord) -> Self {
        NexusState { sessions: self.sessions.insert(sid, record), ..self }
    }

    /// The key of the session at a worker's slot, or why there is none.
    pub open spec fn session_at(self, wid: WorkerId, slot: usize) -> Result<SessionKey, Error> {
        if !self.workers.contains_key(wid.0) {
            Err(Error::WorkerNotFound(wid))
        } else if slot >= self.workers[wid.0].len() {
            Err(Error::SlotNotFound { wid, slot })
        } else {
            Ok(self.workers[wid.0][slot as int])
        }
    }

    /// The session's wire address leads back to the session.
    pub open spec fn reachable(self, sid: SessionKey) -> bool {
        &&& self.sessions.contains_key(sid@)
        &&& self.session_at(self.sessions[sid@].wid, self.sessions[sid@].slot.0) == Ok::<
            SessionKey,
            Error,
        >(sid)
    }

    /// The router after a session's report, before any party is formed: whether
    /// the session is up, and a new friend code, are remembered.
    pub open spec fn session_noted(self, sid: u64, event: session::Event) -> Self {
        match event {
            session::Event::StateUpdate(state) => {
                if self.sessions.contains_key(sid) {
                    self.with_session(
                        sid,
                        SessionRecord { up: state == State::Running, ..self.sessions[sid] },
                    )
                } else {
                    self
                }
            },
            session::Event::Game(game::Event::InviteCodeUpdate { code }) => {
                if self.sessions.contains_key(sid) {
                    self.with_session(
                        sid,
                        SessionRecord { friend_code: Some(code), ..self.sessions[sid] },
                    )
                } else {
                    self
                }
            },
            _ => self,
        }
    }

    /// What a session's report asks for: that a session is up is reported
    /// upward, and everything is passed on to the session's party.
    pub open spec fn session_actions(self, sid: SessionKey, event: session::Event) -> Result<
        Seq<ActionView>,
        Error,
    > {
        if !self.sessions.contains_key(sid@) {
            Err(Error::SessionNotFound(sid))
        } else {
            let up = if event == session::Event::StateUpdate(State::Running) {
                seq![ActionView::Parent(Event::SessionReady(sid))]
            } else {
                Seq::empty()
            };
            let on = match self.sessions[sid@].party_key {
                Some(pid) => if self.parties.contains_key(pid@) {
                    seq![ActionView::Party(pid, party::Command::Member(sid, event))]
                } else {
                    Seq::empty()
                },
                None => Seq::empty(),
            };
            Ok(up + on)
        }
    }

    /// The router after a command, before any party is formed.
    pub open spec fn handled(self, cmd: Command) -> Self {
        match cmd {
            Command::Connected(wid) => NexusState {
                workers: self.workers.insert(wid.0, Seq::empty()),
                ..self
            },
            Command::Worker(wid, worker::Event::Session(slot, event)) => {
                match self.session_at(wid, slot) {
                    Ok(sid) => self.session_noted(sid@, event),
                    Err(_) => self,
                }
            },
            Command::Party(pid, PartyCommand::Add(sid)) => {
                if self.parties.contains_key(pid@) && self.sessions.contains_key(sid@)
                    && self.sessions[sid@].friend_code is Some {
                    self.with_session(
                        sid@,
                        SessionRecord { party_key: Some(pid), ..self.sessions[sid@] },
                    )
                } else {
                    self
                }
            },
            Command::Party(_, PartyCommand::Start) => self,
        }
    }

    /// What a command asks for, before any party is formed, or why it is refused.
    pub open spec fn answer(self, cmd: Command) -> Result<Seq<ActionView>, Error> {
        match cmd {
            Command::Connected(wid) => Ok(
                seq![ActionView::Parent(Event::Worker(wid, WorkerEvent::New))],
            ),
            Command::Worker(wid, worker::Event::Session(slot, event)) => {
                match self.session_at(wid, slot) {
                    Ok(sid) => self.session_actions(sid, event),
                    Err(e) => Err(e),
                }
            },
            Command::Party(pid, PartyCommand::Add(sid)) => {
                if !self.parties.contains_key(pid@) {
                    Err(Error::PartyNotFound(pid))
                } else if !self.sessions.contains_key(sid@) {
                    Err(Error::SessionNotFound(sid))
                } else {
                    match self.sessions[sid@].friend_code {
                        Some(code) => Ok(seq![ActionView::Join(pid, sid, code@)]),
                        None => Err(Error::NoFriendCode(sid)),
                    }
                }
            },
            Command::Party(pid, PartyCommand::Start) => {
                if self.parties.contains_key(pid@) {
                    Ok(seq![ActionView::Party(pid, party::Command::Start)])
                } else {
                    Err(Error::PartyNotFound(pid))
                }
            },
        }
    }
}

impl NexusState {
    /// The router once a session has been created on a known worker, under the
    /// given key: it stands in the worker's next slot.
    pub open spec fn session_created(self, wid: WorkerId, sid: SessionKey) -> Self {
        let slots = self.workers[wid.0];
        NexusState {
            workers: self.workers.insert(wid.0, slots.push(sid)),
            session_keys: self.session_keys.push(sid@),
            sessions: self.sessions.insert(
                sid@,
                SessionRecord {
                    wid,
                    slot: WorkerSlot(slots.len() as usize),
                    up: false,
                    party_key: None,
                    friend_code: None,
                },
            ),
            ..self
        }
    }

    /// The command for a session, addressed to its worker slot, or why there is
    /// none.
    pub open spec fn routed(self, sid: SessionKey, cmd: session::Command) -> Result<Action, Error> {
        if self.sessions.contains_key(sid@) {
            Ok(
                Action::Server(
                    self.sessions[sid@].wid,
                    worker::Command::Session(self.sessions[sid@].slot.0, cmd),
                ),
            )
        } else {
            Err(Error::SessionNotFound(sid))
        }
    }

    /// The router once a party has been created.
    pub open spec fn party_created(self, party: Party) -> Self {
        NexusState {
            parties: self.parties.insert(party.pid@, party),
            party_keys: self.party_keys.push(party.pid@),
            ..self
        }
    }

    /// What a party's report asks for, or why it is refused.
    pub open spec fn party_answer(self, pid: PartyKey, event: party::Event) -> Result<
        Action,
        Error,
    > {
        match event {
            party::Event::Session(sid, cmd) => self.routed(sid, cmd),
            party::Event::RoundComplete => Ok(Action::Parent(Event::PartyRound(pid))),
            party::Event::Done => Ok(Action::Parent(Event::PartyDone(pid))),
        }
    }

    /// The router after a party's report.
    pub open spec fn party_reported(self, pid: PartyKey, event: party::Event) -> Self {
        match event {
            party::Event::Done => self.party_done(pid),
            _ => self,
        }
    }

    /// The router once a party is done.
    pub open spec fn party_done(self, pid: PartyKey) -> Self {
        NexusState { parties: self.parties.remove(pid@), ..self }
    }

    /// The router without a session.
    pub open spec fn session_dead(self, sid: SessionKey) -> Self {
        NexusState { sessions: self.sessions.remove(sid@), ..self }
    }

    /// What the death of a session asks for: its party gets a notice, and the
    /// death is reported upward.
    pub open spec fn farewell(self, sid: SessionKey) -> Seq<ActionView> {
        let notice = if self.sessions.contains_key(sid@) {
            match self.sessions[sid@].party_key {
                Some(pid) => if self.parties.contains_key(pid@) {
                    seq![ActionView::Notice(pid, party::Command::MemberDead(sid))]
                } else {
                    Seq::empty()
                },
                None => Seq::empty(),
            }
        } else {
            Seq::empty()
        };
        notice.push(ActionView::Parent(Event::SessionDead(sid)))
    }

    /// What the deaths of sessions, one after the other, ask for.
    pub open spec fn farewells(self, dead: Seq<SessionKey>) -> Seq<ActionView>
        decreases dead.len(),
    {
        if dead.len() == 0 {
            Seq::empty()
        } else {
            self.farewells(dead.drop_last()) + self.farewell(dead.last())
        }
    }

    /// `dead` lists the sessions of a worker, by ascending index of their slots.
    pub open spec fn hosts(self, wid: WorkerId, dead: Seq<SessionKey>) -> bool {
        &&& forall|i: int|
            0 <= i < dead.len() ==> self.sessions.contains_key((#[trigger] dead[i])@)
                && self.sessions[dead[i]@].wid == wid
        &&& forall|sid: SessionKey|
            #![trigger self.sessions.contains_key(sid@)]
            self.sessions.contains_key(sid@) && self.sessions[sid@].wid == wid ==> dead.contains(
                sid,
            )
        &&& forall|i: int, j: int|
            0 <= i < j < dead.len() ==> slot_index((#[trigger] dead[i])@) < slot_index(
                (#[trigger] dead[j])@,
            )
    }

    /// The router without the sessions.
    pub open spec fn without(self, dead: Seq<SessionKey>) -> Self {
        NexusState { sessions: self.sessions.remove_keys(numbers(dead).to_set()), ..self }
    }

    /// The router once `told` of the deaths of a worker's sessions have been
    /// reported: each is forgotten before its death is reported, and the worker
    /// when all have been.
    pub open spec fn worker_gone(self, wid: WorkerId, dead: Seq<SessionKey>, told: nat) -> Self {
        if told < dead.len() {
            self.without(dead.take((told + 1) as int))
        } else {
            NexusState { workers: self.workers.remove(wid.0), ..self.without(dead) }
        }
    }
}

/// The sessions once some of them have been added to a party.
pub open spec fn joined(
    sessions: Map<u64, SessionRecord>,
    pid: PartyKey,
    sids: Seq<SessionKey>,
) -> Map<u64, SessionRecord> {
    sessions.map_entries(
        |k: u64, rec: SessionRecord|
            if numbers(sids).contains(k) {
                SessionRecord { party_key: Some(pid), ..rec }
            } else {
                rec
            },
    )
}

/// The report can make a session ready: it is up, or its friend code is known.
pub open spec fn prompts(event: session::Event) -> bool {
    match event {
        session::Event::StateUpdate(State::Running) => true,
        session::Event::Game(game::Event::InviteCodeUpdate { .. }) => true,
        _ => false,
    }
}

impl NexusState {
    /// The session is ready for a party: it is up, its friend code is known, and
    /// it has not been added to a party yet.
    pub open spec fn is_ready(self, k: u64) -> bool {
        &&& self.sessions.contains_key(k)
        &&& self.sessions[k].up
        &&& self.sessions[k].friend_code is Some
        &&& self.sessions[k].party_key is None
    }

    /// The sessions that are ready for a party.
    pub open spec fn ready(self) -> Set<u64> {
        self.sessions.dom().filter(|k: u64| self.is_ready(k))
    }

    /// As many sessions are ready as make up a party.
    pub open spec fn enough_ready(self) -> bool {
        1 <= self.config.party_size <= self.ready().len()
    }

    /// `sids` lists the sessions that make up the next party: the first ones
    /// that are ready, by ascending index of their slots.
    pub open spec fn next_members(self, sids: Seq<SessionKey>) -> bool {
        &&& sids.len() == self.config.party_size
        &&& forall|i: int| 0 <= i < sids.len() ==> self.is_ready((#[trigger] sids[i])@)
        &&& forall|i: int, j: int|
            0 <= i < j < sids.len() ==> slot_index((#[trigger] sids[i])@) < slot_index(
                (#[trigger] sids[j])@,
            )
        &&& forall|k: u64, i: int|
            #![trigger self.is_ready(k), sids[i]]
            self.is_ready(k) && !numbers(sids).contains(k) && 0 <= i < sids.len() ==> slot_index(
                sids[i]@,
            ) < slot_index(k)
    }

    /// What a party that is formed automatically is set up for.
    pub open spec fn layout(self) -> PartyLayout {
        PartyLayout { map: self.config.map, party_size: self.config.party_size }
    }

    /// The router once a party has been formed of the sessions.
    pub open spec fn formed(self, pid: PartyKey, sids: Seq<SessionKey>) -> Self {
        NexusState {
            sessions: joined(self.sessions, pid, sids),
            ..self.party_created(Party { pid, layout: self.layout() })
        }
    }

    /// What forming a party of the sessions asks for: it is spawned, every
    /// session joins it with its friend code, and it is started.
    pub open spec fn forming(self, pid: PartyKey, sids: Seq<SessionKey>) -> Seq<ActionView> {
        seq![ActionView::Form(pid, self.layout())] + Seq::new(
            sids.len(),
            |i: int| ActionView::Join(pid, sids[i], self.sessions[sids[i]@].friend_code->0@),
        ) + seq![ActionView::Party(pid, party::Command::Start)]
    }

    /// The key is new: it is not in use, and was given out before only if its
    /// slot has given out [`KEY_TURNS`] keys, and so all that it has.
    pub open spec fn is_new_party(self, pid: PartyKey) -> bool {
        &&& is_slot_key(pid@)
        &&& !self.parties.contains_key(pid@)
        &&& self.party_keys.contains(pid@) <==> turns(self.party_keys, pid@) >= KEY_TURNS
    }

    /// The key is new: it is not in use, and was given out before only if its
    /// slot has given out [`KEY_TURNS`] keys, and so all that it has.
    pub open spec fn is_new_session(self, sid: SessionKey) -> bool {
        &&& is_slot_key(sid@)
        &&& !self.sessions.contains_key(sid@)
        &&& self.session_keys.contains(sid@) <==> turns(self.session_keys, sid@) >= KEY_TURNS
    }

    /// After a report that asks for `said`, the router is `after` and asks for
    /// `all`: if the report was one that can make a session ready, and enough
    /// sessions are ready, and there is room for one more party, then a party is
    /// formed of the next members.
    pub open spec fn settles(
        self,
        event: session::Event,
        said: Seq<ActionView>,
        after: Self,
        all: Seq<ActionView>,
    ) -> bool {
        if prompts(event) && self.enough_ready() && self.parties.len() < MAX_SLOTS {
            exists|pid: PartyKey, sids: Seq<SessionKey>| #[trigger]
                self.forms(said, after, all, pid, sids)
        } else {
            after == self && all == said
        }
    }

    /// The router becomes `after`, and asks for `all`, as a party is formed of
    /// the next members under a new key.
    pub open spec fn forms(
        self,
        said: Seq<ActionView>,
        after: Self,
        all: Seq<ActionView>,
        pid: PartyKey,
        sids: Seq<SessionKey>,
    ) -> bool {
        &&& self.is_new_party(pid)
        &&& self.next_members(sids)
        &&& after == self.formed(pid, sids)
        &&& all == said + self.forming(pid, sids)
    }

    /// The known session whose report a command brings, and the report.
    pub open spec fn report_in(self, cmd: Command) -> Option<(SessionKey, session::Event)> {
        match cmd {
            Command::Worker(wid, worker::Event::Session(slot, event)) => {
                match self.session_at(wid, slot) {
                    Ok(sid) => if self.sessions.contains_key(sid@) {
                        Some((sid, event))
                    } else {
                        None
                    },
                    Err(_) => None,
                }
            },
            _ => None,
        }
    }
}

impl NexusState {
    /// Giving out one more key of a session keeps the others.
    proof fn lemma_session_keys(self, before: Self, sid: SessionKey)
        requires
            self.session_keys == before.session_keys.push(sid@),
        ensures
            forall|k: u64|
                before.session_keys.contains(k) ==> #[trigger] self.session_keys.contains(k),
            self.session_keys.contains(sid@),
    {
        assert(self.session_keys[before.session_keys.len() as int] == sid@);
        assert forall|k: u64| before.session_keys.contains(
            k,
        ) implies #[trigger] self.session_keys.contains(k) by {
            assert(self.session_keys[before.session_keys.index_of(k)] == k);
        }
    }

    /// Giving out one more key of a party keeps the others.
    proof fn lemma_party_keys(self, before: Self, pid: PartyKey)
        requires
            self.party_keys == before.party_keys.push(pid@),
        ensures
            forall|k: u64| before.party_keys.contains(k) ==> #[trigger] self.party_keys.contains(k),
            self.party_keys.contains(pid@),
    {
        assert(self.party_keys[before.party_keys.len() as int] == pid@);
        assert forall|k: u64| before.party_keys.contains(
            k,
        ) implies #[trigger] self.party_keys.contains(k) by {
            assert(self.party_keys[before.party_keys.index_of(k)] == k);
        }
    }

    /// Sessions that are ready, at ascending slots, are as many as are listed.
    proof fn lemma_ready_found(self, sids: Seq<SessionKey>)
        requires
            self.wf(),
            forall|a: int| 0 <= a < sids.len() ==> self.is_ready((#[trigger] sids[a])@),
            forall|a: int, b: int|
                0 <= a < b < sids.len() ==> slot_index((#[trigger] sids[a])@) < slot_index(
                    (#[trigger] sids[b])@,
                ),
        ensures
            numbers(sids).to_set().finite(),
            numbers(sids).to_set().len() == sids.len(),
            sids.len() <= self.ready().len(),
            self.ready().finite(),
    {
        let ks = numbers(sids);
        assert(ks.no_duplicates()) by {
            assert forall|a: int, b: int| 0 <= a < b < ks.len() implies ks[a] != ks[b] by {
                assert(slot_index(sids[a]@) < slot_index(sids[b]@));
            }
        }
        ks.unique_seq_to_set();
        assert forall|k: u64| #[trigger] ks.to_set().contains(k) implies self.ready().contains(
            k,
        ) by {
            let a = ks.index_of(k);
            assert(sids[a]@ == k);
        }
        vstd::set_lib::lemma_len_subset(ks.to_set(), self.ready());
    }
}

/// The order by which a worker is told to start a session at a slot, with the
/// account that it logs in with.
pub open spec fn start_order(create: SessionCreate, slot: usize) -> Action {
    Action::Server(
        create.wid,
        worker::Command::Session(
            slot,
            session::Command::Create {
                user: User {
                    username: create.username,
                    password: create.password,
                    secret: create.secret,
                },
            },
        ),
    )
}

/// The content of a step's result.
pub open spec fn outcome(r: Result<Vec<Action>, Error>) -> Result<Seq<ActionView>, Error> {
    match r {
        Ok(actions) => Ok(action_views(actions@)),
        Err(e) => Err(e),
    }
}

/// The core routing state machine of the farm.
pub struct Nexus {
    config: FarmConfig,
    workers: HashMap<u32, Worker>,
    sessions: SessionTable,
    parties: PartyTable,
}

impl View for Nexus {
    type V = NexusState;

    closed spec fn view(&self) -> NexusState {
        NexusState {
            config: self.config,
            workers: self.workers@.map_values(|w: Worker| w@),
            sessions: session_entries(self.sessions),
            parties: party_entries(self.parties),
            session_keys: session_keys_given(self.sessions),
            party_keys: party_keys_given(self.parties),
        }
    }
}

impl Nexus {
    /// A router that knows of nothing.
    pub fn new(config: FarmConfig) -> (r: Self)
        ensures
            r@.wf(),
            r@ == NexusState::fresh(config),
    {
        let r = Nexus {
            config,
            workers: HashMap::new(),
            sessions: sessions_new(),
            parties: parties_new(),
        };
        assert(r@.workers =~= Map::<u32, Seq<SessionKey>>::empty());
        r
    }

    /// What is known of a session.
    pub fn session(&self, sid: SessionKey) -> (r: Option<&SessionRecord>)
        requires
            self@.wf(),
        ensures
            match r {
                Some(rec) => self@.sessions.contains_key(sid@) && *rec == self@.sessions[sid@],
                None => !self@.sessions.contains_key(sid@),
            },
    {
        if has_slot_form(sid.inner()) {
            sessions_get(&self.sessions, sid.inner())
        } else {
            None
        }
    }

    /// What is known of a party.
    pub fn party(&self, pid: PartyKey) -> (r: Option<&Party>)
        requires
            self@.wf(),
        ensures
            match r {
                Some(p) => self@.parties.contains_key(pid@) && *p == self@.parties[pid@],
                None => !self@.parties.contains_key(pid@),
            },
    {
        if has_slot_form(pid.inner()) {
            parties_get(&self.parties, pid.inner())
        } else {
            None
        }
    }

    /// Routes a session command down to the session's worker slot.
    pub fn route_session_cmd(&self, sid: SessionKey, cmd: session::Command) -> (r: Result<
        Action,
        Error,
    >)
        requires
            self@.wf(),
        ensures
            r == self@.routed(sid, cmd),
    {
        match self.session(sid) {
            Some(rec) => Ok(Action::Server(rec.wid, worker::Command::Session(rec.slot.0, cmd))),
            None => Err(Error::SessionNotFound(sid)),
        }
    }

    /// Takes the report of a session. If that makes as many sessions ready as the
    /// settings ask for, a party is formed of them and started.
    pub fn handle_session(&mut self, sid: SessionKey, event: session::Event) -> (r: Result<
        Vec<Action>,
        Error,
    >)
        requires
            old(self)@.wf(),
        ensures
            final(self)@.wf(),
            match old(self)@.session_actions(sid, event) {
                Ok(said) => {
                    &&& r is Ok
                    &&& old(self)@.session_noted(sid@, event).settles(
                        event,
                        said,
                        final(self)@,
                        action_views(r->Ok_0@),
                    )
                },
                Err(e) => r == Err::<Vec<Action>, Error>(e) && final(self)@ == old(self)@,
            },
    {
        let ghost before = self@;
        let party_key = match self.session(sid) {
            Some(rec) => rec.party_key,
            None => {
                return Err(Error::SessionNotFound(sid));
            },
        };
        let mut actions: Vec<Action> = Vec::new();
        let mut prompted = false;
        match &event {
            session::Event::StateUpdate(state) => {
                let running = matches!(state, State::Running);
                if running {
                    actions.push(Action::Parent(Event::SessionReady(sid)));
                    prompted = true;
                }
                if let Some(rec) = sessions_get_mut(&mut self.sessions, sid.inner()) {
                    rec.up = running;
                }
            },
            session::Event::Game(game::Event::InviteCodeUpdate { code }) => {
                if let Some(rec) = sessions_get_mut(&mut self.sessions, sid.inner()) {
                    rec.friend_code = Some(code.clone());
                }
                prompted = true;
            },
            _ => {},
        }
        assert(prompted == prompts(event));
        let ghost reported = event;
        assert(self@ =~= before.session_noted(sid@, event));
        let ghost up = action_views(actions@);
        assert(up =~= (if event == session::Event::StateUpdate(State::Running) {
            seq![ActionView::Parent(Event::SessionReady(sid))]
        } else {
            Seq::empty()
        }));
        if let Some(pid) = party_key {
            if let Some(party) = self.party(pid) {
                actions.push(Action::Party(pid, party.send_member(sid, event)));
                assert(action_views(actions@) =~= up + seq![
                    ActionView::Party(pid, party::Command::Member(sid, event)),
                ]);
            }
        }
        assert(up + Seq::<ActionView>::empty() =~= up);
        let ghost said = action_views(actions@);
        let ghost noted = self@;
        if prompted && self.has_party_room() {
            if let Some(sids) = self.next_party() {
                let mut forming = self.form_party(&sids);
                let ghost pid = choose|pid: PartyKey|
                    noted.is_new_party(pid) && self@ == noted.formed(pid, sids@) && action_views(
                        forming@,
                    ) == #[trigger] noted.forming(pid, sids@);
                let ghost more = action_views(forming@);
                actions.append(&mut forming);
                assert(action_views(actions@) =~= said + more);
                assert(noted.forms(said, self@, action_views(actions@), pid, sids@));
            }
        }
        Ok(actions)
    }

    /// The sessions that make up the next party, if enough are ready.
    pub fn next_party(&self) -> (r: Option<Vec<SessionKey>>)
        requires
            self@.wf(),
        ensures
            r is Some <==> self@.enough_ready(),
            r matches Some(sids) ==> self@.next_members(sids@),
    {
        let size = self.config.party_size;
        let mut sids: Vec<SessionKey> = Vec::new();
        if size == 0 {
            return None;
        }
        let keys = sessions_keys(&self.sessions);
        let n = keys.len();
        let mut i: usize = 0;
        while i < n
            invariant
                i <= n,
                n == keys@.len(),
                self@.wf(),
                size == self@.config.party_size,
                forall|k: u64| #[trigger] self@.sessions.contains_key(k) <==> keys@.contains(k),
                forall|a: int, b: int|
                    0 <= a < b < keys@.len() ==> slot_index(keys@[a]) < slot_index(keys@[b]),
                sids@.len() < size,
                forall|a: int|
                    0 <= a < sids@.len() ==> self@.is_ready((#[trigger] sids@[a])@),
                forall|a: int|
                    0 <= a < i && self@.is_ready(#[trigger] keys@[a]) ==> numbers(
                        sids@,
                    ).contains(keys@[a]),
                forall|a: int, b: int|
                    0 <= a < b < sids@.len() ==> slot_index((#[trigger] sids@[a])@) < slot_index(
                        (#[trigger] sids@[b])@,
                    ),
                forall|a: int, b: int|
                    0 <= a < sids@.len() && i <= b < n ==> slot_index((#[trigger] sids@[a])@)
                        < slot_index(#[trigger] keys@[b]),
            decreases n - i,
        {
            let sid = SessionKey::from_raw(keys[i]);
            let ghost found = sids@;
            assert(keys@.contains(keys@[i as int]));
            if let Some(rec) = self.session(sid) {
                if rec.up && rec.friend_code.is_some() && rec.party_key.is_none() {
                    sids.push(sid);
                    assert(numbers(sids@) =~= numbers(found).push(sid@));
                    assert(numbers(sids@)[found.len() as int] == keys@[i as int]);
                    assert forall|a: int|
                        0 <= a < i && self@.is_ready(#[trigger] keys@[a]) implies numbers(
                        sids@,
                    ).contains(keys@[a]) by {
                        let j = numbers(found).index_of(keys@[a]);
                        assert(numbers(sids@)[j] == keys@[a]);
                    }
                    if sids.len() == size {
                        proof {
                            self@.lemma_ready_found(sids@);
                            assert forall|k: u64, a: int|
                                #![trigger self@.is_ready(k), sids@[a]]
                                self@.is_ready(k) && !numbers(sids@).contains(k) && 0 <= a
                                    < sids@.len() implies slot_index(sids@[a]@) < slot_index(
                                k,
                            ) by {
                                let b = keys@.index_of(k);
                                assert(keys@[b] == k);
                                if b <= i {
                                    assert(numbers(sids@).contains(keys@[b]));
                                }
                            }
                        }
                        return Some(sids);
                    }
                }
            }
            i += 1;
        }
        proof {
            self@.lemma_ready_found(sids@);
            assert forall|k: u64| #[trigger] self@.ready().contains(k) implies numbers(
                sids@,
            ).to_set().contains(k) by {
                let b = keys@.index_of(k);
                assert(keys@[b] == k);
                assert(numbers(sids@).contains(keys@[b]));
            }
            vstd::set_lib::lemma_len_subset(self@.ready(), numbers(sids@).to_set());
        }
        None
    }

    /// Forms a party of the sessions: it is created, they are added to it, and
    /// it is to be started.
    fn form_party(&mut self, sids: &Vec<SessionKey>) -> (r: Vec<Action>)
        requires
            old(self)@.wf(),
            old(self)@.parties.len() < MAX_SLOTS,
            old(self)@.next_members(sids@),
        ensures
            final(self)@.wf(),
            exists|pid: PartyKey|
                old(self)@.is_new_party(pid) && final(self)@ == old(self)@.formed(pid, sids@)
                    && action_views(r@) == #[trigger] old(self)@.forming(pid, sids@),
    {
        let ghost before = self@;
        let layout = PartyLayout {
            map: self.config.map.clone(),
            party_size: self.config.party_size,
        };
        let again = PartyLayout { map: layout.map.clone(), party_size: layout.party_size };
        let pid = parties_insert(&mut self.parties, layout);
        let ghost created = before.party_created(Party { pid, layout: before.layout() });
        assert(self@ =~= created);
        proof {
            created.lemma_party_keys(before, pid);
        }
        let mut actions: Vec<Action> = Vec::new();
        actions.push(Action::Form(pid, again));
        let ghost joins = Seq::new(
            sids@.len(),
            |i: int|
                ActionView::Join(pid, sids@[i], before.sessions[sids@[i]@].friend_code->0@),
        );
        let ghost form = seq![ActionView::Form(pid, before.layout())];
        assert(action_views(actions@) =~= form + joins.take(0));
        assert(joined(before.sessions, pid, sids@.take(0)) =~= before.sessions);
        let n = sids.len();
        let mut i: usize = 0;
        while i < n
            invariant
                i <= n,
                n == sids@.len(),
                before.wf(),
                before.next_members(sids@),
                created == before.party_created(Party { pid, layout: before.layout() }),
                self@ == (NexusState {
                    sessions: joined(before.sessions, pid, sids@.take(i as int)),
                    ..created
                }),
                created.parties.contains_key(pid@),
                created.wf(),
                joins == Seq::new(
                    sids@.len(),
                    |i: int|
                        ActionView::Join(
                            pid,
                            sids@[i],
                            before.sessions[sids@[i]@].friend_code->0@,
                        ),
                ),
                action_views(actions@) == form + joins.take(i as int),
            decreases n - i,
        {
            let sid = sids[i];
            let ghost at = self@.sessions;
            let ghost said = actions@;
            assert(before.is_ready(sid@));
            assert(!numbers(sids@.take(i as int)).contains(sid@)) by {
                if numbers(sids@.take(i as int)).contains(sid@) {
                    let j = numbers(sids@.take(i as int)).index_of(sid@);
                    assert(sids@[j]@ == sid@);
                }
            }
            if let Some(rec) = sessions_get_mut(&mut self.sessions, sid.inner()) {
                rec.party_key = Some(pid);
                if let Some(code) = &rec.friend_code {
                    let create = MemberCreate { sid, friend_code: code.clone() };
                    actions.push(Action::Join(pid, create));
                }
            }
            i += 1;
            proof {
                assert(numbers(sids@.take(i as int)) =~= numbers(sids@.take(i - 1)).push(sid@));
                assert forall|k: u64| numbers(sids@.take(i as int)).contains(k) <==> numbers(
                    sids@.take(i - 1),
                ).contains(k) || k == sid@ by {
                    let xs = numbers(sids@.take(i - 1));
                    let ys = numbers(sids@.take(i as int));
                    if xs.contains(k) {
                        assert(ys[xs.index_of(k)] == k);
                    }
                    assert(ys[xs.len() as int] == sid@);
                    if ys.contains(k) && k != sid@ {
                        assert(xs[ys.index_of(k)] == k);
                    }
                }
                assert(self@.sessions =~= joined(before.sessions, pid, sids@.take(i as int)));
                assert(joins.take(i as int) =~= joins.take(i - 1).push(joins[i - 1]));
                assert(action_views(actions@) =~= action_views(said).push(joins[i - 1]));
                assert(action_views(actions@) =~= form + joins.take(i as int));
            }
        }
        assert(sids@.take(n as int) =~= sids@);
        assert(joins.take(n as int) =~= joins);
        let ghost said = actions@;
        actions.push(Action::Party(pid, party::Command::Start));
        assert(action_views(actions@) =~= before.forming(pid, sids@));
        assert(self@ =~= before.formed(pid, sids@));
        assert(self@.wf()) by {
            assert forall|k: u64| #[trigger] self@.sessions.contains_key(k) implies is_slot_key(k)
                && self@.session_keys.contains(k) by {
                assert(before.sessions.contains_key(k));
            }
            assert(self@.sessions.dom() =~= before.sessions.dom());
        }
        actions
    }

    /// Takes a command.
    pub fn handle(&mut self, cmd: Command) -> (r: Result<Vec<Action>, Error>)
        requires
            old(self)@.wf(),
        ensures
            final(self)@.wf(),
            match old(self)@.report_in(cmd) {
                Some((sid, event)) => {
                    &&& r is Ok
                    &&& old(self)@.handled(cmd).settles(
                        event,
                        old(self)@.session_actions(sid, event)->Ok_0,
                        final(self)@,
                        action_views(r->Ok_0@),
                    )
                },
                None => {
                    &&& final(self)@ == old(self)@.handled(cmd)
                    &&& outcome(r) == old(self)@.answer(cmd)
                },
            },
    {
        let ghost before = self@;
        let mut actions: Vec<Action> = Vec::new();
        match cmd {
            Command::Connected(wid) => {
                self.workers.insert(wid.0, Worker::new());
                assert(self@.workers =~= before.workers.insert(wid.0, Seq::empty()));
                actions.push(Action::Parent(Event::Worker(wid, WorkerEvent::New)));
                assert(action_views(actions@) =~= seq![
                    ActionView::Parent(Event::Worker(wid, WorkerEvent::New)),
                ]);
                Ok(actions)
            },
            Command::Worker(wid, worker::Event::Session(slot, event)) => {
                let sid = match self.workers.get(&wid.0) {
                    None => {
                        return Err(Error::WorkerNotFound(wid));
                    },
                    Some(worker) => match worker.lookup(WorkerSlot(slot)) {
                        None => {
                            return Err(Error::SlotNotFound { wid, slot });
                        },
                        Some(sid) => sid,
                    },
                };
                assert(before.session_at(wid, slot) == Ok::<SessionKey, Error>(sid));
                self.handle_session(sid, event)
            },
            Command::Party(pid, PartyCommand::Add(sid)) => {
                if self.party(pid).is_none() {
                    return Err(Error::PartyNotFound(pid));
                }
                let code = match self.session(sid) {
                    None => {
                        return Err(Error::SessionNotFound(sid));
                    },
                    Some(rec) => match &rec.friend_code {
                        None => {
                            return Err(Error::NoFriendCode(sid));
                        },
                        Some(code) => code.clone(),
                    },
                };
                if let Some(rec) = sessions_get_mut(&mut self.sessions, sid.inner()) {
                    rec.party_key = Some(pid);
                }
                assert(self@ =~= before.handled(cmd));
                if let Some(party) = self.party(pid) {
                    actions.push(Action::Join(pid, party.create(sid, code.as_str())));
                    assert(action_views(actions@) =~= seq![ActionView::Join(pid, sid, code@)]);
                }
                Ok(actions)
            },
            Command::Party(pid, PartyCommand::Start) => {
                match self.party(pid) {
                    None => Err(Error::PartyNotFound(pid)),
                    Some(party) => {
                        actions.push(Action::Party(pid, party.start()));
                        assert(action_views(actions@) =~= seq![
                            ActionView::Party(pid, party::Command::Start),
                        ]);
                        Ok(actions)
                    },
                }
            },
        }
    }

    /// Takes the report of a party.
    pub fn handle_party(&mut self, pid: PartyKey, event: party::Event) -> (r: Result<Action, Error>)
        requires
            old(self)@.wf(),
        ensures
            final(self)@.wf(),
            match event {
                party::Event::Session(sid, cmd) => {
                    &&& final(self)@ == old(self)@
                    &&& r == old(self)@.routed(sid, cmd)
                },
                party::Event::RoundComplete => {
                    &&& final(self)@ == old(self)@
                    &&& r == Ok::<Action, Error>(Action::Parent(Event::PartyRound(pid)))
                },
                party::Event::Done => {
                    &&& final(self)@ == old(self)@.party_done(pid)
                    &&& r == Ok::<Action, Error>(Action::Parent(Event::PartyDone(pid)))
                },
            },
            final(self)@ == old(self)@.party_reported(pid, event),
            r == old(self)@.party_answer(pid, event),
    {
        match event {
            party::Event::Session(sid, cmd) => self.route_session_cmd(sid, cmd),
            party::Event::RoundComplete => Ok(Action::Parent(Event::PartyRound(pid))),
            party::Event::Done => {
                if has_slot_form(pid.inner()) {
                    parties_remove(&mut self.parties, pid.inner());
                }
                assert(self@.parties =~= old(self)@.parties.remove(pid@));
                Ok(Action::Parent(Event::PartyDone(pid)))
            },
        }
    }
}

/// What the death of a worker asks for.
#[derive(Debug)]
pub struct WorkerFarewell {
    /// The worker's sessions.
    pub dead: Vec<SessionKey>,
    /// The messages about their deaths.
    pub actions: Vec<Action>,
}

impl Nexus {
    /// Creates a session on a worker: the session gets the worker's next slot,
    /// and the worker is told to start it.
    pub fn create_session(&mut self, create: SessionCreate) -> (r: Result<
        (SessionKey, Action),
        Error,
    >)
        requires
            old(self)@.wf(),
            old(self)@.workers.contains_key(create.wid.0) ==> old(self)@.sessions.len()
                < MAX_SLOTS,
        ensures
            final(self)@.wf(),
            !old(self)@.workers.contains_key(create.wid.0) ==> {
                &&& r == Err::<(SessionKey, Action), Error>(Error::WorkerNotFound(create.wid))
                &&& final(self)@ == old(self)@
            },
            old(self)@.workers.contains_key(create.wid.0) ==> {
                let slots = old(self)@.workers[create.wid.0].len();
                &&& r is Ok
                &&& slots <= usize::MAX
                &&& old(self)@.is_new_session(r->Ok_0.0)
                &&& final(self)@ == old(self)@.session_created(create.wid, r->Ok_0.0)
                &&& r->Ok_0.1 == start_order(create, slots as usize)
                &&& r->Ok_0.1 == Action::Server(
                    create.wid,
                    worker::Command::Session(
                        slots as usize,
                        session::Command::Create {
                            user: User {
                                username: create.username,
                                password: create.password,
                                secret: create.secret,
                            },
                        },
                    ),
                )
            },
    {
        let ghost before = self@;
        let SessionCreate { wid, username, password, secret } = create;
        let mut worker = match self.workers.remove(&wid.0) {
            Some(worker) => worker,
            None => {
                assert(self@.workers =~= before.workers);
                return Err(Error::WorkerNotFound(wid));
            },
        };
        let ghost slots = worker@;
        // The slot is known only once the session has a key.
        let raw = sessions_insert(
            &mut self.sessions,
            SessionRecord {
                wid,
                slot: WorkerSlot(usize::MAX),
                up: false,
                party_key: None,
                friend_code: None,
            },
        );
        let sid = SessionKey::from_raw(raw);
        let slot = worker.alloc_slot(sid);
        if let Some(rec) = sessions_get_mut(&mut self.sessions, raw) {
            rec.slot = slot;
        }
        self.workers.insert(wid.0, worker);
        assert(self@.workers =~= before.workers.insert(wid.0, slots.push(sid)));
        assert(self@.sessions =~= before.sessions.insert(
            raw,
            SessionRecord { wid, slot, up: false, party_key: None, friend_code: None },
        ));
        proof {
            self@.lemma_session_keys(before, sid);
        }
        let user = User { username, password, secret };
        let command = worker::Command::Session(slot.0, session::Command::Create { user });
        Ok((sid, Action::Server(wid, command)))
    }

    /// Creates a party.
    pub fn create_party(&mut self, create: PartyCreate) -> (pid: PartyKey)
        requires
            old(self)@.wf(),
            old(self)@.parties.len() < MAX_SLOTS,
        ensures
            final(self)@.wf(),
            old(self)@.is_new_party(pid),
            final(self)@ == old(self)@.party_created(Party { pid, layout: create.layout }),
    {
        let ghost before = self@;
        let pid = parties_insert(&mut self.parties, create.layout);
        proof {
            self@.lemma_party_keys(before, pid);
        }
        pid
    }

    /// Whether there is room for one more session.
    pub fn has_session_room(&self) -> (r: bool)
        ensures
            r == (self@.sessions.len() < MAX_SLOTS),
    {
        sessions_len(&self.sessions) < MAX_SLOTS
    }

    /// Whether there is room for one more party.
    pub fn has_party_room(&self) -> (r: bool)
        ensures
            r == (self@.parties.len() < MAX_SLOTS),
    {
        parties_len(&self.parties) < MAX_SLOTS
    }

    /// The messages about the death of a session.
    fn farewell(&self, sid: SessionKey) -> (r: Vec<Action>)
        requires
            self@.wf(),
        ensures
            action_views(r@) == self@.farewell(sid),
    {
        let mut actions: Vec<Action> = Vec::new();
        if let Some(rec) = self.session(sid) {
            if let Some(pid) = rec.party_key {
                if let Some(party) = self.party(pid) {
                    actions.push(Action::Notice(pid, party.member_dead(sid)));
                }
            }
        }
        actions.push(Action::Parent(Event::SessionDead(sid)));
        assert(action_views(actions@) =~= self@.farewell(sid));
        actions
    }

    /// Takes a session out: its party gets a notice, and the death is reported
    /// upward.
    pub fn on_session_dead(&mut self, sid: SessionKey) -> (r: Vec<Action>)
        requires
            old(self)@.wf(),
        ensures
            final(self)@.wf(),
            final(self)@ == old(self)@.session_dead(sid),
            action_views(r@) == old(self)@.farewell(sid),
    {
        let actions = self.farewell(sid);
        self.forget_session(sid);
        actions
    }

    /// Takes a session out of the table.
    fn forget_session(&mut self, sid: SessionKey)
        requires
            old(self)@.wf(),
        ensures
            final(self)@.wf(),
            final(self)@ == old(self)@.session_dead(sid),
    {
        if has_slot_form(sid.inner()) {
            sessions_remove(&mut self.sessions, sid.inner());
        }
        assert(self@.sessions =~= old(self)@.sessions.remove(sid@));
    }

    /// The sessions of a dead worker, and the messages about their deaths. The
    /// caller delivers these in order up to the first report upward that fails,
    /// then calls [`Nexus::worker_gone`] with the number of those that did not.
    pub fn on_worker_dead(&self, wid: WorkerId) -> (r: WorkerFarewell)
        requires
            self@.wf(),
        ensures
            self@.hosts(wid, r.dead@),
            action_views(r.actions@) == self@.farewells(r.dead@),
    {
        let keys = sessions_keys(&self.sessions);
        let n = keys.len();
        let mut dead: Vec<SessionKey> = Vec::new();
        let mut actions: Vec<Action> = Vec::new();
        let mut i: usize = 0;
        assert(action_views(actions@) =~= self@.farewells(dead@));
        while i < n
            invariant
                i <= n,
                n == keys@.len(),
                self@.wf(),
                forall|k: u64| #[trigger] self@.sessions.contains_key(k) <==> keys@.contains(k),
                forall|a: int, b: int|
                    0 <= a < b < keys@.len() ==> slot_index(keys@[a]) < slot_index(keys@[b]),
                forall|a: int|
                    0 <= a < dead@.len() ==> self@.sessions.contains_key((#[trigger] dead@[a])@)
                        && self@.sessions[dead@[a]@].wid == wid,
                forall|a: int|
                    0 <= a < i && self@.sessions[#[trigger] keys@[a]].wid == wid ==> numbers(
                        dead@,
                    ).contains(keys@[a]),
                forall|a: int, b: int|
                    0 <= a < b < dead@.len() ==> slot_index((#[trigger] dead@[a])@) < slot_index(
                        (#[trigger] dead@[b])@,
                    ),
                forall|a: int, b: int|
                    0 <= a < dead@.len() && i <= b < n ==> slot_index((#[trigger] dead@[a])@)
                        < slot_index(#[trigger] keys@[b]),
                action_views(actions@) == self@.farewells(dead@),
            decreases n - i,
        {
            let sid = SessionKey::from_raw(keys[i]);
            let ghost done = dead@;
            let ghost said = actions@;
            if let Some(rec) = self.session(sid) {
                if rec.wid == wid {
                    dead.push(sid);
                    let mut farewell = self.farewell(sid);
                    actions.append(&mut farewell);
                    assert(dead@.drop_last() =~= done);
                    assert(action_views(actions@) =~= action_views(said) + self@.farewell(sid));
                    assert(numbers(dead@) =~= numbers(done).push(sid@));
                    assert(numbers(dead@)[done.len() as int] == keys@[i as int]);
                    assert forall|a: int|
                        0 <= a < i && self@.sessions[#[trigger] keys@[a]].wid
                            == wid implies numbers(dead@).contains(keys@[a]) by {
                        let j = numbers(done).index_of(keys@[a]);
                        assert(numbers(dead@)[j] == keys@[a]);
                    }
                }
            }
            assert(keys@.contains(keys@[i as int]));
            i += 1;
        }
        proof {
            assert forall|sid: SessionKey|
                #![trigger self@.sessions.contains_key(sid@)]
                self@.sessions.contains_key(sid@) && self@.sessions[sid@].wid
                    == wid implies dead@.contains(sid) by {
                let a = keys@.index_of(sid@);
                assert(keys@[a] == sid@);
                let j = numbers(dead@).index_of(sid@);
                assert(numbers(dead@)[j] == dead@[j]@);
                lemma_id_is_its_number(dead@[j], sid);
            }
        }
        WorkerFarewell { dead, actions }
    }

    /// Notes how many of the deaths of a worker's sessions could be reported.
    pub fn worker_gone(&mut self, wid: WorkerId, dead: &Vec<SessionKey>, told: usize)
        requires
            old(self)@.wf(),
        ensures
            final(self)@.wf(),
            final(self)@ == old(self)@.worker_gone(wid, dead@, told as nat),
    {
        let ghost before = self@;
        let n = dead.len();
        let reach = if told < n {
            told + 1
        } else {
            n
        };
        let mut i: usize = 0;
        assert(self@ =~= before.without(dead@.take(0)));
        while i < reach
            invariant
                i <= reach <= n,
                n == dead@.len(),
                self@.wf(),
                self@ == before.without(dead@.take(i as int)),
            decreases reach - i,
        {
            self.forget_session(dead[i]);
            i += 1;
            proof {
                lemma_numbers_taken(dead@, i - 1);
                assert(self@ =~= before.without(dead@.take(i as int)));
            }
        }
        if told >= n {
            self.workers.remove(&wid.0);
            assert(dead@.take(n as int) =~= dead@);
            assert(self@.workers =~= before.workers.remove(wid.0));
        }
    }
}

} // verus!
