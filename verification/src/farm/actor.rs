//! A router of the farm that knows its sessions by worker and number.
//!
//! Parties number their own members here; the router keeps a one-to-one pairing
//! between the members of all parties and the sessions.
use crate::ids::{id_of, lemma_id_of, succ_id, IdGen, MemberId, MemberTag, PartyId, PartyTag};
use crate::pairing::{
    left_of, lemma_left_of, lemma_paired, member_pairs, members_get_by_left, members_get_by_right,
    members_insert, members_new, one_to_one, paired, MemberRef, SessionRef,
};
use crate::protocol::game;
use crate::protocol::session;
use crate::protocol::session::{State, User};
use crate::protocol::worker;
use crate::server::WorkerId;
use bimap::BiHashMap;
use std::collections::{HashMap, HashSet};
use vstd::prelude::*;

verus! {

/// Creates a session on a worker.
#[derive(Debug)]
pub struct SessionCreate {
    /// The worker.
    pub wid: WorkerId,
    /// The account's name.
    pub username: String,
    /// The account's password.
    pub password: String,
    /// The account's second factor.
    pub secret: String,
}

/// Creates a party.
#[derive(Debug)]
pub struct PartyCreate {}

/// A member of a party.
#[derive(Debug, Clone, Copy, PartialEq, Eq, Hash)]
pub struct PartyMemberId(pub PartyId, pub MemberId);

impl PartyMemberId {
    /// The numbers behind the two ids.
    pub open spec fn raw(self) -> MemberRef {
        (self.0@, self.1@)
    }
}

/// A session: its worker, and its number there.
#[derive(Debug, Clone, Copy, PartialEq, Eq, Hash, Structural)]
pub struct SessionId(pub WorkerId, pub usize);

impl SessionId {
    /// The numbers behind the id.
    pub open spec fn raw(self) -> SessionRef {
        (self.0.0, self.1)
    }
}

/// How far a session has come up.
#[derive(Debug, Clone, Copy, PartialEq, Eq, Structural)]
pub enum SessionState {
    /// The session is being started.
    Starting,
    /// The session is up.
    Running,
}

/// What is reported of a session.
#[derive(Debug, Clone, Copy, PartialEq, Eq, Structural)]
pub enum SessionEvent {
    /// The session has changed its state.
    StateUpdate(SessionState),
}

/// What is reported of a worker.
#[derive(Debug, Clone, Copy, PartialEq, Eq, Structural)]
pub enum WorkerEvent {
    /// The worker has connected.
    New,
}

/// What is reported upward.
#[derive(Debug, Clone, Copy, PartialEq, Eq, Structural)]
pub enum Event {
    /// Something happened to a worker.
    Worker(WorkerId, WorkerEvent),
    /// Something happened to a session.
    Session(SessionId, SessionEvent),
}

/// What to do with a party.
#[derive(Debug)]
pub enum PartyCommand {
    /// Add a session.
    Add(SessionId),
    /// Start the party.
    Start,
}

/// What the router is told.
#[derive(Debug)]
pub enum Command {
    /// A worker has connected.
    Connected(WorkerId),
    /// A worker has sent an event.
    Worker(WorkerId, worker::Event),
    /// Something is to be done with a party.
    Party(PartyId, PartyCommand),
}

/// What a party reports.
#[derive(Debug)]
pub enum PartyEvent {
    /// A command for a member's session.
    Member(MemberId, session::Command),
}

/// Why the router refuses something.
#[derive(Debug)]
pub enum ModuleError {
    /// No such worker is connected.
    WorkerNotFound(WorkerId),
    /// No such session.
    SessionNotFound(SessionId),
    /// No such party.
    PartyNotFound(PartyId),
    /// No session is paired with the member.
    MemberNotFound(PartyMemberId),
    /// The session has not reported its friend code yet.
    NoFriendCode,
}

/// A message that the router wants delivered.
///
/// The messages of one step are delivered in order, up to the first that fails.
#[derive(Debug)]
pub enum Action {
    /// Report upward.
    Parent(Event),
    /// Send a command to a worker.
    Server(WorkerId, worker::Command),
    /// Add a member with the given friend code to a party; once the party has
    /// numbered it, pair the number with the session.
    Join(PartyId, SessionId, String),
    /// Start a party.
    Start(PartyId),
    /// Pass the report of a member's session on to its party.
    Member(PartyMemberId, session::Event),
}

/// What the router knows of a session.
#[derive(Debug)]
pub struct Session {
    /// The code by which the session's player can be invited.
    pub friend_code: Option<String>,
}

/// The state of the router.
#[verifier::ext_equal]
pub struct ModuleState {
    /// The number of the next party.
    pub next_party: u64,
    /// The parties.
    pub parties: Set<u64>,
    /// The session that each member of a party is paired with.
    pub pairs: Map<MemberRef, SessionRef>,
    /// The number that each worker's next session gets.
    pub workers: Map<u32, usize>,
    /// The sessions.
    pub sessions: Map<SessionRef, Session>,
}

impl ModuleState {
    /// A router that knows of nothing.
    pub open spec fn fresh() -> Self {
        ModuleState {
            next_party: 0,
            parties: Set::empty(),
            pairs: Map::empty(),
            workers: Map::empty(),
            sessions: Map::empty(),
        }
    }

    /// What holds of every router: the pairing is one-to-one, and leads to
    /// parties that are known.
    pub open spec fn wf(self) -> bool {
        &&& one_to_one(self.pairs)
        &&& forall|m: MemberRef| #[trigger]
            self.pairs.contains_key(m) ==> self.parties.contains(m.0)
    }

    /// The router after a session's report: a new friend code is remembered.
    pub open spec fn session_noted(self, sid: SessionId, event: session::Event) -> Self {
        match event {
            session::Event::Game(game::Event::InviteCodeUpdate { code }) => {
                if self.sessions.contains_key(sid.raw()) {
                    ModuleState {
                        sessions: self.sessions.insert(
                            sid.raw(),
                            Session { friend_code: Some(code) },
                        ),
                        ..self
                    }
                } else {
                    self
                }
            },
            _ => self,
        }
    }

    /// What a session's report asks for: that a session is up is reported
    /// upward, and everything is passed on to the party of the member that is
    /// paired with the session.
    pub open spec fn session_actions(self, sid: SessionId, event: session::Event) -> Result<
        Seq<Action>,
        ModuleError,
    > {
        if !self.sessions.contains_key(sid.raw()) {
            Err(ModuleError::SessionNotFound(sid))
        } else {
            let up = if event == session::Event::StateUpdate(State::Running) {
                seq![
                    Action::Parent(
                        Event::Session(sid, SessionEvent::StateUpdate(SessionState::Running)),
                    ),
                ]
            } else {
                Seq::empty()
            };
            match left_of(self.pairs, sid.raw()) {
                Some(m) => Ok(
                    up.push(Action::Member(PartyMemberId(id_of(m.0), id_of(m.1)), event)),
                ),
                None => Ok(up),
            }
        }
    }

    /// The command for a member, addressed to the session that the member is
    /// paired with, or why there is none.
    pub open spec fn member_command(self, pmid: PartyMemberId, cmd: session::Command) -> Result<
        Action,
        ModuleError,
    > {
        if self.pairs.contains_key(pmid.raw()) {
            let s = self.pairs[pmid.raw()];
            Ok(Action::Server(WorkerId(s.0), worker::Command::Session(s.1, cmd)))
        } else {
            Err(ModuleError::MemberNotFound(pmid))
        }
    }

    /// The router once a member has been paired with its session.
    pub open spec fn member_added(self, pmid: PartyMemberId, sid: SessionId) -> Self {
        ModuleState { pairs: paired(self.pairs, pmid.raw(), sid.raw()), ..self }
    }

    /// The router once a party has been spawned.
    pub open spec fn party_spawned(self, pid: PartyId) -> Self {
        ModuleState { parties: self.parties.insert(pid@), ..self }
    }

    /// The router once a party has been numbered.
    pub open spec fn party_numbered(self) -> Self {
        ModuleState { next_party: succ_id(self.next_party), ..self }
    }

    /// What the creation of a session with the number `n` asks for: its worker is
    /// told to start it, and its start is reported upward.
    pub open spec fn starting(self, create: SessionCreate, n: usize) -> Seq<Action> {
        seq![
            Action::Server(
                create.wid,
                worker::Command::Session(
                    n,
                    session::Command::Create {
                        user: User {
                            username: create.username,
                            password: create.password,
                            secret: create.secret,
                        },
                    },
                ),
            ),
            Action::Parent(
                Event::Session(
                    SessionId(create.wid, n),
                    SessionEvent::StateUpdate(SessionState::Starting),
                ),
            ),
        ]
    }

    /// The router once a session has been created on a known worker.
    pub open spec fn session_created(self, wid: WorkerId) -> Self {
        let next = self.workers[wid.0];
        ModuleState {
            workers: self.workers.insert(wid.0, (next + 1) as usize),
            sessions: self.sessions.insert(
                SessionId(wid, next).raw(),
                Session { friend_code: None },
            ),
            ..self
        }
    }

    /// The router after a command.
    pub open spec fn handled(self, cmd: Command) -> Self {
        match cmd {
            Command::Connected(wid) => ModuleState {
                workers: self.workers.insert(wid.0, 0),
                ..self
            },
            Command::Worker(wid, worker::Event::Session(sid, event)) => self.session_noted(
                SessionId(wid, sid),
                event,
            ),
            Command::Party(_, _) => self,
        }
    }

    /// What a command asks for, or why it is refused.
    pub open spec fn answer(self, cmd: Command) -> Result<Seq<Action>, ModuleError> {
        match cmd {
            Command::Connected(wid) => Ok(
                seq![Action::Parent(Event::Worker(wid, WorkerEvent::New))],
            ),
            Command::Worker(wid, worker::Event::Session(sid, event)) => self.session_actions(
                SessionId(wid, sid),
                event,
            ),
            Command::Party(pid, PartyCommand::Add(sid)) => {
                if !self.parties.contains(pid@) {
                    Err(ModuleError::PartyNotFound(pid))
                } else if !self.sessions.contains_key(sid.raw()) {
                    Err(ModuleError::SessionNotFound(sid))
                } else {
                    match self.sessions[sid.raw()].friend_code {
                        Some(code) => Ok(seq![Action::Join(pid, sid, code)]),
                        None => Err(ModuleError::NoFriendCode),
                    }
                }
            },
            Command::Party(pid, PartyCommand::Start) => {
                if self.parties.contains(pid@) {
                    Ok(seq![Action::Start(pid)])
                } else {
                    Err(ModuleError::PartyNotFound(pid))
                }
            },
        }
    }
}

/// The content of a step's result.
pub open spec fn module_outcome(r: Result<Vec<Action>, ModuleError>) -> Result<
    Seq<Action>,
    ModuleError,
> {
    match r {
        Ok(actions) => Ok(actions@),
        Err(e) => Err(e),
    }
}

/// The number of a worker's next session.
struct Worker {
    sid: usize,
}

/// The two numbers of a session as one.
spec fn packed(s: SessionRef) -> u128 {
    (s.0 * 0x1_0000_0000_0000_0000 + s.1) as u128
}

/// Different sessions are packed differently.
proof fn lemma_packed(a: SessionRef, b: SessionRef)
    requires
        packed(a) == packed(b),
    ensures
        a == b,
{
}

/// The two numbers of a session as one.
fn pack(sid: SessionId) -> (r: u128)
    ensures
        r == packed(sid.raw()),
{
    (sid.0.0 as u128) * 0x1_0000_0000_0000_0000 + (sid.1 as u128)
}

/// The sessions of a table that is keyed by packed numbers.
spec fn unpacked(m: Map<u128, Session>) -> Map<SessionRef, Session> {
    Map::new(|s: SessionRef| m.contains_key(packed(s)), |s: SessionRef| m[packed(s)])
}

/// Storing under packed numbers stores the session.
proof fn lemma_unpacked_insert(m: Map<u128, Session>, s: SessionRef, v: Session)
    ensures
        unpacked(m.insert(packed(s), v)) == unpacked(m).insert(s, v),
{
    assert forall|t: SessionRef| packed(t) == packed(s) implies t == s by {
        lemma_packed(t, s);
    }
    assert(unpacked(m.insert(packed(s), v)) =~= unpacked(m).insert(s, v));
}

/// The router that knows its sessions by worker and number.
pub struct FarmModuleActor {
    party_gen: IdGen<PartyTag>,
    parties: HashSet<u64>,
    member_to_session: BiHashMap<MemberRef, SessionRef>,
    workers: HashMap<u32, Worker>,
    sessions: HashMap<u128, Session>,
}

impl View for FarmModuleActor {
    type V = ModuleState;

    closed spec fn view(&self) -> ModuleState {
        ModuleState {
            next_party: self.party_gen@,
            parties: self.parties@,
            pairs: member_pairs(self.member_to_session),
            workers: self.workers@.map_values(|w: Worker| w.sid),
            sessions: unpacked(self.sessions@),
        }
    }
}

impl FarmModuleActor {
    /// A router that knows of nothing.
    pub fn new() -> (r: Self)
        ensures
            r@.wf(),
            r@ == ModuleState::fresh(),
    {
        let r = FarmModuleActor {
            party_gen: IdGen::default(),
            parties: HashSet::new(),
            member_to_session: members_new(),
            workers: HashMap::new(),
            sessions: HashMap::new(),
        };
        assert(r@.workers =~= Map::<u32, usize>::empty());
        assert(r@.sessions =~= Map::<SessionRef, Session>::empty());
        r
    }

    /// Addresses a command to a session's worker.
    pub fn send_session(&self, sid: SessionId, cmd: session::Command) -> (r: Action)
        ensures
            r == Action::Server(sid.0, worker::Command::Session(sid.1, cmd)),
    {
        Action::Server(sid.0, worker::Command::Session(sid.1, cmd))
    }

    /// Passes the report of a member's session on to its party.
    pub fn send_member(&self, pmid: PartyMemberId, event: session::Event) -> (r: Result<
        Action,
        ModuleError,
    >)
        ensures
            r == (if self@.parties.contains(pmid.0@) {
                Ok(Action::Member(pmid, event))
            } else {
                Err(ModuleError::PartyNotFound(pmid.0))
            }),
    {
        if !self.parties.contains(&pmid.0.inner()) {
            return Err(ModuleError::PartyNotFound(pmid.0));
        }
        Ok(Action::Member(pmid, event))
    }

    /// Takes the report of a party: a command for a member goes to the session
    /// that the member is paired with.
    pub fn handle_party(&self, pid: PartyId, event: PartyEvent) -> (r: Result<Action, ModuleError>)
        ensures
            match event {
                PartyEvent::Member(mid, cmd) => r == self@.member_command(
                    PartyMemberId(pid, mid),
                    cmd,
                ),
            },
    {
        match event {
            PartyEvent::Member(mid, cmd) => {
                match members_get_by_left(&self.member_to_session, (pid.inner(), mid.inner())) {
                    Some((wid, sid)) => Ok(self.send_session(SessionId(WorkerId(wid), sid), cmd)),
                    None => Err(ModuleError::MemberNotFound(PartyMemberId(pid, mid))),
                }
            },
        }
    }

    /// Takes the report of a session.
    pub fn handle_session(&mut self, sid: SessionId, event: session::Event) -> (r: Result<
        Vec<Action>,
        ModuleError,
    >)
        requires
            old(self)@.wf(),
        ensures
            final(self)@.wf(),
            final(self)@ == old(self)@.session_noted(sid, event),
            module_outcome(r) == old(self)@.session_actions(sid, event),
    {
        let ghost before = self@;
        let key = pack(sid);
        if !self.sessions.contains_key(&key) {
            return Err(ModuleError::SessionNotFound(sid));
        }
        let mut actions: Vec<Action> = Vec::new();
        match &event {
            session::Event::StateUpdate(State::Running) => {
                actions.push(
                    Action::Parent(
                        Event::Session(sid, SessionEvent::StateUpdate(SessionState::Running)),
                    ),
                );
            },
            session::Event::Game(game::Event::InviteCodeUpdate { code }) => {
                let session = Session { friend_code: Some(code.clone()) };
                proof {
                    lemma_unpacked_insert(self.sessions@, sid.raw(), session);
                }
                self.sessions.insert(key, session);
            },
            _ => {},
        }
        let ghost up = actions@;
        assert(up =~= (if event == session::Event::StateUpdate(State::Running) {
            seq![
                Action::Parent(
                    Event::Session(sid, SessionEvent::StateUpdate(SessionState::Running)),
                ),
            ]
        } else {
            Seq::empty()
        }));
        if let Some((pid, mid)) = members_get_by_right(
            &self.member_to_session,
            (sid.0.0, sid.1),
        ) {
            proof {
                lemma_left_of(before.pairs, (pid, mid));
                lemma_id_of::<PartyTag>(pid);
                lemma_id_of::<MemberTag>(mid);
            }
            let pmid = PartyMemberId(PartyId::from_raw(pid), MemberId::from_raw(mid));
            match self.send_member(pmid, event) {
                Ok(action) => {
                    actions.push(action);
                },
                Err(e) => {
                    return Err(e);
                },
            }
        }
        Ok(actions)
    }

    /// Takes a command.
    pub fn handle(&mut self, cmd: Command) -> (r: Result<Vec<Action>, ModuleError>)
        requires
            old(self)@.wf(),
        ensures
            final(self)@.wf(),
            final(self)@ == old(self)@.handled(cmd),
            module_outcome(r) == old(self)@.answer(cmd),
    {
        let ghost before = self@;
        let mut actions: Vec<Action> = Vec::new();
        match cmd {
            Command::Connected(wid) => {
                self.workers.insert(wid.0, Worker { sid: 0 });
                assert(self@.workers =~= before.workers.insert(wid.0, 0));
                actions.push(Action::Parent(Event::Worker(wid, WorkerEvent::New)));
                Ok(actions)
            },
            Command::Worker(wid, worker::Event::Session(sid, event)) => {
                self.handle_session(SessionId(wid, sid), event)
            },
            Command::Party(pid, PartyCommand::Add(sid)) => {
                if !self.parties.contains(&pid.inner()) {
                    return Err(ModuleError::PartyNotFound(pid));
                }
                match self.sessions.get(&pack(sid)) {
                    None => Err(ModuleError::SessionNotFound(sid)),
                    Some(session) => match &session.friend_code {
                        None => Err(ModuleError::NoFriendCode),
                        Some(code) => {
                            actions.push(Action::Join(pid, sid, code.clone()));
                            Ok(actions)
                        },
                    },
                }
            },
            Command::Party(pid, PartyCommand::Start) => {
                if !self.parties.contains(&pid.inner()) {
                    return Err(ModuleError::PartyNotFound(pid));
                }
                actions.push(Action::Start(pid));
                Ok(actions)
            },
        }
    }

    /// Pairs the number that a party has given to a new member with the
    /// member's session.
    pub fn member_added(&mut self, pmid: PartyMemberId, sid: SessionId)
        requires
            old(self)@.wf(),
            old(self)@.parties.contains(pmid.0@),
        ensures
            final(self)@.wf(),
            final(self)@ == old(self)@.member_added(pmid, sid),
    {
        proof {
            lemma_paired(self@.pairs, pmid.raw(), sid.raw());
        }
        members_insert(
            &mut self.member_to_session,
            (pmid.0.inner(), pmid.1.inner()),
            (sid.0.0, sid.1),
        );
    }

    /// Whether a party is known.
    pub fn has_party(&self, pid: PartyId) -> (r: bool)
        ensures
            r == self@.parties.contains(pid@),
    {
        self.parties.contains(&pid.inner())
    }

    /// Creates a session on a worker: the session gets the worker's next
    /// number, the worker is told to start it, and its start is reported.
    pub fn create_session(&mut self, create: SessionCreate) -> (r: Result<
        (SessionId, Vec<Action>),
        ModuleError,
    >)
        requires
            old(self)@.wf(),
            old(self)@.workers.contains_key(create.wid.0) ==> old(self)@.workers[create.wid.0]
                < usize::MAX,
        ensures
            final(self)@.wf(),
            !old(self)@.workers.contains_key(create.wid.0) ==> {
                &&& r == Err::<(SessionId, Vec<Action>), ModuleError>(
                    ModuleError::WorkerNotFound(create.wid),
                )
                &&& final(self)@ == old(self)@
            },
            old(self)@.workers.contains_key(create.wid.0) ==> {
                let next = old(self)@.workers[create.wid.0];
                let sid = SessionId(create.wid, next);
                &&& final(self)@ == old(self)@.session_created(create.wid)
                &&& r is Ok
                &&& r->Ok_0.0 == sid
                &&& r->Ok_0.1@ == old(self)@.starting(create, next)
                &&& r->Ok_0.1@ == seq![
                    Action::Server(
                        create.wid,
                        worker::Command::Session(
                            next,
                            session::Command::Create {
                                user: User {
                                    username: create.username,
                                    password: create.password,
                                    secret: create.secret,
                                },
                            },
                        ),
                    ),
                    Action::Parent(
                        Event::Session(sid, SessionEvent::StateUpdate(SessionState::Starting)),
                    ),
                ]
            },
    {
        let ghost before = self@;
        let SessionCreate { wid, username, password, secret } = create;
        let next = match self.workers.get(&wid.0) {
            Some(worker) => worker.sid,
            None => {
                return Err(ModuleError::WorkerNotFound(wid));
            },
        };
        let user = User { username, password, secret };
        let sid = SessionId(wid, next);
        self.workers.insert(wid.0, Worker { sid: next + 1 });
        assert(self@.workers =~= before.workers.insert(wid.0, (next + 1) as usize));
        proof {
            lemma_unpacked_insert(
                self.sessions@,
                sid.raw(),
                Session { friend_code: None },
            );
        }
        self.sessions.insert(pack(sid), Session { friend_code: None });
        let mut actions: Vec<Action> = Vec::new();
        actions.push(self.send_session(sid, session::Command::Create { user }));
        actions.push(
            Action::Parent(
                Event::Session(sid, SessionEvent::StateUpdate(SessionState::Starting)),
            ),
        );
        Ok((sid, actions))
    }

    /// Whether a worker has a number left for one more session; a worker that
    /// is not known has.
    pub fn has_session_room(&self, wid: WorkerId) -> (r: bool)
        ensures
            r == (self@.workers.contains_key(wid.0) ==> self@.workers[wid.0] < usize::MAX),
    {
        match self.workers.get(&wid.0) {
            Some(worker) => worker.sid < usize::MAX,
            None => true,
        }
    }

    /// Numbers a new party. Once the party has been spawned, the caller calls
    /// [`FarmModuleActor::party_spawned`].
    pub fn create_party(&mut self, _create: PartyCreate) -> (pid: PartyId)
        requires
            old(self)@.wf(),
        ensures
            final(self)@.wf(),
            pid@ == old(self)@.next_party,
            final(self)@ == (ModuleState {
                next_party: succ_id(old(self)@.next_party),
                ..old(self)@
            }),
            final(self)@ == old(self)@.party_numbered(),
    {
        self.party_gen.next()
    }

    /// Remembers a party that has been spawned.
    pub fn party_spawned(&mut self, pid: PartyId)
        requires
            old(self)@.wf(),
        ensures
            final(self)@.wf(),
            final(self)@ == old(self)@.party_spawned(pid),
    {
        self.parties.insert(pid.inner());
    }
}

} // verus!
