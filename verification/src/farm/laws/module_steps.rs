//! What each step of [`FarmModuleActor`](crate::farm::actor::FarmModuleActor) does
//! and asks for.
use crate::farm::actor::{
    module_outcome, Action, Command, Event, ModuleError, ModuleState, PartyCommand, PartyMemberId,
    Session, SessionCreate, SessionEvent, SessionId, SessionState, WorkerEvent,
};
use crate::hub::farm_command;
use crate::ids::{id_of, lemma_id_is_its_number, lemma_id_of, MemberTag, PartyId, PartyTag};
use crate::pairing::{lemma_left_of, MemberRef, SessionRef};
use crate::protocol::game;
use crate::protocol::session;
use crate::protocol::session::State;
use crate::protocol::worker;
use crate::protocol::ClientType;
use crate::server;
use crate::server::WorkerId;
use vstd::prelude::*;

verus! {

/// A new router knows of nothing, and numbers parties from zero.
pub proof fn lemma_new_router()
    ensures
        ({
            let s = ModuleState::fresh();
            &&& s.next_party == 0
            &&& forall|p: u64| !#[trigger] s.parties.contains(p)
            &&& forall|m: MemberRef| !#[trigger] s.pairs.contains_key(m)
            &&& forall|w: u32| !#[trigger] s.workers.contains_key(w)
            &&& forall|k: SessionRef| !#[trigger] s.sessions.contains_key(k)
        }),
{
}

/// The numbers behind the ids of a member and of a session are those that they
/// carry, and no two ids have the same.
pub proof fn lemma_numbers_behind_ids(
    pmid: PartyMemberId,
    sid: SessionId,
    other: PartyMemberId,
    twin: SessionId,
)
    ensures
        pmid.raw() == (pmid.0@, pmid.1@),
        sid.raw() == (sid.0.0, sid.1),
        pmid.raw() == other.raw() ==> pmid == other,
        sid.raw() == twin.raw() ==> sid == twin,
{
    if pmid.raw() == other.raw() {
        lemma_id_is_its_number(pmid.0, other.0);
        lemma_id_is_its_number(pmid.1, other.1);
    }
}

/// The content of a result is its messages, or the refusal.
pub proof fn lemma_outcome_content(actions: Vec<Action>, e: ModuleError)
    ensures
        module_outcome(Ok(actions)) == Ok::<Seq<Action>, ModuleError>(actions@),
        module_outcome(Err(e)) == Err::<Seq<Action>, ModuleError>(e),
{
}

/// What a session's report asks for: a report that it is up goes upward, then
/// every report goes, as it is, to the party of the member that is paired with
/// the session; nothing else does. A session that is not known is refused.
pub proof fn lemma_report_goes_on(
    s: ModuleState,
    sid: SessionId,
    event: session::Event,
    pmid: PartyMemberId,
)
    requires
        s.wf(),
    ensures
        ({
            let said = s.session_actions(sid, event);
            let up = event == session::Event::StateUpdate(State::Running);
            let paired = s.pairs.contains_key(pmid.raw()) && s.pairs[pmid.raw()] == sid.raw();
            let alone = forall|m: MemberRef| #[trigger]
                s.pairs.contains_key(m) ==> s.pairs[m] != sid.raw();
            let upward = Action::Parent(
                Event::Session(sid, SessionEvent::StateUpdate(SessionState::Running)),
            );
            let onward = Action::Member(pmid, event);
            &&& !s.sessions.contains_key(sid.raw()) ==> said == Err::<Seq<Action>, ModuleError>(
                ModuleError::SessionNotFound(sid),
            )
            &&& s.sessions.contains_key(sid.raw()) ==> {
                &&& said is Ok
                &&& up && paired ==> said->Ok_0 == seq![upward, onward]
                &&& up && alone ==> said->Ok_0 == seq![upward]
                &&& !up && paired ==> said->Ok_0 == seq![onward]
                &&& !up && alone ==> said->Ok_0.len() == 0
            }
        }),
{
    let said = s.session_actions(sid, event);
    let upward = Action::Parent(
        Event::Session(sid, SessionEvent::StateUpdate(SessionState::Running)),
    );
    let onward = Action::Member(pmid, event);
    if s.sessions.contains_key(sid.raw()) && s.pairs.contains_key(pmid.raw())
        && s.pairs[pmid.raw()] == sid.raw() {
        lemma_left_of(s.pairs, pmid.raw());
        lemma_id_of::<PartyTag>(pmid.0@);
        lemma_id_of::<MemberTag>(pmid.1@);
        assert(id_of::<PartyTag>(pmid.0@) == pmid.0);
        assert(id_of::<MemberTag>(pmid.1@) == pmid.1);
        if event == session::Event::StateUpdate(State::Running) {
            assert(said->Ok_0 =~= seq![upward, onward]);
        } else {
            assert(said->Ok_0 =~= seq![onward]);
        }
    }
}

/// What is remembered of a session's report is a new friend code, if the session is
/// known; nothing else changes.
pub proof fn lemma_report_is_noted(s: ModuleState, sid: SessionId, event: session::Event)
    ensures
        ({
            let t = s.session_noted(sid, event);
            let code = match event {
                session::Event::Game(game::Event::InviteCodeUpdate { code }) => Some(code),
                _ => None,
            };
            &&& code is None || !s.sessions.contains_key(sid.raw()) ==> t == s
            &&& code is Some && s.sessions.contains_key(sid.raw()) ==> {
                &&& t == (ModuleState { sessions: t.sessions, ..s })
                &&& t.sessions == s.sessions.insert(sid.raw(), Session { friend_code: code })
            }
        }),
{
}

/// A command for a member goes, as it is, to the worker and the number of the
/// session that the member is paired with; it is refused where there is none.
pub proof fn lemma_member_is_told(s: ModuleState, pmid: PartyMemberId, cmd: session::Command)
    ensures
        s.pairs.contains_key(pmid.raw()) ==> s.member_command(pmid, cmd) == Ok::<
            Action,
            ModuleError,
        >(
            Action::Server(
                WorkerId(s.pairs[pmid.raw()].0),
                worker::Command::Session(s.pairs[pmid.raw()].1, cmd),
            ),
        ),
        !s.pairs.contains_key(pmid.raw()) ==> s.member_command(pmid, cmd) == Err::<
            Action,
            ModuleError,
        >(ModuleError::MemberNotFound(pmid)),
{
}

/// A member that is paired with a session is paired with it, and with that alone;
/// of the others, only whoever was paired with the session loses it. Nothing else
/// changes.
pub proof fn lemma_member_is_paired(
    s: ModuleState,
    pmid: PartyMemberId,
    sid: SessionId,
    m: MemberRef,
)
    ensures
        ({
            let t = s.member_added(pmid, sid);
            &&& t == (ModuleState { pairs: t.pairs, ..s })
            &&& t.pairs.contains_key(pmid.raw())
            &&& t.pairs[pmid.raw()] == sid.raw()
            &&& m != pmid.raw() ==> (t.pairs.contains_key(m) <==> s.pairs.contains_key(m)
                && s.pairs[m] != sid.raw())
            &&& m != pmid.raw() && t.pairs.contains_key(m) ==> t.pairs[m] == s.pairs[m]
        }),
{
}

/// A party that has been spawned is known, and a new session is, under the next
/// number of its worker, which moves on by one; its friend code is not. Nothing
/// else changes.
pub proof fn lemma_coming(s: ModuleState, pid: PartyId, wid: WorkerId)
    ensures
        s.party_spawned(pid) == (ModuleState { parties: s.parties.insert(pid@), ..s }),
        s.workers.contains_key(wid.0) && s.workers[wid.0] < usize::MAX ==> {
            let t = s.session_created(wid);
            let n = s.workers[wid.0];
            &&& t == (ModuleState { workers: t.workers, sessions: t.sessions, ..s })
            &&& t.workers == s.workers.insert(wid.0, t.workers[wid.0])
            &&& t.workers[wid.0] == n + 1
            &&& t.sessions == s.sessions.insert((wid.0, n), Session { friend_code: None })
        },
{
}

/// What the router does with a command. A worker that connects numbers its
/// sessions from zero, and that is reported upward. What a worker sends is taken
/// as the report of the session with that number. A party that is known is told
/// to start.
pub proof fn lemma_commands(
    s: ModuleState,
    wid: WorkerId,
    n: usize,
    event: session::Event,
    pid: PartyId,
)
    ensures
        ({
            let connected = Command::Connected(wid);
            let sent = Command::Worker(wid, worker::Event::Session(n, event));
            let start = Command::Party(pid, PartyCommand::Start);
            &&& s.handled(connected) == (ModuleState {
                workers: s.workers.insert(wid.0, 0usize),
                ..s
            })
            &&& s.answer(connected) == Ok::<Seq<Action>, ModuleError>(
                seq![Action::Parent(Event::Worker(wid, WorkerEvent::New))],
            )
            &&& s.handled(sent) == s.session_noted(SessionId(wid, n), event)
            &&& s.answer(sent) == s.session_actions(SessionId(wid, n), event)
            &&& s.handled(start) == s
            &&& s.parties.contains(pid@) ==> s.answer(start) == Ok::<Seq<Action>, ModuleError>(
                seq![Action::Start(pid)],
            )
            &&& !s.parties.contains(pid@) ==> s.answer(start) == Err::<Seq<Action>, ModuleError>(
                ModuleError::PartyNotFound(pid),
            )
        }),
{
}

/// A session is added to a party that is known if the session is known and its
/// friend code is: then the party gets the session with that code. Otherwise the
/// refusal names what is missing. Nothing changes either way.
pub proof fn lemma_session_is_added(s: ModuleState, pid: PartyId, sid: SessionId)
    ensures
        ({
            let add = Command::Party(pid, PartyCommand::Add(sid));
            let code = s.sessions[sid.raw()].friend_code;
            let party = s.parties.contains(pid@);
            let known = s.sessions.contains_key(sid.raw());
            &&& s.handled(add) == s
            &&& !party ==> s.answer(add) == Err::<Seq<Action>, ModuleError>(
                ModuleError::PartyNotFound(pid),
            )
            &&& party && !known ==> s.answer(add) == Err::<Seq<Action>, ModuleError>(
                ModuleError::SessionNotFound(sid),
            )
            &&& party && known && code is None ==> s.answer(add) == Err::<
                Seq<Action>,
                ModuleError,
            >(ModuleError::NoFriendCode)
            &&& party && known && code is Some ==> s.answer(add) == Ok::<Seq<Action>, ModuleError>(
                seq![Action::Join(pid, sid, code->0)],
            )
        }),
{
}

/// The farm is told of a worker that connects, and of what a worker sends, as it
/// is; it is told nothing of other clients.
pub proof fn lemma_farm_is_told(wid: WorkerId, event: worker::Event)
    ensures
        farm_command(server::Event::New(wid, ClientType::Worker)) == Some(
            Command::Connected(wid),
        ),
        farm_command(server::Event::New(wid, ClientType::Client)) is None,
        farm_command(server::Event::Worker(wid, event)) == Some(Command::Worker(wid, event)),
{
}

/// The creation of a session asks for two things: its worker is told to start it,
/// under its number and with the account that was given, and then its start is
/// reported upward.
pub proof fn lemma_starting(s: ModuleState, create: SessionCreate, n: usize)
    ensures
        ({
            let asks = s.starting(create, n);
            &&& asks.len() == 2
            &&& asks[0] matches Action::Server(
                wid,
                worker::Command::Session(at, session::Command::Create { user }),
            ) && {
                &&& wid == create.wid
                &&& at == n
                &&& user.username == create.username
                &&& user.password == create.password
                &&& user.secret == create.secret
            }
            &&& asks[1] == Action::Parent(
                Event::Session(
                    SessionId(create.wid, n),
                    SessionEvent::StateUpdate(SessionState::Starting),
                ),
            )
        }),
{
}

/// Numbering a party moves the number of the next one on by one, and changes
/// nothing else.
pub proof fn lemma_party_is_numbered(s: ModuleState)
    ensures
        s.party_numbered() == (ModuleState { next_party: s.party_numbered().next_party, ..s }),
        s.party_numbered().next_party == (s.next_party + 1) % 0x1_0000_0000_0000_0000,
{
}

} // verus!
