//! What each step of [`FarmSupervisor`](crate::farm::supervisor::FarmSupervisor)
//! does and asks for.
use crate::error::Error;
use crate::farm::party::member as party;
use crate::farm::party::Party;
use crate::farm::supervisor::{
    Action, ActionView, Command, Event, PartyCommand, SessionRecord, SupervisorState, WorkerEvent,
};
use crate::ids::{lemma_id_of, numbers, PartyId, SessionId, SessionTag};
use crate::protocol::game;
use crate::protocol::session;
use crate::protocol::session::State;
use crate::protocol::worker;
use crate::server::WorkerId;
use vstd::prelude::*;

verus! {

/// A new router knows of nothing, and numbers sessions and parties from zero.
pub proof fn lemma_new_router()
    ensures
        ({
            let s = SupervisorState::fresh();
            &&& s.next_session == 0
            &&& s.next_party == 0
            &&& forall|w: u32| !#[trigger] s.workers.contains_key(w)
            &&& forall|k: u64| !#[trigger] s.sessions.contains_key(k)
            &&& forall|k: u64| !#[trigger] s.parties.contains_key(k)
        }),
{
}

/// What comes from a worker's position comes from the session that has it; it is
/// refused where the worker is not known, and where nobody has the position.
pub proof fn lemma_session_at(s: SupervisorState, wid: WorkerId, slot: usize)
    ensures
        ({
            let known = s.workers.contains_key(wid.0);
            let used = s.workers[wid.0].slots.contains_key(slot);
            &&& !known ==> s.session_at(wid, slot) == Err::<SessionId, Error>(
                Error::WorkerNotFound(wid),
            )
            &&& known && used ==> s.session_at(wid, slot) == Ok::<SessionId, Error>(
                s.workers[wid.0].slots[slot],
            )
            &&& known && !used ==> s.session_at(wid, slot) == Err::<SessionId, Error>(
                Error::SlotNotFound { wid, slot },
            )
        }),
{
}

/// A session can be reached if it is known and has, on its worker, the position
/// that is its own.
pub proof fn lemma_reachable(s: SupervisorState, sid: SessionId)
    ensures
        s.reachable(sid) <==> {
            &&& s.sessions.contains_key(sid@)
            &&& s.workers.contains_key(s.sessions[sid@].worker_id.0)
            &&& s.workers[s.sessions[sid@].worker_id.0].slots.contains_key(s.sessions[sid@].slot)
            &&& s.workers[s.sessions[sid@].worker_id.0].slots[s.sessions[sid@].slot] == sid
        },
{
}

/// What a session's report asks for: a report that it is up goes upward, then
/// every report goes to the session's party, as it is, if the session was added to
/// one that is still known; nothing else does.
pub proof fn lemma_report_goes_on(s: SupervisorState, sid: SessionId, event: session::Event)
    ensures
        ({
            let said = s.session_actions(sid, event);
            let up = event == session::Event::StateUpdate(State::Running);
            let rec = s.sessions[sid@];
            let on = rec.party_id is Some && s.parties.contains_key(rec.party_id->0@);
            let upward = ActionView::Parent(Event::SessionReady(sid));
            let onward = ActionView::Party(rec.party_id->0, party::Command::Member(sid, event));
            &&& !s.sessions.contains_key(sid@) ==> said == Err::<Seq<ActionView>, Error>(
                Error::SessionNotFound(sid),
            )
            &&& s.sessions.contains_key(sid@) ==> {
                &&& said is Ok
                &&& up && on ==> said->Ok_0 == seq![upward, onward]
                &&& up && !on ==> said->Ok_0 == seq![upward]
                &&& !up && on ==> said->Ok_0 == seq![onward]
                &&& !up && !on ==> said->Ok_0.len() == 0
            }
        }),
{
    let said = s.session_actions(sid, event);
    if s.sessions.contains_key(sid@) {
        let rec = s.sessions[sid@];
        let upward = ActionView::Parent(Event::SessionReady(sid));
        let onward = ActionView::Party(rec.party_id->0, party::Command::Member(sid, event));
        if event == session::Event::StateUpdate(State::Running) {
            if rec.party_id is Some && s.parties.contains_key(rec.party_id->0@) {
                assert(said->Ok_0 =~= seq![upward, onward]);
            } else {
                assert(said->Ok_0 =~= seq![upward]);
            }
        } else if rec.party_id is Some && s.parties.contains_key(rec.party_id->0@) {
            assert(said->Ok_0 =~= seq![onward]);
        }
    }
}

/// What is remembered of a session's report is a new friend code. All else that is
/// known of the session stays, and so does everything else.
pub proof fn lemma_report_is_noted(s: SupervisorState, sid: u64, event: session::Event)
    ensures
        ({
            let t = s.session_noted(sid, event);
            let rec = s.sessions[sid];
            &&& !s.sessions.contains_key(sid) ==> t == s
            &&& s.sessions.contains_key(sid) ==> {
                &&& t == (SupervisorState { sessions: t.sessions, ..s })
                &&& t.sessions == s.sessions.insert(
                    sid,
                    SessionRecord {
                        worker_id: rec.worker_id,
                        slot: rec.slot,
                        party_id: rec.party_id,
                        friend_code: match event {
                            session::Event::Game(game::Event::InviteCodeUpdate { code }) => Some(
                                code,
                            ),
                            _ => rec.friend_code,
                        },
                    },
                )
            }
        }),
{
    let t = s.session_noted(sid, event);
    if s.sessions.contains_key(sid) {
        assert(t.sessions =~= s.sessions.insert(sid, t.sessions[sid]));
    }
}

/// A worker that connects has no positions in use, and the first comes next,
/// whatever it had; that is reported upward, and nothing else changes.
pub proof fn lemma_worker_connects(s: SupervisorState, wid: WorkerId)
    ensures
        ({
            let t = s.handled(Command::Connected(wid));
            &&& s.answer(Command::Connected(wid)) == Ok::<Seq<ActionView>, Error>(
                seq![ActionView::Parent(Event::Worker(wid, WorkerEvent::New))],
            )
            &&& t == (SupervisorState { workers: t.workers, ..s })
            &&& t.workers == s.workers.insert(wid.0, t.workers[wid.0])
            &&& t.workers[wid.0].next_slot == 0
            &&& t.workers[wid.0].slots == Map::<usize, SessionId>::empty()
        }),
{
}

/// What a worker sends from a position is taken as the report of the session there,
/// and refused, without a change, where there is none or it is not known.
pub proof fn lemma_worker_sends(
    s: SupervisorState,
    wid: WorkerId,
    slot: usize,
    event: session::Event,
    sid: SessionId,
)
    ensures
        ({
            let cmd = Command::Worker(wid, worker::Event::Session(slot, event));
            &&& s.session_at(wid, slot) == Ok::<SessionId, Error>(sid) ==> {
                &&& s.handled(cmd) == s.session_noted(sid@, event)
                &&& s.answer(cmd) == s.session_actions(sid, event)
            }
            &&& s.session_at(wid, slot) matches Err(e) ==> {
                &&& s.handled(cmd) == s
                &&& s.answer(cmd) == Err::<Seq<ActionView>, Error>(e)
            }
        }),
{
}

/// A session is added to a party that is known if the session is known and its
/// friend code is: then the party gets the session with that code, and the session
/// belongs to that party, whichever it belonged to before. Nothing else changes,
/// and a refusal changes nothing; it names what is missing.
pub proof fn lemma_session_is_added(s: SupervisorState, pid: PartyId, sid: SessionId)
    ensures
        ({
            let cmd = Command::Party(pid, PartyCommand::Add(sid));
            let t = s.handled(cmd);
            let rec = s.sessions[sid@];
            let party = s.parties.contains_key(pid@);
            let known = s.sessions.contains_key(sid@);
            &&& !party ==> t == s && s.answer(cmd) == Err::<Seq<ActionView>, Error>(
                Error::PartyNotFound(pid),
            )
            &&& party && !known ==> t == s && s.answer(cmd) == Err::<Seq<ActionView>, Error>(
                Error::SessionNotFound(sid),
            )
            &&& party && known && rec.friend_code is None ==> t == s && s.answer(cmd) == Err::<
                Seq<ActionView>,
                Error,
            >(Error::NoFriendCode(sid))
            &&& party && known && rec.friend_code is Some ==> {
                &&& s.answer(cmd) == Ok::<Seq<ActionView>, Error>(
                    seq![ActionView::Join(pid, sid, rec.friend_code->0@)],
                )
                &&& t == (SupervisorState { sessions: t.sessions, ..s })
                &&& t.sessions == s.sessions.insert(
                    sid@,
                    SessionRecord {
                        worker_id: rec.worker_id,
                        slot: rec.slot,
                        party_id: Some(pid),
                        friend_code: rec.friend_code,
                    },
                )
            }
        }),
{
}

/// A party that is known is told to start, and one that is not is refused; either
/// way nothing changes.
pub proof fn lemma_party_is_started(s: SupervisorState, pid: PartyId)
    ensures
        ({
            let cmd = Command::Party(pid, PartyCommand::Start);
            &&& s.handled(cmd) == s
            &&& s.parties.contains_key(pid@) ==> s.answer(cmd) == Ok::<Seq<ActionView>, Error>(
                seq![ActionView::Party(pid, party::Command::Start)],
            )
            &&& !s.parties.contains_key(pid@) ==> s.answer(cmd) == Err::<Seq<ActionView>, Error>(
                Error::PartyNotFound(pid),
            )
        }),
{
}

/// A new session gets the next number and its worker's next position, and both
/// move on by one. It belongs to no party, and its friend code is not known.
/// Nothing else changes.
pub proof fn lemma_session_is_created(s: SupervisorState, wid: WorkerId)
    requires
        s.workers.contains_key(wid.0),
        s.workers[wid.0].next_slot < usize::MAX,
    ensures
        ({
            let t = s.session_created(wid);
            let slot = s.workers[wid.0].next_slot;
            let rec = t.sessions[s.next_session];
            let at = t.workers[wid.0].slots[slot];
            &&& t == (SupervisorState {
                next_session: t.next_session,
                workers: t.workers,
                sessions: t.sessions,
                ..s
            })
            &&& t.next_session == (s.next_session + 1) % 0x1_0000_0000_0000_0000
            &&& t.workers == s.workers.insert(wid.0, t.workers[wid.0])
            &&& t.workers[wid.0].next_slot == slot + 1
            &&& t.workers[wid.0].slots == s.workers[wid.0].slots.insert(slot, at)
            &&& at@ == s.next_session
            &&& t.sessions == s.sessions.insert(s.next_session, rec)
            &&& rec.worker_id == wid
            &&& rec.slot == slot
            &&& rec.party_id is None
            &&& rec.friend_code is None
        }),
{
    lemma_id_of::<SessionTag>(s.next_session);
}

/// A command for a session that is known goes, as it is, to the session's worker
/// and position; for another it is refused.
pub proof fn lemma_command_is_routed(s: SupervisorState, sid: SessionId, cmd: session::Command)
    ensures
        s.sessions.contains_key(sid@) ==> s.routed(sid, cmd) == Ok::<Action, Error>(
            Action::Server(
                s.sessions[sid@].worker_id,
                worker::Command::Session(s.sessions[sid@].slot, cmd),
            ),
        ),
        !s.sessions.contains_key(sid@) ==> s.routed(sid, cmd) == Err::<Action, Error>(
            Error::SessionNotFound(sid),
        ),
{
}

/// Parties come and go by their numbers, and sessions go by theirs; nothing else
/// changes with that.
pub proof fn lemma_coming_and_going(
    s: SupervisorState,
    party: Party,
    pid: PartyId,
    sid: SessionId,
)
    ensures
        s.party_created(party) == (SupervisorState {
            parties: s.parties.insert(party.pid@, party),
            ..s
        }),
        s.party_done(pid) == (SupervisorState { parties: s.parties.remove(pid@), ..s }),
        s.session_dead(sid) == (SupervisorState { sessions: s.sessions.remove(sid@), ..s }),
{
}

/// What the death of a session asks for: its party is told, if the session was
/// added to one that is still known, then the death is reported upward.
pub proof fn lemma_death_is_told(s: SupervisorState, sid: SessionId)
    ensures
        ({
            let rec = s.sessions[sid@];
            let on = s.sessions.contains_key(sid@) && rec.party_id is Some
                && s.parties.contains_key(rec.party_id->0@);
            let upward = ActionView::Parent(Event::SessionDead(sid));
            &&& on ==> s.farewell(sid) == seq![
                ActionView::Notice(rec.party_id->0, party::Command::MemberDead(sid)),
                upward,
            ]
            &&& !on ==> s.farewell(sid) == seq![upward]
        }),
{
    let rec = s.sessions[sid@];
    let upward = ActionView::Parent(Event::SessionDead(sid));
    if s.sessions.contains_key(sid@) && rec.party_id is Some && s.parties.contains_key(
        rec.party_id->0@,
    ) {
        assert(s.farewell(sid) =~= seq![
            ActionView::Notice(rec.party_id->0, party::Command::MemberDead(sid)),
            upward,
        ]);
    } else {
        assert(s.farewell(sid) =~= seq![upward]);
    }
}

/// The deaths of several sessions are told one after the other, and nothing is
/// told where nobody died.
pub proof fn lemma_deaths_are_told(s: SupervisorState, dead: Seq<SessionId>, sid: SessionId)
    ensures
        s.farewells(Seq::empty()).len() == 0,
        s.farewells(dead.push(sid)) == s.farewells(dead) + s.farewell(sid),
{
    assert(dead.push(sid).drop_last() =~= dead);
}

/// The sessions of a dead worker are all those that it hosts and no others, each
/// once.
pub proof fn lemma_dead_of_worker(
    s: SupervisorState,
    wid: WorkerId,
    dead: Seq<SessionId>,
    sid: SessionId,
    i: int,
    j: int,
)
    requires
        s.hosts(wid, dead),
    ensures
        dead.contains(sid) <==> s.sessions.contains_key(sid@) && s.sessions[sid@].worker_id == wid,
        0 <= i < j < dead.len() ==> dead[i] != dead[j],
{
    if dead.contains(sid) {
        let n = dead.index_of(sid);
        assert(s.sessions.contains_key(dead[n]@));
    }
}

/// When `told` deaths of a worker's sessions have been reported, those sessions
/// are forgotten and the next one is, whose report failed. The worker is forgotten
/// only once all have been reported. Nothing else changes.
pub proof fn lemma_worker_is_forgotten(
    s: SupervisorState,
    wid: WorkerId,
    dead: Seq<SessionId>,
    told: nat,
    k: u64,
    w: u32,
)
    ensures
        ({
            let t = s.worker_gone(wid, dead, told);
            let gone = exists|i: int|
                0 <= i < dead.len() && i <= told && (#[trigger] dead[i])@ == k;
            &&& t == (SupervisorState { workers: t.workers, sessions: t.sessions, ..s })
            &&& t.sessions.contains_key(k) <==> s.sessions.contains_key(k) && !gone
            &&& t.sessions.contains_key(k) ==> t.sessions[k] == s.sessions[k]
            &&& t.workers.contains_key(w) <==> s.workers.contains_key(w) && !(w == wid.0 && told
                >= dead.len())
            &&& t.workers.contains_key(w) ==> t.workers[w] == s.workers[w]
        }),
{
    let reached = if told < dead.len() {
        dead.take((told + 1) as int)
    } else {
        dead
    };
    let gone = exists|i: int| 0 <= i < dead.len() && i <= told && (#[trigger] dead[i])@ == k;
    if gone {
        let i = choose|i: int| 0 <= i < dead.len() && i <= told && (#[trigger] dead[i])@ == k;
        assert(numbers(reached)[i] == k);
        assert(numbers(reached).contains(k));
    }
    if numbers(reached).contains(k) {
        let i = numbers(reached).index_of(k);
        assert(reached[i] == dead[i]);
    }
}

/// A party's command for a session is routed; that a party has prepared a round,
/// or is done, is reported upward under its name. Only with the last does anything
/// change: the party is forgotten.
pub proof fn lemma_party_reports(
    s: SupervisorState,
    pid: PartyId,
    sid: SessionId,
    cmd: session::Command,
)
    ensures
        s.party_answer(pid, party::Event::Session(sid, cmd)) == s.routed(sid, cmd),
        s.party_reported(pid, party::Event::Session(sid, cmd)) == s,
        s.party_answer(pid, party::Event::RoundComplete) == Ok::<Action, Error>(
            Action::Parent(Event::PartyRound(pid)),
        ),
        s.party_reported(pid, party::Event::RoundComplete) == s,
        s.party_answer(pid, party::Event::Done) == Ok::<Action, Error>(
            Action::Parent(Event::PartyDone(pid)),
        ),
        s.party_reported(pid, party::Event::Done) == s.party_done(pid),
{
}

/// Numbering a party moves the number of the next one on by one, and changes
/// nothing else.
pub proof fn lemma_party_is_numbered(s: SupervisorState)
    ensures
        s.party_numbered() == (SupervisorState {
            next_party: s.party_numbered().next_party,
            ..s
        }),
        s.party_numbered().next_party == (s.next_party + 1) % 0x1_0000_0000_0000_0000,
{
}

} // verus!
