//! What each step of [`Nexus`](crate::farm::nexus::Nexus) does and asks for.
use crate::config::FarmConfig;
use crate::error::Error;
use crate::farm::layout::PartyLayout;
use crate::farm::nexus::{
    action_views, outcome, prompts, start_order, Action, ActionView, Command, Event, NexusState,
    PartyCommand, SessionCreate, WorkerEvent,
};
use crate::farm::party::member as party;
use crate::farm::party::member::MemberCreate;
use crate::farm::party::Party;
use crate::farm::slots::{slot_index, turns, SessionRecord, MAX_SLOTS};
use crate::ids::{numbers, PartyKey, SessionKey};
use crate::protocol::game;
use crate::protocol::session;
use crate::protocol::session::State;
use crate::protocol::worker;
use crate::server::WorkerId;
use vstd::prelude::*;

verus! {

/// The content of a message is which one it is and whom it is for, and what it
/// brings: of a new member, the session and its friend code.
pub proof fn lemma_action_content(
    pid: PartyKey,
    layout: PartyLayout,
    event: Event,
    wid: WorkerId,
    cmd: worker::Command,
    create: MemberCreate,
    order: party::Command,
)
    ensures
        Action::Form(pid, layout)@ == ActionView::Form(pid, layout),
        Action::Parent(event)@ == ActionView::Parent(event),
        Action::Server(wid, cmd)@ == ActionView::Server(wid, cmd),
        Action::Join(pid, create)@ == ActionView::Join(pid, create.sid, create.friend_code@),
        Action::Party(pid, order)@ == ActionView::Party(pid, order),
        Action::Notice(pid, order)@ == ActionView::Notice(pid, order),
{
}

/// The content of a result is that of each of its messages, at its place, or the
/// refusal.
pub proof fn lemma_outcome_content(actions: Vec<Action>, e: Error, i: int)
    ensures
        action_views(actions@).len() == actions@.len(),
        0 <= i < actions@.len() ==> action_views(actions@)[i] == actions@[i]@,
        outcome(Ok(actions)) == Ok::<Seq<ActionView>, Error>(action_views(actions@)),
        outcome(Err(e)) == Err::<Seq<ActionView>, Error>(e),
{
}

/// A new router has the settings it was given, and knows of nothing.
pub proof fn lemma_new_router(config: FarmConfig)
    ensures
        ({
            let s = NexusState::fresh(config);
            &&& s.config == config
            &&& forall|w: u32| !#[trigger] s.workers.contains_key(w)
            &&& forall|k: u64| !#[trigger] s.sessions.contains_key(k)
            &&& forall|k: u64| !#[trigger] s.parties.contains_key(k)
            &&& s.session_keys.len() == 0
            &&& s.party_keys.len() == 0
        }),
{
}

/// What comes from a worker's slot comes from the session that stands in that
/// place among the worker's; it is refused where the worker is not known, and
/// where the worker has no such slot.
pub proof fn lemma_session_at(s: NexusState, wid: WorkerId, slot: usize)
    ensures
        !s.workers.contains_key(wid.0) ==> s.session_at(wid, slot) == Err::<SessionKey, Error>(
            Error::WorkerNotFound(wid),
        ),
        s.workers.contains_key(wid.0) && slot < s.workers[wid.0].len() ==> s.session_at(wid, slot)
            == Ok::<SessionKey, Error>(s.workers[wid.0][slot as int]),
        s.workers.contains_key(wid.0) && slot >= s.workers[wid.0].len() ==> s.session_at(wid, slot)
            == Err::<SessionKey, Error>(Error::SlotNotFound { wid, slot }),
{
}

/// A session can be reached if it is known and stands, on its worker, in the slot
/// that is its own.
pub proof fn lemma_reachable(s: NexusState, sid: SessionKey)
    ensures
        s.reachable(sid) <==> {
            &&& s.sessions.contains_key(sid@)
            &&& s.workers.contains_key(s.sessions[sid@].wid.0)
            &&& s.sessions[sid@].slot.0 < s.workers[s.sessions[sid@].wid.0].len()
            &&& s.workers[s.sessions[sid@].wid.0][s.sessions[sid@].slot.0 as int] == sid
        },
{
}

/// What a session's report asks for: a report that it is up goes upward, then
/// every report goes to the session's party, as it is, if the session was added to
/// one that is still known; nothing else does.
pub proof fn lemma_report_goes_on(s: NexusState, sid: SessionKey, event: session::Event)
    ensures
        ({
            let said = s.session_actions(sid, event);
            let up = event == session::Event::StateUpdate(State::Running);
            let rec = s.sessions[sid@];
            let on = rec.party_key is Some && s.parties.contains_key(rec.party_key->0@);
            let upward = ActionView::Parent(Event::SessionReady(sid));
            let onward = ActionView::Party(rec.party_key->0, party::Command::Member(sid, event));
            &&& !s.sessions.contains_key(sid@) ==> said == Err::<Seq<ActionView>, Error>(
                Error::SessionNotFound(sid),
            )
            &&& s.sessions.contains_key(sid@) ==> {
                &&& said is Ok
                &&& up && on ==> said->Ok_0 == seq![upward, onward]
                &&& up && !on ==> said->Ok_0 == seq![upward]
                &&& !up && on ==> said->Ok_0 == seq![onward]
                &&& !up && !on ==> said->Ok_0.len() == 0
            }
        }),
{
    let said = s.session_actions(sid, event);
    if s.sessions.contains_key(sid@) {
        let rec = s.sessions[sid@];
        let upward = ActionView::Parent(Event::SessionReady(sid));
        let onward = ActionView::Party(rec.party_key->0, party::Command::Member(sid, event));
        if event == session::Event::StateUpdate(State::Running) {
            if rec.party_key is Some && s.parties.contains_key(rec.party_key->0@) {
                assert(said->Ok_0 =~= seq![upward, onward]);
            } else {
                assert(said->Ok_0 =~= seq![upward]);
            }
        } else if rec.party_key is Some && s.parties.contains_key(rec.party_key->0@) {
            assert(said->Ok_0 =~= seq![onward]);
        }
    }
}

/// What is remembered of a session's report: a new friend code, and from a change
/// of its state whether it runs. All else that is known of the session stays, and
/// so does everything else.
pub proof fn lemma_report_is_noted(s: NexusState, sid: u64, event: session::Event)
    ensures
        ({
            let t = s.session_noted(sid, event);
            let rec = s.sessions[sid];
            &&& !s.sessions.contains_key(sid) ==> t == s
            &&& s.sessions.contains_key(sid) ==> {
                &&& t == (NexusState { sessions: t.sessions, ..s })
                &&& t.sessions == s.sessions.insert(
                    sid,
                    SessionRecord {
                        wid: rec.wid,
                        slot: rec.slot,
                        up: match event {
                            session::Event::StateUpdate(state) => state == State::Running,
                            _ => rec.up,
                        },
                        party_key: rec.party_key,
                        friend_code: match event {
                            session::Event::Game(game::Event::InviteCodeUpdate { code }) => Some(
                                code,
                            ),
                            _ => rec.friend_code,
                        },
                    },
                )
            }
        }),
{
    let t = s.session_noted(sid, event);
    if s.sessions.contains_key(sid) {
        assert(t.sessions =~= s.sessions.insert(sid, t.sessions[sid]));
    }
}

/// A worker that connects has no slots, whatever it had; that is reported upward,
/// and nothing else changes.
pub proof fn lemma_worker_connects(s: NexusState, wid: WorkerId)
    ensures
        ({
            let t = s.handled(Command::Connected(wid));
            &&& s.answer(Command::Connected(wid)) == Ok::<Seq<ActionView>, Error>(
                seq![ActionView::Parent(Event::Worker(wid, WorkerEvent::New))],
            )
            &&& t == (NexusState { workers: t.workers, ..s })
            &&& t.workers == s.workers.insert(wid.0, Seq::<SessionKey>::empty())
            &&& s.report_in(Command::Connected(wid)) is None
        }),
{
}

/// What a worker sends from a slot is taken as the report of the session there,
/// and refused, without a change, where there is none or it is not known.
pub proof fn lemma_worker_sends(
    s: NexusState,
    wid: WorkerId,
    slot: usize,
    event: session::Event,
    sid: SessionKey,
)
    ensures
        ({
            let cmd = Command::Worker(wid, worker::Event::Session(slot, event));
            &&& s.session_at(wid, slot) == Ok::<SessionKey, Error>(sid) ==> {
                &&& s.handled(cmd) == s.session_noted(sid@, event)
                &&& s.answer(cmd) == s.session_actions(sid, event)
                &&& s.sessions.contains_key(sid@) ==> s.report_in(cmd) == Some((sid, event))
                &&& !s.sessions.contains_key(sid@) ==> s.report_in(cmd) is None
            }
            &&& s.session_at(wid, slot) matches Err(e) ==> {
                &&& s.handled(cmd) == s
                &&& s.answer(cmd) == Err::<Seq<ActionView>, Error>(e)
                &&& s.report_in(cmd) is None
            }
        }),
{
}

/// A session is added to a party that is known if the session is known and its
/// friend code is: then the party gets the session with that code, and the session
/// belongs to that party, whichever it belonged to before. Nothing else changes,
/// and a refusal changes nothing; it names what is missing.
pub proof fn lemma_session_is_added(s: NexusState, pid: PartyKey, sid: SessionKey)
    ensures
        ({
            let cmd = Command::Party(pid, PartyCommand::Add(sid));
            let t = s.handled(cmd);
            let rec = s.sessions[sid@];
            let party = s.parties.contains_key(pid@);
            let known = s.sessions.contains_key(sid@);
            &&& s.report_in(cmd) is None
            &&& !party ==> t == s && s.answer(cmd) == Err::<Seq<ActionView>, Error>(
                Error::PartyNotFound(pid),
            )
            &&& party && !known ==> t == s && s.answer(cmd) == Err::<Seq<ActionView>, Error>(
                Error::SessionNotFound(sid),
            )
            &&& party && known && rec.friend_code is None ==> t == s && s.answer(cmd) == Err::<
                Seq<ActionView>,
                Error,
            >(Error::NoFriendCode(sid))
            &&& party && known && rec.friend_code is Some ==> {
                &&& s.answer(cmd) == Ok::<Seq<ActionView>, Error>(
                    seq![ActionView::Join(pid, sid, rec.friend_code->0@)],
                )
                &&& t == (NexusState { sessions: t.sessions, ..s })
                &&& t.sessions == s.sessions.insert(
                    sid@,
                    SessionRecord {
                        wid: rec.wid,
                        slot: rec.slot,
                        up: rec.up,
                        party_key: Some(pid),
                        friend_code: rec.friend_code,
                    },
                )
            }
        }),
{
}

/// A party that is known is told to start, and one that is not is refused; either
/// way nothing changes.
pub proof fn lemma_party_is_started(s: NexusState, pid: PartyKey)
    ensures
        ({
            let cmd = Command::Party(pid, PartyCommand::Start);
            &&& s.handled(cmd) == s
            &&& s.report_in(cmd) is None
            &&& s.parties.contains_key(pid@) ==> s.answer(cmd) == Ok::<Seq<ActionView>, Error>(
                seq![ActionView::Party(pid, party::Command::Start)],
            )
            &&& !s.parties.contains_key(pid@) ==> s.answer(cmd) == Err::<Seq<ActionView>, Error>(
                Error::PartyNotFound(pid),
            )
        }),
{
}

/// A new session stands in the slot behind all others of its worker. It is not up,
/// belongs to no party, and its friend code is not known. Nothing else changes.
pub proof fn lemma_session_is_created(s: NexusState, wid: WorkerId, sid: SessionKey)
    requires
        s.workers.contains_key(wid.0),
        s.workers[wid.0].len() <= usize::MAX,
    ensures
        ({
            let t = s.session_created(wid, sid);
            let rec = t.sessions[sid@];
            &&& t == (NexusState {
                workers: t.workers,
                sessions: t.sessions,
                session_keys: t.session_keys,
                ..s
            })
            &&& t.workers == s.workers.insert(wid.0, s.workers[wid.0].push(sid))
            &&& t.sessions == s.sessions.insert(sid@, rec)
            &&& t.session_keys == s.session_keys.push(sid@)
            &&& rec.wid == wid
            &&& rec.slot.0 == s.workers[wid.0].len()
            &&& !rec.up
            &&& rec.party_key is None
            &&& rec.friend_code is None
        }),
{
}

/// A command for a session that is known goes, as it is, to the session's worker
/// and slot; for another it is refused.
pub proof fn lemma_command_is_routed(s: NexusState, sid: SessionKey, cmd: session::Command)
    ensures
        s.sessions.contains_key(sid@) ==> s.routed(sid, cmd) == Ok::<Action, Error>(
            Action::Server(
                s.sessions[sid@].wid,
                worker::Command::Session(s.sessions[sid@].slot.0, cmd),
            ),
        ),
        !s.sessions.contains_key(sid@) ==> s.routed(sid, cmd) == Err::<Action, Error>(
            Error::SessionNotFound(sid),
        ),
{
}

/// Parties come and go by their keys, and sessions go by theirs; nothing else
/// changes with that.
pub proof fn lemma_coming_and_going(s: NexusState, party: Party, pid: PartyKey, sid: SessionKey)
    ensures
        s.party_created(party) == (NexusState {
            parties: s.parties.insert(party.pid@, party),
            party_keys: s.party_keys.push(party.pid@),
            ..s
        }),
        s.party_done(pid) == (NexusState { parties: s.parties.remove(pid@), ..s }),
        s.session_dead(sid) == (NexusState { sessions: s.sessions.remove(sid@), ..s }),
{
}

/// What the death of a session asks for: its party is told, if the session was
/// added to one that is still known, then the death is reported upward.
pub proof fn lemma_death_is_told(s: NexusState, sid: SessionKey)
    ensures
        ({
            let rec = s.sessions[sid@];
            let on = s.sessions.contains_key(sid@) && rec.party_key is Some
                && s.parties.contains_key(rec.party_key->0@);
            let upward = ActionView::Parent(Event::SessionDead(sid));
            &&& on ==> s.farewell(sid) == seq![
                ActionView::Notice(rec.party_key->0, party::Command::MemberDead(sid)),
                upward,
            ]
            &&& !on ==> s.farewell(sid) == seq![upward]
        }),
{
    let rec = s.sessions[sid@];
    let upward = ActionView::Parent(Event::SessionDead(sid));
    if s.sessions.contains_key(sid@) && rec.party_key is Some && s.parties.contains_key(
        rec.party_key->0@,
    ) {
        assert(s.farewell(sid) =~= seq![
            ActionView::Notice(rec.party_key->0, party::Command::MemberDead(sid)),
            upward,
        ]);
    } else {
        assert(s.farewell(sid) =~= seq![upward]);
    }
}

/// The deaths of several sessions are told one after the other, and nothing is
/// told where nobody died.
pub proof fn lemma_deaths_are_told(s: NexusState, dead: Seq<SessionKey>, sid: SessionKey)
    ensures
        s.farewells(Seq::empty()).len() == 0,
        s.farewells(dead.push(sid)) == s.farewells(dead) + s.farewell(sid),
{
    assert(dead.push(sid).drop_last() =~= dead);
}

/// The sessions of a dead worker are all those that it hosts and no others, each
/// once, by ascending index of their slots.
pub proof fn lemma_dead_of_worker(
    s: NexusState,
    wid: WorkerId,
    dead: Seq<SessionKey>,
    sid: SessionKey,
    i: int,
    j: int,
)
    requires
        s.hosts(wid, dead),
    ensures
        dead.contains(sid) <==> s.sessions.contains_key(sid@) && s.sessions[sid@].wid == wid,
        0 <= i < j < dead.len() ==> slot_index(dead[i]@) < slot_index(dead[j]@) && dead[i]
            != dead[j],
{
    if dead.contains(sid) {
        let n = dead.index_of(sid);
        assert(s.sessions.contains_key(dead[n]@));
    }
}

/// When `told` deaths of a worker's sessions have been reported, those sessions
/// are forgotten and the next one is, whose report failed. The worker is forgotten
/// only once all have been reported. Nothing else changes.
pub proof fn lemma_worker_is_forgotten(
    s: NexusState,
    wid: WorkerId,
    dead: Seq<SessionKey>,
    told: nat,
    k: u64,
    w: u32,
)
    ensures
        ({
            let t = s.worker_gone(wid, dead, told);
            let gone = exists|i: int|
                0 <= i < dead.len() && i <= told && (#[trigger] dead[i])@ == k;
            &&& t == (NexusState { workers: t.workers, sessions: t.sessions, ..s })
            &&& t.sessions.contains_key(k) <==> s.sessions.contains_key(k) && !gone
            &&& t.sessions.contains_key(k) ==> t.sessions[k] == s.sessions[k]
            &&& t.workers.contains_key(w) <==> s.workers.contains_key(w) && !(w == wid.0 && told
                >= dead.len())
            &&& t.workers.contains_key(w) ==> t.workers[w] == s.workers[w]
        }),
{
    let reached = if told < dead.len() {
        dead.take((told + 1) as int)
    } else {
        dead
    };
    let gone = exists|i: int| 0 <= i < dead.len() && i <= told && (#[trigger] dead[i])@ == k;
    if gone {
        let i = choose|i: int| 0 <= i < dead.len() && i <= told && (#[trigger] dead[i])@ == k;
        assert(numbers(reached)[i] == k);
        assert(numbers(reached).contains(k));
    }
    if numbers(reached).contains(k) {
        let i = numbers(reached).index_of(k);
        assert(reached[i] == dead[i]);
    }
}

/// A session is ready for a party if it is known, is up, has a friend code and
/// belongs to no party; enough are ready if they are as many as make up a party,
/// and a party is of somebody. Only that a session is up, or its friend code, can
/// make it ready.
pub proof fn lemma_readiness(s: NexusState, k: u64, event: session::Event)
    ensures
        s.ready().contains(k) <==> s.is_ready(k),
        s.is_ready(k) <==> {
            &&& s.sessions.contains_key(k)
            &&& s.sessions[k].up
            &&& s.sessions[k].friend_code is Some
            &&& s.sessions[k].party_key is None
        },
        s.enough_ready() <==> s.config.party_size >= 1 && s.ready().len() >= s.config.party_size,
        prompts(event) <==> event == session::Event::StateUpdate(State::Running) || (
        event matches session::Event::Game(inner) && inner is InviteCodeUpdate),
{
}

/// The next party is made up of exactly as many sessions as the settings ask for,
/// all of them ready, each once, by ascending index of their slots, and none that
/// is ready at a lower index is left out.
pub proof fn lemma_next_party(s: NexusState, sids: Seq<SessionKey>, i: int, j: int, k: u64)
    requires
        s.next_members(sids),
    ensures
        sids.len() == s.config.party_size,
        0 <= i < sids.len() ==> s.ready().contains(sids[i]@),
        0 <= i < j < sids.len() ==> slot_index(sids[i]@) < slot_index(sids[j]@),
        s.is_ready(k) && 0 <= i < sids.len() && slot_index(k) <= slot_index(sids[i]@)
            ==> exists|n: int| 0 <= n < sids.len() && (#[trigger] sids[n])@ == k,
{
    if s.is_ready(k) && 0 <= i < sids.len() && slot_index(k) <= slot_index(sids[i]@) {
        assert(numbers(sids).contains(k));
        let n = numbers(sids).index_of(k);
        assert(sids[n]@ == k);
    }
}

/// A party that is formed has the configured map and size. Its members belong to
/// it, and all else that is known of them stays; so does everything else.
pub proof fn lemma_party_is_formed(s: NexusState, pid: PartyKey, sids: Seq<SessionKey>, k: u64)
    ensures
        ({
            let t = s.formed(pid, sids);
            let member = exists|i: int| 0 <= i < sids.len() && (#[trigger] sids[i])@ == k;
            let rec = s.sessions[k];
            &&& t == (NexusState {
                sessions: t.sessions,
                parties: t.parties,
                party_keys: t.party_keys,
                ..s
            })
            &&& t.party_keys == s.party_keys.push(pid@)
            &&& t.parties == s.parties.insert(pid@, t.parties[pid@])
            &&& t.parties[pid@].pid == pid
            &&& t.parties[pid@].layout.map == s.config.map
            &&& t.parties[pid@].layout.party_size == s.config.party_size
            &&& t.sessions.contains_key(k) <==> s.sessions.contains_key(k)
            &&& s.sessions.contains_key(k) && member ==> t.sessions[k] == (SessionRecord {
                wid: rec.wid,
                slot: rec.slot,
                up: rec.up,
                party_key: Some(pid),
                friend_code: rec.friend_code,
            })
            &&& s.sessions.contains_key(k) && !member ==> t.sessions[k] == rec
        }),
{
    if exists|i: int| 0 <= i < sids.len() && (#[trigger] sids[i])@ == k {
        let i = choose|i: int| 0 <= i < sids.len() && (#[trigger] sids[i])@ == k;
        assert(numbers(sids)[i] == k);
        assert(numbers(sids).contains(k));
    }
    if numbers(sids).contains(k) {
        let i = numbers(sids).index_of(k);
        assert(sids[i]@ == k);
    }
}

/// Forming a party asks for it to be spawned, with the configured map and size;
/// then for each member, in order, to join it with its friend code; then for it
/// to be started; and for nothing else.
pub proof fn lemma_forming_asks(s: NexusState, pid: PartyKey, sids: Seq<SessionKey>, i: int)
    ensures
        ({
            let asks = s.forming(pid, sids);
            &&& asks.len() == sids.len() + 2
            &&& asks[0] matches ActionView::Form(to, layout) && to == pid && layout.map
                == s.config.map && layout.party_size == s.config.party_size
            &&& 0 <= i < sids.len() ==> asks[i + 1] == ActionView::Join(
                pid,
                sids[i],
                s.sessions[sids[i]@].friend_code->0@,
            )
            &&& asks.last() == ActionView::Party(pid, party::Command::Start)
        }),
{
}

/// A report forms a party if it can make a session ready, enough are, and there is
/// room for one more party; then what the report asks for itself comes first, and
/// the key of the party is not in use. Any other report changes and asks for
/// nothing more.
pub proof fn lemma_report_settles(
    s: NexusState,
    event: session::Event,
    said: Seq<ActionView>,
    after: NexusState,
    all: Seq<ActionView>,
)
    requires
        s.settles(event, said, after, all),
    ensures
        ({
            let forms = prompts(event) && s.config.party_size >= 1 && s.ready().len()
                >= s.config.party_size && s.parties.len() < 0xffff_fffe;
            &&& !forms ==> after == s && all == said
            &&& forms ==> exists|pid: PartyKey, sids: Seq<SessionKey>|
                {
                    &&& !s.parties.contains_key(pid@)
                    &&& s.next_members(sids)
                    &&& after == #[trigger] s.formed(pid, sids)
                    &&& all == said + s.forming(pid, sids)
                }
        }),
{
    if prompts(event) && s.enough_ready() && s.parties.len() < MAX_SLOTS {
        let (pid, sids) = choose|pid: PartyKey, sids: Seq<SessionKey>| #[trigger]
            s.forms(said, after, all, pid, sids);
        assert(after == s.formed(pid, sids));
    }
}

/// A new key is not in use; it was never given out before if and only if its slot
/// has keys left; and its version is odd.
pub proof fn lemma_new_keys(s: NexusState, pid: PartyKey, sid: SessionKey)
    ensures
        s.is_new_party(pid) ==> !s.parties.contains_key(pid@) && (turns(s.party_keys, pid@)
            < 0x8000_0000 <==> !s.party_keys.contains(pid@)) && (pid@ / 0x1_0000_0000) % 2 == 1,
        s.is_new_session(sid) ==> !s.sessions.contains_key(sid@) && (turns(s.session_keys, sid@)
            < 0x8000_0000 <==> !s.session_keys.contains(sid@)) && (sid@ / 0x1_0000_0000) % 2 == 1,
{
}

/// A party's command for a session is routed; that a party has prepared a round,
/// or is done, is reported upward under its name. Only with the last does anything
/// change: the party is forgotten.
pub proof fn lemma_party_reports(
    s: NexusState,
    pid: PartyKey,
    sid: SessionKey,
    cmd: session::Command,
)
    ensures
        s.party_answer(pid, party::Event::Session(sid, cmd)) == s.routed(sid, cmd),
        s.party_reported(pid, party::Event::Session(sid, cmd)) == s,
        s.party_answer(pid, party::Event::RoundComplete) == Ok::<Action, Error>(
            Action::Parent(Event::PartyRound(pid)),
        ),
        s.party_reported(pid, party::Event::RoundComplete) == s,
        s.party_answer(pid, party::Event::Done) == Ok::<Action, Error>(
            Action::Parent(Event::PartyDone(pid)),
        ),
        s.party_reported(pid, party::Event::Done) == s.party_done(pid),
{
}

/// The order to start a session goes to the worker that it is created on, for the
/// slot, with the name, the password and the second factor that were given.
pub proof fn lemma_start_order(create: SessionCreate, slot: usize)
    ensures
        start_order(create, slot) matches Action::Server(
            wid,
            worker::Command::Session(at, session::Command::Create { user }),
        ) && {
            &&& wid == create.wid
            &&& at == slot
            &&& user.username == create.username
            &&& user.password == create.password
            &&& user.secret == create.secret
        },
{
}

} // verus!
