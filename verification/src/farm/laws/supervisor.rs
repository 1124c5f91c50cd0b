//! What [`FarmSupervisor`](crate::farm::supervisor::FarmSupervisor) promises
//! beyond single calls.
use crate::error::Error;
use crate::farm::laws::nexus::sends_to;
use crate::farm::party::member as party;
use crate::farm::party::Party;
use crate::farm::supervisor::{Action, ActionView, Command, Event, PartyCommand, SupervisorState};
use crate::ids::{id_of, lemma_id_of, numbers, succ_id, PartyId, SessionId, SessionTag};
use crate::protocol::game;
use crate::protocol::session;
use crate::protocol::worker;
use crate::server::WorkerId;
use vstd::prelude::*;

verus! {

/// A worker's positions are handed out one after the other: those in use lie
/// below the next one.
pub open spec fn slots_in_order(s: SupervisorState) -> bool {
    forall|w: u32, slot: usize|
        #![trigger s.workers[w].slots.contains_key(slot)]
        s.workers.contains_key(w) && s.workers[w].slots.contains_key(slot) ==> slot
            < s.workers[w].next_slot
}

/// Sessions and parties are numbered one after the other: the numbers in use lie
/// below the next ones.
pub open spec fn numbers_in_order(s: SupervisorState) -> bool {
    &&& forall|k: u64| #[trigger] s.sessions.contains_key(k) ==> k < s.next_session
    &&& forall|k: u64| #[trigger] s.parties.contains_key(k) ==> k < s.next_party
}

/// A new router's positions are in order, and every operation keeps them so.
pub proof fn lemma_slots_in_order(
    s: SupervisorState,
    cmd: Command,
    wid: WorkerId,
    sid: SessionId,
    dead: Seq<SessionId>,
    told: nat,
)
    requires
        slots_in_order(s),
    ensures
        slots_in_order(SupervisorState::fresh()),
        slots_in_order(s.handled(cmd)),
        s.workers.contains_key(wid.0) && s.workers[wid.0].next_slot < usize::MAX
            ==> slots_in_order(s.session_created(wid)),
        slots_in_order(s.session_dead(sid)),
        slots_in_order(s.worker_gone(wid, dead, told)),
{
}

/// A new router's numbers are in order, and every operation keeps them so, as
/// long as no counter has come round; so a new session or party takes the place
/// of none.
pub proof fn lemma_numbers_in_order(
    s: SupervisorState,
    cmd: Command,
    wid: WorkerId,
    sid: SessionId,
    party: Party,
    dead: Seq<SessionId>,
    told: nat,
)
    requires
        numbers_in_order(s),
    ensures
        numbers_in_order(SupervisorState::fresh()),
        !s.sessions.contains_key(s.next_session),
        !s.parties.contains_key(s.next_party),
        numbers_in_order(s.handled(cmd)),
        s.next_session < u64::MAX ==> numbers_in_order(s.session_created(wid)),
        s.next_party < u64::MAX && party.pid@ == s.next_party ==> numbers_in_order(
            (SupervisorState { next_party: succ_id(s.next_party), ..s }).party_created(party),
        ),
        numbers_in_order(s.party_done(party.pid)),
        numbers_in_order(s.session_dead(sid)),
        numbers_in_order(s.worker_gone(wid, dead, told)),
{
}

/// A new session gets a position that no other session of its worker has, and
/// every other position leads where it led.
pub proof fn lemma_slots_are_dense(s: SupervisorState, wid: WorkerId)
    requires
        slots_in_order(s),
        s.workers.contains_key(wid.0),
    ensures
        s.session_created(wid).session_at(wid, s.workers[wid.0].next_slot) == Ok::<
            SessionId,
            Error,
        >(id_of(s.next_session)),
        forall|w: WorkerId, slot: usize|
            s.session_at(w, slot) is Ok ==> #[trigger] s.session_created(wid).session_at(w, slot)
                == s.session_at(w, slot),
{
}

/// A session that has just been created can be reached: what is sent to it goes
/// to the address from which its reports come.
pub proof fn lemma_created_reachable(s: SupervisorState, wid: WorkerId)
    requires
        s.workers.contains_key(wid.0),
    ensures
        s.session_created(wid).reachable(id_of(s.next_session)),
{
    lemma_id_of::<SessionTag>(s.next_session);
}

/// Where a session can be reached, the report of the worker slot to which its
/// commands go is taken as the report of that very session.
pub proof fn lemma_round_trip(
    s: SupervisorState,
    sid: SessionId,
    cmd: session::Command,
    event: session::Event,
)
    requires
        s.reachable(sid),
    ensures
        ({
            let rec = s.sessions[sid@];
            let report = Command::Worker(rec.worker_id, worker::Event::Session(rec.slot, event));
            &&& s.routed(sid, cmd) == Ok::<Action, Error>(
                Action::Server(rec.worker_id, worker::Command::Session(rec.slot, cmd)),
            )
            &&& s.answer(report) == s.session_actions(sid, event)
            &&& s.handled(report) == s.session_noted(sid@, event)
        }),
{
}

/// Two sessions that can be reached have different addresses.
pub proof fn lemma_addresses_differ(s: SupervisorState, a: SessionId, b: SessionId)
    requires
        s.reachable(a),
        s.reachable(b),
        a != b,
    ensures
        s.sessions[a@].worker_id != s.sessions[b@].worker_id || s.sessions[a@].slot
            != s.sessions[b@].slot,
{
}

/// No command makes a session unreachable, or changes its address, but that its
/// worker connects anew.
pub proof fn lemma_reachable_kept(s: SupervisorState, cmd: Command, sid: SessionId)
    requires
        s.reachable(sid),
        cmd != Command::Connected(s.sessions[sid@].worker_id),
    ensures
        s.handled(cmd).reachable(sid),
        s.handled(cmd).sessions[sid@].worker_id == s.sessions[sid@].worker_id,
        s.handled(cmd).sessions[sid@].slot == s.sessions[sid@].slot,
{
    if let Command::Connected(wid) = cmd {
        assert(wid.0 != s.sessions[sid@].worker_id.0);
    }
}

/// A session stays reachable while other sessions come and go, and while parties
/// do.
pub proof fn lemma_reachable_kept_by_others(
    s: SupervisorState,
    sid: SessionId,
    wid: WorkerId,
    other: SessionId,
    party: Party,
    pid: PartyId,
)
    requires
        s.reachable(sid),
        slots_in_order(s),
        other@ != sid@,
    ensures
        s.workers.contains_key(wid.0) && s.next_session != sid@ ==> s.session_created(
            wid,
        ).reachable(sid),
        s.session_dead(other).reachable(sid),
        s.party_created(party).reachable(sid),
        s.party_done(pid).reachable(sid),
{
}

/// A session stays reachable when another worker dies.
pub proof fn lemma_reachable_kept_by_worker(
    s: SupervisorState,
    sid: SessionId,
    wid: WorkerId,
    dead: Seq<SessionId>,
    told: nat,
)
    requires
        s.reachable(sid),
        s.hosts(wid, dead),
        s.sessions[sid@].worker_id != wid,
    ensures
        s.worker_gone(wid, dead, told).reachable(sid),
        s.worker_gone(wid, dead, told).sessions[sid@] == s.sessions[sid@],
{
    if numbers(dead).contains(sid@) {
        let i = numbers(dead).index_of(sid@);
        assert(numbers(dead)[i] == dead[i]@);
        assert(s.sessions[dead[i]@].worker_id == wid);
    }
    let taken = dead.take((told + 1) as int);
    if told < dead.len() && numbers(taken).contains(sid@) {
        let i = numbers(taken).index_of(sid@);
        assert(numbers(taken)[i] == dead[i]@);
        assert(s.sessions[dead[i]@].worker_id == wid);
    }
    assert(wid.0 != s.sessions[sid@].worker_id.0);
}

/// When a worker has died and all that it hosted has been reported, nothing of
/// it is left, and nothing else has changed.
pub proof fn lemma_worker_gone(s: SupervisorState, wid: WorkerId, dead: Seq<SessionId>, told: nat)
    requires
        s.hosts(wid, dead),
        told >= dead.len(),
    ensures
        ({
            let after = s.worker_gone(wid, dead, told);
            &&& !after.workers.contains_key(wid.0)
            &&& forall|sid: SessionId| #[trigger]
                after.sessions.contains_key(sid@) ==> after.sessions[sid@].worker_id != wid
            &&& forall|sid: SessionId|
                #![trigger after.sessions.contains_key(sid@)]
                s.sessions.contains_key(sid@) && s.sessions[sid@].worker_id != wid
                    ==> after.sessions.contains_key(sid@) && after.sessions[sid@]
                    == s.sessions[sid@]
            &&& forall|w: u32|
                w != wid.0 ==> (#[trigger] after.workers.contains_key(w)
                    <==> s.workers.contains_key(w)) && after.workers[w] == s.workers[w]
            &&& after.parties == s.parties
        }),
{
    let after = s.worker_gone(wid, dead, told);
    assert forall|sid: SessionId| #[trigger]
        after.sessions.contains_key(sid@) implies after.sessions[sid@].worker_id != wid by {
        if s.sessions[sid@].worker_id == wid {
            assert(s.sessions.contains_key(sid@));
            let i = dead.index_of(sid);
            assert(numbers(dead)[i] == sid@);
        }
    }
    assert forall|sid: SessionId|
        #![trigger after.sessions.contains_key(sid@)]
        s.sessions.contains_key(sid@) && s.sessions[sid@].worker_id
            != wid implies after.sessions.contains_key(sid@) && after.sessions[sid@]
        == s.sessions[sid@] by {
        if numbers(dead).contains(sid@) {
            let i = numbers(dead).index_of(sid@);
            assert(numbers(dead)[i] == dead[i]@);
            assert(s.sessions[dead[i]@].worker_id == wid);
        }
    }
}

/// When a worker dies, the death of each of its sessions is reported upward, and
/// each session's party, where it has one, is told.
pub proof fn lemma_every_death_reported(s: SupervisorState, dead: Seq<SessionId>, i: int)
    requires
        0 <= i < dead.len(),
    ensures
        s.farewells(dead).contains(ActionView::Parent(Event::SessionDead(dead[i]))),
        s.sessions.contains_key(dead[i]@) ==> match s.sessions[dead[i]@].party_id {
            Some(pid) => s.parties.contains_key(pid@) ==> s.farewells(dead).contains(
                ActionView::Notice(pid, party::Command::MemberDead(dead[i])),
            ),
            None => true,
        },
    decreases dead.len(),
{
    let front = dead.drop_last();
    let before = s.farewells(front);
    let last = s.farewell(dead.last());
    let all = s.farewells(dead);
    assert(all == before + last);
    if i < front.len() {
        lemma_every_death_reported(s, front, i);
        assert(front[i] == dead[i]);
        assert forall|a: ActionView| before.contains(a) implies #[trigger] all.contains(a) by {
            assert(all[before.index_of(a)] == a);
        }
    } else {
        assert forall|a: ActionView| last.contains(a) implies #[trigger] all.contains(a) by {
            assert(all[before.len() + last.index_of(a)] == a);
        }
        assert(last.last() == ActionView::Parent(Event::SessionDead(dead[i])));
        if s.sessions.contains_key(dead[i]@) {
            if let Some(pid) = s.sessions[dead[i]@].party_id {
                if s.parties.contains_key(pid@) {
                    assert(last[0] == ActionView::Notice(
                        pid,
                        party::Command::MemberDead(dead[i]),
                    ));
                }
            }
        }
    }
}

/// A session cannot be added to a party before its friend code is known, and can
/// be from then on; once it is, its reports reach the party.
pub proof fn lemma_add_after_code(
    s: SupervisorState,
    pid: PartyId,
    sid: SessionId,
    code: String,
    event: session::Event,
)
    requires
        s.sessions.contains_key(sid@),
        s.parties.contains_key(pid@),
        s.sessions[sid@].friend_code is None,
    ensures
        ({
            let add = Command::Party(pid, PartyCommand::Add(sid));
            let told = s.session_noted(
                sid@,
                session::Event::Game(game::Event::InviteCodeUpdate { code }),
            );
            let joined = told.handled(add);
            &&& s.answer(add) == Err::<Seq<ActionView>, Error>(Error::NoFriendCode(sid))
            &&& s.handled(add) == s
            &&& told.answer(add) == Ok::<Seq<ActionView>, Error>(
                seq![ActionView::Join(pid, sid, code@)],
            )
            &&& joined.session_actions(sid, event) is Ok
            &&& joined.session_actions(sid, event)->Ok_0.contains(
                ActionView::Party(pid, party::Command::Member(sid, event)),
            )
        }),
{
    let told = s.session_noted(
        sid@,
        session::Event::Game(game::Event::InviteCodeUpdate { code }),
    );
    let joined = told.handled(Command::Party(pid, PartyCommand::Add(sid)));
    let actions = joined.session_actions(sid, event)->Ok_0;
    assert(actions.last() == ActionView::Party(pid, party::Command::Member(sid, event)));
}

/// A party that is done takes no more commands, and no command or death makes
/// the router send it anything.
pub proof fn lemma_done_party(s: SupervisorState, pid: PartyId, sid: SessionId, cmd: Command)
    ensures
        ({
            let after = s.party_done(pid);
            &&& after.answer(Command::Party(pid, PartyCommand::Start)) == Err::<
                Seq<ActionView>,
                Error,
            >(Error::PartyNotFound(pid))
            &&& after.answer(Command::Party(pid, PartyCommand::Add(sid))) == Err::<
                Seq<ActionView>,
                Error,
            >(Error::PartyNotFound(pid))
            &&& after.answer(cmd) matches Ok(actions) ==> !sends_to(actions, pid)
            &&& !sends_to(after.farewell(sid), pid)
        }),
{
}

/// A session that has died is gone: no command for it can be routed, and nothing
/// can be reported of it, until its number is given out again.
pub proof fn lemma_dead_session(
    s: SupervisorState,
    sid: SessionId,
    pid: PartyId,
    cmd: session::Command,
    event: session::Event,
)
    requires
        s.parties.contains_key(pid@),
    ensures
        ({
            let after = s.session_dead(sid);
            &&& after.routed(sid, cmd) == Err::<Action, Error>(
                Error::SessionNotFound(sid),
            )
            &&& after.session_actions(sid, event) == Err::<Seq<ActionView>, Error>(
                Error::SessionNotFound(sid),
            )
            &&& after.answer(Command::Party(pid, PartyCommand::Add(sid))) == Err::<
                Seq<ActionView>,
                Error,
            >(Error::SessionNotFound(sid))
        }),
{
}

/// A command changes nothing of other sessions: only the session that reports or
/// is added can get another record.
pub proof fn lemma_other_sessions_kept(s: SupervisorState, cmd: Command, k: u64)
    requires
        s.sessions.contains_key(k),
        match cmd {
            Command::Connected(_) => true,
            Command::Worker(wid, worker::Event::Session(slot, _)) => s.session_at(
                wid,
                slot,
            ) matches Ok(sid) ==> sid@ != k,
            Command::Party(_, PartyCommand::Add(sid)) => sid@ != k,
            Command::Party(_, PartyCommand::Start) => true,
        },
    ensures
        s.handled(cmd).sessions.contains_key(k),
        s.handled(cmd).sessions[k] == s.sessions[k],
        s.handled(cmd).parties == s.parties,
{
}

/// The record of a session after a report or an order keeps its address and, but
/// for a new friend code or party, all that was known.
pub proof fn lemma_record_kept(s: SupervisorState, cmd: Command, k: u64)
    requires
        s.sessions.contains_key(k),
    ensures
        s.handled(cmd).sessions.contains_key(k),
        ({
            let before = s.sessions[k];
            let after = s.handled(cmd).sessions[k];
            &&& after.worker_id == before.worker_id
            &&& after.slot == before.slot
            &&& before.friend_code is Some ==> after.friend_code is Some
            &&& before.party_id is Some ==> after.party_id is Some
        }),
{
}

/// When a worker connects that was known, its positions start over: no session of it
/// can be reached any more.
pub proof fn lemma_reconnect_starts_over(s: SupervisorState, wid: WorkerId, sid: SessionId)
    requires
        s.sessions.contains_key(sid@),
        s.sessions[sid@].worker_id == wid,
    ensures
        !s.handled(Command::Connected(wid)).reachable(sid),
{
}

} // verus!
