//! What [`Nexus`](crate::farm::nexus::Nexus) promises beyond single calls.
use crate::error::Error;
use crate::farm::nexus::{Action, ActionView, Command, Event, NexusState, PartyCommand, prompts};
use crate::farm::party::member as party;
use crate::farm::party::Party;
use crate::farm::slots::{slot_index, turns, SessionRecord, KEY_TURNS, MAX_SLOTS};
use crate::ids::{id_of, numbers, PartyKey, SessionKey};
use crate::protocol::game;
use crate::protocol::session;
use crate::protocol::session::State;
use crate::protocol::worker;
use crate::server::WorkerId;
use vstd::prelude::*;

verus! {

/// Something that happens to the router.
pub enum NexusStep {
    /// A command is taken.
    Handle(Command),
    /// A party's report is taken.
    FromParty(PartyKey, party::Event),
    /// A session is created on a worker, under a key.
    CreateSession(WorkerId, SessionKey),
    /// A party is created.
    CreateParty(Party),
    /// A session has died.
    SessionDead(SessionKey),
    /// A worker has died, with its sessions, and so many of their deaths have
    /// been reported.
    WorkerGone(WorkerId, Seq<SessionKey>, nat),
}

/// The step takes the router from `s` to `t`.
pub open spec fn stepped(s: NexusState, step: NexusStep, t: NexusState) -> bool {
    match step {
        NexusStep::Handle(cmd) => match s.report_in(cmd) {
            Some((sid, event)) => exists|all: Seq<ActionView>| #[trigger]
                s.handled(cmd).settles(event, s.session_actions(sid, event)->Ok_0, t, all),
            None => t == s.handled(cmd),
        },
        NexusStep::FromParty(pid, event) => t == (match event {
            party::Event::Done => s.party_done(pid),
            _ => s,
        }),
        NexusStep::CreateSession(wid, sid) => {
            &&& s.workers.contains_key(wid.0)
            &&& s.workers[wid.0].len() <= usize::MAX
            &&& s.is_new_session(sid)
            &&& t == s.session_created(wid, sid)
        },
        NexusStep::CreateParty(party) => s.is_new_party(party.pid) && t == s.party_created(party),
        NexusStep::SessionDead(sid) => t == s.session_dead(sid),
        NexusStep::WorkerGone(wid, dead, told) => s.hosts(wid, dead) && t == s.worker_gone(
            wid,
            dead,
            told,
        ),
    }
}

/// The step ends what a worker's slots stand for: the worker connects, or is
/// gone. A worker that has died is gone once all its sessions' deaths have been
/// reported; until then its slots stay.
pub open spec fn ends_slots(step: NexusStep, wid: WorkerId) -> bool {
    match step {
        NexusStep::Handle(Command::Connected(w)) => w == wid,
        NexusStep::WorkerGone(w, dead, told) => w == wid && told >= dead.len(),
        _ => false,
    }
}

/// The router went through the states `hs`, by the steps in between.
pub open spec fn history(hs: Seq<NexusState>, steps: Seq<NexusStep>) -> bool {
    &&& hs.len() == steps.len() + 1
    &&& hs[0].wf()
    &&& forall|i: int| 0 <= i < steps.len() ==> #[trigger] stepped(hs[i], steps[i], hs[i + 1])
}

/// Every key in use has been given out.
spec fn keys_known(s: NexusState) -> bool {
    &&& forall|k: u64| #[trigger] s.sessions.contains_key(k) ==> s.session_keys.contains(k)
    &&& forall|k: u64| #[trigger] s.parties.contains_key(k) ==> s.party_keys.contains(k)
}

/// What a step does to sessions: it keeps their addresses and what is known of
/// them, and a session that is new has a new key.
pub proof fn lemma_sessions_kept(s: NexusState, step: NexusStep, t: NexusState, k: u64)
    requires
        stepped(s, step, t),
        t.sessions.contains_key(k),
    ensures
        s.sessions.contains_key(k) ==> {
            let before = s.sessions[k];
            let after = t.sessions[k];
            &&& after.wid == before.wid
            &&& after.slot == before.slot
            &&& before.friend_code is Some ==> after.friend_code is Some
            &&& before.party_key is Some ==> after.party_key is Some
        },
        !s.sessions.contains_key(k) ==> (step matches NexusStep::CreateSession(wid, sid) && sid@
            == k && s.is_new_session(sid) && t.sessions[k].wid == wid),
{
}

/// A step changes nothing of sessions that it is not about, but that those that
/// are ready can be added to a party.
pub proof fn lemma_other_sessions_kept(s: NexusState, step: NexusStep, t: NexusState, k: u64)
    requires
        stepped(s, step, t),
        s.sessions.contains_key(k),
        t.sessions.contains_key(k),
        match step {
            NexusStep::Handle(Command::Party(_, PartyCommand::Add(sid))) => sid@ != k,
            NexusStep::Handle(cmd) => s.report_in(cmd) matches Some((sid, _)) ==> sid@ != k,
            _ => true,
        },
    ensures
        t.sessions[k] == s.sessions[k] || (s.is_ready(k) && t.sessions[k].party_key is Some
            && t.sessions[k] == (SessionRecord {
            party_key: t.sessions[k].party_key,
            ..s.sessions[k]
        })),
{
    if let NexusStep::Handle(cmd) = step {
        if let Some((sid, event)) = s.report_in(cmd) {
            let noted = s.handled(cmd);
            let said = s.session_actions(sid, event)->Ok_0;
            let all = choose|all: Seq<ActionView>| #[trigger] noted.settles(event, said, t, all);
            if t.sessions[k] != s.sessions[k] {
                let (pid, sids) = choose|pid: PartyKey, sids: Seq<SessionKey>| #[trigger]
                    noted.forms(said, t, all, pid, sids);
                let i = numbers(sids).index_of(k);
                assert(numbers(sids).contains(k));
                assert(sids[i]@ == k);
                assert(noted.is_ready(sids[i]@));
            }
        }
    }
}

/// A session stays reachable, at the same address, as long as it lives and its
/// worker neither connects anew nor is gone.
pub proof fn lemma_reachable_kept(
    s: NexusState,
    step: NexusStep,
    t: NexusState,
    sid: SessionKey,
)
    requires
        stepped(s, step, t),
        s.reachable(sid),
        t.sessions.contains_key(sid@),
        !ends_slots(step, s.sessions[sid@].wid),
    ensures
        t.reachable(sid),
        t.sessions[sid@].wid == s.sessions[sid@].wid,
        t.sessions[sid@].slot == s.sessions[sid@].slot,
{
    lemma_sessions_kept(s, step, t, sid@);
    lemma_slots_kept(s, step, t, s.sessions[sid@].wid);
}

/// The slots of a worker that neither connects nor is gone stay, and one is added
/// where a session is created on the worker.
proof fn lemma_slots_kept(s: NexusState, step: NexusStep, t: NexusState, wid: WorkerId)
    requires
        stepped(s, step, t),
        s.workers.contains_key(wid.0),
        !ends_slots(step, wid),
    ensures
        t.workers.contains_key(wid.0),
        t.workers[wid.0] == (match step {
            NexusStep::CreateSession(w, sid) => if w == wid {
                s.workers[wid.0].push(sid)
            } else {
                s.workers[wid.0]
            },
            _ => s.workers[wid.0],
        }),
{
    match step {
        NexusStep::CreateSession(w, _) => {
            if w.0 == wid.0 {
                assert(w == wid);
            }
        },
        NexusStep::Handle(Command::Connected(w)) => {
            if w.0 == wid.0 {
                assert(w == wid);
            }
        },
        NexusStep::WorkerGone(w, _, _) => {
            if w.0 == wid.0 {
                assert(w == wid);
            }
        },
        _ => {},
    }
}

/// A step keeps the keys that were given out, and gives out only new ones.
proof fn lemma_keys_kept(s: NexusState, step: NexusStep, t: NexusState)
    requires
        stepped(s, step, t),
        keys_known(s),
    ensures
        keys_known(t),
        forall|k: u64| turns(s.session_keys, k) <= #[trigger] turns(t.session_keys, k),
        forall|k: u64| turns(s.party_keys, k) <= #[trigger] turns(t.party_keys, k),
        forall|k: u64| s.session_keys.contains(k) ==> #[trigger] t.session_keys.contains(k),
        forall|k: u64| s.party_keys.contains(k) ==> #[trigger] t.party_keys.contains(k),
        forall|k: u64| #[trigger]
            t.sessions.contains_key(k) && !s.sessions.contains_key(k) ==> turns(t.session_keys, k)
                == turns(s.session_keys, k) + 1 && (s.session_keys.contains(k) <==> turns(
                s.session_keys,
                k,
            ) >= KEY_TURNS),
        forall|k: u64| #[trigger]
            t.parties.contains_key(k) && !s.parties.contains_key(k) ==> turns(t.party_keys, k)
                == turns(s.party_keys, k) + 1 && (s.party_keys.contains(k) <==> turns(
                s.party_keys,
                k,
            ) >= KEY_TURNS),
{
    assert forall|xs: Seq<u64>, x: u64, k: u64|
        #[trigger] xs.push(x).contains(k) <==> xs.contains(k) || k == x by {
        let ys = xs.push(x);
        if xs.contains(k) {
            assert(ys[xs.index_of(k)] == k);
        }
        assert(ys[xs.len() as int] == x);
        if ys.contains(k) && k != x {
            assert(xs[ys.index_of(k)] == k);
        }
    }
    assert forall|xs: Seq<u64>, x: u64, k: u64|
        #[trigger] turns(xs.push(x), k) == turns(xs, k) + (if slot_index(x) == slot_index(k) {
            1nat
        } else {
            0
        }) by {
        assert(xs.push(x).drop_last() =~= xs);
    }
    if let NexusStep::Handle(cmd) = step {
        if let Some((sid, event)) = s.report_in(cmd) {
            let noted = s.handled(cmd);
            let said = s.session_actions(sid, event)->Ok_0;
            let all = choose|all: Seq<ActionView>| #[trigger] noted.settles(event, said, t, all);
            if t != noted {
                let (pid, sids) = choose|pid: PartyKey, sids: Seq<SessionKey>| #[trigger]
                    noted.forms(said, t, all, pid, sids);
                assert(t == noted.formed(pid, sids));
            }
        }
    }
}

/// A history without its last step.
proof fn lemma_history_front(hs: Seq<NexusState>, steps: Seq<NexusStep>)
    requires
        history(hs, steps),
        steps.len() > 0,
    ensures
        history(hs.drop_last(), steps.drop_last()),
        hs.drop_last().last() == hs[hs.len() - 2],
        hs.drop_last()[0] == hs[0],
        stepped(hs[hs.len() - 2], steps.last(), hs.last()),
{
    let front = hs.drop_last();
    let before = steps.drop_last();
    assert forall|i: int| 0 <= i < before.len() implies #[trigger] stepped(
        front[i],
        before[i],
        front[i + 1],
    ) by {
        assert(stepped(hs[i], steps[i], hs[i + 1]));
    }
    let n = steps.len() - 1;
    assert(stepped(hs[n], steps[n], hs[n + 1]));
}

/// The keys of a history are known, and none is lost.
proof fn lemma_keys_of_history(hs: Seq<NexusState>, steps: Seq<NexusStep>)
    requires
        history(hs, steps),
    ensures
        keys_known(hs.last()),
        forall|k: u64|
            hs[0].session_keys.contains(k) ==> #[trigger] hs.last().session_keys.contains(k),
        forall|k: u64| hs[0].party_keys.contains(k) ==> #[trigger] hs.last().party_keys.contains(k),
    decreases steps.len(),
{
    if steps.len() > 0 {
        lemma_history_front(hs, steps);
        lemma_keys_of_history(hs.drop_last(), steps.drop_last());
        lemma_keys_kept(hs[hs.len() - 2], steps.last(), hs.last());
    }
}

/// The key of a session that has died is refused for good: whatever happens, as
/// long as the key's slot has not given out more keys than it has, no session has
/// that key, no command for it can be routed, and it can neither report nor be
/// added to a party.
pub proof fn lemma_dead_for_good(
    hs: Seq<NexusState>,
    steps: Seq<NexusStep>,
    sid: SessionKey,
    cmd: session::Command,
    event: session::Event,
    pid: PartyKey,
)
    requires
        history(hs, steps),
        hs[0].session_keys.contains(sid@),
        !hs[0].sessions.contains_key(sid@),
        turns(hs.last().session_keys, sid@) <= KEY_TURNS,
    ensures
        !hs.last().sessions.contains_key(sid@),
        hs.last().routed(sid, cmd) == Err::<Action, Error>(Error::SessionNotFound(sid)),
        hs.last().session_actions(sid, event) == Err::<Seq<ActionView>, Error>(
            Error::SessionNotFound(sid),
        ),
        hs.last().answer(Command::Party(pid, PartyCommand::Add(sid))) is Err,
    decreases steps.len(),
{
    if steps.len() > 0 {
        let s = hs[hs.len() - 2];
        lemma_history_front(hs, steps);
        lemma_keys_of_history(hs.drop_last(), steps.drop_last());
        lemma_keys_kept(s, steps.last(), hs.last());
        lemma_dead_for_good(hs.drop_last(), steps.drop_last(), sid, cmd, event, pid);
        assert(s.session_keys.contains(sid@));
    }
}

/// What is sent to a session keeps its address: as long as the session lives,
/// every command for it goes to the worker and slot that it was created at. The
/// key stands for the same session until its slot has given out more keys than it
/// has.
pub proof fn lemma_address_kept(
    hs: Seq<NexusState>,
    steps: Seq<NexusStep>,
    sid: SessionKey,
    cmd: session::Command,
)
    requires
        history(hs, steps),
        hs[0].sessions.contains_key(sid@),
        hs.last().sessions.contains_key(sid@),
        turns(hs.last().session_keys, sid@) <= KEY_TURNS,
    ensures
        hs.last().sessions[sid@].wid == hs[0].sessions[sid@].wid,
        hs.last().sessions[sid@].slot == hs[0].sessions[sid@].slot,
        hs.last().routed(sid, cmd) == hs[0].routed(sid, cmd),
    decreases steps.len(),
{
    if steps.len() > 0 {
        let s = hs[hs.len() - 2];
        lemma_history_front(hs, steps);
        lemma_keys_of_history(hs.drop_last(), steps.drop_last());
        lemma_keys_kept(s, steps.last(), hs.last());
        assert(hs[0].session_keys.contains(sid@));
        assert(s.session_keys.contains(sid@));
        assert(s.sessions.contains_key(sid@));
        lemma_sessions_kept(s, steps.last(), hs.last(), sid@);
        lemma_address_kept(hs.drop_last(), steps.drop_last(), sid, cmd);
    }
}

/// How many of the steps create a session on the worker.
pub open spec fn created_on(steps: Seq<NexusStep>, wid: WorkerId) -> nat
    decreases steps.len(),
{
    if steps.len() == 0 {
        0
    } else {
        let before = created_on(steps.drop_last(), wid);
        match steps.last() {
            NexusStep::CreateSession(w, _) => if w == wid {
                before + 1
            } else {
                before
            },
            _ => before,
        }
    }
}

/// The slots of a worker are handed out one after the other: while the worker
/// neither connects nor is gone, the next session gets the slot whose number is
/// that of the sessions created on it so far, dead ones included, and every slot
/// leads where it led.
pub proof fn lemma_slots_count_sessions(
    hs: Seq<NexusState>,
    steps: Seq<NexusStep>,
    wid: WorkerId,
)
    requires
        history(hs, steps),
        hs[0].workers.contains_key(wid.0),
        forall|i: int| 0 <= i < steps.len() ==> !ends_slots(#[trigger] steps[i], wid),
    ensures
        hs.last().workers.contains_key(wid.0),
        hs.last().workers[wid.0].len() == hs[0].workers[wid.0].len() + created_on(steps, wid),
        forall|slot: usize|
            hs[0].session_at(wid, slot) is Ok ==> #[trigger] hs.last().session_at(wid, slot)
                == hs[0].session_at(wid, slot),
    decreases steps.len(),
{
    if steps.len() > 0 {
        let front = steps.drop_last();
        lemma_history_front(hs, steps);
        assert forall|i: int| 0 <= i < front.len() implies !ends_slots(
            #[trigger] front[i],
            wid,
        ) by {
            assert(front[i] == steps[i]);
        }
        lemma_slots_count_sessions(hs.drop_last(), front, wid);
        assert(!ends_slots(steps[steps.len() - 1], wid));
        let s = hs[hs.len() - 2];
        lemma_slots_kept(s, steps.last(), hs.last(), wid);
        assert forall|slot: usize| hs[0].session_at(wid, slot) is Ok implies #[trigger] hs.last()
            .session_at(wid, slot) == hs[0].session_at(wid, slot) by {
            assert(s.session_at(wid, slot) == hs[0].session_at(wid, slot));
        }
    }
}

/// The slot of a session that has died is refused for good: until its worker
/// connects anew or is gone, what comes from the slot is answered with the error
/// that names the dead session, and no new session gets the slot. The key stands
/// for the dead session until its slot in the table has given out more keys than
/// it has.
pub proof fn lemma_dead_slot_refused(
    hs: Seq<NexusState>,
    steps: Seq<NexusStep>,
    wid: WorkerId,
    slot: usize,
    sid: SessionKey,
    event: session::Event,
)
    requires
        history(hs, steps),
        hs[0].session_at(wid, slot) == Ok::<SessionKey, Error>(sid),
        hs[0].session_keys.contains(sid@),
        !hs[0].sessions.contains_key(sid@),
        turns(hs.last().session_keys, sid@) <= KEY_TURNS,
        forall|i: int| 0 <= i < steps.len() ==> !ends_slots(#[trigger] steps[i], wid),
    ensures
        ({
            let report = Command::Worker(wid, worker::Event::Session(slot, event));
            &&& hs.last().answer(report) == Err::<Seq<ActionView>, Error>(
                Error::SessionNotFound(sid),
            )
            &&& hs.last().report_in(report) is None
            &&& slot < hs.last().workers[wid.0].len()
        }),
{
    lemma_slots_count_sessions(hs, steps, wid);
    lemma_dead_for_good(
        hs,
        steps,
        sid,
        session::Command::Game(game::Command::BotMenuStop),
        event,
        id_of(0),
    );
    assert(hs.last().session_at(wid, slot) == Ok::<SessionKey, Error>(sid));
}

/// A party that is done is gone for good, until the slot of its key has given out
/// all keys that it has: the key is not given out again, its commands are
/// refused, and what sessions that were its members report goes to no party, also
/// not to one that was created since.
pub proof fn lemma_done_for_good(
    hs: Seq<NexusState>,
    steps: Seq<NexusStep>,
    pid: PartyKey,
    sid: SessionKey,
    event: session::Event,
    later: PartyKey,
    to: PartyKey,
)
    requires
        history(hs, steps),
        hs[0].party_keys.contains(pid@),
        !hs[0].parties.contains_key(pid@),
        turns(hs.last().party_keys, pid@) <= KEY_TURNS,
    ensures
        !hs.last().parties.contains_key(pid@),
        turns(hs.last().party_keys, pid@) < KEY_TURNS && hs.last().is_new_party(later) ==> later
            != pid,
        hs.last().answer(Command::Party(pid, PartyCommand::Start)) == Err::<
            Seq<ActionView>,
            Error,
        >(Error::PartyNotFound(pid)),
        hs.last().answer(Command::Party(pid, PartyCommand::Add(sid))) == Err::<
            Seq<ActionView>,
            Error,
        >(Error::PartyNotFound(pid)),
        hs.last().sessions.contains_key(sid@) && hs.last().sessions[sid@].party_key == Some(pid)
            ==> hs.last().session_actions(sid, event) is Ok && !sends_to(
            hs.last().session_actions(sid, event)->Ok_0,
            to,
        ),
    decreases steps.len(),
{
    lemma_keys_of_history(hs, steps);
    if steps.len() > 0 {
        let s = hs[hs.len() - 2];
        lemma_history_front(hs, steps);
        lemma_keys_of_history(hs.drop_last(), steps.drop_last());
        lemma_keys_kept(s, steps.last(), hs.last());
        lemma_done_for_good(hs.drop_last(), steps.drop_last(), pid, sid, event, later, to);
        assert(s.party_keys.contains(pid@));
    }
    assert(hs.last().party_keys.contains(pid@));
}

/// If exactly as many sessions are ready as make up a party, the next members
/// are those sessions.
pub proof fn lemma_party_of_the_ready(s: NexusState, sids: Seq<SessionKey>)
    requires
        s.wf(),
        s.next_members(sids),
        s.ready().len() == s.config.party_size,
    ensures
        numbers(sids).to_set() == s.ready(),
{
    let ks = numbers(sids);
    assert(ks.no_duplicates()) by {
        assert forall|a: int, b: int| 0 <= a < b < ks.len() implies ks[a] != ks[b] by {
            assert(slot_index(sids[a]@) < slot_index(sids[b]@));
        }
    }
    ks.unique_seq_to_set();
    assert forall|k: u64| #[trigger] ks.to_set().contains(k) implies s.ready().contains(k) by {
        assert(sids[ks.index_of(k)]@ == k);
    }
    vstd::set_lib::lemma_subset_equality(ks.to_set(), s.ready());
}

/// When the report of a session makes as many sessions ready as make up a party,
/// and there is room for one, a party is formed and started without any further
/// command: it is spawned, exactly as many members as it is set up for join it,
/// each by its friend code, and at last it is started. Its members belong to it,
/// and are not ready any more.
pub proof fn lemma_party_formed(
    s: NexusState,
    event: session::Event,
    said: Seq<ActionView>,
    after: NexusState,
    all: Seq<ActionView>,
)
    requires
        s.wf(),
        prompts(event),
        s.enough_ready(),
        s.parties.len() < MAX_SLOTS,
        s.settles(event, said, after, all),
    ensures
        exists|pid: PartyKey, sids: Seq<SessionKey>|
            {
                &&& #[trigger] s.forms(said, after, all, pid, sids)
                &&& after.parties.contains_key(pid@)
                &&& after.parties[pid@].layout.party_size == sids.len()
                &&& all.contains(ActionView::Form(pid, s.layout()))
                &&& all.last() == ActionView::Party(pid, party::Command::Start)
                &&& forall|i: int|
                    0 <= i < sids.len() ==> all.contains(
                        ActionView::Join(
                            pid,
                            #[trigger] sids[i],
                            s.sessions[sids[i]@].friend_code->0@,
                        ),
                    ) && after.sessions[sids[i]@].party_key == Some(pid) && !after.is_ready(
                        sids[i]@,
                    )
            },
{
    let (pid, sids) = choose|pid: PartyKey, sids: Seq<SessionKey>| #[trigger]
        s.forms(said, after, all, pid, sids);
    assert(all[said.len() as int] == ActionView::Form(pid, s.layout()));
    assert forall|i: int| 0 <= i < sids.len() implies all.contains(
        ActionView::Join(pid, #[trigger] sids[i], s.sessions[sids[i]@].friend_code->0@),
    ) && after.sessions[sids[i]@].party_key == Some(pid) && !after.is_ready(sids[i]@) by {
        assert(all[said.len() + 1 + i] == ActionView::Join(
            pid,
            sids[i],
            s.sessions[sids[i]@].friend_code->0@,
        ));
        assert(s.is_ready(sids[i]@));
        assert(numbers(sids)[i] == sids[i]@);
        assert(numbers(sids).contains(sids[i]@));
    }
    assert(s.forms(said, after, all, pid, sids));
}

/// When all but one of the sessions that make up a party are ready, and one more
/// that has a friend code and no party reports that it is up, a party is formed
/// of exactly these sessions, and started.
pub proof fn lemma_last_ready_forms(
    s: NexusState,
    sid: SessionKey,
    said: Seq<ActionView>,
    after: NexusState,
    all: Seq<ActionView>,
)
    requires
        s.wf(),
        s.ready().len() + 1 == s.config.party_size,
        s.sessions.contains_key(sid@),
        s.sessions[sid@].friend_code is Some,
        s.sessions[sid@].party_key is None,
        !s.sessions[sid@].up,
        s.parties.len() < MAX_SLOTS,
        s.session_noted(sid@, session::Event::StateUpdate(State::Running)).settles(
            session::Event::StateUpdate(State::Running),
            said,
            after,
            all,
        ),
    ensures
        exists|pid: PartyKey, sids: Seq<SessionKey>|
            {
                &&& #[trigger] s.session_noted(
                    sid@,
                    session::Event::StateUpdate(State::Running),
                ).forms(said, after, all, pid, sids)
                &&& numbers(sids).to_set() == s.ready().insert(sid@)
            },
{
    let noted = s.session_noted(sid@, session::Event::StateUpdate(State::Running));
    assert(noted.ready() =~= s.ready().insert(sid@));
    assert(noted.sessions.dom() =~= s.sessions.dom());
    assert(noted.wf());
    let (pid, sids) = choose|pid: PartyKey, sids: Seq<SessionKey>| #[trigger]
        noted.forms(said, after, all, pid, sids);
    lemma_party_of_the_ready(noted, sids);
    assert(noted.forms(said, after, all, pid, sids));
}

/// A worker's slots are dense: a new session gets the slot behind all others,
/// the slot leads to the session, and every other slot leads where it led.
pub proof fn lemma_slots_are_dense(s: NexusState, wid: WorkerId, sid: SessionKey)
    requires
        s.workers.contains_key(wid.0),
        s.workers[wid.0].len() <= usize::MAX,
    ensures
        s.session_created(wid, sid).session_at(wid, s.workers[wid.0].len() as usize) == Ok::<
            SessionKey,
            Error,
        >(sid),
        forall|w: WorkerId, slot: usize|
            s.session_at(w, slot) is Ok ==> #[trigger] s.session_created(wid, sid).session_at(
                w,
                slot,
            ) == s.session_at(w, slot),
{
}

/// A session that has just been created can be reached: what is sent to it goes
/// to the address from which its reports come.
pub proof fn lemma_created_reachable(s: NexusState, wid: WorkerId, sid: SessionKey)
    requires
        s.workers.contains_key(wid.0),
        s.workers[wid.0].len() <= usize::MAX,
    ensures
        s.session_created(wid, sid).reachable(sid),
{
}

/// Where a session can be reached, the report of the worker slot to which its
/// commands go is taken as the report of that very session.
pub proof fn lemma_round_trip(
    s: NexusState,
    sid: SessionKey,
    cmd: session::Command,
    event: session::Event,
)
    requires
        s.reachable(sid),
    ensures
        ({
            let rec = s.sessions[sid@];
            let report = Command::Worker(rec.wid, worker::Event::Session(rec.slot.0, event));
            &&& s.routed(sid, cmd) == Ok::<Action, Error>(
                Action::Server(
                    rec.wid,
                    worker::Command::Session(rec.slot.0, cmd),
                ),
            )
            &&& s.answer(report) == s.session_actions(sid, event)
            &&& s.handled(report) == s.session_noted(sid@, event)
        }),
{
}

/// Two sessions that can be reached have different addresses.
pub proof fn lemma_addresses_differ(s: NexusState, a: SessionKey, b: SessionKey)
    requires
        s.reachable(a),
        s.reachable(b),
        a != b,
    ensures
        s.sessions[a@].wid != s.sessions[b@].wid || s.sessions[a@].slot != s.sessions[b@].slot,
{
}

/// When a worker has died and all that it hosted has been reported, nothing of
/// it is left, and nothing else has changed.
pub proof fn lemma_worker_gone(s: NexusState, wid: WorkerId, dead: Seq<SessionKey>, told: nat)
    requires
        s.hosts(wid, dead),
        told >= dead.len(),
    ensures
        ({
            let after = s.worker_gone(wid, dead, told);
            &&& !after.workers.contains_key(wid.0)
            &&& forall|sid: SessionKey| #[trigger]
                after.sessions.contains_key(sid@) ==> after.sessions[sid@].wid != wid
            &&& forall|sid: SessionKey|
                #![trigger after.sessions.contains_key(sid@)]
                s.sessions.contains_key(sid@) && s.sessions[sid@].wid != wid
                    ==> after.sessions.contains_key(sid@) && after.sessions[sid@]
                    == s.sessions[sid@]
            &&& forall|w: u32|
                w != wid.0 ==> (#[trigger] after.workers.contains_key(w)
                    <==> s.workers.contains_key(w)) && after.workers[w] == s.workers[w]
            &&& after.parties == s.parties
        }),
{
    let after = s.worker_gone(wid, dead, told);
    assert forall|sid: SessionKey| #[trigger]
        after.sessions.contains_key(sid@) implies after.sessions[sid@].wid != wid by {
        if s.sessions[sid@].wid == wid {
            assert(s.sessions.contains_key(sid@));
            let i = dead.index_of(sid);
            assert(numbers(dead)[i] == sid@);
        }
    }
    assert forall|sid: SessionKey|
        #![trigger after.sessions.contains_key(sid@)]
        s.sessions.contains_key(sid@) && s.sessions[sid@].wid
            != wid implies after.sessions.contains_key(sid@) && after.sessions[sid@]
        == s.sessions[sid@] by {
        if numbers(dead).contains(sid@) {
            let i = numbers(dead).index_of(sid@);
            assert(numbers(dead)[i] == dead[i]@);
            assert(s.sessions[dead[i]@].wid == wid);
        }
    }
}

/// When a worker dies, the death of each of its sessions is reported upward, and
/// each session's party, where it has one, is told.
pub proof fn lemma_every_death_reported(s: NexusState, dead: Seq<SessionKey>, i: int)
    requires
        0 <= i < dead.len(),
    ensures
        s.farewells(dead).contains(ActionView::Parent(Event::SessionDead(dead[i]))),
        s.sessions.contains_key(dead[i]@) ==> match s.sessions[dead[i]@].party_key {
            Some(pid) => s.parties.contains_key(pid@) ==> s.farewells(dead).contains(
                ActionView::Notice(pid, party::Command::MemberDead(dead[i])),
            ),
            None => true,
        },
    decreases dead.len(),
{
    let front = dead.drop_last();
    let before = s.farewells(front);
    let last = s.farewell(dead.last());
    let all = s.farewells(dead);
    assert(all == before + last);
    if i < front.len() {
        lemma_every_death_reported(s, front, i);
        assert(front[i] == dead[i]);
        assert forall|a: ActionView| before.contains(a) implies #[trigger] all.contains(a) by {
            assert(all[before.index_of(a)] == a);
        }
    } else {
        assert forall|a: ActionView| last.contains(a) implies #[trigger] all.contains(a) by {
            assert(all[before.len() + last.index_of(a)] == a);
        }
        assert(last.last() == ActionView::Parent(Event::SessionDead(dead[i])));
        if s.sessions.contains_key(dead[i]@) {
            if let Some(pid) = s.sessions[dead[i]@].party_key {
                if s.parties.contains_key(pid@) {
                    assert(last[0] == ActionView::Notice(
                        pid,
                        party::Command::MemberDead(dead[i]),
                    ));
                }
            }
        }
    }
}

/// A session cannot be added to a party before its friend code is known, and can
/// be whenever it is; once it has been, its reports reach the party.
pub proof fn lemma_add_after_code(
    s: NexusState,
    t: NexusState,
    pid: PartyKey,
    sid: SessionKey,
    code: String,
    event: session::Event,
)
    requires
        s.sessions.contains_key(sid@),
        s.parties.contains_key(pid@),
        s.sessions[sid@].friend_code is None,
        t.sessions.contains_key(sid@),
        t.parties.contains_key(pid@),
        t.sessions[sid@].friend_code == Some(code),
    ensures
        ({
            let add = Command::Party(pid, PartyCommand::Add(sid));
            let joined = t.handled(add);
            &&& s.answer(add) == Err::<Seq<ActionView>, Error>(Error::NoFriendCode(sid))
            &&& s.handled(add) == s
            &&& t.answer(add) == Ok::<Seq<ActionView>, Error>(
                seq![ActionView::Join(pid, sid, code@)],
            )
            &&& joined.session_actions(sid, event) is Ok
            &&& joined.session_actions(sid, event)->Ok_0.contains(
                ActionView::Party(pid, party::Command::Member(sid, event)),
            )
        }),
{
    let joined = t.handled(Command::Party(pid, PartyCommand::Add(sid)));
    let actions = joined.session_actions(sid, event)->Ok_0;
    assert(actions.last() == ActionView::Party(pid, party::Command::Member(sid, event)));
}

/// What is known of a session after its report, before any party is formed: a
/// friend code that it reports is known, and whether it is up.
pub proof fn lemma_report_remembered(s: NexusState, sid: SessionKey, code: String, state: State)
    requires
        s.sessions.contains_key(sid@),
    ensures
        s.session_noted(
            sid@,
            session::Event::Game(game::Event::InviteCodeUpdate { code }),
        ).sessions[sid@].friend_code == Some(code),
        s.session_noted(sid@, session::Event::StateUpdate(state)).sessions[sid@].up == (state
            == State::Running),
{
}

/// One of the messages goes to the party.
pub open spec fn sends_to(actions: Seq<ActionView>, pid: PartyKey) -> bool {
    exists|i: int|
        0 <= i < actions.len() && match #[trigger] actions[i] {
            ActionView::Form(to, _) => to == pid,
            ActionView::Join(to, _, _) => to == pid,
            ActionView::Party(to, _) => to == pid,
            ActionView::Notice(to, _) => to == pid,
            _ => false,
        }
}

/// A party that is done takes no more commands, and neither the answer to a
/// command nor the death of a session sends it anything.
pub proof fn lemma_done_party(s: NexusState, pid: PartyKey, sid: SessionKey, cmd: Command)
    ensures
        ({
            let after = s.party_done(pid);
            &&& after.answer(Command::Party(pid, PartyCommand::Start)) == Err::<
                Seq<ActionView>,
                Error,
            >(Error::PartyNotFound(pid))
            &&& after.answer(Command::Party(pid, PartyCommand::Add(sid))) == Err::<
                Seq<ActionView>,
                Error,
            >(Error::PartyNotFound(pid))
            &&& after.answer(cmd) matches Ok(actions) ==> !sends_to(actions, pid)
            &&& !sends_to(after.farewell(sid), pid)
        }),
{
}

/// A session that has died is gone: no command for it can be routed, and nothing
/// can be reported of it, until its key is given out again.
pub proof fn lemma_dead_session(
    s: NexusState,
    sid: SessionKey,
    pid: PartyKey,
    cmd: session::Command,
    event: session::Event,
)
    requires
        s.parties.contains_key(pid@),
    ensures
        ({
            let after = s.session_dead(sid);
            &&& after.routed(sid, cmd) == Err::<Action, Error>(
                Error::SessionNotFound(sid),
            )
            &&& after.session_actions(sid, event) == Err::<Seq<ActionView>, Error>(
                Error::SessionNotFound(sid),
            )
            &&& after.answer(Command::Party(pid, PartyCommand::Add(sid))) == Err::<
                Seq<ActionView>,
                Error,
            >(Error::SessionNotFound(sid))
        }),
{
}

/// When a worker connects that was known, its slots start over: no session of it
/// can be reached any more.
pub proof fn lemma_reconnect_starts_over(s: NexusState, wid: WorkerId, sid: SessionKey)
    requires
        s.sessions.contains_key(sid@),
        s.sessions[sid@].wid == wid,
    ensures
        !s.handled(Command::Connected(wid)).reachable(sid),
{
}

} // verus!
