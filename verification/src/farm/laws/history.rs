//! What [`FarmSupervisor`](crate::farm::supervisor::FarmSupervisor) and
//! [`FarmModuleActor`](crate::farm::actor::FarmModuleActor) promise over any
//! number of calls.
use crate::error::Error;
use crate::farm::actor as module;
use crate::farm::actor::{ModuleState, PartyMemberId};
use crate::farm::laws::nexus::sends_to;
use crate::farm::laws::supervisor::slots_in_order;
use crate::farm::party::member as party;
use crate::farm::party::Party;
use crate::farm::supervisor::{Action, ActionView, Command, PartyCommand, SupervisorState};
use crate::ids::{
    ids_before, lemma_ids_are_distinct, lemma_ids_before, nth_id, succ_id, PartyId, SessionId,
};
use crate::protocol::session;
use crate::protocol::worker;
use crate::server::WorkerId;
use vstd::prelude::*;

verus! {

/// Something that happens to the supervisor.
pub enum SupervisorStep {
    /// A command is taken.
    Handle(Command),
    /// A party's report is taken.
    FromParty(PartyId, party::Event),
    /// A session is created on a worker.
    CreateSession(WorkerId),
    /// A party is numbered, and spawned.
    CreateParty(Party),
    /// A party is numbered, but could not be spawned.
    LoseParty,
    /// A session has died.
    SessionDead(SessionId),
    /// A worker has died, with its sessions, and so many of their deaths have
    /// been reported.
    WorkerGone(WorkerId, Seq<SessionId>, nat),
}

/// The supervisor with the next party's number taken.
pub open spec fn numbered(s: SupervisorState) -> SupervisorState {
    SupervisorState { next_party: succ_id(s.next_party), ..s }
}

/// The step takes the supervisor from `s` to `t`.
pub open spec fn stepped(s: SupervisorState, step: SupervisorStep, t: SupervisorState) -> bool {
    match step {
        SupervisorStep::Handle(cmd) => t == s.handled(cmd),
        SupervisorStep::FromParty(pid, event) => t == (match event {
            party::Event::Done => s.party_done(pid),
            _ => s,
        }),
        SupervisorStep::CreateSession(wid) => {
            &&& s.workers.contains_key(wid.0)
            &&& s.workers[wid.0].next_slot < usize::MAX
            &&& t == s.session_created(wid)
        },
        SupervisorStep::CreateParty(party) => {
            &&& party.pid@ == s.next_party
            &&& t == numbered(s).party_created(party)
        },
        SupervisorStep::LoseParty => t == numbered(s),
        SupervisorStep::SessionDead(sid) => t == s.session_dead(sid),
        SupervisorStep::WorkerGone(wid, dead, told) => t == s.worker_gone(wid, dead, told),
    }
}

/// The step ends what a worker's positions stand for: the worker connects, or is
/// gone. A worker that has died is gone once all its sessions' deaths have been
/// reported; until then its positions stay.
pub open spec fn ends_slots(step: SupervisorStep, wid: WorkerId) -> bool {
    match step {
        SupervisorStep::Handle(Command::Connected(w)) => w == wid,
        SupervisorStep::WorkerGone(w, dead, told) => w == wid && told >= dead.len(),
        _ => false,
    }
}

/// The step takes the number of a party.
pub open spec fn numbers_party(step: SupervisorStep) -> bool {
    step is CreateParty || step is LoseParty
}

/// The supervisor went through the states `hs`, by the steps in between.
pub open spec fn history(hs: Seq<SupervisorState>, steps: Seq<SupervisorStep>) -> bool {
    &&& hs.len() == steps.len() + 1
    &&& forall|i: int| 0 <= i < steps.len() ==> #[trigger] stepped(hs[i], steps[i], hs[i + 1])
}

/// How many of the steps create a session.
pub open spec fn sessions_created(steps: Seq<SupervisorStep>) -> nat
    decreases steps.len(),
{
    if steps.len() == 0 {
        0
    } else {
        sessions_created(steps.drop_last()) + (if steps.last() is CreateSession {
            1nat
        } else {
            0
        })
    }
}

/// How many of the steps create a session on the worker.
pub open spec fn created_on(steps: Seq<SupervisorStep>, wid: WorkerId) -> nat
    decreases steps.len(),
{
    if steps.len() == 0 {
        0
    } else {
        created_on(steps.drop_last(), wid) + (if steps.last() == SupervisorStep::CreateSession(
            wid,
        ) {
            1nat
        } else {
            0
        })
    }
}

/// How many of the steps take the number of a party.
pub open spec fn parties_numbered(steps: Seq<SupervisorStep>) -> nat
    decreases steps.len(),
{
    if steps.len() == 0 {
        0
    } else {
        parties_numbered(steps.drop_last()) + (if numbers_party(steps.last()) {
            1nat
        } else {
            0
        })
    }
}

/// A history without its last step.
proof fn lemma_history_front(hs: Seq<SupervisorState>, steps: Seq<SupervisorStep>)
    requires
        history(hs, steps),
        steps.len() > 0,
    ensures
        history(hs.drop_last(), steps.drop_last()),
        hs.drop_last().last() == hs[hs.len() - 2],
        hs.drop_last()[0] == hs[0],
        stepped(hs[hs.len() - 2], steps.last(), hs.last()),
{
    let front = hs.drop_last();
    let before = steps.drop_last();
    assert forall|i: int| 0 <= i < before.len() implies #[trigger] stepped(
        front[i],
        before[i],
        front[i + 1],
    ) by {
        assert(stepped(hs[i], steps[i], hs[i + 1]));
    }
    let n = steps.len() - 1;
    assert(stepped(hs[n], steps[n], hs[n + 1]));
}

/// The part of a history between two of its states.
proof fn lemma_history_part(
    hs: Seq<SupervisorState>,
    steps: Seq<SupervisorStep>,
    i: int,
    j: int,
)
    requires
        history(hs, steps),
        0 <= i <= j < hs.len(),
    ensures
        history(hs.subrange(i, j + 1), steps.subrange(i, j)),
{
    let part = hs.subrange(i, j + 1);
    let between = steps.subrange(i, j);
    assert forall|k: int| 0 <= k < between.len() implies #[trigger] stepped(
        part[k],
        between[k],
        part[k + 1],
    ) by {
        assert(stepped(hs[i + k], steps[i + k], hs[i + k + 1]));
    }
}

/// Sessions and parties are numbered one after the other: the number that comes
/// next is found by counting those that were created since.
pub proof fn lemma_numbers_count(hs: Seq<SupervisorState>, steps: Seq<SupervisorStep>)
    requires
        history(hs, steps),
    ensures
        hs.last().next_session == nth_id(hs[0].next_session, sessions_created(steps)),
        hs.last().next_party == nth_id(hs[0].next_party, parties_numbered(steps)),
        sessions_created(steps) <= steps.len(),
        parties_numbered(steps) <= steps.len(),
    decreases steps.len(),
{
    if steps.len() > 0 {
        lemma_history_front(hs, steps);
        lemma_numbers_count(hs.drop_last(), steps.drop_last());
    }
}

/// A part of the steps whose first one is counted counts at least one.
proof fn lemma_first_counts(steps: Seq<SupervisorStep>)
    requires
        steps.len() > 0,
    ensures
        steps[0] is CreateSession ==> sessions_created(steps) > 0,
        numbers_party(steps[0]) ==> parties_numbered(steps) > 0,
    decreases steps.len(),
{
    if steps.len() > 1 {
        lemma_first_counts(steps.drop_last());
    } else {
        assert(steps.last() == steps[0]);
    }
}

/// No session gets the number of one that was created before, for whatever
/// worker, and dead or not, before the counter has come round.
pub proof fn lemma_session_number_not_twice(
    hs: Seq<SupervisorState>,
    steps: Seq<SupervisorStep>,
    i: int,
    j: int,
)
    requires
        history(hs, steps),
        0 <= i < j < steps.len(),
        sessions_created(steps.subrange(i, j)) < 0x1_0000_0000_0000_0000,
        steps[i] is CreateSession,
        steps[j] is CreateSession,
    ensures
        hs[i].next_session != hs[j].next_session,
{
    lemma_history_part(hs, steps, i, j);
    let between = steps.subrange(i, j);
    lemma_numbers_count(hs.subrange(i, j + 1), between);
    lemma_first_counts(between);
    lemma_ids_are_distinct(hs[i].next_session, 0, sessions_created(between));
    assert(nth_id(hs[i].next_session, 0) == hs[i].next_session);
}

/// No party gets the number of one that was created before, done or not, before
/// the counter has come round.
pub proof fn lemma_party_number_not_twice(
    hs: Seq<SupervisorState>,
    steps: Seq<SupervisorStep>,
    i: int,
    j: int,
)
    requires
        history(hs, steps),
        0 <= i < j < steps.len(),
        parties_numbered(steps.subrange(i, j)) < 0x1_0000_0000_0000_0000,
        numbers_party(steps[i]),
        numbers_party(steps[j]),
    ensures
        hs[i].next_party != hs[j].next_party,
{
    lemma_history_part(hs, steps, i, j);
    let between = steps.subrange(i, j);
    lemma_numbers_count(hs.subrange(i, j + 1), between);
    lemma_first_counts(between);
    lemma_ids_are_distinct(hs[i].next_party, 0, parties_numbered(between));
    assert(nth_id(hs[i].next_party, 0) == hs[i].next_party);
}

/// What a step does to a worker's positions, if the worker neither connects nor
/// is gone.
proof fn lemma_slots_kept(
    s: SupervisorState,
    step: SupervisorStep,
    t: SupervisorState,
    wid: WorkerId,
)
    requires
        stepped(s, step, t),
        s.workers.contains_key(wid.0),
        !ends_slots(step, wid),
    ensures
        t.workers.contains_key(wid.0),
        step == SupervisorStep::CreateSession(wid) ==> t.workers[wid.0]
            == s.session_created(wid).workers[wid.0],
        step != SupervisorStep::CreateSession(wid) ==> t.workers[wid.0] == s.workers[wid.0],
{
    match step {
        SupervisorStep::CreateSession(w) => {
            if w.0 == wid.0 {
                assert(w == wid);
            }
        },
        SupervisorStep::Handle(Command::Connected(w)) => {
            if w.0 == wid.0 {
                assert(w == wid);
            }
        },
        SupervisorStep::WorkerGone(w, _, _) => {
            if w.0 == wid.0 {
                assert(w == wid);
            }
        },
        _ => {},
    }
}

/// The positions of a worker are handed out one after the other: while the worker
/// neither connects nor is gone, the next session gets the position whose number
/// is that of the sessions created on it since, dead ones included. So the k-th
/// session since the worker connected gets position k, and no position is given
/// twice.
pub proof fn lemma_slots_count_sessions(
    hs: Seq<SupervisorState>,
    steps: Seq<SupervisorStep>,
    wid: WorkerId,
)
    requires
        history(hs, steps),
        hs[0].workers.contains_key(wid.0),
        slots_in_order(hs[0]),
        forall|i: int| 0 <= i < steps.len() ==> !ends_slots(#[trigger] steps[i], wid),
    ensures
        hs.last().workers.contains_key(wid.0),
        hs.last().workers[wid.0].next_slot == hs[0].workers[wid.0].next_slot + created_on(
            steps,
            wid,
        ),
        slots_in_order(hs.last()),
        forall|slot: usize|
            hs[0].session_at(wid, slot) is Ok ==> #[trigger] hs.last().session_at(wid, slot)
                == hs[0].session_at(wid, slot),
    decreases steps.len(),
{
    if steps.len() > 0 {
        let front = steps.drop_last();
        lemma_history_front(hs, steps);
        assert forall|i: int| 0 <= i < front.len() implies !ends_slots(
            #[trigger] front[i],
            wid,
        ) by {
            assert(front[i] == steps[i]);
        }
        lemma_slots_count_sessions(hs.drop_last(), front, wid);
        assert(!ends_slots(steps[steps.len() - 1], wid));
        let s = hs[hs.len() - 2];
        let t = hs.last();
        lemma_slots_kept(s, steps.last(), t, wid);
        assert forall|slot: usize|
            hs[0].session_at(wid, slot) is Ok implies #[trigger] t.session_at(wid, slot)
            == hs[0].session_at(wid, slot) by {
            assert(s.session_at(wid, slot) == hs[0].session_at(wid, slot));
            assert(s.workers[wid.0].slots.contains_key(slot));
            assert(slot < s.workers[wid.0].next_slot);
        }
    }
}

/// A number under which there is no session stays so, and a session keeps its
/// address, until the counter has come to the number.
proof fn lemma_session_kept(hs: Seq<SupervisorState>, steps: Seq<SupervisorStep>, sid: u64)
    requires
        history(hs, steps),
        sessions_created(steps) <= ids_before(hs[0].next_session, sid),
    ensures
        hs.last().sessions.contains_key(sid) ==> {
            &&& hs[0].sessions.contains_key(sid)
            &&& hs.last().sessions[sid].worker_id == hs[0].sessions[sid].worker_id
            &&& hs.last().sessions[sid].slot == hs[0].sessions[sid].slot
        },
    decreases steps.len(),
{
    if steps.len() > 0 {
        let front = steps.drop_last();
        lemma_history_front(hs, steps);
        lemma_session_kept(hs.drop_last(), front, sid);
        lemma_numbers_count(hs.drop_last(), front);
        lemma_ids_before(hs[0].next_session, sid, sessions_created(front));
    }
}

/// A number under which there is no party stays so until the counter has come to
/// the number.
proof fn lemma_party_gone(hs: Seq<SupervisorState>, steps: Seq<SupervisorStep>, pid: u64)
    requires
        history(hs, steps),
        !hs[0].parties.contains_key(pid),
        parties_numbered(steps) <= ids_before(hs[0].next_party, pid),
    ensures
        !hs.last().parties.contains_key(pid),
    decreases steps.len(),
{
    if steps.len() > 0 {
        let front = steps.drop_last();
        lemma_history_front(hs, steps);
        lemma_party_gone(hs.drop_last(), front, pid);
        lemma_numbers_count(hs.drop_last(), front);
        lemma_ids_before(hs[0].next_party, pid, parties_numbered(front));
    }
}

/// The number of a session that has died is refused for good, and a session that
/// lives keeps its address, until the counter of sessions has come to its number
/// again.
pub proof fn lemma_session_history(
    hs: Seq<SupervisorState>,
    steps: Seq<SupervisorStep>,
    sid: SessionId,
    cmd: session::Command,
    event: session::Event,
)
    requires
        history(hs, steps),
        sessions_created(steps) <= ids_before(hs[0].next_session, sid@),
    ensures
        !hs[0].sessions.contains_key(sid@) ==> {
            &&& hs.last().routed(sid, cmd) == Err::<Action, Error>(Error::SessionNotFound(sid))
            &&& hs.last().session_actions(sid, event) == Err::<Seq<ActionView>, Error>(
                Error::SessionNotFound(sid),
            )
        },
        hs[0].sessions.contains_key(sid@) && hs.last().sessions.contains_key(sid@)
            ==> hs.last().routed(sid, cmd) == hs[0].routed(sid, cmd),
{
    lemma_session_kept(hs, steps, sid@);
}

/// The position of a session that has died is refused for good: until its worker
/// connects anew or is gone, what comes from there is answered with the error
/// that names the dead session, as long as the counter of sessions has not come
/// to its number again.
pub proof fn lemma_dead_slot_refused(
    hs: Seq<SupervisorState>,
    steps: Seq<SupervisorStep>,
    wid: WorkerId,
    slot: usize,
    sid: SessionId,
    event: session::Event,
)
    requires
        history(hs, steps),
        slots_in_order(hs[0]),
        sessions_created(steps) <= ids_before(hs[0].next_session, sid@),
        hs[0].session_at(wid, slot) == Ok::<SessionId, Error>(sid),
        !hs[0].sessions.contains_key(sid@),
        forall|i: int| 0 <= i < steps.len() ==> !ends_slots(#[trigger] steps[i], wid),
    ensures
        hs.last().answer(Command::Worker(wid, worker::Event::Session(slot, event))) == Err::<
            Seq<ActionView>,
            Error,
        >(Error::SessionNotFound(sid)),
{
    lemma_slots_count_sessions(hs, steps, wid);
    lemma_session_kept(hs, steps, sid@);
    assert(hs.last().session_at(wid, slot) == Ok::<SessionId, Error>(sid));
}

/// A party that is done is gone for good, until the counter of parties has come
/// to its number again: the number is not given out, its commands are refused,
/// and what sessions that were its members report goes to no party, also not to
/// one that was created since.
pub proof fn lemma_done_for_good(
    hs: Seq<SupervisorState>,
    steps: Seq<SupervisorStep>,
    pid: PartyId,
    sid: SessionId,
    event: session::Event,
    to: PartyId,
)
    requires
        history(hs, steps),
        parties_numbered(steps) <= ids_before(hs[0].next_party, pid@),
        !hs[0].parties.contains_key(pid@),
    ensures
        parties_numbered(steps) < ids_before(hs[0].next_party, pid@) ==> hs.last().next_party
            != pid@,
        hs.last().answer(Command::Party(pid, PartyCommand::Start)) == Err::<
            Seq<ActionView>,
            Error,
        >(Error::PartyNotFound(pid)),
        hs.last().answer(Command::Party(pid, PartyCommand::Add(sid))) == Err::<
            Seq<ActionView>,
            Error,
        >(Error::PartyNotFound(pid)),
        hs.last().sessions.contains_key(sid@) && hs.last().sessions[sid@].party_id == Some(pid)
            ==> hs.last().session_actions(sid, event) is Ok && !sends_to(
            hs.last().session_actions(sid, event)->Ok_0,
            to,
        ),
{
    lemma_party_gone(hs, steps, pid@);
    lemma_numbers_count(hs, steps);
    lemma_ids_before(hs[0].next_party, pid@, parties_numbered(steps));
}

/// Something that happens to the module.
pub enum ModuleStep {
    /// A command is taken.
    Handle(module::Command),
    /// A session is created on a worker.
    CreateSession(WorkerId),
    /// A party is numbered.
    CreateParty,
    /// A party has been spawned.
    PartySpawned(PartyId),
    /// A member has been paired with its session.
    MemberAdded(PartyMemberId, module::SessionId),
}

/// The step takes the module from `s` to `t`.
pub open spec fn module_stepped(s: ModuleState, step: ModuleStep, t: ModuleState) -> bool {
    match step {
        ModuleStep::Handle(cmd) => t == s.handled(cmd),
        ModuleStep::CreateSession(wid) => {
            &&& s.workers.contains_key(wid.0)
            &&& s.workers[wid.0] < usize::MAX
            &&& t == s.session_created(wid)
        },
        ModuleStep::CreateParty => t == (ModuleState {
            next_party: succ_id(s.next_party),
            ..s
        }),
        ModuleStep::PartySpawned(pid) => t == s.party_spawned(pid),
        ModuleStep::MemberAdded(pmid, sid) => t == s.member_added(pmid, sid),
    }
}

/// The module went through the states `hs`, by the steps in between.
pub open spec fn module_history(hs: Seq<ModuleState>, steps: Seq<ModuleStep>) -> bool {
    &&& hs.len() == steps.len() + 1
    &&& forall|i: int|
        0 <= i < steps.len() ==> #[trigger] module_stepped(hs[i], steps[i], hs[i + 1])
}

/// How many of the steps are the given one.
pub open spec fn times(steps: Seq<ModuleStep>, step: ModuleStep) -> nat
    decreases steps.len(),
{
    if steps.len() == 0 {
        0
    } else {
        times(steps.drop_last(), step) + (if steps.last() == step {
            1nat
        } else {
            0
        })
    }
}

/// The numbers of parties, and those of a worker's sessions while the worker does
/// not connect anew, are handed out one after the other: the next one is found by
/// counting. So the k-th session since the worker connected gets number k.
pub proof fn lemma_module_numbers_count(
    hs: Seq<ModuleState>,
    steps: Seq<ModuleStep>,
    wid: WorkerId,
)
    requires
        module_history(hs, steps),
        hs[0].workers.contains_key(wid.0),
        forall|i: int|
            0 <= i < steps.len() ==> #[trigger] steps[i] != ModuleStep::Handle(
                module::Command::Connected(wid),
            ),
    ensures
        hs.last().workers.contains_key(wid.0),
        hs.last().workers[wid.0] == hs[0].workers[wid.0] + times(
            steps,
            ModuleStep::CreateSession(wid),
        ),
        hs.last().next_party == nth_id(hs[0].next_party, times(steps, ModuleStep::CreateParty)),
    decreases steps.len(),
{
    if steps.len() > 0 {
        let front = hs.drop_last();
        let before = steps.drop_last();
        assert forall|i: int| 0 <= i < before.len() implies #[trigger] module_stepped(
            front[i],
            before[i],
            front[i + 1],
        ) && before[i] != ModuleStep::Handle(module::Command::Connected(wid)) by {
            assert(module_stepped(hs[i], steps[i], hs[i + 1]));
            assert(steps[i] != ModuleStep::Handle(module::Command::Connected(wid)));
        }
        assert forall|i: int| 0 <= i < before.len() implies #[trigger] before[i]
            != ModuleStep::Handle(module::Command::Connected(wid)) by {
            assert(steps[i] != ModuleStep::Handle(module::Command::Connected(wid)));
        }
        lemma_module_numbers_count(front, before, wid);
        let n = steps.len() - 1;
        assert(module_stepped(hs[n], steps[n], hs[n + 1]));
        match steps[n] {
            ModuleStep::CreateSession(w) => {
                if w.0 == wid.0 {
                    assert(w == wid);
                }
            },
            ModuleStep::Handle(module::Command::Connected(w)) => {
                if w.0 == wid.0 {
                    assert(w == wid);
                }
            },
            _ => {},
        }
    }
}

} // verus!
