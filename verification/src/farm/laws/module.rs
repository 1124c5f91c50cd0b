//! What [`FarmModuleActor`](crate::farm::actor::FarmModuleActor) promises beyond
//! single calls.
use crate::farm::actor::{
    Action, Command, ModuleError, ModuleState, PartyCommand, PartyMemberId, SessionId,
};
use crate::ids::{id_of, lemma_id_of, MemberTag, PartyId, PartyTag};
use crate::pairing::{left_of, lemma_left_of, lemma_paired, SessionRef};
use crate::protocol::game;
use crate::protocol::session;
use crate::protocol::worker;
use crate::server::WorkerId;
use vstd::prelude::*;

verus! {

/// Once a member is paired with a session, what its party sends to the member
/// goes to the session, and what the session reports goes to the member's party.
pub proof fn lemma_member_round_trip(
    s: ModuleState,
    pmid: PartyMemberId,
    sid: SessionId,
    cmd: session::Command,
    event: session::Event,
)
    requires
        s.wf(),
        s.parties.contains(pmid.0@),
        s.sessions.contains_key(sid.raw()),
    ensures
        ({
            let after = s.member_added(pmid, sid);
            &&& after.wf()
            &&& after.member_command(pmid, cmd) == Ok::<Action, ModuleError>(
                Action::Server(sid.0, worker::Command::Session(sid.1, cmd)),
            )
            &&& after.session_actions(sid, event) is Ok
            &&& after.session_actions(sid, event)->Ok_0.last() == Action::Member(pmid, event)
        }),
{
    lemma_paired(s.pairs, pmid.raw(), sid.raw());
    lemma_id_of::<PartyTag>(pmid.0@);
    lemma_id_of::<MemberTag>(pmid.1@);
    assert(sid.0 == WorkerId(sid.raw().0));
    assert(id_of::<PartyTag>(pmid.0@) == pmid.0);
    assert(id_of::<MemberTag>(pmid.1@) == pmid.1);
}

/// Where the reports of a session go to a member, that member's commands go to
/// the session.
pub proof fn lemma_member_is_session(s: ModuleState, m: (u64, u64), sid: SessionRef)
    requires
        s.wf(),
    ensures
        left_of(s.pairs, sid) == Some(m) <==> s.pairs.contains_key(m) && s.pairs[m] == sid,
{
    if s.pairs.contains_key(m) && s.pairs[m] == sid {
        lemma_left_of(s.pairs, m);
    }
}

/// A pairing holds until its member or its session is paired anew.
pub proof fn lemma_pairing_kept(
    s: ModuleState,
    pmid: PartyMemberId,
    other: PartyMemberId,
    sid: SessionId,
    cmd: session::Command,
)
    requires
        s.wf(),
        s.pairs.contains_key(pmid.raw()),
        other.raw() != pmid.raw(),
        s.pairs[pmid.raw()] != sid.raw(),
    ensures
        s.member_added(other, sid).member_command(pmid, cmd) == s.member_command(pmid, cmd),
{
}

/// The sessions of each worker are numbered one after the other: the numbers in
/// use lie below the next one.
pub open spec fn numbers_in_order(s: ModuleState, wid: WorkerId) -> bool {
    forall|n: usize|
        #![trigger s.sessions.contains_key((wid.0, n))]
        s.workers.contains_key(wid.0) && s.sessions.contains_key((wid.0, n)) ==> n
            < s.workers[wid.0]
}

/// The numbers of a worker's sessions are in order in a new router, and every
/// operation keeps them so, but that the worker connects anew while it has
/// sessions; so a new session takes the place of none.
pub proof fn lemma_numbers_in_order(
    s: ModuleState,
    wid: WorkerId,
    cmd: Command,
    on: WorkerId,
    pmid: PartyMemberId,
    sid: SessionId,
    pid: PartyId,
)
    requires
        numbers_in_order(s, wid),
        cmd == Command::Connected(wid) ==> forall|n: usize|
            !#[trigger] s.sessions.contains_key((wid.0, n)),
    ensures
        numbers_in_order(ModuleState::fresh(), wid),
        s.workers.contains_key(wid.0) ==> !s.sessions.contains_key(
            SessionId(wid, s.workers[wid.0]).raw(),
        ),
        numbers_in_order(s.handled(cmd), wid),
        s.workers.contains_key(on.0) && s.workers[on.0] < usize::MAX ==> numbers_in_order(
            s.session_created(on),
            wid,
        ),
        numbers_in_order(s.member_added(pmid, sid), wid),
        numbers_in_order(s.party_spawned(pid), wid),
{
}

/// A session cannot be added to a party before its friend code is known, and can
/// be from then on.
pub proof fn lemma_add_after_code(s: ModuleState, pid: PartyId, sid: SessionId, code: String)
    requires
        s.parties.contains(pid@),
        s.sessions.contains_key(sid.raw()),
        s.sessions[sid.raw()].friend_code is None,
    ensures
        ({
            let add = Command::Party(pid, PartyCommand::Add(sid));
            let told = s.session_noted(
                sid,
                session::Event::Game(game::Event::InviteCodeUpdate { code }),
            );
            &&& s.answer(add) == Err::<Seq<Action>, ModuleError>(ModuleError::NoFriendCode)
            &&& told.answer(add) == Ok::<Seq<Action>, ModuleError>(
                seq![Action::Join(pid, sid, code)],
            )
        }),
{
}

/// A command changes nothing of other sessions, and nothing of parties and
/// pairings.
pub proof fn lemma_others_kept(s: ModuleState, cmd: Command, sid: SessionRef)
    requires
        match cmd {
            Command::Worker(wid, worker::Event::Session(n, _)) => SessionId(wid, n).raw() != sid,
            _ => true,
        },
    ensures
        s.handled(cmd).parties == s.parties,
        s.handled(cmd).pairs == s.pairs,
        s.handled(cmd).sessions.contains_key(sid) == s.sessions.contains_key(sid),
        s.handled(cmd).sessions[sid] == s.sessions[sid],
{
}

} // verus!
