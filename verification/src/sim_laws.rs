//! What the scripts do, step by step, and what is reported with each step.
use crate::decimal::{decimal, hex};
use crate::farm::actor as module;
use crate::ids::{label_of, lemma_label, PartyId};
use crate::protocol::game;
use crate::protocol::game::{Phase, SignOnState, Team};
use crate::protocol::session;
use crate::protocol::session::State;
use crate::protocol::worker;
use crate::protocol::ClientType;
use crate::server;
use crate::server::WorkerId;
use crate::sim::{
    in_round, invite_code, is_call, is_report, script, sign_in, team_at, Pace, SimAct, SimCall,
    SimSession, SimStep,
};
use vstd::prelude::*;

verus! {

/// The script lets the worker connect; every player's session is created, comes up
/// and reports its friend code; the party is created, every player joins it, and
/// it is started. The first player is done with inviting, all others are invited
/// and then join the lobby; everybody finds the match, accepts it and is in the
/// first round. There are pauses in between, and there is nothing else.
#[verifier::rlimit(60)]
#[verifier::spinoff_prover]
pub proof fn lemma_script(n: nat, pace: Pace, master_task: usize, i: int)
    requires
        1 <= n <= usize::MAX,
    ensures
        ({
            let all = script(n, pace, master_task);
            let k = n as int;
            let p = i as usize;
            &&& all.len() == 9 + 10 * n
            &&& all[0] == SimStep::Pause(pace.before_connect)
            &&& all[1] == SimStep::Connect
            &&& all[2] == SimStep::Pause(pace.after_connect)
            &&& all[3 + 4 * k] == SimStep::Pause(pace.after_sessions)
            &&& all[4 + 4 * k] == SimStep::CreateParty
            &&& all[5 + 5 * k] == SimStep::Start
            &&& all[6 + 5 * k] == SimStep::Pause(50)
            &&& all[7 + 5 * k] == SimStep::Player(0, SimAct::MenuDone(master_task))
            &&& all[7 + 6 * k] == SimStep::Pause(50)
            &&& all[7 + 8 * k] == SimStep::Pause(3500)
            &&& all[8 + 9 * k] == SimStep::Pause(50)
            &&& 0 <= i < n ==> {
                &&& all[3 + 4 * i] == SimStep::Player(p, SimAct::Create)
                &&& all[4 + 4 * i] == SimStep::Player(p, SimAct::Running)
                &&& all[5 + 4 * i] == SimStep::Player(p, SimAct::Code)
                &&& all[6 + 4 * i] == SimStep::Pause(20)
                &&& all[5 + 4 * k + i] == SimStep::Player(p, SimAct::Join)
                &&& all[7 + 7 * k + i] == SimStep::Player(p, SimAct::Matched(999))
                &&& all[8 + 8 * k + i] == SimStep::Player(p, SimAct::MenuDone(0))
                &&& all[9 + 9 * k + i] == SimStep::Player(p, SimAct::InRound(0))
            }
            &&& 1 <= i < n ==> {
                &&& all[7 + 5 * k + i] == SimStep::Player(p, SimAct::Invited)
                &&& all[7 + 6 * k + i] == SimStep::Player(p, SimAct::MenuDone(1))
            }
        }),
{
    if 0 <= i < n {
        assert(sign_in(n)[4 * i] == SimStep::Player(i as usize, SimAct::Create));
        assert(sign_in(n)[4 * i + 1] == SimStep::Player(i as usize, SimAct::Running));
        assert(sign_in(n)[4 * i + 2] == SimStep::Player(i as usize, SimAct::Code));
        assert(sign_in(n)[4 * i + 3] == SimStep::Pause(20));
    }
}

/// Without players the script still connects the worker, creates and starts the
/// party, and lets the first place be done with inviting.
pub proof fn lemma_script_of_nobody(pace: Pace, master_task: usize)
    ensures
        script(0, pace, master_task) == seq![
            SimStep::Pause(pace.before_connect),
            SimStep::Connect,
            SimStep::Pause(pace.after_connect),
            SimStep::Pause(pace.after_sessions),
            SimStep::CreateParty,
            SimStep::Start,
            SimStep::Pause(50),
            SimStep::Player(0, SimAct::MenuDone(master_task)),
            SimStep::Pause(50),
            SimStep::Pause(3500),
            SimStep::Pause(50),
        ],
{
    assert(script(0, pace, master_task) =~= seq![
        SimStep::Pause(pace.before_connect),
        SimStep::Connect,
        SimStep::Pause(pace.after_connect),
        SimStep::Pause(pace.after_sessions),
        SimStep::CreateParty,
        SimStep::Start,
        SimStep::Pause(50),
        SimStep::Player(0, SimAct::MenuDone(master_task)),
        SimStep::Pause(50),
        SimStep::Pause(3500),
        SimStep::Pause(50),
    ]);
}

/// The first two players play against the others.
pub proof fn lemma_teams(i: nat)
    ensures
        i == 0 || i == 1 ==> team_at(i) == Team::CounterTerrorists,
        i >= 2 ==> team_at(i) == Team::Terrorists,
{
}

/// What is reported with what a player's session does, on the module.
pub proof fn lemma_report_of_act(
    i: nat,
    team: Team,
    r: Option<session::Event>,
    id: usize,
    match_id: u64,
    round: u32,
)
    ensures
        is_report(i, SimAct::Create, team, r) ==> r is None,
        is_report(i, SimAct::Join, team, r) ==> r is None,
        is_report(i, SimAct::Running, team, r) ==> r == Some(
            session::Event::StateUpdate(State::Running),
        ),
        is_report(i, SimAct::Code, team, r) ==> {
            &&& r matches Some(session::Event::Game(game::Event::InviteCodeUpdate { code }))
            &&& code@ == "FRIEND-CODE-"@ + decimal(i)
        },
        is_report(i, SimAct::Invited, team, r) ==> r == Some(
            session::Event::Game(game::Event::InviteReceived),
        ),
        is_report(i, SimAct::MenuDone(id), team, r) ==> r == Some(
            session::Event::Game(game::Event::MenuTaskCompleted { id }),
        ),
        is_report(i, SimAct::Matched(match_id), team, r) ==> r == Some(
            session::Event::Game(game::Event::MatchReceived { match_id }),
        ),
        is_report(i, SimAct::InRound(round), team, r) ==> {
            &&& r is Some
            &&& plays_as(r->0, team, "player"@ + decimal(i), round)
        },
{
}

/// The report that a player is fully signed on to the map, in a round, out of the
/// freeze, in a team and under a name.
pub open spec fn plays_as(
    event: session::Event,
    team: Team,
    name: Seq<char>,
    round: u32,
) -> bool {
    &&& event matches session::Event::Game(
        game::Event::StateUpdate { sign_on_state, player, map, match_state },
    )
    &&& sign_on_state == SignOnState::Full
    &&& player is Some && player->0.team == team && player->0.name@ == name
    &&& map is Base && map->name@ == "de_vertigo"@
    &&& match_state is Some && match_state->0.phase == (Phase::Round { number: round })
    &&& !match_state->0.freeze
}

/// The call by which a step is played: pauses are waited for, the worker connects
/// to the server, sessions are created on it, and the party is created, joined and
/// started; everything else is sent by the worker from the place of the player's
/// session.
pub proof fn lemma_call_of_step(
    sids: Seq<module::SessionId>,
    pid: PartyId,
    r: SimCall,
    ms: u64,
    i: usize,
    act: SimAct,
)
    ensures
        is_call(SimStep::Pause(ms), sids, pid, r) ==> r == SimCall::Wait(ms),
        is_call(SimStep::Connect, sids, pid, r) ==> r == SimCall::Server(
            server::Event::New(WorkerId(1), ClientType::Worker),
        ),
        is_call(SimStep::CreateParty, sids, pid, r) ==> r == SimCall::CreateParty,
        is_call(SimStep::Start, sids, pid, r) ==> r == SimCall::PartyStart(pid),
        is_call(SimStep::Player(i, SimAct::Create), sids, pid, r) ==> {
            &&& r matches SimCall::CreateSession(create)
            &&& create.wid == WorkerId(1)
            &&& create.username@ == "player"@ + decimal(i as nat)
            &&& create.password@ == "pass"@
            &&& create.secret@ == "secret"@
        },
        is_call(SimStep::Player(i, SimAct::Join), sids, pid, r) ==> r == SimCall::PartyAdd(
            pid,
            sids[i as int],
        ),
        act != SimAct::Create && act != SimAct::Join && is_call(
            SimStep::Player(i, act),
            sids,
            pid,
            r,
        ) ==> {
            &&& r matches SimCall::WorkerEvent(wid, worker::Event::Session(slot, event))
            &&& wid == WorkerId(1)
            &&& slot == sids[i as int].1
            &&& is_report(i as nat, act, team_at(i as nat), Some(event))
        },
{
}

/// A simulated session's report is sent by its worker from the place that is its
/// number.
pub proof fn lemma_sent_from_its_place(session: SimSession, event: session::Event)
    ensures
        session.sent(event).0 == session.wid,
        session.sid@ <= usize::MAX ==> {
            &&& session.sent(event).1 matches worker::Event::Session(slot, said)
            &&& slot == session.sid@
            &&& said == event
        },
{
}

/// What the worker sends with what a player's session does, on the supervisor.
pub proof fn lemma_fired_with_act(
    session: SimSession,
    i: nat,
    r: Option<(WorkerId, worker::Event)>,
    id: usize,
    match_id: u64,
    round: u32,
)
    ensures
        session.is_fired(i, SimAct::Create, r) ==> r is None,
        session.is_fired(i, SimAct::Join, r) ==> r is None,
        session.is_fired(i, SimAct::Running, r) ==> r == Some(
            session.sent(session::Event::StateUpdate(State::Running)),
        ),
        session.is_fired(i, SimAct::Code, r) ==> exists|code: String|
            code@ == "FC-"@ + hex(i, 4) && r == Some(
                #[trigger] session.sent(
                    session::Event::Game(game::Event::InviteCodeUpdate { code }),
                ),
            ),
        session.is_fired(i, SimAct::Invited, r) ==> r == Some(
            session.sent(session::Event::Game(game::Event::InviteReceived)),
        ),
        session.is_fired(i, SimAct::MenuDone(id), r) ==> r == Some(
            session.sent(session::Event::Game(game::Event::MenuTaskCompleted { id })),
        ),
        session.is_fired(i, SimAct::Matched(match_id), r) ==> r == Some(
            session.sent(session::Event::Game(game::Event::MatchReceived { match_id })),
        ),
        session.is_fired(i, SimAct::InRound(round), r) ==> exists|event: session::Event|
            r == Some(#[trigger] session.sent(event)) && plays_as(
                event,
                team_at(i),
                "Id("@ + decimal(session.sid@ as nat) + ")"@,
                round,
            ),
{
    if session.is_fired(i, SimAct::Code, r) {
        let code = choose|code: String|
            code@ == "FC-"@ + hex(i, 4) && r == Some(session.sent(#[trigger] invite_code(code)));
        assert(r == Some(
            session.sent(session::Event::Game(game::Event::InviteCodeUpdate { code })),
        ));
    }
    if session.is_fired(i, SimAct::InRound(round), r) {
        lemma_label(session.sid@);
        let (name, map) = choose|name: String, map: String|
            name@ == label_of(session.sid@) && map@ == "de_vertigo"@ && r == Some(
                session.sent(#[trigger] in_round(team_at(i), name, map, round)),
            );
        assert(r == Some(session.sent(in_round(team_at(i), name, map, round))));
    }
}

} // verus!
