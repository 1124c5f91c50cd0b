//! A script that plays a whole party through one round.
use crate::decimal::{decimal, hex, to_decimal, to_hex};
use crate::farm::actor as module;
use crate::farm::actor::SessionCreate;
use crate::ids::{label_of, PartyId, SessionId};
use crate::protocol::game;
use crate::protocol::game::{GameMap, MatchState, Phase, PlayerState, SignOnState, Team};
use crate::protocol::session;
use crate::protocol::session::State;
use crate::protocol::worker;
use crate::protocol::ClientType;
use crate::server;
use crate::server::WorkerId;
use vstd::prelude::*;
use vstd::string::StringExecFns;

verus! {

/// A simulated session, and the reports it can make.
///
/// The session's number is its position on the worker's wire.
#[derive(Debug, Clone, Copy)]
pub struct SimSession {
    /// The session.
    pub sid: SessionId,
    /// The worker that hosts the session.
    pub wid: WorkerId,
}

/// The session is up.
pub open spec fn running() -> session::Event {
    session::Event::StateUpdate(State::Running)
}

/// The session's friend code is known.
pub open spec fn invite_code(code: String) -> session::Event {
    session::Event::Game(game::Event::InviteCodeUpdate { code })
}

/// The session has received an invite.
pub open spec fn invite_received() -> session::Event {
    session::Event::Game(game::Event::InviteReceived)
}

/// The session has done a menu step.
pub open spec fn menu_done(id: usize) -> session::Event {
    session::Event::Game(game::Event::MenuTaskCompleted { id })
}

/// The session has found a match.
pub open spec fn match_received(match_id: u64) -> session::Event {
    session::Event::Game(game::Event::MatchReceived { match_id })
}

/// The session is in a round on a map.
pub open spec fn in_round(team: Team, name: String, map: String, round: u32) -> session::Event {
    session::Event::Game(
        game::Event::StateUpdate {
            sign_on_state: SignOnState::Full,
            player: Some(PlayerState { team, name }),
            map: GameMap::Base { name: map },
            match_state: Some(MatchState { phase: Phase::Round { number: round }, freeze: false }),
        },
    )
}

/// The report that a session is in a round on a map.
pub fn game_ready(team: Team, name: String, map: String, round: u32) -> (r: session::Event)
    ensures
        r == in_round(team, name, map, round),
{
    session::Event::Game(
        game::Event::StateUpdate {
            sign_on_state: SignOnState::Full,
            player: Some(PlayerState { team, name }),
            map: GameMap::Base { name: map },
            match_state: Some(MatchState { phase: Phase::Round { number: round }, freeze: false }),
        },
    )
}

impl SimSession {
    /// A report of the session, as its worker sends it.
    pub open spec fn sent(self, event: session::Event) -> (WorkerId, worker::Event) {
        (self.wid, worker::Event::Session(self.sid@ as usize, event))
    }

    /// Sends a report.
    pub fn fire(&self, event: session::Event) -> (r: (WorkerId, worker::Event))
        ensures
            r == self.sent(event),
    {
        (self.wid, worker::Event::Session(self.sid.inner() as usize, event))
    }

    /// Reports that the session is up.
    pub fn fire_running(&self) -> (r: (WorkerId, worker::Event))
        ensures
            r == self.sent(running()),
    {
        self.fire(session::Event::StateUpdate(State::Running))
    }

    /// Reports the session's friend code.
    pub fn fire_invite_code(&self, code: &str) -> (r: (WorkerId, worker::Event))
        ensures
            exists|c: String| c@ == code@ && r == self.sent(#[trigger] invite_code(c)),
    {
        let c = code.to_owned();
        let ghost event = invite_code(c);
        self.fire(session::Event::Game(game::Event::InviteCodeUpdate { code: c }))
    }

    /// Reports that an invite has arrived.
    pub fn fire_invite_received(&self) -> (r: (WorkerId, worker::Event))
        ensures
            r == self.sent(invite_received()),
    {
        self.fire(session::Event::Game(game::Event::InviteReceived))
    }

    /// Reports that a menu step is done.
    pub fn fire_menu_done(&self, id: usize) -> (r: (WorkerId, worker::Event))
        ensures
            r == self.sent(menu_done(id)),
    {
        self.fire(session::Event::Game(game::Event::MenuTaskCompleted { id }))
    }

    /// Reports that a match has been found.
    pub fn fire_match_received(&self, match_id: u64) -> (r: (WorkerId, worker::Event))
        ensures
            r == self.sent(match_received(match_id)),
    {
        self.fire(session::Event::Game(game::Event::MatchReceived { match_id }))
    }

    /// Reports that the session is in a round, under its own label as name.
    pub fn fire_game_ready(&self, team: Team, round: u32) -> (r: (WorkerId, worker::Event))
        ensures
            exists|name: String, map: String|
                name@ == label_of(self.sid@) && map@ == "de_vertigo"@ && r == self.sent(
                    #[trigger] in_round(team, name, map, round),
                ),
    {
        let name = self.sid.label();
        let map = "de_vertigo".to_owned();
        let ghost event = in_round(team, name, map, round);
        self.fire(game_ready(team, name, map, round))
    }
}

/// The pauses of a script that come before the party is formed, in
/// milliseconds.
#[derive(Debug, Clone, Copy, PartialEq, Eq, Structural)]
pub struct Pace {
    /// Before the worker connects.
    pub before_connect: u64,
    /// After the worker has connected.
    pub after_connect: u64,
    /// After the sessions have been created.
    pub after_sessions: u64,
}

/// What a player's session does, or has done to it.
#[derive(Debug, Clone, Copy, PartialEq, Eq, Structural)]
pub enum SimAct {
    /// It is created.
    Create,
    /// It comes up.
    Running,
    /// It reports its friend code.
    Code,
    /// It is added to the party.
    Join,
    /// It receives an invite.
    Invited,
    /// It is done with a menu step.
    MenuDone(usize),
    /// It finds a match.
    Matched(u64),
    /// It is in a round.
    InRound(u32),
}

/// A step of a script; players are given by their places.
#[derive(Debug, Clone, Copy, PartialEq, Eq, Structural)]
pub enum SimStep {
    /// Wait for a number of milliseconds.
    Pause(u64),
    /// Let the worker connect.
    Connect,
    /// Create the party.
    CreateParty,
    /// Start the party.
    Start,
    /// Something happens with a player's session.
    Player(usize, SimAct),
}

/// The match that the players find.
pub const MATCH_ID: u64 = 999;

/// Every player's session is created, comes up and reports its friend code.
pub open spec fn sign_in(n: nat) -> Seq<SimStep> {
    Seq::new(
        4 * n,
        |k: int|
            if k % 4 == 0 {
                SimStep::Player((k / 4) as usize, SimAct::Create)
            } else if k % 4 == 1 {
                SimStep::Player((k / 4) as usize, SimAct::Running)
            } else if k % 4 == 2 {
                SimStep::Player((k / 4) as usize, SimAct::Code)
            } else {
                SimStep::Pause(20)
            },
    )
}

/// The same happens with the players at the places from `from` up to `n`.
pub open spec fn each(from: nat, n: nat, act: SimAct) -> Seq<SimStep> {
    Seq::new(
        if from <= n {
            (n - from) as nat
        } else {
            0
        },
        |k: int| SimStep::Player((from + k) as usize, act),
    )
}

/// The script for `n` players; `master_task` is the menu step by which the
/// first player is done with inviting.
pub open spec fn script(n: nat, pace: Pace, master_task: usize) -> Seq<SimStep> {
    seq![
        SimStep::Pause(pace.before_connect),
        SimStep::Connect,
        SimStep::Pause(pace.after_connect),
    ] + sign_in(n) + seq![SimStep::Pause(pace.after_sessions), SimStep::CreateParty] + each(
        0,
        n,
        SimAct::Join,
    ) + seq![
        SimStep::Start,
        SimStep::Pause(50),
        SimStep::Player(0, SimAct::MenuDone(master_task)),
    ] + each(1, n, SimAct::Invited) + seq![SimStep::Pause(50)] + each(1, n, SimAct::MenuDone(1))
        + each(0, n, SimAct::Matched(MATCH_ID)) + seq![SimStep::Pause(3500)] + each(
        0,
        n,
        SimAct::MenuDone(0),
    ) + seq![SimStep::Pause(50)] + each(0, n, SimAct::InRound(0))
}

/// Lets the same happen with the players at the places from `from` up to `n`.
fn push_each(steps: &mut Vec<SimStep>, from: usize, n: usize, act: SimAct)
    ensures
        final(steps)@ == old(steps)@ + each(from as nat, n as nat, act),
{
    let ghost before = steps@;
    let ghost all = each(from as nat, n as nat, act);
    let mut i: usize = from;
    assert(steps@ =~= before + all.take(0));
    while i < n
        invariant
            from <= i,
            from <= n ==> i <= n && steps@ == before + all.take(i - from),
            from > n ==> steps@ == before,
            all == each(from as nat, n as nat, act),
        decreases n - i,
    {
        steps.push(SimStep::Player(i, act));
        assert(all[i - from] == SimStep::Player(i, act));
        assert(all.take(i + 1 - from) =~= all.take(i - from).push(SimStep::Player(i, act)));
        assert(steps@ =~= before + all.take(i + 1 - from));
        i += 1;
    }
    assert(steps@ =~= before + all);
}

/// Creates the players' sessions, and lets them come up and report their friend
/// codes.
fn push_sign_in(steps: &mut Vec<SimStep>, n: usize)
    ensures
        final(steps)@ == old(steps)@ + sign_in(n as nat),
{
    let ghost before = steps@;
    let ghost all = sign_in(n as nat);
    let mut i: usize = 0;
    assert(steps@ =~= before + all.take(0));
    while i < n
        invariant
            i <= n,
            all == sign_in(n as nat),
            steps@ == before + all.take(4 * i),
        decreases n - i,
    {
        steps.push(SimStep::Player(i, SimAct::Create));
        steps.push(SimStep::Player(i, SimAct::Running));
        steps.push(SimStep::Player(i, SimAct::Code));
        steps.push(SimStep::Pause(20));
        assert(all.take(4 * (i + 1)) =~= all.take(4 * i).push(all[4 * i]).push(
            all[4 * i + 1],
        ).push(all[4 * i + 2]).push(all[4 * i + 3]));
        assert(steps@ =~= before + all.take(4 * (i + 1)));
        i += 1;
    }
    assert(all.take(4 * n) =~= all);
}

/// The script for `n` players; `master_task` is the menu step by which the
/// first player is done with inviting.
pub fn simulate(n: usize, pace: Pace, master_task: usize) -> (r: Vec<SimStep>)
    ensures
        r@ == script(n as nat, pace, master_task),
{
    let mut steps: Vec<SimStep> = Vec::new();
    steps.push(SimStep::Pause(pace.before_connect));
    steps.push(SimStep::Connect);
    steps.push(SimStep::Pause(pace.after_connect));
    push_sign_in(&mut steps, n);
    steps.push(SimStep::Pause(pace.after_sessions));
    steps.push(SimStep::CreateParty);
    push_each(&mut steps, 0, n, SimAct::Join);
    steps.push(SimStep::Start);
    steps.push(SimStep::Pause(50));
    steps.push(SimStep::Player(0, SimAct::MenuDone(master_task)));
    push_each(&mut steps, 1, n, SimAct::Invited);
    steps.push(SimStep::Pause(50));
    push_each(&mut steps, 1, n, SimAct::MenuDone(1));
    push_each(&mut steps, 0, n, SimAct::Matched(MATCH_ID));
    steps.push(SimStep::Pause(3500));
    push_each(&mut steps, 0, n, SimAct::MenuDone(0));
    steps.push(SimStep::Pause(50));
    push_each(&mut steps, 0, n, SimAct::InRound(0));
    assert(steps@ =~= script(n as nat, pace, master_task));
    steps
}

/// The number of the last step by which a master invites `slaves` others.
pub fn master_last_task(slaves: usize) -> (r: usize)
    requires
        2 * slaves <= usize::MAX,
    ensures
        r == 2 * slaves,
{
    slaves * 2
}

/// The name of the player at a place.
pub open spec fn player_name(i: nat) -> Seq<char> {
    "player"@ + decimal(i)
}

/// The friend code of the player at a place, on the module.
pub open spec fn friend_code(i: nat) -> Seq<char> {
    "FRIEND-CODE-"@ + decimal(i)
}

/// The friend code of the player at a place, on the supervisor.
pub open spec fn short_code(i: nat) -> Seq<char> {
    "FC-"@ + hex(i, 4)
}

/// The team of the player at a place: the first two play against the others.
pub open spec fn team_at(i: nat) -> Team {
    if i < 2 {
        Team::CounterTerrorists
    } else {
        Team::Terrorists
    }
}

/// The worker that hosts the players' sessions.
pub fn sim_worker() -> (r: WorkerId)
    ensures
        r == WorkerId(1),
{
    WorkerId(1)
}

/// The team of the player at a place.
pub fn team_of(i: usize) -> (r: Team)
    ensures
        r == team_at(i as nat),
{
    if i < 2 {
        Team::CounterTerrorists
    } else {
        Team::Terrorists
    }
}

/// The two texts, one behind the other.
fn joined(head: &str, tail: String) -> (r: String)
    ensures
        r@ == head@ + tail@,
{
    let mut r = head.to_owned();
    r.append(tail.as_str());
    r
}

/// What the player at a place signs in with: name, password and second factor.
pub fn credentials(i: usize) -> (r: (String, String, String))
    ensures
        r.0@ == player_name(i as nat),
        r.1@ == "pass"@,
        r.2@ == "secret"@,
{
    (joined("player", to_decimal(i as u64)), "pass".to_owned(), "secret".to_owned())
}

/// `r` is the report that goes with what the session of the player at a place
/// does; nothing is reported when the session is created or added to the party.
pub open spec fn is_report(
    i: nat,
    act: SimAct,
    team: Team,
    r: Option<session::Event>,
) -> bool {
    match act {
        SimAct::Create | SimAct::Join => r is None,
        SimAct::Running => r == Some(running()),
        SimAct::Code => exists|code: String|
            code@ == friend_code(i) && r == Some(#[trigger] invite_code(code)),
        SimAct::Invited => r == Some(invite_received()),
        SimAct::MenuDone(id) => r == Some(menu_done(id)),
        SimAct::Matched(match_id) => r == Some(match_received(match_id)),
        SimAct::InRound(round) => exists|name: String, map: String|
            name@ == player_name(i) && map@ == "de_vertigo"@ && r == Some(
                #[trigger] in_round(team, name, map, round),
            ),
    }
}

/// The report that goes with what the session of the player at a place does.
pub fn report(i: usize, act: SimAct, team: Team) -> (r: Option<session::Event>)
    ensures
        is_report(i as nat, act, team, r),
{
    match act {
        SimAct::Create | SimAct::Join => None,
        SimAct::Running => Some(session::Event::StateUpdate(State::Running)),
        SimAct::Code => {
            let code = joined("FRIEND-CODE-", to_decimal(i as u64));
            let ghost event = invite_code(code);
            Some(session::Event::Game(game::Event::InviteCodeUpdate { code }))
        },
        SimAct::Invited => Some(session::Event::Game(game::Event::InviteReceived)),
        SimAct::MenuDone(id) => Some(session::Event::Game(game::Event::MenuTaskCompleted { id })),
        SimAct::Matched(match_id) => {
            Some(session::Event::Game(game::Event::MatchReceived { match_id }))
        },
        SimAct::InRound(round) => {
            let name = joined("player", to_decimal(i as u64));
            let map = "de_vertigo".to_owned();
            let ghost event = in_round(team, name, map, round);
            Some(game_ready(team, name, map, round))
        },
    }
}

/// A call by which a step of a script is played on the module.
#[derive(Debug)]
pub enum SimCall {
    /// Wait for a number of milliseconds.
    Wait(u64),
    /// Let the server report something.
    Server(server::Event),
    /// Create a session.
    CreateSession(SessionCreate),
    /// Let a worker send an event.
    WorkerEvent(WorkerId, worker::Event),
    /// Create the party.
    CreateParty,
    /// Add a session to the party.
    PartyAdd(PartyId, module::SessionId),
    /// Start the party.
    PartyStart(PartyId),
}

/// `r` is the call by which a step is played, when `sids` are the sessions
/// created so far, by place, and `pid` is the party.
pub open spec fn is_call(
    step: SimStep,
    sids: Seq<module::SessionId>,
    pid: PartyId,
    r: SimCall,
) -> bool {
    match step {
        SimStep::Pause(ms) => r == SimCall::Wait(ms),
        SimStep::Connect => r == SimCall::Server(
            server::Event::New(WorkerId(1), ClientType::Worker),
        ),
        SimStep::CreateParty => r == SimCall::CreateParty,
        SimStep::Start => r == SimCall::PartyStart(pid),
        SimStep::Player(i, SimAct::Create) => {
            &&& r matches SimCall::CreateSession(create)
            &&& create.wid == WorkerId(1)
            &&& create.username@ == player_name(i as nat)
            &&& create.password@ == "pass"@
            &&& create.secret@ == "secret"@
        },
        SimStep::Player(i, SimAct::Join) => r == SimCall::PartyAdd(pid, sids[i as int]),
        SimStep::Player(i, act) => {
            &&& r matches SimCall::WorkerEvent(wid, worker::Event::Session(slot, event))
            &&& wid == WorkerId(1)
            &&& slot == sids[i as int].1
            &&& is_report(i as nat, act, team_at(i as nat), Some(event))
        },
    }
}

/// The call by which a step is played on the module.
pub fn call(step: SimStep, sids: &Vec<module::SessionId>, pid: PartyId) -> (r: SimCall)
    requires
        match step {
            SimStep::Player(_, SimAct::Create) => true,
            SimStep::Player(i, _) => i < sids@.len(),
            _ => true,
        },
    ensures
        is_call(step, sids@, pid, r),
{
    match step {
        SimStep::Pause(ms) => SimCall::Wait(ms),
        SimStep::Connect => SimCall::Server(
            server::Event::New(sim_worker(), ClientType::Worker),
        ),
        SimStep::CreateParty => SimCall::CreateParty,
        SimStep::Start => SimCall::PartyStart(pid),
        SimStep::Player(i, SimAct::Create) => {
            let (username, password, secret) = credentials(i);
            SimCall::CreateSession(
                SessionCreate { wid: sim_worker(), username, password, secret },
            )
        },
        SimStep::Player(i, act) => match report(i, act, team_of(i)) {
            Some(event) => SimCall::WorkerEvent(
                sim_worker(),
                worker::Event::Session(sids[i].1, event),
            ),
            None => SimCall::PartyAdd(pid, sids[i]),
        },
    }
}

impl SimSession {
    /// `r` is what the worker sends when the session of the player at a place
    /// does something on the supervisor.
    pub open spec fn is_fired(
        self,
        i: nat,
        act: SimAct,
        r: Option<(WorkerId, worker::Event)>,
    ) -> bool {
        match act {
            SimAct::Create | SimAct::Join => r is None,
            SimAct::Running => r == Some(self.sent(running())),
            SimAct::Code => exists|code: String|
                code@ == short_code(i) && r == Some(self.sent(#[trigger] invite_code(code))),
            SimAct::Invited => r == Some(self.sent(invite_received())),
            SimAct::MenuDone(id) => r == Some(self.sent(menu_done(id))),
            SimAct::Matched(match_id) => r == Some(self.sent(match_received(match_id))),
            SimAct::InRound(round) => exists|name: String, map: String|
                name@ == label_of(self.sid@) && map@ == "de_vertigo"@ && r == Some(
                    self.sent(#[trigger] in_round(team_at(i), name, map, round)),
                ),
        }
    }

    /// What the worker sends when the session of the player at a place does
    /// something on the supervisor.
    pub fn fire_act(&self, i: usize, act: SimAct) -> (r: Option<(WorkerId, worker::Event)>)
        ensures
            self.is_fired(i as nat, act, r),
    {
        match act {
            SimAct::Create | SimAct::Join => None,
            SimAct::Running => Some(self.fire_running()),
            SimAct::Code => {
                let code = joined("FC-", to_hex(i as u64, 4));
                Some(self.fire_invite_code(code.as_str()))
            },
            SimAct::Invited => Some(self.fire_invite_received()),
            SimAct::MenuDone(id) => Some(self.fire_menu_done(id)),
            SimAct::Matched(match_id) => Some(self.fire_match_received(match_id)),
            SimAct::InRound(round) => Some(self.fire_game_ready(team_of(i), round)),
        }
    }
}

/// The script that the program plays on the module, with four players. The
/// master reports its fifth step, which is not its last: the slaves are never
/// told to join, and the match is found all the same.
pub fn module_script() -> (r: Vec<SimStep>)
    ensures
        r@ == script(4, Pace { before_connect: 100, after_connect: 0, after_sessions: 0 }, 4),
{
    simulate(4, Pace { before_connect: 100, after_connect: 0, after_sessions: 0 }, 4)
}

/// The script that the program plays on the supervisor, with four players.
pub fn supervisor_script() -> (r: Vec<SimStep>)
    ensures
        r@ == script(4, Pace { before_connect: 0, after_connect: 100, after_sessions: 200 }, 6),
{
    simulate(
        4,
        Pace { before_connect: 0, after_connect: 100, after_sessions: 200 },
        master_last_task(3),
    )
}

} // verus!
