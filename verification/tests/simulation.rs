use farm_core::config::FarmConfig;
use farm_core::farm::actor as module;
use farm_core::farm::layout::PartyLayout;
use farm_core::farm::nexus;
use farm_core::farm::nexus::Nexus;
use farm_core::farm::party::actor::PartyActor;
use farm_core::farm::party::member as party;
use farm_core::farm::party::member::{CommandStep, MemberStep, SyncStep};
use farm_core::farm::party::Party;
use farm_core::farm::supervisor::{
    Action, Command, Event, FarmSupervisor, PartyCommand, PartyCreate, SessionCreate,
};
use farm_core::ids::{PartyId, SessionId};
use farm_core::path_engine::Engine;
use farm_core::protocol::game;
use farm_core::protocol::game::Team;
use farm_core::protocol::session;
use farm_core::protocol::worker;
use farm_core::protocol::ClientType;
use farm_core::server;
use farm_core::server::WorkerId;
use farm_core::sim::{
    call, credentials, game_ready, master_last_task, module_script, report, sim_worker, simulate,
    supervisor_script, team_of, Pace, SimAct, SimCall, SimSession, SimStep, MATCH_ID,
};

const W: WorkerId = WorkerId(1);

/// A router of either kind.
enum Router {
    Slots(Nexus),
    Numbers(FarmSupervisor),
}

impl Router {
    fn handle(&mut self, cmd: Command) -> Vec<Action> {
        match self {
            Router::Slots(r) => r.handle(cmd).unwrap(),
            Router::Numbers(r) => r.handle(cmd).unwrap(),
        }
    }

    fn handle_party(&mut self, pid: PartyId, event: party::Event) -> Action {
        match self {
            Router::Slots(r) => r.handle_party(pid, event).unwrap(),
            Router::Numbers(r) => r.handle_party(pid, event).unwrap(),
        }
    }

    fn create_session(&mut self, name: String) -> (SessionId, Action) {
        let create = SessionCreate {
            wid: W,
            username: name,
            password: "pass".to_string(),
            secret: "secret".to_string(),
        };
        match self {
            Router::Slots(r) => r.create_session(create).unwrap(),
            Router::Numbers(r) => r.create_session(create).unwrap(),
        }
    }

    fn create_party(&mut self, layout: PartyLayout) -> PartyId {
        match self {
            Router::Slots(r) => r.create_party(nexus::PartyCreate { layout }),
            Router::Numbers(r) => {
                let pid = r.create_party(PartyCreate {});
                r.party_spawned(Party::new(pid, layout));
                pid
            }
        }
    }

    fn position(&self, sid: SessionId) -> usize {
        match self {
            Router::Slots(r) => r.session(sid).unwrap().slot.0,
            Router::Numbers(r) => r.session(sid).unwrap().slot,
        }
    }
}

/// A farm with one party, all of whose messages arrive at once.
struct World {
    router: Router,
    party: Option<PartyActor<Engine>>,
    up: Vec<Event>,
    down: Vec<(usize, session::Command)>,
    delays: Vec<u64>,
}

impl World {
    fn new(router: Router) -> World {
        World { router, party: None, up: Vec::new(), down: Vec::new(), delays: Vec::new() }
    }

    fn command(&mut self, cmd: Command) {
        for action in self.router.handle(cmd) {
            self.deliver(action);
        }
    }

    fn deliver(&mut self, action: Action) {
        match action {
            Action::Form(pid, layout) => {
                let delay = FarmConfig::default().accept_match_delay;
                self.party = Some(PartyActor::new(pid, layout, delay));
            }
            Action::Parent(event) => self.up.push(event),
            Action::Server(W, worker::Command::Session(slot, cmd)) => self.down.push((slot, cmd)),
            Action::Server(other, _) => panic!("{other:?}"),
            Action::Join(_, create) => self.party.as_mut().unwrap().create_member(create),
            Action::Party(_, cmd) | Action::Notice(_, cmd) => self.party_command(cmd),
        }
    }

    fn party_command(&mut self, cmd: party::Command) {
        let actor = self.party.as_mut().unwrap();
        let step = actor.handle(cmd).unwrap();
        match step {
            CommandStep::Idle => {}
            CommandStep::Invite(events) => {
                let n = self.send(events);
                self.party.as_mut().unwrap().invites_sent(n);
            }
            CommandStep::Accept(events) => {
                let n = self.send(events);
                self.party.as_mut().unwrap().accepts_sent(n);
            }
            CommandStep::Member(MemberStep::Idle) => {}
            CommandStep::Member(MemberStep::TaskCompleted { bot, id }) => panic!("{bot:?} {id}"),
            CommandStep::Member(MemberStep::SendThenSync(event)) => {
                self.send(vec![event]);
                let step = self.party.as_mut().unwrap().sync_update();
                self.sync(step);
            }
            CommandStep::Member(MemberStep::Sync(step)) => self.sync(step),
        }
    }

    fn sync(&mut self, step: SyncStep) {
        match step {
            SyncStep::Idle => {}
            SyncStep::Join(events) => {
                let n = self.send(events);
                self.party.as_mut().unwrap().joins_sent(n);
            }
            SyncStep::AcceptAfter(delay) => {
                self.delays.push(delay.secs);
                self.party_command(party::Command::AcceptMatchNow);
            }
            SyncStep::Mismatch(ids) => panic!("{ids:?}"),
            SyncStep::Play(plans) => {
                let mut engine = Engine::new();
                let created = plans.iter().map(|p| engine.create(&p.name, p.team)).collect();
                let event = self.party.as_mut().unwrap().game_started(created, Some(engine));
                self.send(vec![event.unwrap()]);
            }
        }
    }

    fn send(&mut self, events: Vec<party::Event>) -> usize {
        let pid = self.party.as_ref().unwrap().pid();
        let n = events.len();
        for event in events {
            let action = self.router.handle_party(pid, event);
            self.deliver(action);
        }
        n
    }

    /// Plays a script.
    fn play(&mut self, steps: Vec<SimStep>, teams: &[Team]) {
        let config = FarmConfig { party_size: teams.len(), ..FarmConfig::default() };
        let mut sids: Vec<SessionId> = Vec::new();
        let mut pid = None;
        for step in steps {
            match step {
                SimStep::Pause(_) => {}
                SimStep::Connect => self.command(Command::Connected(W)),
                SimStep::CreateParty => {
                    let layout =
                        PartyLayout { map: config.map.clone(), party_size: config.party_size };
                    let p = self.router.create_party(layout.clone());
                    self.party = Some(PartyActor::new(p, layout, config.accept_match_delay));
                    pid = Some(p);
                }
                SimStep::Start => {
                    self.command(Command::Party(pid.unwrap(), PartyCommand::Start));
                }
                SimStep::Player(i, SimAct::Create) => {
                    let (sid, action) = self.router.create_session(format!("player{i}"));
                    assert_eq!(sids.len(), i);
                    sids.push(sid);
                    self.deliver(action);
                }
                SimStep::Player(i, SimAct::Join) => {
                    self.command(Command::Party(pid.unwrap(), PartyCommand::Add(sids[i])));
                }
                SimStep::Player(i, act) => {
                    let event = match act {
                        SimAct::Running => session::Event::StateUpdate(session::State::Running),
                        SimAct::Code => session::Event::Game(game::Event::InviteCodeUpdate {
                            code: format!("FC-{i:04X}"),
                        }),
                        SimAct::Invited => session::Event::Game(game::Event::InviteReceived),
                        SimAct::MenuDone(id) => {
                            session::Event::Game(game::Event::MenuTaskCompleted { id })
                        }
                        SimAct::Matched(match_id) => {
                            session::Event::Game(game::Event::MatchReceived { match_id })
                        }
                        SimAct::InRound(round) => game_ready(
                            teams[i],
                            format!("player{i}"),
                            config.map.clone(),
                            round,
                        ),
                        SimAct::Create | SimAct::Join => unreachable!(),
                    };
                    let slot = self.router.position(sids[i]);
                    self.command(Command::Worker(W, worker::Event::Session(slot, event)));
                }
            }
        }
    }
}

const PACE: Pace = Pace { before_connect: 0, after_connect: 100, after_sessions: 200 };

fn teams(n: usize) -> Vec<Team> {
    (0..n).map(|i| if 2 * i < n { Team::CounterTerrorists } else { Team::Terrorists }).collect()
}

fn run(router: Router, n: usize) -> World {
    let mut world = World::new(router);
    world.play(simulate(n, PACE, master_last_task(n - 1)), &teams(n));
    world
}

fn check_run(world: &World, n: usize) {
    let actor = world.party.as_ref().unwrap();
    assert_eq!(actor.round(), 1);
    assert!(actor.engine().is_some());
    assert_eq!(world.delays, vec![3]);
    let rounds = world.up.iter().filter(|e| matches!(e, Event::PartyRound(_))).count();
    assert_eq!(rounds, 1);
    let up = world.up.iter().filter(|e| matches!(e, Event::SessionReady(_))).count();
    assert_eq!(up, n);
    // Created: n; inviting: 2 and a stop; joining: 3 each; accepting: 3 each.
    assert_eq!(world.down.len(), n + 3 + 3 * (n - 1) + 3 * n);
    for sid in actor.member_ids() {
        assert_eq!(actor.member(sid).unwrap().sync_epoch, 3);
    }
}

#[test]
fn simulation_with_slot_keys() {
    for n in 1..6 {
        let config = FarmConfig { party_size: 100, ..FarmConfig::default() };
        check_run(&run(Router::Slots(Nexus::new(config)), n), n);
    }
}

#[test]
fn simulation_with_numbers() {
    for n in 1..6 {
        check_run(&run(Router::Numbers(FarmSupervisor::new()), n), n);
    }
}

#[test]
fn simulation_whose_master_is_never_done() {
    let mut world = World::new(Router::Numbers(FarmSupervisor::new()));
    let pace = Pace { before_connect: 100, after_connect: 0, after_sessions: 0 };
    // Four players need step six of the master; the match and the round come all
    // the same.
    world.play(simulate(4, pace, 4), &teams(4));
    let actor = world.party.as_ref().unwrap();
    assert_eq!(actor.round(), 1);
    assert_eq!(actor.member(SessionId::from_raw(0)).unwrap().sync_epoch, 2);
    assert_eq!(world.down.len(), 4 + 2 + 3 * 4);
}

#[test]
fn simulation_invites_by_friend_code() {
    let world = run(Router::Numbers(FarmSupervisor::new()), 3);
    let codes: Vec<String> = world
        .down
        .iter()
        .filter_map(|(_, cmd)| match cmd {
            session::Command::Game(game::Command::BotMenuSetTasks { tasks, .. }) => Some(tasks),
            _ => None,
        })
        .flatten()
        .filter_map(|t| match t {
            game::MenuTask::SendInvite { code } => Some(code.clone()),
            _ => None,
        })
        .collect();
    assert_eq!(codes, vec!["FC-0001", "FC-0002"]);
}

#[test]
fn script_of_two_players() {
    let pace = Pace { before_connect: 1, after_connect: 2, after_sessions: 3 };
    let expected = vec![
        SimStep::Pause(1),
        SimStep::Connect,
        SimStep::Pause(2),
        SimStep::Player(0, SimAct::Create),
        SimStep::Player(0, SimAct::Running),
        SimStep::Player(0, SimAct::Code),
        SimStep::Pause(20),
        SimStep::Player(1, SimAct::Create),
        SimStep::Player(1, SimAct::Running),
        SimStep::Player(1, SimAct::Code),
        SimStep::Pause(20),
        SimStep::Pause(3),
        SimStep::CreateParty,
        SimStep::Player(0, SimAct::Join),
        SimStep::Player(1, SimAct::Join),
        SimStep::Start,
        SimStep::Pause(50),
        SimStep::Player(0, SimAct::MenuDone(2)),
        SimStep::Player(1, SimAct::Invited),
        SimStep::Pause(50),
        SimStep::Player(1, SimAct::MenuDone(1)),
        SimStep::Player(0, SimAct::Matched(MATCH_ID)),
        SimStep::Player(1, SimAct::Matched(MATCH_ID)),
        SimStep::Pause(3500),
        SimStep::Player(0, SimAct::MenuDone(0)),
        SimStep::Player(1, SimAct::MenuDone(0)),
        SimStep::Pause(50),
        SimStep::Player(0, SimAct::InRound(0)),
        SimStep::Player(1, SimAct::InRound(0)),
    ];
    assert_eq!(simulate(2, pace, master_last_task(1)), expected);
}

#[test]
fn master_steps() {
    assert_eq!(master_last_task(0), 0);
    assert_eq!(master_last_task(3), 6);
}

#[test]
fn simulated_session_fires() {
    let s = SimSession { sid: SessionId::from_raw(12), wid: WorkerId(4) };
    let (wid, event) = s.fire_running();
    assert_eq!(wid, WorkerId(4));
    assert!(matches!(
        event,
        worker::Event::Session(12, session::Event::StateUpdate(session::State::Running))
    ));
    match s.fire_invite_code("FC-00FF").1 {
        worker::Event::Session(
            12,
            session::Event::Game(game::Event::InviteCodeUpdate { code }),
        ) => assert_eq!(code, "FC-00FF"),
        other => panic!("{other:?}"),
    }
    assert!(matches!(
        s.fire_invite_received().1,
        worker::Event::Session(12, session::Event::Game(game::Event::InviteReceived))
    ));
    assert!(matches!(
        s.fire_menu_done(5).1,
        worker::Event::Session(12, session::Event::Game(game::Event::MenuTaskCompleted { id: 5 }))
    ));
    assert!(matches!(
        s.fire_match_received(999).1,
        worker::Event::Session(
            12,
            session::Event::Game(game::Event::MatchReceived { match_id: 999 }),
        )
    ));
    match s.fire_game_ready(Team::Terrorists, 7).1 {
        worker::Event::Session(
            12,
            session::Event::Game(game::Event::StateUpdate {
                sign_on_state: game::SignOnState::Full,
                player: Some(game::PlayerState { team: Team::Terrorists, name }),
                map: game::GameMap::Base { name: map },
                match_state:
                    Some(game::MatchState { phase: game::Phase::Round { number: 7 }, freeze: false }),
            }),
        ) => {
            assert_eq!(name, "Id(12)");
            assert_eq!(map, "de_vertigo");
        }
        other => panic!("{other:?}"),
    }
}

#[test]
fn simulation_with_automatic_party() {
    let size = 3;
    let config = FarmConfig { party_size: size, ..FarmConfig::default() };
    let mut world = World::new(Router::Slots(Nexus::new(config)));
    let first: Vec<SimStep> = simulate(size, PACE, master_last_task(size - 1))
        .into_iter()
        .filter(|step| {
            let asked = matches!(
                step,
                SimStep::CreateParty | SimStep::Start | SimStep::Player(_, SimAct::Join)
            );
            !asked
        })
        .collect();
    world.play(first, &teams(size));
    // No party was asked for; the farm formed and started one all the same.
    check_run(&world, size);
}

#[test]
fn what_the_players_report() {
    assert!(report(2, SimAct::Create, Team::Terrorists).is_none());
    assert!(report(2, SimAct::Join, Team::Terrorists).is_none());
    assert!(matches!(
        report(2, SimAct::Running, Team::Terrorists),
        Some(session::Event::StateUpdate(session::State::Running))
    ));
    match report(12, SimAct::Code, Team::Terrorists) {
        Some(session::Event::Game(game::Event::InviteCodeUpdate { code })) => {
            assert_eq!(code, "FRIEND-CODE-12");
        }
        other => panic!("{other:?}"),
    }
    assert!(matches!(
        report(0, SimAct::Invited, Team::Terrorists),
        Some(session::Event::Game(game::Event::InviteReceived))
    ));
    assert!(matches!(
        report(0, SimAct::MenuDone(4), Team::Terrorists),
        Some(session::Event::Game(game::Event::MenuTaskCompleted { id: 4 }))
    ));
    assert!(matches!(
        report(0, SimAct::Matched(999), Team::Terrorists),
        Some(session::Event::Game(game::Event::MatchReceived { match_id: 999 }))
    ));
    match report(3, SimAct::InRound(0), Team::CounterTerrorists) {
        Some(session::Event::Game(game::Event::StateUpdate {
            sign_on_state: game::SignOnState::Full,
            player: Some(player),
            map: game::GameMap::Base { name },
            match_state,
        })) => {
            assert_eq!(player.name, "player3");
            assert_eq!(player.team, Team::CounterTerrorists);
            assert_eq!(name, "de_vertigo");
            let phase = game::Phase::Round { number: 0 };
            assert_eq!(match_state, Some(game::MatchState { phase, freeze: false }));
        }
        other => panic!("{other:?}"),
    }
}

#[test]
fn credentials_and_teams() {
    let texts = ("player7".to_string(), "pass".to_string(), "secret".to_string());
    assert_eq!(credentials(7), texts);
    assert_eq!(sim_worker(), WorkerId(1));
    let of_four: Vec<Team> = (0..4).map(team_of).collect();
    assert_eq!(
        of_four,
        vec![Team::CounterTerrorists, Team::CounterTerrorists, Team::Terrorists, Team::Terrorists]
    );
}

#[test]
fn calls_of_the_module_script() {
    let pid = PartyId::from_raw(6);
    let sids: Vec<module::SessionId> =
        (0..4).map(|i| module::SessionId(WorkerId(1), i + 10)).collect();
    let calls: Vec<SimCall> =
        module_script().into_iter().map(|step| call(step, &sids, pid)).collect();
    let texts: Vec<String> = calls
        .iter()
        .filter_map(|c| match c {
            SimCall::Wait(_) => None,
            SimCall::Server(server::Event::New(WorkerId(1), ClientType::Worker)) => {
                Some("connect".to_string())
            }
            SimCall::CreateSession(c) => {
                assert_eq!(c.wid, WorkerId(1));
                Some(format!("create {} {} {}", c.username, c.password, c.secret))
            }
            SimCall::WorkerEvent(WorkerId(1), worker::Event::Session(slot, event)) => {
                Some(match event {
                    session::Event::StateUpdate(s) => format!("{slot} {s:?}"),
                    session::Event::Game(game::Event::InviteCodeUpdate { code }) => {
                        format!("{slot} {code}")
                    }
                    session::Event::Game(_) => format!("{slot} plays"),
                })
            }
            SimCall::CreateParty => Some("party".to_string()),
            SimCall::PartyAdd(p, s) => {
                assert_eq!(*p, pid);
                Some(format!("add {}", s.1))
            }
            SimCall::PartyStart(p) => {
                assert_eq!(*p, pid);
                Some("start".to_string())
            }
            other => panic!("{other:?}"),
        })
        .collect();
    let mut expected = vec!["connect".to_string()];
    for i in 0..4 {
        expected.push(format!("create player{i} pass secret"));
        expected.push(format!("{} Running", i + 10));
        expected.push(format!("{} FRIEND-CODE-{i}", i + 10));
    }
    expected.push("party".to_string());
    for i in 0..4 {
        expected.push(format!("add {}", i + 10));
    }
    expected.push("start".to_string());
    assert_eq!(texts[..expected.len()], expected[..]);
    assert!(texts[expected.len()..].iter().all(|t| t.ends_with("plays")));
    assert_eq!(texts.len(), expected.len() + 1 + 3 + 3 + 4 + 4 + 4);
}

#[test]
fn scripts_of_the_program() {
    let on_module = Pace { before_connect: 100, after_connect: 0, after_sessions: 0 };
    assert_eq!(module_script(), simulate(4, on_module, 4));
    assert_eq!(supervisor_script(), simulate(4, PACE, 6));
}

#[test]
fn acts_on_the_supervisor() {
    let s = SimSession { sid: SessionId::from_raw(2), wid: WorkerId(4) };
    assert!(s.fire_act(2, SimAct::Create).is_none());
    assert!(s.fire_act(2, SimAct::Join).is_none());
    match s.fire_act(31, SimAct::Code) {
        Some((
            WorkerId(4),
            worker::Event::Session(
                2,
                session::Event::Game(game::Event::InviteCodeUpdate { code }),
            ),
        )) => assert_eq!(code, "FC-001F"),
        other => panic!("{other:?}"),
    }
    match s.fire_act(2, SimAct::InRound(1)) {
        Some((
            _,
            worker::Event::Session(
                2,
                session::Event::Game(game::Event::StateUpdate { player: Some(p), .. }),
            ),
        )) => {
            assert_eq!(p.name, "Id(2)");
            assert_eq!(p.team, Team::Terrorists);
        }
        other => panic!("{other:?}"),
    }
    assert!(matches!(
        s.fire_act(2, SimAct::MenuDone(1)),
        Some((
            WorkerId(4),
            worker::Event::Session(
                2,
                session::Event::Game(game::Event::MenuTaskCompleted { id: 1 }),
            ),
        ))
    ));
}
