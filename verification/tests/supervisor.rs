use farm_core::error::Error;
use farm_core::farm::layout::PartyLayout;
use farm_core::farm::party::member as party;
use farm_core::farm::party::Party;
use farm_core::farm::supervisor::{
    Action, Command, Event, FarmSupervisor, PartyCommand, PartyCreate, SessionCreate, WorkerEvent,
};
use farm_core::ids::{PartyId, SessionId};
use farm_core::protocol::game;
use farm_core::protocol::session;
use farm_core::protocol::session::State;
use farm_core::protocol::worker;
use farm_core::server::WorkerId;

const W: WorkerId = WorkerId(1);

fn connected(wids: &[WorkerId]) -> FarmSupervisor {
    let mut supervisor = FarmSupervisor::new();
    for wid in wids {
        supervisor.handle(Command::Connected(*wid)).unwrap();
    }
    supervisor
}

fn session(supervisor: &mut FarmSupervisor, wid: WorkerId, name: &str) -> SessionId {
    let create = SessionCreate {
        wid,
        username: name.to_string(),
        password: "pass".to_string(),
        secret: "secret".to_string(),
    };
    supervisor.create_session(create).unwrap().0
}

fn layout() -> PartyLayout {
    PartyLayout { map: "de_mirage".to_string(), party_size: 3 }
}

fn new_party(supervisor: &mut FarmSupervisor) -> PartyId {
    let pid = supervisor.create_party(PartyCreate {});
    supervisor.party_spawned(Party::new(pid, layout()));
    pid
}

fn report(wid: WorkerId, slot: usize, event: session::Event) -> Command {
    Command::Worker(wid, worker::Event::Session(slot, event))
}

fn code(text: &str) -> session::Event {
    session::Event::Game(game::Event::InviteCodeUpdate { code: text.to_string() })
}

fn invited() -> session::Event {
    session::Event::Game(game::Event::InviteReceived)
}

fn add(pid: PartyId, sid: SessionId) -> Command {
    Command::Party(pid, PartyCommand::Add(sid))
}

#[test]
fn supervisor_reports_connections() {
    let mut supervisor = FarmSupervisor::new();
    let actions = supervisor.handle(Command::Connected(W)).unwrap();
    assert_eq!(actions.len(), 1);
    assert!(matches!(actions[0], Action::Parent(Event::Worker(W, WorkerEvent::New))));
}

#[test]
fn supervisor_creates_session_in_next_slot() {
    let mut supervisor = connected(&[W]);
    let first = SessionCreate {
        wid: W,
        username: "ann".to_string(),
        password: "p1".to_string(),
        secret: "s1".to_string(),
    };
    let (a, action) = supervisor.create_session(first).unwrap();
    match action {
        Action::Server(W, worker::Command::Session(0, session::Command::Create { user })) => {
            assert_eq!(user.username, "ann");
            assert_eq!(user.password, "p1");
            assert_eq!(user.secret, "s1");
        }
        other => panic!("{other:?}"),
    }
    let b = session(&mut supervisor, W, "bob");
    assert_ne!(a, b);
    let rec = supervisor.session(b).unwrap();
    assert_eq!(rec.worker_id, W);
    assert_eq!(rec.slot, 1);
    assert_eq!(rec.party_id, None);
    assert_eq!(rec.friend_code, None);
    assert_eq!(supervisor.session(a).unwrap().slot, 0);
}

#[test]
fn supervisor_needs_a_worker_for_a_session() {
    let mut supervisor = connected(&[W]);
    let create = SessionCreate {
        wid: WorkerId(2),
        username: String::new(),
        password: String::new(),
        secret: String::new(),
    };
    assert!(matches!(supervisor.create_session(create), Err(Error::WorkerNotFound(WorkerId(2)))));
}

#[test]
fn supervisor_refuses_events_of_unknown_workers() {
    let mut supervisor = connected(&[W]);
    let r = supervisor.handle(report(WorkerId(5), 0, invited()));
    assert!(matches!(r, Err(Error::WorkerNotFound(WorkerId(5)))));
}

#[test]
fn supervisor_refuses_events_of_unknown_slots() {
    let mut supervisor = connected(&[W]);
    session(&mut supervisor, W, "ann");
    let r = supervisor.handle(report(W, 1, invited()));
    assert!(matches!(r, Err(Error::SlotNotFound { wid: W, slot: 1 })));
}

#[test]
fn supervisor_round_trip_of_addresses() {
    let other = WorkerId(2);
    let mut supervisor = connected(&[W, other]);
    let mut sids = Vec::new();
    for (wid, name) in [(W, "a"), (other, "b"), (W, "c"), (other, "d")] {
        sids.push(session(&mut supervisor, wid, name));
    }
    for (i, sid) in sids.iter().enumerate() {
        let cmd = session::Command::Game(game::Command::BotMenuStart);
        let (wid, slot) = match supervisor.route_cmd(*sid, cmd).unwrap() {
            Action::Server(wid, worker::Command::Session(slot, _)) => (wid, slot),
            other => panic!("{other:?}"),
        };
        supervisor.handle(report(wid, slot, code(&format!("code-{i}")))).unwrap();
    }
    for (i, sid) in sids.iter().enumerate() {
        let known = supervisor.session(*sid).unwrap().friend_code.clone();
        assert_eq!(known, Some(format!("code-{i}")));
    }
}

#[test]
fn supervisor_reports_sessions_that_are_up() {
    let mut supervisor = connected(&[W]);
    let sid = session(&mut supervisor, W, "ann");
    let actions =
        supervisor.handle(report(W, 0, session::Event::StateUpdate(State::Running))).unwrap();
    assert_eq!(actions.len(), 1);
    assert!(matches!(actions[0], Action::Parent(Event::SessionReady(s)) if s == sid));
    let actions =
        supervisor.handle(report(W, 0, session::Event::StateUpdate(State::Starting))).unwrap();
    assert!(actions.is_empty());
}

#[test]
fn supervisor_adds_only_with_a_friend_code() {
    let mut supervisor = connected(&[W]);
    let sid = session(&mut supervisor, W, "ann");
    let pid = new_party(&mut supervisor);
    assert!(matches!(supervisor.handle(add(pid, sid)), Err(Error::NoFriendCode(s)) if s == sid));
    assert_eq!(supervisor.session(sid).unwrap().party_id, None);
    supervisor.handle(report(W, 0, code("XYZ"))).unwrap();
    let actions = supervisor.handle(add(pid, sid)).unwrap();
    assert_eq!(actions.len(), 1);
    match &actions[0] {
        Action::Join(p, create) => {
            assert_eq!(*p, pid);
            assert_eq!(create.sid, sid);
            assert_eq!(create.friend_code, "XYZ");
        }
        other => panic!("{other:?}"),
    }
    assert_eq!(supervisor.session(sid).unwrap().party_id, Some(pid));
}

#[test]
fn supervisor_add_refusals() {
    let mut supervisor = connected(&[W]);
    let sid = session(&mut supervisor, W, "ann");
    supervisor.handle(report(W, 0, code("XYZ"))).unwrap();
    let nowhere = PartyId::from_raw(0x1_0000_0005);
    assert!(matches!(
        supervisor.handle(add(nowhere, sid)),
        Err(Error::PartyNotFound(p)) if p == nowhere
    ));
    let pid = new_party(&mut supervisor);
    let nobody = SessionId::from_raw(0x1_0000_0077);
    assert!(matches!(
        supervisor.handle(add(pid, nobody)),
        Err(Error::SessionNotFound(s)) if s == nobody
    ));
    let start = Command::Party(nowhere, PartyCommand::Start);
    assert!(matches!(supervisor.handle(start), Err(Error::PartyNotFound(p)) if p == nowhere));
}

#[test]
fn supervisor_passes_reports_on_to_the_party() {
    let mut supervisor = connected(&[W]);
    let sid = session(&mut supervisor, W, "ann");
    let pid = new_party(&mut supervisor);
    supervisor.handle(report(W, 0, code("XYZ"))).unwrap();
    supervisor.handle(add(pid, sid)).unwrap();
    let actions =
        supervisor.handle(report(W, 0, session::Event::StateUpdate(State::Running))).unwrap();
    assert_eq!(actions.len(), 2);
    assert!(matches!(actions[0], Action::Parent(Event::SessionReady(s)) if s == sid));
    match &actions[1] {
        Action::Party(p, party::Command::Member(s, session::Event::StateUpdate(State::Running))) => {
            assert_eq!((*p, *s), (pid, sid));
        }
        other => panic!("{other:?}"),
    }
}

#[test]
fn supervisor_done_party_is_forgotten() {
    let mut supervisor = connected(&[W]);
    let sid = session(&mut supervisor, W, "ann");
    let pid = new_party(&mut supervisor);
    supervisor.handle(report(W, 0, code("XYZ"))).unwrap();
    supervisor.handle(add(pid, sid)).unwrap();
    let action = supervisor.handle_party(pid, party::Event::Done).unwrap();
    assert!(matches!(action, Action::Parent(Event::PartyDone(p)) if p == pid));
    let start = Command::Party(pid, PartyCommand::Start);
    assert!(matches!(supervisor.handle(start), Err(Error::PartyNotFound(p)) if p == pid));
    // The session's reports go nowhere, and its death concerns no party.
    assert!(supervisor.handle(report(W, 0, invited())).unwrap().is_empty());
    let actions = supervisor.on_session_dead(sid);
    assert_eq!(actions.len(), 1);
    // The number is not given out again.
    let next = new_party(&mut supervisor);
    assert_ne!(next, pid);
}

#[test]
fn supervisor_routes_party_events() {
    let mut supervisor = connected(&[W]);
    session(&mut supervisor, W, "ann");
    let sid = session(&mut supervisor, W, "bob");
    let pid = new_party(&mut supervisor);
    let cmd = session::Command::Game(game::Command::BotGameplaySignal);
    let action = supervisor.handle_party(pid, party::Event::Session(sid, cmd)).unwrap();
    assert!(matches!(
        action,
        Action::Server(
            W,
            worker::Command::Session(1, session::Command::Game(game::Command::BotGameplaySignal)),
        )
    ));
    let action = supervisor.handle_party(pid, party::Event::RoundComplete).unwrap();
    assert!(matches!(action, Action::Parent(Event::PartyRound(p)) if p == pid));
    supervisor.handle(Command::Party(pid, PartyCommand::Start)).unwrap();
}

#[test]
fn supervisor_dead_session() {
    let mut supervisor = connected(&[W]);
    let a = session(&mut supervisor, W, "ann");
    let b = session(&mut supervisor, W, "bob");
    let pid = new_party(&mut supervisor);
    supervisor.handle(report(W, 0, code("A"))).unwrap();
    supervisor.handle(report(W, 1, code("B"))).unwrap();
    supervisor.handle(add(pid, a)).unwrap();
    supervisor.handle(add(pid, b)).unwrap();
    let actions = supervisor.on_session_dead(a);
    assert_eq!(actions.len(), 2);
    assert!(matches!(
        actions[0],
        Action::Notice(p, party::Command::MemberDead(s)) if p == pid && s == a
    ));
    assert!(matches!(actions[1], Action::Parent(Event::SessionDead(s)) if s == a));
    assert!(supervisor.session(a).is_none());
    assert_eq!(supervisor.session(b).unwrap().friend_code, Some("B".to_string()));
    // The slot is still taken, but leads to nobody.
    let r = supervisor.handle(report(W, 0, invited()));
    assert!(matches!(r, Err(Error::SessionNotFound(s)) if s == a));
    let c = session(&mut supervisor, W, "cleo");
    assert_ne!(c, a);
    assert_eq!(supervisor.session(c).unwrap().slot, 2);
}

#[test]
fn supervisor_unknown_session_dies_all_the_same() {
    let mut supervisor = connected(&[W]);
    let nobody = SessionId::from_raw(0x3_0000_0001);
    let actions = supervisor.on_session_dead(nobody);
    assert_eq!(actions.len(), 1);
    assert!(matches!(actions[0], Action::Parent(Event::SessionDead(s)) if s == nobody));
}

#[test]
fn supervisor_dead_worker_without_sessions() {
    let mut supervisor = connected(&[W]);
    let farewell = supervisor.on_worker_dead(W);
    assert!(farewell.dead.is_empty());
    assert!(farewell.actions.is_empty());
    supervisor.worker_gone(W, &farewell.dead, 0);
    assert!(matches!(supervisor.handle(report(W, 0, invited())), Err(Error::WorkerNotFound(W))));
}

#[test]
fn supervisor_reconnect_starts_slots_over() {
    let mut supervisor = connected(&[W]);
    let a = session(&mut supervisor, W, "ann");
    supervisor.handle(Command::Connected(W)).unwrap();
    assert!(matches!(
        supervisor.handle(report(W, 0, invited())),
        Err(Error::SlotNotFound { wid: W, slot: 0 })
    ));
    // The session is still known, under its old address.
    assert_eq!(supervisor.session(a).unwrap().slot, 0);
    let b = session(&mut supervisor, W, "bob");
    assert_eq!(supervisor.session(b).unwrap().slot, 0);
    supervisor.handle(report(W, 0, code("B"))).unwrap();
    assert_eq!(supervisor.session(a).unwrap().friend_code, None);
    assert_eq!(supervisor.session(b).unwrap().friend_code, Some("B".to_string()));
}

#[test]
fn supervisor_other_sessions_are_left_alone() {
    let mut supervisor = connected(&[W]);
    let a = session(&mut supervisor, W, "ann");
    let b = session(&mut supervisor, W, "bob");
    supervisor.handle(report(W, 0, code("A"))).unwrap();
    supervisor.handle(report(W, 1, code("B"))).unwrap();
    supervisor.handle(report(W, 0, code("A2"))).unwrap();
    assert_eq!(supervisor.session(a).unwrap().friend_code, Some("A2".to_string()));
    assert_eq!(supervisor.session(b).unwrap().friend_code, Some("B".to_string()));
}

#[test]
fn supervisor_numbers_one_after_the_other() {
    let mut supervisor = connected(&[W, WorkerId(2)]);
    let sids: Vec<u64> = [W, WorkerId(2), W]
        .iter()
        .map(|wid| session(&mut supervisor, *wid, "x").inner())
        .collect();
    assert_eq!(sids, vec![0, 1, 2]);
    supervisor.on_session_dead(SessionId::from_raw(2));
    assert_eq!(session(&mut supervisor, W, "x").inner(), 3);
    let pids: Vec<u64> = (0..3).map(|_| new_party(&mut supervisor).inner()).collect();
    assert_eq!(pids, vec![0, 1, 2]);
    assert_eq!(supervisor.session(SessionId::from_raw(1)).unwrap().slot, 0);
    assert_eq!(supervisor.session(SessionId::from_raw(3)).unwrap().slot, 2);
}

#[test]
fn supervisor_party_needs_to_be_spawned() {
    let mut supervisor = connected(&[W]);
    let pid = supervisor.create_party(PartyCreate {});
    let start = Command::Party(pid, PartyCommand::Start);
    assert!(matches!(supervisor.handle(start), Err(Error::PartyNotFound(p)) if p == pid));
    supervisor.party_spawned(Party::new(pid, layout()));
    let actions = supervisor.handle(Command::Party(pid, PartyCommand::Start)).unwrap();
    assert!(matches!(actions[0], Action::Party(p, party::Command::Start) if p == pid));
}

#[test]
fn supervisor_dead_worker() {
    let other = WorkerId(2);
    let mut supervisor = connected(&[W, other]);
    let a = session(&mut supervisor, W, "ann");
    let b = session(&mut supervisor, other, "bob");
    let c = session(&mut supervisor, W, "cleo");
    let pid = new_party(&mut supervisor);
    supervisor.handle(report(W, 1, code("C"))).unwrap();
    supervisor.handle(add(pid, c)).unwrap();
    let farewell = supervisor.on_worker_dead(W);
    let mut dead: Vec<u64> = farewell.dead.iter().map(|s| s.inner()).collect();
    dead.sort();
    assert_eq!(dead, vec![a.inner(), c.inner()]);
    assert_eq!(farewell.actions.len(), 3);
    let mut notices = 0;
    let mut deaths = Vec::new();
    for action in &farewell.actions {
        match action {
            Action::Notice(p, party::Command::MemberDead(s)) => {
                assert_eq!((*p, *s), (pid, c));
                notices += 1;
            }
            Action::Parent(Event::SessionDead(s)) => deaths.push(*s),
            other => panic!("{other:?}"),
        }
    }
    assert_eq!(notices, 1);
    assert_eq!(deaths, farewell.dead);
    supervisor.worker_gone(W, &farewell.dead, 2);
    assert!(supervisor.session(a).is_none());
    assert!(supervisor.session(c).is_none());
    assert!(supervisor.session(b).is_some());
    assert!(matches!(
        supervisor.handle(report(W, 0, invited())),
        Err(Error::WorkerNotFound(W))
    ));
}

#[test]
fn supervisor_dead_worker_half_told() {
    let mut supervisor = connected(&[W]);
    for name in ["a", "b", "c"] {
        session(&mut supervisor, W, name);
    }
    let farewell = supervisor.on_worker_dead(W);
    assert_eq!(farewell.dead.len(), 3);
    supervisor.worker_gone(W, &farewell.dead, 0);
    assert!(supervisor.session(farewell.dead[0]).is_none());
    assert!(supervisor.session(farewell.dead[1]).is_some());
    assert!(supervisor.session(farewell.dead[2]).is_some());
    let slot = supervisor.session(farewell.dead[2]).unwrap().slot;
    supervisor.handle(report(W, slot, code("Z"))).unwrap();
    // The positions stay: the next session gets a new one.
    let late = session(&mut supervisor, W, "d");
    assert_eq!(supervisor.session(late).unwrap().slot, 3);
}

#[test]
fn supervisor_has_room() {
    let mut supervisor = connected(&[W]);
    assert!(supervisor.has_session_room(W));
    assert!(supervisor.has_session_room(WorkerId(99)));
    session(&mut supervisor, W, "ann");
    assert!(supervisor.has_session_room(W));
}
