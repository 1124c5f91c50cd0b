use farm_core::config::FarmConfig;
use farm_core::error::Error;
use farm_core::farm::layout::PartyLayout;
use farm_core::farm::nexus::{
    Action, Command, Event, Nexus, PartyCommand, PartyCreate, SessionCreate, Worker, WorkerEvent,
};
use farm_core::farm::party::member as party;
use farm_core::ids::{PartyKey, SessionKey, WorkerSlot};
use farm_core::protocol::game;
use farm_core::protocol::session;
use farm_core::protocol::session::State;
use farm_core::protocol::worker;
use farm_core::server::WorkerId;

const W: WorkerId = WorkerId(1);

/// A farm that forms parties of that many sessions.
fn farm(party_size: usize) -> Nexus {
    Nexus::new(FarmConfig { party_size, ..FarmConfig::default() })
}

fn connected(wids: &[WorkerId]) -> Nexus {
    let mut nexus = farm(100);
    for wid in wids {
        nexus.handle(Command::Connected(*wid)).unwrap();
    }
    nexus
}

fn session(nexus: &mut Nexus, wid: WorkerId, name: &str) -> SessionKey {
    let create = SessionCreate {
        wid,
        username: name.to_string(),
        password: "pass".to_string(),
        secret: "secret".to_string(),
    };
    nexus.create_session(create).unwrap().0
}

fn layout() -> PartyLayout {
    PartyLayout { map: "de_mirage".to_string(), party_size: 3 }
}

fn new_party(nexus: &mut Nexus) -> PartyKey {
    nexus.create_party(PartyCreate { layout: layout() })
}

fn report(wid: WorkerId, slot: usize, event: session::Event) -> Command {
    Command::Worker(wid, worker::Event::Session(slot, event))
}

fn code(text: &str) -> session::Event {
    session::Event::Game(game::Event::InviteCodeUpdate { code: text.to_string() })
}

fn invited() -> session::Event {
    session::Event::Game(game::Event::InviteReceived)
}

fn add(pid: PartyKey, sid: SessionKey) -> Command {
    Command::Party(pid, PartyCommand::Add(sid))
}

#[test]
fn worker_slots_are_dense() {
    let mut worker = Worker::new();
    assert_eq!(worker.lookup(WorkerSlot(0)), None);
    let a = SessionKey::from_raw(11);
    let b = SessionKey::from_raw(22);
    assert_eq!(worker.alloc_slot(a), WorkerSlot(0));
    assert_eq!(worker.alloc_slot(b), WorkerSlot(1));
    assert_eq!(worker.lookup(WorkerSlot(0)), Some(a));
    assert_eq!(worker.lookup(WorkerSlot(1)), Some(b));
    assert_eq!(worker.lookup(WorkerSlot(2)), None);
    assert_eq!(worker.lookup(WorkerSlot(usize::MAX)), None);
}

#[test]
fn nexus_reports_connections() {
    let mut nexus = farm(100);
    let actions = nexus.handle(Command::Connected(W)).unwrap();
    assert_eq!(actions.len(), 1);
    assert!(matches!(actions[0], Action::Parent(Event::Worker(W, WorkerEvent::New))));
}

#[test]
fn nexus_creates_session_in_next_slot() {
    let mut nexus = connected(&[W]);
    let first = SessionCreate {
        wid: W,
        username: "ann".to_string(),
        password: "p1".to_string(),
        secret: "s1".to_string(),
    };
    let (a, action) = nexus.create_session(first).unwrap();
    match action {
        Action::Server(W, worker::Command::Session(0, session::Command::Create { user })) => {
            assert_eq!(user.username, "ann");
            assert_eq!(user.password, "p1");
            assert_eq!(user.secret, "s1");
        }
        other => panic!("{other:?}"),
    }
    let b = session(&mut nexus, W, "bob");
    assert_ne!(a, b);
    let rec = nexus.session(b).unwrap();
    assert_eq!(rec.wid, W);
    assert_eq!(rec.slot, WorkerSlot(1));
    assert_eq!(rec.party_key, None);
    assert_eq!(rec.friend_code, None);
    assert_eq!(nexus.session(a).unwrap().slot, WorkerSlot(0));
}

#[test]
fn nexus_needs_a_worker_for_a_session() {
    let mut nexus = connected(&[W]);
    let create = SessionCreate {
        wid: WorkerId(2),
        username: String::new(),
        password: String::new(),
        secret: String::new(),
    };
    assert!(matches!(nexus.create_session(create), Err(Error::WorkerNotFound(WorkerId(2)))));
}

#[test]
fn nexus_refuses_events_of_unknown_workers() {
    let mut nexus = connected(&[W]);
    let r = nexus.handle(report(WorkerId(5), 0, invited()));
    assert!(matches!(r, Err(Error::WorkerNotFound(WorkerId(5)))));
}

#[test]
fn nexus_refuses_events_of_unknown_slots() {
    let mut nexus = connected(&[W]);
    session(&mut nexus, W, "ann");
    let r = nexus.handle(report(W, 1, invited()));
    assert!(matches!(r, Err(Error::SlotNotFound { wid: W, slot: 1 })));
}

#[test]
fn nexus_round_trip_of_addresses() {
    let other = WorkerId(2);
    let mut nexus = connected(&[W, other]);
    let mut sids = Vec::new();
    for (wid, name) in [(W, "a"), (other, "b"), (W, "c"), (other, "d")] {
        sids.push(session(&mut nexus, wid, name));
    }
    for (i, sid) in sids.iter().enumerate() {
        let cmd = session::Command::Game(game::Command::BotMenuStart);
        let (wid, slot) = match nexus.route_session_cmd(*sid, cmd).unwrap() {
            Action::Server(wid, worker::Command::Session(slot, _)) => (wid, slot),
            other => panic!("{other:?}"),
        };
        nexus.handle(report(wid, slot, code(&format!("code-{i}")))).unwrap();
    }
    for (i, sid) in sids.iter().enumerate() {
        let known = nexus.session(*sid).unwrap().friend_code.clone();
        assert_eq!(known, Some(format!("code-{i}")));
    }
}

#[test]
fn nexus_reports_sessions_that_are_up() {
    let mut nexus = connected(&[W]);
    let sid = session(&mut nexus, W, "ann");
    let actions = nexus.handle(report(W, 0, session::Event::StateUpdate(State::Running))).unwrap();
    assert_eq!(actions.len(), 1);
    assert!(matches!(actions[0], Action::Parent(Event::SessionReady(s)) if s == sid));
    let actions = nexus.handle(report(W, 0, session::Event::StateUpdate(State::Starting))).unwrap();
    assert!(actions.is_empty());
}

#[test]
fn nexus_adds_only_with_a_friend_code() {
    let mut nexus = connected(&[W]);
    let sid = session(&mut nexus, W, "ann");
    let pid = new_party(&mut nexus);
    assert!(matches!(nexus.handle(add(pid, sid)), Err(Error::NoFriendCode(s)) if s == sid));
    assert_eq!(nexus.session(sid).unwrap().party_key, None);
    nexus.handle(report(W, 0, code("XYZ"))).unwrap();
    let actions = nexus.handle(add(pid, sid)).unwrap();
    assert_eq!(actions.len(), 1);
    match &actions[0] {
        Action::Join(p, create) => {
            assert_eq!(*p, pid);
            assert_eq!(create.sid, sid);
            assert_eq!(create.friend_code, "XYZ");
        }
        other => panic!("{other:?}"),
    }
    assert_eq!(nexus.session(sid).unwrap().party_key, Some(pid));
}

#[test]
fn nexus_add_refusals() {
    let mut nexus = connected(&[W]);
    let sid = session(&mut nexus, W, "ann");
    nexus.handle(report(W, 0, code("XYZ"))).unwrap();
    let nowhere = PartyKey::from_raw(0x1_0000_0005);
    assert!(matches!(
        nexus.handle(add(nowhere, sid)),
        Err(Error::PartyNotFound(p)) if p == nowhere
    ));
    let pid = new_party(&mut nexus);
    let nobody = SessionKey::from_raw(0x1_0000_0077);
    assert!(matches!(
        nexus.handle(add(pid, nobody)),
        Err(Error::SessionNotFound(s)) if s == nobody
    ));
    let start = Command::Party(nowhere, PartyCommand::Start);
    assert!(matches!(nexus.handle(start), Err(Error::PartyNotFound(p)) if p == nowhere));
}

#[test]
fn nexus_knows_no_number_that_is_no_key() {
    let mut nexus = connected(&[W]);
    let sid = session(&mut nexus, W, "ann");
    // A slot map would take the first of these for the key it makes of it.
    for raw in [sid.inner() - 0x1_0000_0000, 0, sid.inner() + 1, u64::MAX] {
        assert!(nexus.session(SessionKey::from_raw(raw)).is_none());
        assert!(nexus.party(PartyKey::from_raw(raw)).is_none());
        let cmd = session::Command::Game(game::Command::BotMenuStop);
        let r = nexus.route_session_cmd(SessionKey::from_raw(raw), cmd);
        assert!(matches!(r, Err(Error::SessionNotFound(s)) if s.inner() == raw));
    }
    assert!(nexus.session(sid).is_some());
}

#[test]
fn nexus_passes_reports_on_to_the_party() {
    let mut nexus = connected(&[W]);
    let sid = session(&mut nexus, W, "ann");
    let pid = new_party(&mut nexus);
    nexus.handle(report(W, 0, code("XYZ"))).unwrap();
    nexus.handle(add(pid, sid)).unwrap();
    let actions = nexus.handle(report(W, 0, session::Event::StateUpdate(State::Running))).unwrap();
    assert_eq!(actions.len(), 2);
    assert!(matches!(actions[0], Action::Parent(Event::SessionReady(s)) if s == sid));
    match &actions[1] {
        Action::Party(p, party::Command::Member(s, session::Event::StateUpdate(State::Running))) => {
            assert_eq!((*p, *s), (pid, sid));
        }
        other => panic!("{other:?}"),
    }
}

#[test]
fn nexus_party_knows_its_key_and_layout() {
    let mut nexus = connected(&[W]);
    let a = new_party(&mut nexus);
    let b = new_party(&mut nexus);
    assert_ne!(a, b);
    for pid in [a, b] {
        let known = nexus.party(pid).unwrap();
        assert_eq!(known.pid, pid);
        assert_eq!(known.layout.map, "de_mirage");
        assert_eq!(known.layout.party_size, 3);
    }
    let actions = nexus.handle(Command::Party(b, PartyCommand::Start)).unwrap();
    assert!(matches!(actions[0], Action::Party(p, party::Command::Start) if p == b));
}

#[test]
fn nexus_done_party_is_forgotten() {
    let mut nexus = connected(&[W]);
    let sid = session(&mut nexus, W, "ann");
    let pid = new_party(&mut nexus);
    nexus.handle(report(W, 0, code("XYZ"))).unwrap();
    nexus.handle(add(pid, sid)).unwrap();
    let action = nexus.handle_party(pid, party::Event::Done).unwrap();
    assert!(matches!(action, Action::Parent(Event::PartyDone(p)) if p == pid));
    assert!(nexus.party(pid).is_none());
    let start = Command::Party(pid, PartyCommand::Start);
    assert!(matches!(nexus.handle(start), Err(Error::PartyNotFound(p)) if p == pid));
    // The session's reports go nowhere, and its death concerns no party.
    assert!(nexus.handle(report(W, 0, invited())).unwrap().is_empty());
    let actions = nexus.on_session_dead(sid);
    assert_eq!(actions.len(), 1);
    // A key that was given back is not given out again as it was.
    let next = new_party(&mut nexus);
    assert_ne!(next, pid);
    assert!(nexus.party(pid).is_none());
}

#[test]
fn nexus_routes_party_events() {
    let mut nexus = connected(&[W]);
    session(&mut nexus, W, "ann");
    let sid = session(&mut nexus, W, "bob");
    let pid = new_party(&mut nexus);
    let cmd = session::Command::Game(game::Command::BotGameplaySignal);
    let action = nexus.handle_party(pid, party::Event::Session(sid, cmd)).unwrap();
    assert!(matches!(
        action,
        Action::Server(
            W,
            worker::Command::Session(1, session::Command::Game(game::Command::BotGameplaySignal)),
        )
    ));
    let action = nexus.handle_party(pid, party::Event::RoundComplete).unwrap();
    assert!(matches!(action, Action::Parent(Event::PartyRound(p)) if p == pid));
    assert!(nexus.party(pid).is_some());
}

#[test]
fn nexus_dead_session() {
    let mut nexus = connected(&[W]);
    let a = session(&mut nexus, W, "ann");
    let b = session(&mut nexus, W, "bob");
    let pid = new_party(&mut nexus);
    nexus.handle(report(W, 0, code("A"))).unwrap();
    nexus.handle(report(W, 1, code("B"))).unwrap();
    nexus.handle(add(pid, a)).unwrap();
    nexus.handle(add(pid, b)).unwrap();
    let actions = nexus.on_session_dead(a);
    assert_eq!(actions.len(), 2);
    assert!(matches!(
        actions[0],
        Action::Notice(p, party::Command::MemberDead(s)) if p == pid && s == a
    ));
    assert!(matches!(actions[1], Action::Parent(Event::SessionDead(s)) if s == a));
    assert!(nexus.session(a).is_none());
    assert_eq!(nexus.session(b).unwrap().friend_code, Some("B".to_string()));
    // The slot is still taken, but leads to nobody.
    let r = nexus.handle(report(W, 0, invited()));
    assert!(matches!(r, Err(Error::SessionNotFound(s)) if s == a));
    let c = session(&mut nexus, W, "cleo");
    assert_ne!(c, a);
    assert_eq!(nexus.session(c).unwrap().slot, WorkerSlot(2));
}

#[test]
fn nexus_unknown_session_dies_all_the_same() {
    let mut nexus = connected(&[W]);
    let nobody = SessionKey::from_raw(0x3_0000_0001);
    let actions = nexus.on_session_dead(nobody);
    assert_eq!(actions.len(), 1);
    assert!(matches!(actions[0], Action::Parent(Event::SessionDead(s)) if s == nobody));
}

#[test]
fn nexus_dead_worker() {
    let other = WorkerId(2);
    let mut nexus = connected(&[W, other]);
    let a = session(&mut nexus, W, "ann");
    let b = session(&mut nexus, other, "bob");
    let c = session(&mut nexus, W, "cleo");
    let pid = new_party(&mut nexus);
    nexus.handle(report(W, 1, code("C"))).unwrap();
    nexus.handle(add(pid, c)).unwrap();
    let farewell = nexus.on_worker_dead(W);
    assert_eq!(farewell.dead, vec![a, c]);
    assert_eq!(farewell.actions.len(), 3);
    assert!(matches!(farewell.actions[0], Action::Parent(Event::SessionDead(s)) if s == a));
    assert!(matches!(
        farewell.actions[1],
        Action::Notice(p, party::Command::MemberDead(s)) if p == pid && s == c
    ));
    assert!(matches!(farewell.actions[2], Action::Parent(Event::SessionDead(s)) if s == c));
    nexus.worker_gone(W, &farewell.dead, 2);
    assert!(nexus.session(a).is_none());
    assert!(nexus.session(c).is_none());
    assert!(nexus.session(b).is_some());
    assert!(matches!(
        nexus.handle(report(W, 0, invited())),
        Err(Error::WorkerNotFound(W))
    ));
    nexus.handle(report(other, 0, code("B"))).unwrap();
    assert_eq!(nexus.session(b).unwrap().friend_code, Some("B".to_string()));
}

#[test]
fn nexus_dead_worker_half_told() {
    let mut nexus = connected(&[W]);
    let sids: Vec<SessionKey> =
        ["a", "b", "c"].iter().map(|name| session(&mut nexus, W, name)).collect();
    let farewell = nexus.on_worker_dead(W);
    assert_eq!(farewell.dead, sids);
    // The second report upward failed: that session is gone, the third is not.
    nexus.worker_gone(W, &farewell.dead, 1);
    assert!(nexus.session(sids[0]).is_none());
    assert!(nexus.session(sids[1]).is_none());
    assert!(nexus.session(sids[2]).is_some());
    nexus.handle(report(W, 2, code("C"))).unwrap();
    assert_eq!(nexus.session(sids[2]).unwrap().friend_code, Some("C".to_string()));
    // The worker's slots lead where they led, and the next session gets a new one.
    let r = nexus.handle(report(W, 0, code("A")));
    assert!(matches!(r, Err(Error::SessionNotFound(s)) if s == sids[0]));
    let late = session(&mut nexus, W, "d");
    assert_eq!(nexus.session(late).unwrap().slot.0, 3);
}

#[test]
fn nexus_dead_worker_without_sessions() {
    let mut nexus = connected(&[W]);
    let farewell = nexus.on_worker_dead(W);
    assert!(farewell.dead.is_empty());
    assert!(farewell.actions.is_empty());
    nexus.worker_gone(W, &farewell.dead, 0);
    assert!(matches!(nexus.handle(report(W, 0, invited())), Err(Error::WorkerNotFound(W))));
}

#[test]
fn nexus_reconnect_starts_slots_over() {
    let mut nexus = connected(&[W]);
    let a = session(&mut nexus, W, "ann");
    nexus.handle(Command::Connected(W)).unwrap();
    assert!(matches!(
        nexus.handle(report(W, 0, invited())),
        Err(Error::SlotNotFound { wid: W, slot: 0 })
    ));
    // The session is still known, under its old address.
    assert_eq!(nexus.session(a).unwrap().slot, WorkerSlot(0));
    let b = session(&mut nexus, W, "bob");
    assert_eq!(nexus.session(b).unwrap().slot, WorkerSlot(0));
    nexus.handle(report(W, 0, code("B"))).unwrap();
    assert_eq!(nexus.session(a).unwrap().friend_code, None);
    assert_eq!(nexus.session(b).unwrap().friend_code, Some("B".to_string()));
}

#[test]
fn nexus_has_room() {
    let mut nexus = connected(&[W]);
    assert!(nexus.has_session_room());
    assert!(nexus.has_party_room());
    session(&mut nexus, W, "ann");
    new_party(&mut nexus);
    assert!(nexus.has_session_room());
    assert!(nexus.has_party_room());
}

#[test]
fn nexus_other_sessions_are_left_alone() {
    let mut nexus = connected(&[W]);
    let a = session(&mut nexus, W, "ann");
    let b = session(&mut nexus, W, "bob");
    nexus.handle(report(W, 0, code("A"))).unwrap();
    nexus.handle(report(W, 1, code("B"))).unwrap();
    nexus.handle(report(W, 0, code("A2"))).unwrap();
    assert_eq!(nexus.session(a).unwrap().friend_code, Some("A2".to_string()));
    assert_eq!(nexus.session(b).unwrap().friend_code, Some("B".to_string()));
}

fn up() -> session::Event {
    session::Event::StateUpdate(State::Running)
}

#[test]
fn nexus_forms_a_party_when_enough_are_ready() {
    let mut nexus = farm(2);
    nexus.handle(Command::Connected(W)).unwrap();
    let a = session(&mut nexus, W, "ann");
    let b = session(&mut nexus, W, "bob");
    let c = session(&mut nexus, W, "cleo");
    nexus.handle(report(W, 2, code("C"))).unwrap();
    nexus.handle(report(W, 0, code("A"))).unwrap();
    // One of them is up: not enough.
    assert_eq!(nexus.handle(report(W, 2, up())).unwrap().len(), 1);
    assert!(nexus.next_party().is_none());
    // One that is up without a friend code does not count.
    assert_eq!(nexus.handle(report(W, 1, up())).unwrap().len(), 1);
    assert!(nexus.next_party().is_none());
    let actions = nexus.handle(report(W, 0, up())).unwrap();
    assert_eq!(actions.len(), 5);
    assert!(matches!(actions[0], Action::Parent(Event::SessionReady(s)) if s == a));
    let pid = match &actions[1] {
        Action::Form(pid, layout) => {
            assert_eq!(layout.map, "de_vertigo");
            assert_eq!(layout.party_size, 2);
            *pid
        }
        other => panic!("{other:?}"),
    };
    for (action, (sid, text)) in actions[2..4].iter().zip([(a, "A"), (c, "C")]) {
        match action {
            Action::Join(p, create) => {
                assert_eq!((*p, create.sid), (pid, sid));
                assert_eq!(create.friend_code, text);
            }
            other => panic!("{other:?}"),
        }
    }
    assert!(matches!(actions[4], Action::Party(p, party::Command::Start) if p == pid));
    assert_eq!(nexus.party(pid).unwrap().pid, pid);
    assert_eq!(nexus.session(a).unwrap().party_key, Some(pid));
    assert_eq!(nexus.session(c).unwrap().party_key, Some(pid));
    assert_eq!(nexus.session(b).unwrap().party_key, None);
    assert!(nexus.next_party().is_none());
    // Their reports go to the party from now on.
    let actions = nexus.handle(report(W, 2, invited())).unwrap();
    assert!(matches!(
        actions[0],
        Action::Party(p, party::Command::Member(s, _)) if p == pid && s == c
    ));
}

#[test]
fn nexus_friend_code_can_come_last() {
    let mut nexus = farm(1);
    nexus.handle(Command::Connected(W)).unwrap();
    let a = session(&mut nexus, W, "ann");
    assert_eq!(nexus.handle(report(W, 0, up())).unwrap().len(), 1);
    let actions = nexus.handle(report(W, 0, code("A"))).unwrap();
    assert_eq!(actions.len(), 3);
    assert!(matches!(&actions[1], Action::Join(_, create) if create.sid == a));
}

#[test]
fn nexus_session_that_is_down_is_not_ready() {
    let mut nexus = farm(1);
    nexus.handle(Command::Connected(W)).unwrap();
    let a = session(&mut nexus, W, "ann");
    nexus.handle(report(W, 0, up())).unwrap();
    assert!(nexus.session(a).unwrap().up);
    nexus.handle(report(W, 0, session::Event::StateUpdate(State::Starting))).unwrap();
    assert!(!nexus.session(a).unwrap().up);
    assert!(nexus.handle(report(W, 0, code("A"))).unwrap().is_empty());
    assert_eq!(nexus.handle(report(W, 0, up())).unwrap().len(), 4);
}

#[test]
fn nexus_added_sessions_are_not_ready() {
    let mut nexus = farm(1);
    nexus.handle(Command::Connected(W)).unwrap();
    let a = session(&mut nexus, W, "ann");
    let pid = new_party(&mut nexus);
    nexus.handle(report(W, 0, code("A"))).unwrap();
    nexus.handle(add(pid, a)).unwrap();
    let actions = nexus.handle(report(W, 0, up())).unwrap();
    assert_eq!(actions.len(), 2);
    assert!(matches!(actions[1], Action::Party(p, party::Command::Member(_, _)) if p == pid));
    // Once that party is done, the session does not come back by itself.
    nexus.handle_party(pid, party::Event::Done).unwrap();
    assert_eq!(nexus.handle(report(W, 0, up())).unwrap().len(), 1);
}

#[test]
fn nexus_forms_no_party_of_nobody() {
    let mut nexus = farm(0);
    nexus.handle(Command::Connected(W)).unwrap();
    session(&mut nexus, W, "ann");
    nexus.handle(report(W, 0, code("A"))).unwrap();
    assert_eq!(nexus.handle(report(W, 0, up())).unwrap().len(), 1);
    assert!(nexus.next_party().is_none());
}

#[test]
fn nexus_dead_sessions_do_not_count() {
    let mut nexus = farm(2);
    nexus.handle(Command::Connected(W)).unwrap();
    let a = session(&mut nexus, W, "ann");
    session(&mut nexus, W, "bob");
    nexus.handle(report(W, 0, code("A"))).unwrap();
    nexus.handle(report(W, 0, up())).unwrap();
    nexus.on_session_dead(a);
    nexus.handle(report(W, 1, code("B"))).unwrap();
    assert_eq!(nexus.handle(report(W, 1, up())).unwrap().len(), 1);
}

#[test]
fn nexus_keys_are_not_given_again() {
    let mut nexus = connected(&[W]);
    let mut past = Vec::new();
    for i in 0..50 {
        let sid = session(&mut nexus, W, "x");
        assert!(!past.contains(&sid));
        past.push(sid);
        assert_eq!(nexus.session(sid).unwrap().slot, WorkerSlot(i));
        nexus.on_session_dead(sid);
        // Each of the slots is refused for good.
        let r = nexus.handle(report(W, i, invited()));
        assert!(matches!(r, Err(Error::SessionNotFound(s)) if s == sid));
        assert!(matches!(
            nexus.handle(report(W, 0, invited())),
            Err(Error::SessionNotFound(s)) if s == past[0]
        ));
    }
    let mut done = Vec::new();
    for _ in 0..50 {
        let pid = new_party(&mut nexus);
        assert!(!done.contains(&pid));
        done.push(pid);
        nexus.handle_party(pid, party::Event::Done).unwrap();
    }
}
