use farm_core::farm::actor::{
    Action, Command, Event, FarmModuleActor, ModuleError, PartyCommand, PartyCreate, PartyEvent,
    PartyMemberId, SessionCreate, SessionEvent, SessionId, SessionState, WorkerEvent,
};
use farm_core::ids::{MemberId, PartyId};
use farm_core::protocol::game;
use farm_core::protocol::session;
use farm_core::protocol::session::State;
use farm_core::protocol::worker;
use farm_core::server::WorkerId;

const W: WorkerId = WorkerId(1);

fn create(wid: WorkerId) -> SessionCreate {
    SessionCreate {
        wid,
        username: "user".to_string(),
        password: "pass".to_string(),
        secret: "secret".to_string(),
    }
}

fn connected(wids: &[WorkerId]) -> FarmModuleActor {
    let mut module = FarmModuleActor::new();
    for wid in wids {
        module.handle(Command::Connected(*wid)).unwrap();
    }
    module
}

fn report(sid: SessionId, event: session::Event) -> Command {
    Command::Worker(sid.0, worker::Event::Session(sid.1, event))
}

fn code(text: &str) -> session::Event {
    session::Event::Game(game::Event::InviteCodeUpdate { code: text.to_string() })
}

fn start() -> session::Command {
    session::Command::Game(game::Command::BotMenuStart)
}

fn new_party(module: &mut FarmModuleActor) -> PartyId {
    let pid = module.create_party(PartyCreate {});
    module.party_spawned(pid);
    pid
}

#[test]
fn module_reports_connections() {
    let mut module = FarmModuleActor::new();
    let actions = module.handle(Command::Connected(W)).unwrap();
    assert_eq!(actions.len(), 1);
    assert!(matches!(actions[0], Action::Parent(Event::Worker(W, WorkerEvent::New))));
}

#[test]
fn module_numbers_sessions_per_worker() {
    let other = WorkerId(7);
    let mut module = connected(&[W, other]);
    let mut sids = Vec::new();
    for wid in [W, other, W, W, other] {
        sids.push(module.create_session(create(wid)).unwrap().0);
    }
    assert_eq!(
        sids,
        vec![
            SessionId(W, 0),
            SessionId(other, 0),
            SessionId(W, 1),
            SessionId(W, 2),
            SessionId(other, 1),
        ]
    );
}

#[test]
fn module_starts_a_session() {
    let mut module = connected(&[W]);
    module.create_session(create(W)).unwrap();
    let (sid, actions) = module.create_session(create(W)).unwrap();
    assert_eq!(sid, SessionId(W, 1));
    assert_eq!(actions.len(), 2);
    match &actions[0] {
        Action::Server(W, worker::Command::Session(1, session::Command::Create { user })) => {
            assert_eq!(user.username, "user");
            assert_eq!(user.password, "pass");
            assert_eq!(user.secret, "secret");
        }
        other => panic!("{other:?}"),
    }
    assert!(matches!(
        actions[1],
        Action::Parent(Event::Session(s, SessionEvent::StateUpdate(SessionState::Starting)))
            if s == sid
    ));
}

#[test]
fn module_needs_a_worker_for_a_session() {
    let mut module = connected(&[W]);
    let r = module.create_session(create(WorkerId(3)));
    assert!(matches!(r, Err(ModuleError::WorkerNotFound(WorkerId(3)))));
}

#[test]
fn module_refuses_unknown_sessions() {
    let mut module = connected(&[W]);
    let sid = SessionId(W, 0);
    let r = module.handle(report(sid, code("x")));
    assert!(matches!(r, Err(ModuleError::SessionNotFound(s)) if s == sid));
}

#[test]
fn module_reports_sessions_that_are_up() {
    let mut module = connected(&[W]);
    let (sid, _) = module.create_session(create(W)).unwrap();
    let actions = module.handle(report(sid, session::Event::StateUpdate(State::Running))).unwrap();
    assert_eq!(actions.len(), 1);
    assert!(matches!(
        actions[0],
        Action::Parent(Event::Session(s, SessionEvent::StateUpdate(SessionState::Running)))
            if s == sid
    ));
}

#[test]
fn module_adds_only_with_a_friend_code() {
    let mut module = connected(&[W]);
    let (sid, _) = module.create_session(create(W)).unwrap();
    let pid = new_party(&mut module);
    let add = Command::Party(pid, PartyCommand::Add(sid));
    assert!(matches!(module.handle(add), Err(ModuleError::NoFriendCode)));
    module.handle(report(sid, code("ABC"))).unwrap();
    let actions = module.handle(Command::Party(pid, PartyCommand::Add(sid))).unwrap();
    assert_eq!(actions.len(), 1);
    match &actions[0] {
        Action::Join(p, s, c) => {
            assert_eq!((*p, *s, c.as_str()), (pid, sid, "ABC"));
        }
        other => panic!("{other:?}"),
    }
}

#[test]
fn module_party_refusals() {
    let mut module = connected(&[W]);
    let (sid, _) = module.create_session(create(W)).unwrap();
    let pid = module.create_party(PartyCreate {});
    assert!(!module.has_party(pid));
    let add = Command::Party(pid, PartyCommand::Add(sid));
    assert!(matches!(module.handle(add), Err(ModuleError::PartyNotFound(p)) if p == pid));
    let start = Command::Party(pid, PartyCommand::Start);
    assert!(matches!(module.handle(start), Err(ModuleError::PartyNotFound(p)) if p == pid));
    module.party_spawned(pid);
    assert!(module.has_party(pid));
    let nobody = SessionId(W, 9);
    let add = Command::Party(pid, PartyCommand::Add(nobody));
    assert!(matches!(module.handle(add), Err(ModuleError::SessionNotFound(s)) if s == nobody));
    let actions = module.handle(Command::Party(pid, PartyCommand::Start)).unwrap();
    assert!(matches!(actions[0], Action::Start(p) if p == pid));
}

#[test]
fn module_numbers_parties() {
    let mut module = FarmModuleActor::new();
    let pids: Vec<u64> = (0..3).map(|_| module.create_party(PartyCreate {}).inner()).collect();
    assert_eq!(pids, vec![0, 1, 2]);
}

#[test]
fn module_round_trip_of_members() {
    let mut module = connected(&[W]);
    let (a, _) = module.create_session(create(W)).unwrap();
    let (b, _) = module.create_session(create(W)).unwrap();
    let pid = new_party(&mut module);
    let ma = MemberId::from_raw(40);
    let mb = MemberId::from_raw(41);
    module.member_added(PartyMemberId(pid, ma), a);
    module.member_added(PartyMemberId(pid, mb), b);
    let action = module.handle_party(pid, PartyEvent::Member(mb, start())).unwrap();
    assert!(matches!(action, Action::Server(W, worker::Command::Session(1, _))));
    let action = module.handle_party(pid, PartyEvent::Member(ma, start())).unwrap();
    assert!(matches!(action, Action::Server(W, worker::Command::Session(0, _))));
    let actions = module.handle(report(b, code("B"))).unwrap();
    assert_eq!(actions.len(), 1);
    match &actions[0] {
        Action::Member(pmid, session::Event::Game(game::Event::InviteCodeUpdate { code })) => {
            assert_eq!(*pmid, PartyMemberId(pid, mb));
            assert_eq!(code, "B");
        }
        other => panic!("{other:?}"),
    }
    let actions = module.handle(report(a, session::Event::StateUpdate(State::Running))).unwrap();
    assert_eq!(actions.len(), 2);
    assert!(matches!(&actions[1], Action::Member(pmid, _) if *pmid == PartyMemberId(pid, ma)));
}

#[test]
fn module_unpaired_members() {
    let mut module = connected(&[W]);
    let pid = new_party(&mut module);
    let mid = MemberId::from_raw(1);
    let r = module.handle_party(pid, PartyEvent::Member(mid, start()));
    assert!(matches!(r, Err(ModuleError::MemberNotFound(m)) if m == PartyMemberId(pid, mid)));
    let nowhere = PartyMemberId(PartyId::from_raw(77), mid);
    let r = module.send_member(nowhere, code("x"));
    assert!(matches!(r, Err(ModuleError::PartyNotFound(p)) if p == PartyId::from_raw(77)));
    let r = module.send_member(PartyMemberId(pid, mid), code("x"));
    assert!(matches!(r, Ok(Action::Member(m, _)) if m == PartyMemberId(pid, mid)));
}

#[test]
fn module_pairs_anew() {
    let mut module = connected(&[W]);
    let (a, _) = module.create_session(create(W)).unwrap();
    let (b, _) = module.create_session(create(W)).unwrap();
    let pid = new_party(&mut module);
    let m = PartyMemberId(pid, MemberId::from_raw(1));
    let other = PartyMemberId(pid, MemberId::from_raw(2));
    module.member_added(m, a);
    // The session gets another member: the first one has none any more.
    module.member_added(other, a);
    let r = module.handle_party(pid, PartyEvent::Member(m.1, start()));
    assert!(matches!(r, Err(ModuleError::MemberNotFound(x)) if x == m));
    // The member gets another session: the first one has none any more.
    module.member_added(other, b);
    assert!(module.handle(report(a, code("A"))).unwrap().is_empty());
    let actions = module.handle(report(b, code("B"))).unwrap();
    assert!(matches!(&actions[0], Action::Member(x, _) if *x == other));
}

#[test]
fn module_addresses_sessions() {
    let module = FarmModuleActor::new();
    let action = module.send_session(SessionId(WorkerId(4), 6), start());
    assert!(matches!(action, Action::Server(WorkerId(4), worker::Command::Session(6, _))));
}

#[test]
fn module_sessions_of_different_workers_are_apart() {
    let far = WorkerId(u32::MAX);
    let mut module = connected(&[W, far]);
    let (a, _) = module.create_session(create(W)).unwrap();
    let (b, _) = module.create_session(create(far)).unwrap();
    let pid = new_party(&mut module);
    module.handle(report(a, code("A"))).unwrap();
    let add = Command::Party(pid, PartyCommand::Add(b));
    assert!(matches!(module.handle(add), Err(ModuleError::NoFriendCode)));
    assert!(module.has_session_room(W));
    assert!(module.has_session_room(WorkerId(1234)));
}

#[test]
fn module_reconnect_starts_numbers_over() {
    let mut module = connected(&[W]);
    let (a, _) = module.create_session(create(W)).unwrap();
    let pid = new_party(&mut module);
    module.handle(report(a, code("A"))).unwrap();
    module.handle(Command::Connected(W)).unwrap();
    // The new session takes the place of the old one.
    let (again, _) = module.create_session(create(W)).unwrap();
    assert_eq!(again, a);
    let add = Command::Party(pid, PartyCommand::Add(a));
    assert!(matches!(module.handle(add), Err(ModuleError::NoFriendCode)));
}
