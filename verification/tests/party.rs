use farm_core::config::Delay;
use farm_core::error::Error;
use farm_core::farm::layout::PartyLayout;
use farm_core::farm::party::actor::PartyActor;
use farm_core::farm::party::member::{
    Command, CommandStep, Event, InMenuTask, MemberCreate, MemberStep, SyncPoint, SyncStep,
};
use farm_core::farm::party::Party;
use farm_core::ids::{PartyId, SessionId};
use farm_core::path_engine;
use farm_core::path_engine::{BotEvent, BotId, CBotEvent, Engine};
use farm_core::protocol::game;
use farm_core::protocol::game::{
    GameMap, GameplayTask, MatchState, MenuTask, Phase, PlayerState, SignOnState, Team,
};
use farm_core::protocol::session;

type Actor = PartyActor<Engine>;

const DELAY: Delay = Delay { secs: 3, nanos: 0 };

fn sid(raw: u64) -> SessionId {
    SessionId::from_raw(raw)
}

/// A party without members that is meant for a number of them.
fn empty(party_size: usize) -> Actor {
    let layout = PartyLayout { map: "de_vertigo".to_string(), party_size };
    PartyActor::new(PartyId::from_raw(5), layout, DELAY)
}

fn join(actor: &mut Actor, raw: u64) {
    actor.create_member(MemberCreate { sid: sid(raw), friend_code: format!("FC-{raw}") });
}

fn party(raws: &[u64]) -> Actor {
    let mut actor = empty(raws.len());
    for raw in raws {
        join(&mut actor, *raw);
    }
    actor
}

fn ids(actor: &Actor) -> Vec<u64> {
    actor.member_ids().iter().map(|s| s.inner()).collect()
}

fn sync(actor: &Actor, raw: u64) -> SyncPoint {
    actor.member(sid(raw)).unwrap().sync
}

fn epoch(actor: &Actor, raw: u64) -> u32 {
    actor.member(sid(raw)).unwrap().sync_epoch
}

fn invited() -> session::Event {
    session::Event::Game(game::Event::InviteReceived)
}

fn found(match_id: u64) -> session::Event {
    session::Event::Game(game::Event::MatchReceived { match_id })
}

fn menu_done(id: usize) -> session::Event {
    session::Event::Game(game::Event::MenuTaskCompleted { id })
}

fn bot_done(id: usize) -> session::Event {
    session::Event::Game(game::Event::BotTaskCompleted { id })
}

fn in_game(team: Team, name: &str, map: &str, number: u32, freeze: bool) -> session::Event {
    session::Event::Game(game::Event::StateUpdate {
        sign_on_state: SignOnState::Full,
        player: Some(PlayerState { team, name: name.to_string() }),
        map: GameMap::Base { name: map.to_string() },
        match_state: Some(MatchState { phase: Phase::Round { number }, freeze }),
    })
}

fn ready(name: &str, round: u32) -> session::Event {
    in_game(Team::Terrorists, name, "de_vertigo", round, false)
}

/// The session and the menu steps it is told to do.
fn menu_of(event: &Event) -> (u64, Vec<String>) {
    match event {
        Event::Session(
            s,
            session::Command::Game(game::Command::BotMenuSetTasks { tasks, offset: 0 }),
        ) => {
            let names = tasks
                .iter()
                .map(|t| match t {
                    MenuTask::Clear => "clear".to_string(),
                    MenuTask::SendInvite { code } => format!("invite {code}"),
                    MenuTask::AcceptInvite => "accept invite".to_string(),
                    MenuTask::AcceptMatch => "accept match".to_string(),
                })
                .collect();
            (s.inner(), names)
        }
        other => panic!("{other:?}"),
    }
}

fn is_menu_start(event: &Event, raw: u64) -> bool {
    matches!(
        event,
        Event::Session(s, session::Command::Game(game::Command::BotMenuStart)) if s.inner() == raw
    )
}

/// Gets everybody to the game: all have found the match and accepted it.
fn loading(raws: &[u64]) -> Actor {
    let mut actor = party(raws);
    actor.start_party().unwrap();
    actor.invites_sent(2);
    actor.send_accept_match();
    actor.accepts_sent(2 * raws.len());
    actor
}

/// Gets everybody into a round, with one bot each.
fn playing(raws: &[u64]) -> Actor {
    let mut actor = loading(raws);
    let mut plans = Vec::new();
    for raw in raws {
        match actor.handle_member(sid(*raw), ready(&format!("p{raw}"), 0)).unwrap() {
            MemberStep::Sync(SyncStep::Play(p)) => plans = p,
            MemberStep::Sync(SyncStep::Idle) => {}
            other => panic!("{other:?}"),
        }
    }
    assert_eq!(plans.len(), raws.len());
    let mut engine = Engine::new();
    let created = plans.iter().map(|p| engine.create(&p.name, p.team)).collect();
    let event = actor.game_started(created, Some(engine));
    assert!(matches!(event, Some(Event::RoundComplete)));
    actor
}

#[test]
fn party_starts_empty() {
    let actor = empty(4);
    assert_eq!(actor.pid(), PartyId::from_raw(5));
    assert_eq!(actor.round(), 0);
    assert!(actor.engine().is_none());
    assert!(actor.member_ids().is_empty());
    assert_eq!(actor.current_epoch(), 0);
    assert!(actor.all_at(0, SyncPoint::Ready));
    assert!(!actor.can_start());
    assert!(actor.can_advance());
}

#[test]
fn party_members_join_in_order() {
    let actor = party(&[30, 10, 20]);
    assert_eq!(ids(&actor), vec![30, 10, 20]);
    let m = actor.member(sid(10)).unwrap();
    assert_eq!(m.friend_code, "FC-10");
    assert_eq!(m.sync, SyncPoint::Waiting);
    assert_eq!(m.sync_epoch, 0);
    assert_eq!(m.menu_task, None);
    assert_eq!(m.team, None);
    assert_eq!(m.name, None);
    assert!(actor.member(sid(99)).is_none());
}

#[test]
fn party_joining_again_starts_over_in_place() {
    let mut actor = party(&[1, 2, 3]);
    actor.clear_sync();
    assert_eq!(epoch(&actor, 2), 1);
    actor.create_member(MemberCreate { sid: sid(2), friend_code: "new".to_string() });
    assert_eq!(ids(&actor), vec![1, 2, 3]);
    assert_eq!(epoch(&actor, 2), 0);
    assert_eq!(actor.member(sid(2)).unwrap().friend_code, "new");
    assert_eq!(actor.current_epoch(), 1);
}

#[test]
fn party_dead_member_leaves_the_others_in_order() {
    let mut actor = party(&[1, 2, 3, 4]);
    let step = actor.handle(Command::MemberDead(sid(2))).unwrap();
    assert!(matches!(step, CommandStep::Idle));
    assert_eq!(ids(&actor), vec![1, 3, 4]);
    let r = actor.handle_member(sid(2), invited());
    assert!(matches!(r, Err(Error::SessionNotFound(s)) if s == sid(2)));
    actor.member_dead(sid(77));
    assert_eq!(ids(&actor), vec![1, 3, 4]);
    join(&mut actor, 2);
    assert_eq!(ids(&actor), vec![1, 3, 4, 2]);
}

#[test]
fn party_start_tells_the_first_to_invite() {
    let mut actor = party(&[7, 8, 9]);
    assert!(actor.can_start());
    let events = match actor.handle(Command::Start).unwrap() {
        CommandStep::Invite(events) => events,
        other => panic!("{other:?}"),
    };
    assert_eq!(events.len(), 2);
    let (to, tasks) = menu_of(&events[0]);
    assert_eq!(to, 7);
    assert_eq!(tasks, vec!["clear", "invite FC-8", "clear", "invite FC-9", "clear"]);
    assert!(is_menu_start(&events[1], 7));
    actor.invites_sent(events.len());
    assert_eq!(
        actor.member(sid(7)).unwrap().menu_task,
        Some(InMenuTask { total: 5, next_sync: SyncPoint::Ready })
    );
    assert_eq!(actor.member(sid(8)).unwrap().menu_task, None);
}

#[test]
fn party_starts_only_with_its_number_of_players() {
    for members in 0..6 {
        let mut actor = empty(4);
        for raw in 0..members {
            join(&mut actor, raw);
        }
        let complete = members == 4;
        assert_eq!(actor.is_complete(), complete);
        assert_eq!(actor.can_start(), complete);
        match actor.handle(Command::Start) {
            Ok(CommandStep::Invite(events)) => {
                assert!(complete);
                assert_eq!(events.len(), 2);
            }
            Err(Error::PartySize { pid, members: found, party_size }) => {
                assert!(!complete);
                assert_eq!(pid, PartyId::from_raw(5));
                assert_eq!(found as u64, members);
                assert_eq!(party_size, 4);
            }
            other => panic!("{other:?}"),
        }
    }
}

#[test]
fn party_refused_start_changes_nothing() {
    let mut actor = empty(2);
    join(&mut actor, 1);
    assert!(actor.start_party().is_err());
    join(&mut actor, 2);
    // Had the refused start formed a group, there would be four events.
    assert_eq!(actor.start_party().unwrap().len(), 2);
}

#[test]
fn party_messages_carry_its_id() {
    let mut actor = playing(&[1, 2]);
    let (pid, event) = actor.message(Event::RoundComplete);
    assert_eq!(pid, PartyId::from_raw(5));
    assert!(matches!(event, Event::RoundComplete));
    let done = actor.handle_engine(path_engine::Event::Stop).unwrap();
    assert_eq!(actor.message(done).0, PartyId::from_raw(5));
}

#[test]
fn party_limits_are_far_away() {
    let actor = party(&[1, 2]);
    assert!(actor.can_report(sid(1), &found(3)));
    assert!(actor.can_report(sid(1), &ready("a", 0)));
    assert!(actor.can_report(sid(9), &menu_done(usize::MAX)));
    assert!(actor.can_report(sid(1), &menu_done(usize::MAX)));
    assert!(actor.can_sync());
    assert!(actor.can_restart());
    let mut started = party(&[1, 2]);
    started.start_party().unwrap();
    started.invites_sent(2);
    assert!(!started.can_report(sid(1), &menu_done(usize::MAX)));
    assert!(started.can_report(sid(1), &menu_done(usize::MAX - 1)));
}

#[test]
fn party_start_alone() {
    let mut actor = party(&[7]);
    let events = actor.start_party().unwrap();
    assert_eq!(menu_of(&events[0]), (7, vec!["clear".to_string()]));
    actor.invites_sent(2);
    let step = actor.handle_member(sid(7), menu_done(0)).unwrap();
    assert!(matches!(step, MemberStep::SendThenSync(_)));
    match actor.sync_update() {
        SyncStep::Join(events) => assert!(events.is_empty()),
        other => panic!("{other:?}"),
    }
    actor.joins_sent(0);
    assert_eq!(sync(&actor, 7), SyncPoint::Waiting);
    assert_eq!(epoch(&actor, 7), 1);
}

#[test]
fn party_start_twice_makes_two_groups() {
    let mut actor = party(&[1, 2]);
    actor.start_party().unwrap();
    actor.member_dead(sid(1));
    join(&mut actor, 1);
    let events = actor.start_party().unwrap();
    assert_eq!(events.len(), 4);
    assert_eq!(menu_of(&events[0]).0, 1);
    assert_eq!(menu_of(&events[2]).0, 2);
    // Only the first group's turn came.
    actor.invites_sent(1);
    assert_eq!(actor.member(sid(1)).unwrap().menu_task.unwrap().total, 3);
    assert_eq!(actor.member(sid(2)).unwrap().menu_task, None);
    actor.invites_sent(2);
    assert_eq!(actor.member(sid(2)).unwrap().menu_task.unwrap().total, 3);
}

#[test]
fn party_cannot_start_once_a_slave_is_gone() {
    let mut actor = party(&[1, 2, 3]);
    actor.start_party().unwrap();
    actor.member_dead(sid(2));
    join(&mut actor, 4);
    assert!(actor.is_complete());
    assert!(!actor.can_group());
    assert!(!actor.can_start());
    actor.member_dead(sid(4));
    join(&mut actor, 2);
    assert!(actor.can_start());
    // A master may leave.
    actor.member_dead(sid(1));
    join(&mut actor, 5);
    assert!(actor.can_start());
    let events = actor.start_party().unwrap();
    assert_eq!(menu_of(&events[0]).0, 1);
    actor.invites_sent(4);
    assert!(actor.member(sid(1)).is_none());
    assert_eq!(menu_of(&events[2]).0, 3);
}

#[test]
fn party_master_is_ready_with_its_last_step_only() {
    let mut actor = party(&[1, 2, 3]);
    actor.start_party().unwrap();
    actor.invites_sent(2);
    for id in [0, 1, 2, 3, 5, 100] {
        let step = actor.handle_member(sid(1), menu_done(id)).unwrap();
        assert!(matches!(step, MemberStep::Idle));
        assert_eq!(sync(&actor, 1), SyncPoint::Waiting);
    }
    match actor.handle_member(sid(1), menu_done(4)).unwrap() {
        MemberStep::SendThenSync(Event::Session(
            s,
            session::Command::Game(game::Command::BotMenuStop),
        )) => assert_eq!(s, sid(1)),
        other => panic!("{other:?}"),
    }
    assert_eq!(sync(&actor, 1), SyncPoint::Ready);
    assert_eq!(actor.member(sid(1)).unwrap().menu_task, None);
    assert!(matches!(actor.sync_update(), SyncStep::Idle));
    // The step is done; doing it again means nothing.
    let step = actor.handle_member(sid(1), menu_done(4)).unwrap();
    assert!(matches!(step, MemberStep::Idle));
}

#[test]
fn party_last_to_be_ready_sets_off_the_joining() {
    let mut actor = party(&[1, 2, 3]);
    actor.start_party().unwrap();
    actor.invites_sent(2);
    actor.handle_member(sid(1), menu_done(4)).unwrap();
    let step = actor.handle_member(sid(2), invited()).unwrap();
    assert!(matches!(step, MemberStep::Sync(SyncStep::Idle)));
    let events = match actor.handle_member(sid(3), invited()).unwrap() {
        MemberStep::Sync(SyncStep::Join(events)) => events,
        other => panic!("{other:?}"),
    };
    assert_eq!(events.len(), 4);
    let steps = vec!["clear".to_string(), "accept invite".to_string()];
    assert_eq!(menu_of(&events[0]), (2, steps.clone()));
    assert!(is_menu_start(&events[1], 2));
    assert_eq!(menu_of(&events[2]), (3, steps));
    assert!(is_menu_start(&events[3], 3));
    actor.joins_sent(4);
    for raw in [1, 2, 3] {
        assert_eq!(sync(&actor, raw), SyncPoint::Waiting);
        assert_eq!(epoch(&actor, raw), 1);
    }
    let task = InMenuTask { total: 2, next_sync: SyncPoint::Lobby };
    assert_eq!(actor.member(sid(1)).unwrap().menu_task, None);
    assert_eq!(actor.member(sid(2)).unwrap().menu_task, Some(task));
    assert_eq!(actor.member(sid(3)).unwrap().menu_task, Some(task));
    // The slaves get to the lobby with their second step.
    assert!(matches!(actor.handle_member(sid(2), menu_done(0)).unwrap(), MemberStep::Idle));
    actor.handle_member(sid(2), menu_done(1)).unwrap();
    assert_eq!(sync(&actor, 2), SyncPoint::Lobby);
}

#[test]
fn party_joins_half_sent() {
    let mut actor = party(&[1, 2, 3]);
    actor.start_party().unwrap();
    actor.invites_sent(2);
    // The first slave's second event failed.
    actor.joins_sent(1);
    assert_eq!(sync(&actor, 1), SyncPoint::Lobby);
    assert_eq!(epoch(&actor, 1), 0);
    assert!(actor.member(sid(2)).unwrap().menu_task.is_some());
    assert!(actor.member(sid(3)).unwrap().menu_task.is_none());
    // The second slave's first event failed.
    actor.joins_sent(2);
    assert!(actor.member(sid(3)).unwrap().menu_task.is_some());
    assert_eq!(epoch(&actor, 3), 0);
}

#[test]
fn party_accepts_after_the_delay() {
    let mut actor = party(&[1, 2]);
    actor.start_party().unwrap();
    actor.invites_sent(2);
    let step = actor.handle_member(sid(1), found(999)).unwrap();
    assert!(matches!(step, MemberStep::Sync(SyncStep::Idle)));
    let step = actor.handle_member(sid(2), found(999)).unwrap();
    assert!(matches!(step, MemberStep::Sync(SyncStep::AcceptAfter(DELAY))));
    assert_eq!(sync(&actor, 1), SyncPoint::RecvMatch);
    let events = match actor.handle(Command::AcceptMatchNow).unwrap() {
        CommandStep::Accept(events) => events,
        other => panic!("{other:?}"),
    };
    assert_eq!(events.len(), 4);
    for (i, raw) in [1u64, 2].iter().enumerate() {
        assert_eq!(menu_of(&events[2 * i]), (*raw, vec!["accept match".to_string()]));
        assert!(is_menu_start(&events[2 * i + 1], *raw));
    }
    actor.accepts_sent(events.len());
    for raw in [1, 2] {
        assert_eq!(epoch(&actor, raw), 1);
        assert_eq!(sync(&actor, raw), SyncPoint::Waiting);
        actor.handle_member(sid(raw), menu_done(0)).unwrap();
        assert_eq!(sync(&actor, raw), SyncPoint::GameLoading);
    }
}

#[test]
fn party_accepts_half_sent() {
    let mut actor = party(&[1, 2]);
    actor.send_accept_match();
    actor.accepts_sent(3);
    assert_eq!(epoch(&actor, 1), 0);
    let task = InMenuTask { total: 1, next_sync: SyncPoint::GameLoading };
    assert_eq!(actor.member(sid(1)).unwrap().menu_task, Some(task));
    assert_eq!(actor.member(sid(2)).unwrap().menu_task, Some(task));
}

#[test]
fn party_delay_is_configured() {
    let layout = PartyLayout { map: "de_vertigo".to_string(), party_size: 1 };
    let delay = Delay { secs: 0, nanos: 250_000_000 };
    let mut actor: Actor = PartyActor::new(PartyId::from_raw(0), layout, delay);
    join(&mut actor, 1);
    match actor.handle_member(sid(1), found(1)).unwrap() {
        MemberStep::Sync(SyncStep::AcceptAfter(d)) => assert_eq!(d, delay),
        other => panic!("{other:?}"),
    }
}

#[test]
fn party_groups_have_to_agree_on_a_match() {
    let mut actor = party(&[1, 2]);
    actor.start_party().unwrap();
    actor.member_dead(sid(1));
    join(&mut actor, 1);
    // Two groups: 1 is the master of the first, 2 of the second.
    actor.start_party().unwrap();
    let step = actor.handle_member(sid(1), found(10)).unwrap();
    assert!(matches!(step, MemberStep::Sync(SyncStep::Idle)));
    match actor.handle_member(sid(2), found(11)).unwrap() {
        MemberStep::Sync(SyncStep::Mismatch(ids)) => assert_eq!(ids, vec![10, 11]),
        other => panic!("{other:?}"),
    }
    assert_eq!(epoch(&actor, 1), 1);
    assert_eq!(sync(&actor, 1), SyncPoint::Waiting);
    assert_eq!(sync(&actor, 2), SyncPoint::Waiting);
    actor.handle_member(sid(1), found(12)).unwrap();
    let step = actor.handle_member(sid(2), found(12)).unwrap();
    assert!(matches!(step, MemberStep::Sync(SyncStep::AcceptAfter(DELAY))));
}

#[test]
fn party_match_needs_everybody() {
    let mut actor = party(&[1, 2, 3]);
    for raw in [3, 1] {
        let step = actor.handle_member(sid(raw), found(5)).unwrap();
        assert!(matches!(step, MemberStep::Sync(SyncStep::Idle)));
    }
    assert!(!actor.all_at(0, SyncPoint::RecvMatch));
    actor.member_dead(sid(2));
    assert!(actor.all_at(0, SyncPoint::RecvMatch));
    assert!(!actor.all_at(1, SyncPoint::RecvMatch));
}

#[test]
fn party_late_joiner_keeps_it_waiting() {
    let mut actor = party(&[1]);
    actor.clear_sync();
    join(&mut actor, 2);
    for raw in [1, 2] {
        let step = actor.handle_member(sid(raw), found(5)).unwrap();
        assert!(matches!(step, MemberStep::Sync(SyncStep::Idle)));
    }
    assert_eq!(actor.current_epoch(), 1);
    actor.member_dead(sid(1));
    let step = actor.handle_member(sid(2), found(5)).unwrap();
    assert!(matches!(step, MemberStep::Sync(SyncStep::AcceptAfter(DELAY))));
}

#[test]
fn party_plays_when_everybody_is_in_the_game() {
    let mut actor = loading(&[4, 2, 9]);
    let step = actor
        .handle_member(sid(4), in_game(Team::CounterTerrorists, "ann", "de_vertigo", 0, false))
        .unwrap();
    assert!(matches!(step, MemberStep::Sync(SyncStep::Idle)));
    actor.handle_member(sid(9), ready("cleo", 0)).unwrap();
    let plans = match actor.handle_member(sid(2), ready("bob", 0)).unwrap() {
        MemberStep::Sync(SyncStep::Play(plans)) => plans,
        other => panic!("{other:?}"),
    };
    let planned: Vec<(u64, &str, Team)> =
        plans.iter().map(|p| (p.sid.inner(), p.name.as_str(), p.team)).collect();
    assert_eq!(
        planned,
        vec![
            (4, "ann", Team::CounterTerrorists),
            (2, "bob", Team::Terrorists),
            (9, "cleo", Team::Terrorists),
        ]
    );
    assert_eq!(actor.round(), 1);
    // The same report again is for a round that is over.
    let step = actor.handle_member(sid(2), ready("bob", 0)).unwrap();
    assert!(matches!(step, MemberStep::Idle));
}

#[test]
fn party_ignores_other_states_of_the_game() {
    let mut actor = loading(&[1]);
    let full = SignOnState::Full;
    let player = || Some(PlayerState { team: Team::Terrorists, name: "x".to_string() });
    let map = || GameMap::Base { name: "de_vertigo".to_string() };
    let round = Some(MatchState { phase: Phase::Round { number: 0 }, freeze: false });
    let warmup = Some(MatchState { phase: Phase::Warmup, freeze: false });
    let others = vec![
        in_game(Team::Terrorists, "x", "de_mirage", 0, false),
        in_game(Team::Spectators, "x", "de_vertigo", 0, false),
        in_game(Team::Terrorists, "x", "de_vertigo", 1, false),
        in_game(Team::Terrorists, "x", "de_vertigo", 0, true),
        session::Event::Game(game::Event::StateUpdate {
            sign_on_state: SignOnState::Absent,
            player: player(),
            map: map(),
            match_state: round,
        }),
        session::Event::Game(game::Event::StateUpdate {
            sign_on_state: full,
            player: None,
            map: map(),
            match_state: round,
        }),
        session::Event::Game(game::Event::StateUpdate {
            sign_on_state: full,
            player: player(),
            map: GameMap::Absent,
            match_state: round,
        }),
        session::Event::Game(game::Event::StateUpdate {
            sign_on_state: full,
            player: player(),
            map: map(),
            match_state: warmup,
        }),
        session::Event::Game(game::Event::StateUpdate {
            sign_on_state: full,
            player: player(),
            map: map(),
            match_state: None,
        }),
        session::Event::StateUpdate(session::State::Running),
        session::Event::Game(game::Event::InviteCodeUpdate { code: "x".to_string() }),
    ];
    for event in others {
        let step = actor.handle_member(sid(1), event).unwrap();
        assert!(matches!(step, MemberStep::Idle));
        assert_eq!(sync(&actor, 1), SyncPoint::Waiting);
        assert_eq!(actor.member(sid(1)).unwrap().name, None);
    }
    let step = actor.handle_member(sid(1), ready("x", 0)).unwrap();
    assert!(matches!(step, MemberStep::Sync(SyncStep::Play(_))));
}

#[test]
fn party_map_comes_from_the_layout() {
    let layout = PartyLayout { map: "de_mirage".to_string(), party_size: 1 };
    let mut actor: Actor = PartyActor::new(PartyId::from_raw(0), layout, DELAY);
    join(&mut actor, 1);
    let step = actor.handle_member(sid(1), ready("x", 0)).unwrap();
    assert!(matches!(step, MemberStep::Idle));
    let step = actor
        .handle_member(sid(1), in_game(Team::Terrorists, "x", "de_mirage", 0, false))
        .unwrap();
    assert!(matches!(step, MemberStep::Sync(SyncStep::Play(_))));
}

#[test]
fn party_bots_lead_to_their_players_and_back() {
    let mut actor = playing(&[11, 22, 33]);
    assert!(actor.engine().is_some());
    for raw in [11, 22, 33] {
        assert_eq!(sync(&actor, raw), SyncPoint::Waiting);
        assert_eq!(epoch(&actor, raw), 2);
    }
    for (bot, raw) in [(0u32, 11u64), (1, 22), (2, 33)] {
        match actor.handle_cbot(BotId(bot), CBotEvent::Start) {
            Some(Event::Session(s, session::Command::Game(game::Command::BotGameplayStart))) => {
                assert_eq!(s, sid(raw));
            }
            other => panic!("{other:?}"),
        }
        match actor.handle_member(sid(raw), bot_done(6)).unwrap() {
            MemberStep::TaskCompleted { bot: b, id } => assert_eq!((b, id), (BotId(bot), 6)),
            other => panic!("{other:?}"),
        }
    }
    assert!(actor.handle_cbot(BotId(3), CBotEvent::Start).is_none());
}

#[test]
fn party_passes_the_orders_for_bots_on() {
    let mut actor = playing(&[1]);
    let order = CBotEvent::SetTasks { tasks: vec![GameplayTask { id: 8 }], offset: 2 };
    match actor.handle_engine(path_engine::Event::CBot(BotId(0), order)) {
        Some(Event::Session(
            s,
            session::Command::Game(game::Command::BotGameplaySetTasks { tasks, offset: 2 }),
        )) => {
            assert_eq!(s, sid(1));
            assert_eq!(tasks, vec![GameplayTask { id: 8 }]);
        }
        other => panic!("{other:?}"),
    }
    let stop = actor.handle_engine(path_engine::Event::CBot(BotId(0), CBotEvent::Stop));
    assert!(matches!(
        stop,
        Some(Event::Session(_, session::Command::Game(game::Command::BotGameplayStop)))
    ));
    let signal = actor.handle_engine(path_engine::Event::CBot(BotId(0), CBotEvent::Signal));
    assert!(matches!(
        signal,
        Some(Event::Session(_, session::Command::Game(game::Command::BotGameplaySignal)))
    ));
    let progress = path_engine::Event::Bot(BotId(0), BotEvent::Progress(0.5f32.to_bits()));
    assert!(actor.handle_engine(progress).is_none());
}

#[test]
fn party_engine_stop_ends_the_party() {
    let mut actor = playing(&[1, 2]);
    let event = actor.handle_engine(path_engine::Event::Stop);
    assert!(matches!(event, Some(Event::Done)));
    assert!(actor.engine().is_none());
    assert!(actor.handle_cbot(BotId(0), CBotEvent::Start).is_none());
    let r = actor.handle_member(sid(1), bot_done(0));
    assert!(matches!(r, Err(Error::SessionNotFound(s)) if s == sid(1)));
}

#[test]
fn party_engine_that_does_not_come_up() {
    let mut actor = loading(&[1, 2]);
    actor.handle_member(sid(1), ready("a", 0)).unwrap();
    actor.handle_member(sid(2), ready("b", 0)).unwrap();
    // The second bot could not be created.
    assert!(actor.game_started(vec![BotId(7)], None).is_none());
    assert_eq!(actor.round(), 1);
    assert!(actor.engine().is_none());
    assert_eq!(sync(&actor, 1), SyncPoint::GameReady);
    assert!(matches!(
        actor.handle_cbot(BotId(7), CBotEvent::Start),
        Some(Event::Session(s, _)) if s == sid(1)
    ));
    let r = actor.handle_member(sid(1), bot_done(0));
    assert!(matches!(r, Err(Error::NoEngine)));
    let r = actor.handle_member(sid(2), bot_done(0));
    assert!(matches!(r, Err(Error::SessionNotFound(s)) if s == sid(2)));
}

#[test]
fn party_next_round_pairs_bots_anew() {
    let mut actor = playing(&[1, 2]);
    actor.handle_member(sid(1), ready("a", 1)).unwrap();
    let step = actor.handle_member(sid(2), ready("b", 1)).unwrap();
    assert!(matches!(step, MemberStep::Sync(SyncStep::Play(_))));
    assert_eq!(actor.round(), 2);
    // The new engine numbers its bots from one on.
    let event = actor.game_started(vec![BotId(1), BotId(2)], Some(Engine::new()));
    assert!(matches!(event, Some(Event::RoundComplete)));
    assert!(actor.handle_cbot(BotId(0), CBotEvent::Start).is_none());
    assert!(matches!(
        actor.handle_cbot(BotId(1), CBotEvent::Start),
        Some(Event::Session(s, _)) if s == sid(1)
    ));
    assert!(matches!(
        actor.handle_member(sid(2), bot_done(0)),
        Ok(MemberStep::TaskCompleted { bot: BotId(2), id: 0 })
    ));
}

#[test]
fn party_plans_no_bot_for_who_does_not_play() {
    let mut actor = loading(&[1, 2]);
    actor.handle_member(sid(1), ready("a", 0)).unwrap();
    // Whoever has not reported a name and a team gets no bot.
    let plans = actor.on_all_game_ready();
    assert_eq!(plans.len(), 1);
    assert_eq!(plans[0].sid, sid(1));
}

#[test]
fn party_restart_is_for_everybody() {
    let mut actor = party(&[1, 2]);
    actor.handle_member(sid(1), invited()).unwrap();
    actor.clear_sync();
    for raw in [1, 2] {
        assert_eq!(epoch(&actor, raw), 1);
        assert_eq!(sync(&actor, raw), SyncPoint::Waiting);
    }
    assert!(matches!(actor.sync_update(), SyncStep::Idle));
}

#[test]
fn party_handle_reports() {
    let mut actor = party(&[1]);
    let step = actor.handle(Command::Member(sid(1), found(3))).unwrap();
    assert!(matches!(
        step,
        CommandStep::Member(MemberStep::Sync(SyncStep::AcceptAfter(DELAY)))
    ));
    let r = actor.handle(Command::Member(sid(2), found(3)));
    assert!(matches!(r, Err(Error::SessionNotFound(s)) if s == sid(2)));
}

#[test]
fn party_messages() {
    let layout = PartyLayout { map: "m".to_string(), party_size: 2 };
    let p = Party::new(PartyId::from_raw(3), layout);
    assert_eq!(p.pid, PartyId::from_raw(3));
    let create = p.create(sid(9), "code");
    assert_eq!(create.sid, sid(9));
    assert_eq!(create.friend_code, "code");
    assert!(matches!(p.start(), Command::Start));
    assert!(matches!(p.member_dead(sid(9)), Command::MemberDead(s) if s == sid(9)));
    assert!(matches!(
        p.send_member(sid(9), invited()),
        Command::Member(s, session::Event::Game(game::Event::InviteReceived)) if s == sid(9)
    ));
}
