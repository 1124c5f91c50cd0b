use farm_core::config::{Delay, FarmConfig};
use farm_core::decimal::{to_decimal, to_hex};
use farm_core::error::Error;
use farm_core::farm::actor as module;
use farm_core::hub::handle_server;
use farm_core::ids::{GroupId, IdGen, PartyId, SessionId, SessionTag};
use farm_core::path_engine::{BotId, Engine};
use farm_core::protocol::game::Team;
use farm_core::protocol::session;
use farm_core::protocol::worker;
use farm_core::protocol::ClientType;
use farm_core::server;
use farm_core::server::WorkerId;

#[test]
fn id_carries_its_number() {
    let id = SessionId::from_raw(17);
    assert_eq!(id.inner(), 17);
    assert_eq!(SessionId::from_raw(id.inner()), id);
    assert_ne!(SessionId::from_raw(18), id);
    let copy = id;
    assert_eq!(copy, id.clone());
}

#[test]
fn ids_are_numbered_from_zero() {
    let mut ids: IdGen<SessionTag> = IdGen::default();
    let handed: Vec<u64> = (0..5).map(|_| ids.next().inner()).collect();
    assert_eq!(handed, vec![0, 1, 2, 3, 4]);
}

#[test]
fn ids_of_one_counter_are_distinct() {
    let mut ids: IdGen<SessionTag> = IdGen::default();
    let handed: Vec<SessionId> = (0..100).map(|_| ids.next()).collect();
    for i in 0..handed.len() {
        for j in 0..i {
            assert_ne!(handed[i], handed[j]);
        }
    }
}

#[test]
fn id_labels() {
    assert_eq!(SessionId::from_raw(0).label(), "Id(0)");
    assert_eq!(PartyId::from_raw(7).label(), "Id(7)");
    assert_eq!(GroupId::from_raw(1203).label(), "Id(1203)");
    assert_eq!(SessionId::from_raw(u64::MAX).label(), "Id(18446744073709551615)");
}

#[test]
fn ids_are_written_without_their_mark() {
    assert_eq!(format!("{:?}", SessionId::from_raw(0)), "Id(0)");
    assert_eq!(format!("{:?}", PartyId::from_raw(7)), "Id(7)");
    assert_eq!(format!("{:?}", Some(GroupId::from_raw(1203))), "Some(Id(1203))");
}

#[test]
fn decimal_agrees_with_std() {
    for n in [0u64, 1, 9, 10, 11, 99, 100, 101, 909, 1_000_000, u64::MAX - 1, u64::MAX] {
        assert_eq!(to_decimal(n), n.to_string());
    }
}

#[test]
fn config_defaults() {
    let config = FarmConfig::default();
    assert_eq!(config.party_size, 4);
    assert_eq!(config.map, "de_vertigo");
    assert_eq!(config.accept_match_delay, Delay { secs: 3, nanos: 0 });
    assert_eq!(Delay::from_secs(12), Delay { secs: 12, nanos: 0 });
}

#[test]
fn error_from_text() {
    let e = Error::from("mailbox closed".to_string());
    assert!(matches!(e, Error::Send(text) if text == "mailbox closed"));
}

#[test]
fn engine_numbers_its_bots() {
    let mut engine = Engine::new();
    assert_eq!(engine.create("a", Team::Terrorists), BotId(0));
    assert_eq!(engine.create("a", Team::Terrorists), BotId(1));
    assert_eq!(engine.create("b", Team::CounterTerrorists), BotId(2));
}

#[test]
fn hub_reports_new_workers() {
    let cmd = handle_server(server::Event::New(WorkerId(9), ClientType::Worker));
    assert!(matches!(cmd, Some(module::Command::Connected(WorkerId(9)))));
}

#[test]
fn hub_ignores_clients() {
    assert!(handle_server(server::Event::New(WorkerId(9), ClientType::Client)).is_none());
}

#[test]
fn hub_passes_worker_events_on() {
    let event = worker::Event::Session(3, session::Event::StateUpdate(session::State::Starting));
    let cmd = handle_server(server::Event::Worker(WorkerId(2), event));
    assert!(matches!(
        cmd,
        Some(module::Command::Worker(
            WorkerId(2),
            worker::Event::Session(3, session::Event::StateUpdate(session::State::Starting)),
        ))
    ));
}

#[test]
fn hex_agrees_with_std() {
    for n in [0u64, 9, 10, 15, 16, 31, 255, 4095, 65535, 65536, 0xDEAD_BEEF, u64::MAX] {
        assert_eq!(to_hex(n, 4), format!("{n:04X}"));
        assert_eq!(to_hex(n, 0), format!("{n:X}"));
        assert_eq!(to_hex(n, 1), format!("{n:X}"));
    }
}
