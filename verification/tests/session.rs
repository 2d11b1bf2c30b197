use kiro::history::HistorySample;
use kiro::history::HistoryStore;
use kiro::session::DropReason;
use kiro::session::Outcome;
use kiro::session::Session;
use kiro::session::SessionEvent;
use kiro::session::TransportError;
use kiro::snapshot::MetricsSnapshot;
use kiro::wire::encode;
use kiro::wire::DecodeError;
use kiro::wire::FieldKey;
use kiro::wire::WireField;

fn snapshot(used_memory: u64, total_memory: u64) -> MetricsSnapshot {
    MetricsSnapshot {
        os: "NixOS 24.05".to_string(),
        kernel: "6.8.0-48-generic".to_string(),
        host_name: "timeline".to_string(),
        local_ip: "10.0.0.7".to_string(),
        uptime: 600,
        used_memory,
        free_memory: 0,
        total_memory,
        cpu_usage_bits: 1.0f32.to_bits(),
    }
}

fn message(used_memory: u64, total_memory: u64) -> SessionEvent {
    SessionEvent::Message(encode(&snapshot(used_memory, total_memory)))
}

fn broken_message() -> SessionEvent {
    let fields: Vec<WireField> =
        encode(&snapshot(1, 2)).into_iter().filter(|f| f.name != "total_memory").collect();
    SessionEvent::Message(fields)
}

fn contents(store: &HistoryStore, id: i32) -> Vec<HistorySample> {
    match store.get(id) {
        Some(history) => (0..history.len()).map(|i| history.get(i).unwrap()).collect(),
        None => Vec::new(),
    }
}

#[test]
fn new_session_is_live_and_clean() {
    let session = Session::new(5, "ws://127.0.0.1:3000/".to_string());
    assert_eq!(session.node_id(), 5);
    assert_eq!(session.endpoint(), "ws://127.0.0.1:3000/");
    assert!(session.is_live());
    assert_eq!(session.last_error(), None);
    assert_eq!(session.latest(), None);
}

#[test]
fn valid_message_is_recorded() {
    let mut session = Session::new(5, "ws://n/".to_string());
    let mut store = HistoryStore::new(100);
    let outcome = session.handle(message(1, 4), 30, &mut store);
    let sample = HistorySample { elapsed_secs: 30, value: 2500 };
    assert_eq!(outcome, Outcome::Recorded(sample));
    assert!(outcome.keeps_receiving());
    assert_eq!(contents(&store, 5), vec![sample]);
    assert_eq!(session.latest(), Some(&snapshot(1, 4)));
    assert!(session.is_live());
}

#[test]
fn thousand_decode_failures_do_not_end_the_session() {
    let mut session = Session::new(5, "ws://n/".to_string());
    let mut store = HistoryStore::new(100_000);
    for tick in 0..1000u64 {
        let event = if tick % 2 == 0 { SessionEvent::Unreadable } else { broken_message() };
        let outcome = session.handle(event, tick, &mut store);
        assert!(matches!(outcome, Outcome::Dropped(DropReason::Undecodable(_))));
        assert!(outcome.keeps_receiving());
        assert!(session.is_live());
    }
    assert!(store.get(5).is_none());
    assert_eq!(session.latest(), None);
    let outcome = session.handle(message(3, 4), 1000, &mut store);
    let sample = HistorySample { elapsed_secs: 1000, value: 7500 };
    assert_eq!(outcome, Outcome::Recorded(sample));
    assert!(session.is_live());
    assert_eq!(session.last_error(), None);
    assert_eq!(contents(&store, 5), vec![sample]);
}

#[test]
fn undecodable_messages_say_why() {
    let mut session = Session::new(5, "ws://n/".to_string());
    let mut store = HistoryStore::new(100);
    assert_eq!(
        session.handle(SessionEvent::Unreadable, 0, &mut store),
        Outcome::Dropped(DropReason::Undecodable(DecodeError::Unreadable))
    );
    assert_eq!(
        session.handle(broken_message(), 0, &mut store),
        Outcome::Dropped(DropReason::Undecodable(DecodeError::Missing(FieldKey::TotalMemory)))
    );
    assert_eq!(
        session.handle(SessionEvent::Message(Vec::new()), 0, &mut store),
        Outcome::Dropped(DropReason::Undecodable(DecodeError::Missing(FieldKey::Os)))
    );
}

#[test]
fn message_without_a_usage_is_dropped_but_remembered() {
    let mut session = Session::new(5, "ws://n/".to_string());
    let mut store = HistoryStore::new(100);
    assert_eq!(session.handle(message(1, 0), 3, &mut store), Outcome::Dropped(DropReason::NoUsage));
    assert_eq!(session.handle(message(9, 8), 4, &mut store), Outcome::Dropped(DropReason::NoUsage));
    assert!(store.get(5).is_none());
    assert_eq!(session.latest(), Some(&snapshot(9, 8)));
    assert!(session.is_live());
}

#[test]
fn message_from_the_past_is_dropped() {
    let mut session = Session::new(5, "ws://n/".to_string());
    let mut store = HistoryStore::new(100);
    session.handle(message(1, 4), 30, &mut store);
    let outcome = session.handle(message(2, 4), 29, &mut store);
    assert_eq!(outcome, Outcome::Dropped(DropReason::OutOfOrder));
    assert_eq!(contents(&store, 5), vec![HistorySample { elapsed_secs: 30, value: 2500 }]);
    assert!(session.is_live());
}

#[test]
fn lost_connection_ends_the_session() {
    for error in [TransportError::Unreachable, TransportError::Closed, TransportError::Reset] {
        let mut session = Session::new(5, "ws://n/".to_string());
        let mut store = HistoryStore::new(100);
        session.handle(message(1, 4), 1, &mut store);
        let outcome = session.handle(SessionEvent::Lost(error), 2, &mut store);
        assert_eq!(outcome, Outcome::Terminated);
        assert!(!outcome.keeps_receiving());
        assert!(!session.is_live());
        assert_eq!(session.last_error(), Some(error));
        assert_eq!(contents(&store, 5), vec![HistorySample { elapsed_secs: 1, value: 2500 }]);
    }
}

#[test]
fn ended_session_ignores_everything() {
    let mut session = Session::new(5, "ws://n/".to_string());
    let mut store = HistoryStore::new(100);
    session.handle(SessionEvent::Lost(TransportError::Closed), 1, &mut store);
    let ended = session.clone();
    for event in [
        message(1, 4),
        SessionEvent::Unreadable,
        SessionEvent::Lost(TransportError::Reset),
        SessionEvent::Shutdown,
    ] {
        let outcome = session.handle(event, 2, &mut store);
        assert_eq!(outcome, Outcome::Ignored);
        assert!(!outcome.keeps_receiving());
        assert_eq!(session, ended);
    }
    assert!(store.get(5).is_none());
}

#[test]
fn shutdown_ends_the_session_without_an_error() {
    let mut session = Session::new(5, "ws://n/".to_string());
    let mut store = HistoryStore::new(100);
    assert_eq!(session.handle(SessionEvent::Shutdown, 1, &mut store), Outcome::Terminated);
    assert!(!session.is_live());
    assert_eq!(session.last_error(), None);
    let mut other = Session::new(6, "ws://m/".to_string());
    other.shutdown();
    assert!(!other.is_live());
    assert_eq!(other.last_error(), None);
    other.shutdown();
    assert!(!other.is_live());
}
