use kiro::history::HistorySample;
use kiro::history::HistoryStore;
use kiro::kiro::mock_sample;
use kiro::kiro::mock_value;
use kiro::kiro::Kiro;
use kiro::nodes::Node;
use kiro::session::Outcome;
use kiro::session::SessionEvent;
use kiro::websocket::ConnectError;
use std::collections::HashSet;

fn nodes() -> Vec<Node<'static>> {
    let mut ids = HashSet::new();
    vec![
        Node::new(&mut ids, "Timeline", "ws://127.0.0.1:3000").unwrap(),
        Node::new(&mut ids, "Incubator", "ws://127.0.0.2:3000").unwrap(),
    ]
}

#[test]
fn new_client_connects_every_node() {
    let nodes = nodes();
    let kiro = Kiro::new(&nodes).unwrap();
    assert_eq!(kiro.selected(), None);
    assert!(kiro.selected_node().is_none());
    assert_eq!(kiro.manager().len(), 2);
    for node in &nodes {
        assert!(kiro.manager().lookup(node.id).unwrap().is_live());
        assert!(kiro.ram_history(node.id).is_none());
    }
}

#[test]
fn new_client_fails_on_a_bad_address() {
    let nodes = vec![Node { id: 4, hostname: "Broken", address: "nowhere" }];
    assert_eq!(Kiro::new(&nodes).err(), Some(ConnectError::InvalidAddress(4)));
}

#[test]
fn select_takes_only_configured_nodes() {
    let nodes = vec![
        Node { id: 4, hostname: "a", address: "ws://a" },
        Node { id: 6, hostname: "b", address: "ws://b" },
    ];
    let mut kiro = Kiro::new(&nodes).unwrap();
    assert!(!kiro.select(5));
    assert_eq!(kiro.selected(), None);
    assert!(kiro.select(6));
    assert_eq!(kiro.selected(), Some(6));
    assert_eq!(kiro.selected_node(), Some(&nodes[1]));
    assert!(!kiro.select(7));
    assert_eq!(kiro.selected(), Some(6));
    assert!(kiro.select(4));
    assert_eq!(kiro.selected_node().unwrap().hostname, "a");
}

#[test]
fn mock_value_walks_and_stays_in_range() {
    assert_eq!(mock_value(None, 0), 5000);
    assert_eq!(mock_value(None, -200), 4800);
    assert_eq!(mock_value(None, 199), 5199);
    assert_eq!(mock_value(Some(3100), -150), 3000);
    assert_eq!(mock_value(Some(3100), -100), 3000);
    assert_eq!(mock_value(Some(3100), -99), 3001);
    assert_eq!(mock_value(Some(8950), 100), 9000);
    assert_eq!(mock_value(Some(8950), 49), 8999);
    assert_eq!(mock_value(Some(0), i32::MIN), 3000);
    assert_eq!(mock_value(Some(u32::MAX), i32::MAX), 9000);
    assert_eq!(mock_value(Some(u32::MAX), i32::MIN), 9000);
}

#[test]
fn mock_sample_continues_from_the_newest_value() {
    let mut store = HistoryStore::new(10);
    mock_sample(&mut store, 1, 0, 50);
    mock_sample(&mut store, 1, 5, -20);
    mock_sample(&mut store, 1, 4, 1);
    let history = store.get(1).unwrap();
    assert_eq!(history.len(), 2);
    assert_eq!(history.get(0), Some(HistorySample { elapsed_secs: 0, value: 5050 }));
    assert_eq!(history.get(1), Some(HistorySample { elapsed_secs: 5, value: 5030 }));
    mock_sample(&mut store, 1, 11, 0);
    let history = store.get(1).unwrap();
    assert_eq!(history.len(), 2);
    assert_eq!(history.get(1), Some(HistorySample { elapsed_secs: 11, value: 5030 }));
}

#[test]
fn mock_data_gives_every_node_a_bounded_walk() {
    let nodes = nodes();
    let mut kiro = Kiro::new(&nodes).unwrap();
    for tick in 0..500u64 {
        kiro.mock_data(tick * 600);
        for node in &nodes {
            let history = kiro.ram_history(node.id).unwrap();
            let count = history.len();
            let newest = history.get(count - 1).unwrap();
            assert_eq!(newest.elapsed_secs, tick * 600);
            assert!(newest.value >= 3000 && newest.value <= 9000);
            if count > 1 {
                let before = history.get(count - 2).unwrap().value as i64;
                assert!((newest.value as i64 - before).abs() <= 200);
            } else {
                assert!((newest.value as i64 - 5000).abs() <= 200);
            }
            for i in 0..count {
                assert!(tick * 600 - history.get(i).unwrap().elapsed_secs <= 86_400);
            }
            assert_eq!(count as u64, (tick + 1).min(145));
        }
    }
    assert_eq!(kiro.manager().len(), 2);
    assert!(kiro.manager().history(nodes[0].id).is_none());
}

#[test]
fn events_reach_the_manager() {
    let nodes = vec![Node { id: 4, hostname: "a", address: "ws://a" }];
    let mut kiro = Kiro::new(&nodes).unwrap();
    assert_eq!(kiro.handle(4, SessionEvent::Shutdown, 0), Outcome::Terminated);
    assert!(!kiro.manager().lookup(4).unwrap().is_live());
    assert_eq!(kiro.handle(5, SessionEvent::Shutdown, 0), Outcome::Ignored);
}

#[test]
fn window_bound_holds_when_the_clock_goes_back() {
    let nodes = vec![Node { id: 4, hostname: "a", address: "ws://a" }];
    let mut kiro = Kiro::new(&nodes).unwrap();
    kiro.mock_data(1000);
    kiro.mock_data(90_000);
    let before: Vec<HistorySample> = {
        let history = kiro.ram_history(4).unwrap();
        (0..history.len()).map(|i| history.get(i).unwrap()).collect()
    };
    assert_eq!(before.len(), 1);
    kiro.mock_data(500);
    let history = kiro.ram_history(4).unwrap();
    assert_eq!(history.len(), 1);
    assert_eq!(history.get(0), Some(before[0]));
    for i in 0..history.len() {
        let age = 500i128 - history.get(i).unwrap().elapsed_secs as i128;
        assert!(age <= 86_400);
    }
}
