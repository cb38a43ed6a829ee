use raidx::models::nodes::RNode;
use raidx::models::queues::messages_outgoing::{RMessageOutgoing, RNewMessageOutgoing};
use raidx::peers::nodes::{
    drain, load_nodes_from_configs, receive_step, register_peer, send_step, RReceiveAction,
    RReceiveEvent, RRegistration, RSendAction, RSendEvent, RServer, DRAIN_BATCH,
};
use raidx::protocol::message::{RFrame, RMessage, RMessageTrait, RMessageType};
use raidx::schema::RDatabase;
use raidx::utils::configs::{RConfig, RConfigNode};

fn peer(host: &str, port: usize) -> RConfigNode {
    RConfigNode { host: host.to_string(), port, ssl: false }
}

fn config(nodes: Vec<RConfigNode>) -> RConfig {
    let mut c = RConfig::get_default("/root".to_string());
    c.nodes = nodes;
    c
}

fn queue(db: &mut RDatabase, kind: &str, uid: &str, at: i32) {
    db.messages_outgoing.push(RMessageOutgoing {
        id: db.messages_outgoing_next_id,
        uid: uid.to_string(),
        message_type: kind.to_string(),
        data: Some(vec![1]),
        to: "p".to_string(),
        created_at: at,
    });
    db.messages_outgoing_next_id += 1;
}

fn at(node: &RNode, peer: &RConfigNode) -> bool {
    node.host == peer.host && node.port == peer.port as i32
}

/// What holds of every run of `load_nodes_from_configs`, whatever uids
/// were drawn.
fn check_outcomes(before: usize, config: &RConfig, outcomes: &[RRegistration], db: &RDatabase) {
    assert_eq!(outcomes.len(), config.nodes.len());
    let mut expected = before;
    for (i, (outcome, peer)) in outcomes.iter().zip(&config.nodes).enumerate() {
        let known = db.nodes[..expected].iter().position(|n| at(n, peer));
        match outcome {
            RRegistration::AlreadyRegistered(n) => {
                assert_eq!(n.uid, db.nodes[known.unwrap()].uid);
            }
            RRegistration::Registered(n) => {
                assert!(known.is_none());
                assert!(at(n, peer));
                assert!(!n.local);
                assert_eq!(db.nodes[expected].uid, n.uid);
                assert!(db.nodes[..expected].iter().all(|m| m.uid != n.uid));
                expected += 1;
            }
            RRegistration::NotRegistered => {
                assert!(known.is_none());
                assert!(expected > 0, "outcome {} on a store without nodes", i);
            }
        }
    }
    assert_eq!(db.nodes.len(), expected);
}

#[test]
fn a_configured_peer_is_registered_once() {
    let mut db = RDatabase::new();
    let c = config(vec![peer("10.0.0.1", 4000), peer("10.0.0.1", 4000)]);
    let outcomes = load_nodes_from_configs(&c, &mut db);
    assert!(matches!(outcomes[0], RRegistration::Registered(_)));
    assert!(matches!(outcomes[1], RRegistration::AlreadyRegistered(_)));
    assert_eq!(db.nodes.len(), 1);
    assert_eq!(db.nodes[0].host, "10.0.0.1");
    assert_eq!(db.nodes[0].port, 4000);
    assert!(!db.nodes[0].local);
    check_outcomes(0, &c, &outcomes, &db);
    let again = load_nodes_from_configs(&c, &mut db);
    assert!(again.iter().all(|o| matches!(o, RRegistration::AlreadyRegistered(_))));
    assert_eq!(db.nodes.len(), 1);
    match &again[1] {
        RRegistration::AlreadyRegistered(n) => assert_eq!(n.uid, db.nodes[0].uid),
        other => panic!("not registered: {:?}", other),
    }
}

#[test]
fn several_peers_get_one_node_each() {
    let mut db = RDatabase::new();
    RNode { uid: "known".to_string(), host: "10.0.0.2".to_string(), port: 4000, local: false }
        .save(&mut db)
        .unwrap();
    let c = config(vec![
        peer("10.0.0.1", 4000),
        peer("10.0.0.2", 4000),
        peer("10.0.0.3", 4000),
        peer("10.0.0.1", 4000),
    ]);
    let outcomes = load_nodes_from_configs(&c, &mut db);
    check_outcomes(1, &c, &outcomes, &db);
    assert!(matches!(outcomes[1], RRegistration::AlreadyRegistered(_)));
    assert_eq!(db.nodes[0].uid, "known");
    for p in &c.nodes {
        assert!(db.nodes.iter().filter(|n| at(n, p)).count() <= 1);
    }
    let nodes_after_first = db.nodes.len();
    let passed_over = outcomes.iter().any(|o| matches!(o, RRegistration::NotRegistered));
    let again = load_nodes_from_configs(&c, &mut db);
    check_outcomes(nodes_after_first, &c, &again, &db);
    if !passed_over {
        assert_eq!(db.nodes.len(), nodes_after_first);
        assert!(again.iter().all(|o| matches!(o, RRegistration::AlreadyRegistered(_))));
    }
}

#[test]
fn an_empty_configuration_registers_nothing() {
    let mut db = RDatabase::new();
    let outcomes = load_nodes_from_configs(&config(vec![]), &mut db);
    assert!(outcomes.is_empty());
    assert!(db.nodes.is_empty());
}

#[test]
fn a_peer_at_the_address_of_the_local_node_is_there_already() {
    let mut db = RDatabase::new();
    let local = RNode::get_local_or_create(&mut db, "0.0.0.0".to_string(), 4000).unwrap();
    match register_peer(&mut db, &peer("0.0.0.0", 4000)) {
        RRegistration::AlreadyRegistered(n) => assert_eq!(n.uid, local.uid),
        other => panic!("not found: {:?}", other),
    }
    assert_eq!(db.nodes.len(), 1);
}

#[test]
fn the_first_peer_of_a_store_is_always_registered() {
    let mut db = RDatabase::new();
    match register_peer(&mut db, &peer("0.0.0.0", 4001)) {
        RRegistration::Registered(n) => {
            assert_eq!(n.host, "0.0.0.0");
            assert_eq!(n.port, 4001);
            assert!(!n.local);
            assert_eq!(db.nodes.len(), 1);
            assert_eq!(db.nodes[0].uid, n.uid);
        }
        other => panic!("not created: {:?}", other),
    }
}

#[test]
fn client_url_of_a_configured_node() {
    assert_eq!(RServer::connection_url(peer("example.org", 8080)), "ws://example.org:8080");
    let secure = RConfigNode { ssl: true, ..peer("example.org", 443) };
    assert_eq!(RServer::connection_url(secure), "wss://example.org:443");
}

#[test]
fn drain_frames_the_most_recent_messages() {
    let mut db = RDatabase::new();
    assert!(drain(&db, DRAIN_BATCH).is_empty());
    queue(&mut db, "OK", "old", 1);
    queue(&mut db, "Bogus", "bad", 2);
    queue(&mut db, "FileAdded", "new", 3);
    let frames = drain(&db, DRAIN_BATCH);
    assert_eq!(frames.len(), 2);
    let kinds: Vec<RMessageType> = frames
        .iter()
        .map(|f| match f {
            RFrame::Binary(bytes) => RMessage::from_slice(bytes.clone()).unwrap()._type,
            other => panic!("not binary: {:?}", other),
        })
        .collect();
    assert_eq!(kinds, vec![RMessageType::FileAdded, RMessageType::OK]);
    assert_eq!(db.messages_outgoing.len(), 3);
    assert_eq!(drain(&db, 1).len(), 1);
    assert_eq!(drain(&db, 2).len(), 1);
    assert_eq!(drain(&db, 0).len(), 0);
    assert_eq!(DRAIN_BATCH, 10);
}

#[test]
fn drain_takes_no_more_than_the_batch() {
    let mut db = RDatabase::new();
    for i in 0..15 {
        RNewMessageOutgoing::new(
            "p".to_string(),
            RMessage { _type: RMessageType::OK, data: Some(vec![i as u8]) },
            format!("u{}", i),
            i,
        )
        .save(&mut db)
        .unwrap();
    }
    let frames = drain(&db, DRAIN_BATCH);
    assert_eq!(frames.len(), 10);
    match &frames[0] {
        RFrame::Binary(bytes) => {
            assert_eq!(RMessage::from_slice(bytes.clone()).unwrap().data, Some(vec![14]))
        }
        other => panic!("not binary: {:?}", other),
    }
    match &frames[9] {
        RFrame::Binary(bytes) => {
            assert_eq!(RMessage::from_slice(bytes.clone()).unwrap().data, Some(vec![5]))
        }
        other => panic!("not binary: {:?}", other),
    }
}

#[test]
fn the_sending_loop_closes_on_close_and_on_failure() {
    assert!(matches!(send_step(RSendEvent::Message(RFrame::Close)), RSendAction::WriteAndStop(RFrame::Close)));
    match send_step(RSendEvent::Message(RFrame::Binary(vec![1]))) {
        RSendAction::Write(RFrame::Binary(data)) => assert_eq!(data, vec![1]),
        other => panic!("not written: {:?}", other),
    }
    match send_step(RSendEvent::Message(RFrame::Pong(vec![2]))) {
        RSendAction::Write(RFrame::Pong(data)) => assert_eq!(data, vec![2]),
        other => panic!("not written: {:?}", other),
    }
    assert!(matches!(send_step(RSendEvent::ChannelClosed), RSendAction::Stop));
    assert!(matches!(send_step(RSendEvent::WriteFailed), RSendAction::WriteAndStop(RFrame::Close)));
}

#[test]
fn the_receiving_loop_answers_pings_and_passes_closes_on() {
    match receive_step(RReceiveEvent::Frame(RFrame::Ping(vec![7, 8]))) {
        RReceiveAction::Forward(RFrame::Pong(data)) => assert_eq!(data, vec![7, 8]),
        other => panic!("not a pong: {:?}", other),
    }
    assert!(matches!(
        receive_step(RReceiveEvent::Frame(RFrame::Close)),
        RReceiveAction::ForwardAndStop(RFrame::Close)
    ));
    assert!(matches!(
        receive_step(RReceiveEvent::ReadFailed),
        RReceiveAction::ForwardAndStop(RFrame::Close)
    ));
    assert!(matches!(receive_step(RReceiveEvent::ForwardFailed), RReceiveAction::Stop));
    for frame in [RFrame::Text("Hello".to_string()), RFrame::Binary(vec![1]), RFrame::Pong(vec![])] {
        assert!(matches!(receive_step(RReceiveEvent::Frame(frame)), RReceiveAction::Ignore));
    }
}
