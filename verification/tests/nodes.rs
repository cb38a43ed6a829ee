use raidx::models::nodes::RNode;
use raidx::models::utils::error::{RDatabaseError, RStoreFailure};
use raidx::protocol::message::{RFrame, RMessage, RMessageTrait, RMessageType};
use raidx::schema::RDatabase;
use raidx::utils::configs::RConfigNode;

fn node(uid: &str, host: &str, port: i32, local: bool) -> RNode {
    RNode { uid: uid.to_string(), host: host.to_string(), port, local }
}

#[test]
fn empty_registry_has_no_nodes() {
    let db = RDatabase::new();
    assert!(RNode::get_local(&db).is_none());
    assert!(RNode::get_by_local_flag(&db, false).is_none());
    assert!(RNode::get_by_host_and_port(&db, "h".to_string(), 1).is_none());
    assert_eq!(RNode::get_all(&db).unwrap().len(), 0);
    assert_eq!(RNode::get_others(&db).unwrap().len(), 0);
    assert_eq!(
        RNode::get_by_uid(&db, "x".to_string()).unwrap_err(),
        RDatabaseError::DieselResult(RStoreFailure::NotFound)
    );
}

#[test]
fn local_node_is_created_once() {
    let mut db = RDatabase::new();
    let first = RNode::get_local_or_create(&mut db, "0.0.0.0".to_string(), 4000).unwrap();
    assert!(first.local);
    assert_eq!(first.host, "0.0.0.0");
    assert_eq!(first.port, 4000);
    assert_eq!(first.uid.len(), 36);
    let again = RNode::get_local_or_create(&mut db, "1.2.3.4".to_string(), 5).unwrap();
    assert_eq!(again.uid, first.uid);
    assert_eq!(again.host, "0.0.0.0");
    assert_eq!(again.port, 4000);
    assert_eq!(db.nodes.len(), 1);
    assert_eq!(RNode::get_local(&db).unwrap().uid, first.uid);
}

#[test]
fn peers_are_found_by_address_and_uid() {
    let mut db = RDatabase::new();
    let a = node("uid-a", "10.0.0.1", 4000, false).save(&mut db).unwrap();
    let b = node("uid-b", "10.0.0.1", 4001, false).save(&mut db).unwrap();
    let local = node("uid-l", "0.0.0.0", 4000, true).save(&mut db).unwrap();
    assert_eq!(RNode::get_by_host_and_port(&db, "10.0.0.1".to_string(), 4001).unwrap().uid, b.uid);
    assert_eq!(RNode::get_by_host_and_port(&db, "10.0.0.1".to_string(), 4000).unwrap().uid, a.uid);
    assert!(RNode::get_by_host_and_port(&db, "10.0.0.2".to_string(), 4000).is_none());
    assert_eq!(RNode::get_by_uid(&db, b.uid.clone()).unwrap().port, 4001);
    let others = RNode::get_others(&db).unwrap();
    assert_eq!(others.len(), 2);
    assert_eq!(others[0].uid, a.uid);
    assert_eq!(others[1].uid, b.uid);
    let all = RNode::get_all(&db).unwrap();
    assert_eq!(all.len(), 3);
    assert_eq!(all[2].uid, local.uid);
    assert_eq!(RNode::get_by_local_flag(&db, false).unwrap().uid, a.uid);
}

#[test]
fn the_first_node_of_a_store_is_always_created() {
    let mut db = RDatabase::new();
    let peer = RNode::create_other(&mut db, "10.0.0.1".to_string(), 4000).unwrap();
    assert!(!peer.local);
    assert_eq!(peer.host, "10.0.0.1");
    assert_eq!(peer.port, 4000);
    assert_eq!(peer.uid.len(), 36);
    assert_eq!(db.nodes.len(), 1);
    assert_eq!(db.nodes[0].uid, peer.uid);

    let mut db = RDatabase::new();
    let local = RNode::create_local(&mut db, "0.0.0.0".to_string(), 1).unwrap();
    assert!(local.local);
    assert_eq!(db.nodes.len(), 1);

    let mut db = RDatabase::new();
    let made = RNode::create(&mut db, "h".to_string(), -7, true).unwrap();
    assert!(made.local);
    assert_eq!(made.port, -7);
    assert_eq!(RNode::get_by_uid(&db, made.uid.clone()).unwrap().host, "h");
}

#[test]
fn a_later_node_is_created_or_the_store_stays() {
    let mut db = RDatabase::new();
    node("taken", "h", 1, false).save(&mut db).unwrap();
    match RNode::create_other(&mut db, "10.0.0.9".to_string(), 9) {
        Ok(made) => {
            assert_eq!(db.nodes.len(), 2);
            assert_eq!(db.nodes[1].uid, made.uid);
            assert_ne!(made.uid, "taken");
            assert!(!made.local);
        }
        Err(e) => {
            assert_eq!(e, RDatabaseError::DieselResult(RStoreFailure::UniqueViolation));
            assert_eq!(db.nodes.len(), 1);
        }
    }
}

#[test]
fn a_uid_is_stored_once() {
    let mut db = RDatabase::new();
    let stored = node("abc", "h", 1, false).save(&mut db).unwrap();
    assert_eq!(stored.uid, "abc");
    let again = node("abc", "other", 2, true).save(&mut db);
    assert_eq!(again.unwrap_err(), RDatabaseError::DieselResult(RStoreFailure::UniqueViolation));
    assert_eq!(db.nodes.len(), 1);
    assert_eq!(db.nodes[0].host, "h");
    assert_eq!(
        RDatabaseError::DieselResult(RStoreFailure::UniqueViolation).cause(),
        Some(RStoreFailure::UniqueViolation)
    );
    assert_eq!(RDatabaseError::EntryNotExists.cause(), None);
}

#[test]
fn connection_url_names_the_scheme() {
    assert_eq!(node("u", "example.org", 4000, false).connection_url(false), "ws://example.org:4000");
    assert_eq!(node("u", "example.org", 443, false).connection_url(true), "wss://example.org:443");
    assert_eq!(node("u", "h", 0, false).connection_url(false), "ws://h:0");
    assert_eq!(node("u", "h", -1, false).connection_url(false), "ws://h:-1");
    assert_eq!(node("u", "h", i32::MAX, false).connection_url(false), "ws://h:2147483647");
    assert_eq!(node("u", "h", i32::MIN, false).connection_url(true), "wss://h:-2147483648");
    assert_eq!(node("u", "", 10, false).connection_url(false), "ws://:10");
}

#[test]
fn request_uid_asks_with_an_empty_request() {
    let server = RConfigNode { host: "peer.local".to_string(), port: 4000, ssl: false };
    let (url, frame) = RNode::request_uid(server);
    assert_eq!(url, "ws://peer.local:4000");
    match frame {
        RFrame::Binary(bytes) => {
            assert_eq!(bytes, b"{\"kind\":\"UidRequest\",\"payload\":null}".to_vec());
            let message = RMessage::from_slice(bytes).unwrap();
            assert_eq!(message._type, RMessageType::UidRequest);
            assert!(message.data.is_none());
        }
        other => panic!("not a binary frame: {:?}", other),
    }
}
