use raidx::models::queues::messages::RMessageQueue;
use raidx::models::queues::messages_incoming::{RMessagesIncoming, RNewMessagesIncoming};
use raidx::models::queues::messages_outgoing::{RMessageOutgoing, RNewMessageOutgoing};
use raidx::models::utils::error::{RDatabaseError, RStoreFailure};
use raidx::protocol::message::{RMessage, RMessageType};
use raidx::schema::RDatabase;

fn message(kind: RMessageType, data: Option<Vec<u8>>) -> RMessage {
    RMessage { _type: kind, data }
}

fn outgoing(peer: &str, kind: RMessageType, uid: &str, at: i32) -> RNewMessageOutgoing {
    RNewMessageOutgoing::new(peer.to_string(), message(kind, None), uid.to_string(), at)
}

#[test]
fn pop_on_empty_queue_is_not_found() {
    let mut db = RDatabase::new();
    assert_eq!(RMessageOutgoing::pop(&mut db).unwrap_err(), RDatabaseError::EntryNotExists);
    assert_eq!(RMessagesIncoming::pop(&mut db).unwrap_err(), RDatabaseError::EntryNotExists);
    assert!(RMessageOutgoing::last(&db).is_none());
    assert_eq!(RMessageOutgoing::last_n(&db, 3).unwrap().len(), 0);
}

#[test]
fn push_then_pop_leaves_the_queue_empty() {
    let mut db = RDatabase::new();
    let pushed = RMessageOutgoing::push(
        &mut db,
        "peer-1".to_string(),
        message(RMessageType::FileAdded, Some(vec![1, 2, 3])),
    )
    .unwrap();
    assert_eq!(pushed.id, 1);
    assert_eq!(pushed.to, "peer-1");
    assert_eq!(pushed.message_type, "FileAdded");
    assert_eq!(pushed.data, Some(vec![1, 2, 3]));
    assert_eq!(pushed.uid.len(), 36);
    let popped = RMessageOutgoing::pop(&mut db).unwrap();
    assert_eq!(popped.id, pushed.id);
    assert_eq!(popped.uid, pushed.uid);
    assert_eq!(popped.to, pushed.to);
    assert_eq!(popped.message_type, pushed.message_type);
    assert_eq!(popped.data, pushed.data);
    assert_eq!(popped.created_at, pushed.created_at);
    assert!(db.messages_outgoing.is_empty());
    assert_eq!(RMessageOutgoing::pop(&mut db).unwrap_err(), RDatabaseError::EntryNotExists);
}

#[test]
fn two_pushes_get_consecutive_ids() {
    let mut db = RDatabase::new();
    let a = RMessageOutgoing::push(&mut db, "p".to_string(), message(RMessageType::OK, None)).unwrap();
    let b = RMessageOutgoing::push(&mut db, "p".to_string(), message(RMessageType::OK, None)).unwrap();
    assert_eq!(a.uid.len(), 36);
    assert_eq!(b.uid.len(), 36);
    assert_eq!(a.id + 1, b.id);
    assert!(a.created_at <= b.created_at);
    assert!(a.created_at > 1_600_000_000);
}

#[test]
fn later_message_is_retrieved_first() {
    let mut db = RDatabase::new();
    let m1 = outgoing("p", RMessageType::OK, "u1", 100).save(&mut db).unwrap();
    let m2 = outgoing("p", RMessageType::Error, "u2", 200).save(&mut db).unwrap();
    assert_eq!(RMessageOutgoing::last(&db).unwrap().uid, m2.uid);
    let two = RMessageOutgoing::last_n(&db, 2).unwrap();
    assert_eq!(two.len(), 2);
    assert_eq!(two[0].uid, "u2");
    assert_eq!(two[1].uid, "u1");
    assert_eq!(two[1].id, m1.id);
}

#[test]
fn same_second_goes_by_insertion() {
    let mut db = RDatabase::new();
    outgoing("p", RMessageType::OK, "u1", 100).save(&mut db).unwrap();
    outgoing("p", RMessageType::OK, "u2", 100).save(&mut db).unwrap();
    outgoing("p", RMessageType::OK, "u3", 100).save(&mut db).unwrap();
    let all = RMessageOutgoing::last_n(&db, 10).unwrap();
    let uids: Vec<&str> = all.iter().map(|m| m.uid.as_str()).collect();
    assert_eq!(uids, vec!["u3", "u2", "u1"]);
}

#[test]
fn retrieval_goes_by_time_not_by_insertion() {
    let mut db = RDatabase::new();
    outgoing("p", RMessageType::OK, "late", 300).save(&mut db).unwrap();
    outgoing("p", RMessageType::OK, "early", 100).save(&mut db).unwrap();
    outgoing("p", RMessageType::OK, "middle", 200).save(&mut db).unwrap();
    assert_eq!(RMessageOutgoing::last(&db).unwrap().uid, "late");
    let two = RMessageOutgoing::last_n(&db, 2).unwrap();
    let uids: Vec<&str> = two.iter().map(|m| m.uid.as_str()).collect();
    assert_eq!(uids, vec!["late", "middle"]);
    assert_eq!(RMessageOutgoing::last_n(&db, 0).unwrap().len(), 0);
    assert_eq!(RMessageOutgoing::pop(&mut db).unwrap().uid, "late");
    assert_eq!(RMessageOutgoing::pop(&mut db).unwrap().uid, "middle");
    assert_eq!(RMessageOutgoing::pop(&mut db).unwrap().uid, "early");
    assert!(RMessageOutgoing::pop(&mut db).is_err());
}

#[test]
fn delete_by_id_removes_one_row() {
    let mut db = RDatabase::new();
    let a = outgoing("p", RMessageType::OK, "a", 1).save(&mut db).unwrap();
    let b = outgoing("p", RMessageType::OK, "b", 2).save(&mut db).unwrap();
    assert!(RMessageOutgoing::delete_by_id(&mut db, a.id).is_ok());
    assert_eq!(db.messages_outgoing.len(), 1);
    assert_eq!(db.messages_outgoing[0].uid, "b");
    assert_eq!(
        RMessageOutgoing::delete_by_id(&mut db, a.id).unwrap_err(),
        RDatabaseError::EntryNotDeleted
    );
    assert!(b.delete(&mut db).is_ok());
    assert_eq!(b.delete(&mut db).unwrap_err(), RDatabaseError::EntryNotDeleted);
    assert!(db.messages_outgoing.is_empty());
}

#[test]
fn ids_are_not_handed_out_twice() {
    let mut db = RDatabase::new();
    let a = outgoing("p", RMessageType::OK, "a", 1).save(&mut db).unwrap();
    a.delete(&mut db).unwrap();
    let b = outgoing("p", RMessageType::OK, "b", 2).save(&mut db).unwrap();
    assert_eq!(a.id, 1);
    assert_eq!(b.id, 2);
}

#[test]
fn full_queue_refuses_a_push() {
    let mut db = RDatabase::new();
    db.messages_outgoing_next_id = i32::MAX;
    let r = RMessageOutgoing::push(&mut db, "p".to_string(), message(RMessageType::OK, None));
    assert_eq!(r.unwrap_err(), RDatabaseError::DieselResult(RStoreFailure::Full));
    assert!(db.messages_outgoing.is_empty());
    assert_eq!(db.messages_outgoing_next_id, i32::MAX);
}

#[test]
fn the_two_directions_are_separate() {
    let mut db = RDatabase::new();
    RMessageOutgoing::push(&mut db, "to".to_string(), message(RMessageType::OK, None)).unwrap();
    assert!(RMessagesIncoming::last(&db).is_none());
    let row = RMessagesIncoming::push(
        &mut db,
        "from".to_string(),
        message(RMessageType::UidRequest, None),
    )
    .unwrap();
    assert_eq!(row.from, "from");
    assert_eq!(row.id, 1);
    assert_eq!(db.messages_outgoing.len(), 1);
    assert_eq!(db.messages_incoming.len(), 1);
    let popped = RMessagesIncoming::pop(&mut db).unwrap();
    assert_eq!(popped.uid, row.uid);
    assert_eq!(db.messages_outgoing.len(), 1);
    assert!(db.messages_incoming.is_empty());
    let m = RNewMessagesIncoming::new(
        "x".to_string(),
        message(RMessageType::SyncFiles, Some(vec![])),
        "uid".to_string(),
        5,
    );
    assert_eq!(m.message_type, "SyncFiles");
    assert_eq!(m.from, "x");
    assert_eq!(m.created_at, 5);
}

#[test]
fn to_message_gives_the_pushed_message_back() {
    let mut db = RDatabase::new();
    for kind in [
        RMessageType::OK,
        RMessageType::Error,
        RMessageType::SyncFiles,
        RMessageType::FileAdded,
        RMessageType::UidRequest,
        RMessageType::UidResponse,
    ] {
        let row = RMessageOutgoing::push(&mut db, "p".to_string(), message(kind, Some(vec![7, 8])))
            .unwrap();
        let back = row.to_message().unwrap();
        assert_eq!(back._type, kind);
        assert_eq!(back.data, Some(vec![7, 8]));
    }
}

#[test]
fn to_message_of_an_unknown_tag_is_none() {
    let row = RMessageOutgoing {
        id: 1,
        uid: "u".to_string(),
        message_type: "Bogus".to_string(),
        data: None,
        to: "p".to_string(),
        created_at: 0,
    };
    assert!(row.to_message().is_none());
    let quoted = RMessagesIncoming {
        id: 1,
        uid: "u".to_string(),
        message_type: "\"OK\"".to_string(),
        data: None,
        from: "p".to_string(),
        created_at: 0,
    };
    assert!(quoted.to_message().is_none());
    let lower = RMessageOutgoing { message_type: "ok".to_string(), ..row.clone() };
    assert!(lower.to_message().is_none());
}
