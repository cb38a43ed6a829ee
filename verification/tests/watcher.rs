use raidx::models::files::{NewRFile, REntry, RFile};
use raidx::models::nodes::RNode;
use raidx::models::queues::messages::RMessageQueue;
use raidx::models::utils::error::{RDatabaseError, RStoreFailure};
use raidx::peers::watcher::{announce, handle_event, RWatchEvent, RWatchOutcome};
use raidx::protocol::message::{RContentKind, RMessage, RMessageTrait, RMessageType};
use raidx::schema::RDatabase;

fn created(folder: &str, filename: &str, size: u64) -> RWatchEvent {
    RWatchEvent::FileCreated(REntry {
        folder: folder.to_string(),
        filename: filename.to_string(),
        is_file: true,
        size,
        created_at: 100,
        modified_at: 200,
    })
}

fn store_with_peers(n: usize) -> (RDatabase, RNode, Vec<RNode>) {
    let mut db = RDatabase::new();
    let local = RNode::get_local_or_create(&mut db, "0.0.0.0".to_string(), 4000).unwrap();
    let mut peers = Vec::new();
    for i in 0..n {
        let peer = RNode {
            uid: format!("peer-{}", i),
            host: format!("10.0.0.{}", i),
            port: 4000,
            local: false,
        };
        peers.push(peer.save(&mut db).unwrap());
    }
    (db, local, peers)
}

#[test]
fn created_file_is_tracked_and_announced_to_every_peer() {
    let (mut db, local, peers) = store_with_peers(3);
    let outcome = handle_event(&mut db, &local, created("/root", "a.txt", 10));
    let (file, queued) = match outcome {
        RWatchOutcome::FileAdded { file, queued } => (file, queued),
        other => panic!("not added: {:?}", other),
    };
    assert_eq!(queued, 3);
    assert_eq!(file.folder, "/root");
    assert_eq!(file.filename, "a.txt");
    assert_eq!(file.size, 10);
    assert_eq!(file.status, "READY");
    assert_eq!(file.node, local.uid);
    assert_eq!(db.files.len(), 1);
    assert_eq!(db.messages_outgoing.len(), 3);
    assert!(db.messages_incoming.is_empty());
    for (row, peer) in db.messages_outgoing.iter().zip(&peers) {
        assert_eq!(row.message_type, "FileAdded");
        assert_eq!(row.to, peer.uid);
        let message = row.to_message().unwrap();
        assert_eq!(message._type, RMessageType::FileAdded);
        match message.get_content(&db) {
            RContentKind::FileAdded(added) => {
                assert_eq!(added.file.uid, file.uid);
                assert_eq!(added.file.folder, "/root");
                assert_eq!(added.file.filename, "a.txt");
                assert_eq!(added.file.size, 10);
                assert_eq!(added.file.status, "READY");
                assert_eq!(added.file.node, local.uid);
                assert_eq!(added.file.updated_at, file.updated_at);
            }
            other => panic!("not a file: {:?}", other),
        }
    }
    let ids: Vec<i32> = db.messages_outgoing.iter().map(|m| m.id).collect();
    assert_eq!(ids, vec![1, 2, 3]);
}

#[test]
fn without_peers_nothing_is_announced() {
    let (mut db, local, _) = store_with_peers(0);
    match handle_event(&mut db, &local, created("/root", "a.txt", 10)) {
        RWatchOutcome::FileAdded { queued, .. } => assert_eq!(queued, 0),
        other => panic!("not added: {:?}", other),
    }
    assert_eq!(db.files.len(), 1);
    assert!(db.messages_outgoing.is_empty());
}

#[test]
fn a_file_that_is_tracked_is_not_announced_again() {
    let (mut db, local, _) = store_with_peers(2);
    handle_event(&mut db, &local, created("/root", "a.txt", 10));
    match handle_event(&mut db, &local, created("/root", "a.txt", 11)) {
        RWatchOutcome::AddFailed(e) => {
            assert_eq!(e, RDatabaseError::DieselResult(RStoreFailure::UniqueViolation))
        }
        other => panic!("not refused: {:?}", other),
    }
    assert_eq!(db.files.len(), 1);
    assert_eq!(db.messages_outgoing.len(), 2);
}

#[test]
fn removed_file_is_forgotten() {
    let (mut db, local, _) = store_with_peers(1);
    handle_event(&mut db, &local, created("/root", "a.txt", 10));
    handle_event(&mut db, &local, created("/root", "b.txt", 10));
    match handle_event(&mut db, &local, RWatchEvent::FileRemoved("/root/a.txt".to_string())) {
        RWatchOutcome::FileRemoved(uid) => assert_eq!(uid, RFile::calc_uid("/root/a.txt")),
        other => panic!("not removed: {:?}", other),
    }
    assert_eq!(db.files.len(), 1);
    assert_eq!(db.files[0].filename, "b.txt");
    assert_eq!(db.messages_outgoing.len(), 2);
    let again = handle_event(&mut db, &local, RWatchEvent::FileRemoved("/root/a.txt".to_string()));
    assert!(matches!(again, RWatchOutcome::FileNotFound));
    assert_eq!(db.files.len(), 1);
}

#[test]
fn other_events_ask_for_nothing() {
    let (mut db, local, _) = store_with_peers(1);
    handle_event(&mut db, &local, created("/root", "a.txt", 10));
    for event in [
        RWatchEvent::DataChanged("/root/a.txt".to_string()),
        RWatchEvent::FolderRemoved("/root".to_string()),
        RWatchEvent::Other,
    ] {
        assert!(matches!(handle_event(&mut db, &local, event), RWatchOutcome::Ignored));
        assert_eq!(db.files.len(), 1);
        assert_eq!(db.messages_outgoing.len(), 1);
    }
}

#[test]
fn announce_stops_when_the_queue_is_full() {
    let (mut db, _, peers) = store_with_peers(3);
    db.messages_outgoing_next_id = i32::MAX - 2;
    let message = RMessage { _type: RMessageType::OK, data: None };
    assert_eq!(announce(&mut db, &message), 2);
    assert_eq!(db.messages_outgoing.len(), 2);
    assert_eq!(db.messages_outgoing[0].to, peers[0].uid);
    assert_eq!(db.messages_outgoing[1].to, peers[1].uid);
    assert_eq!(announce(&mut db, &message), 0);
}

#[test]
fn the_announcement_is_the_description_as_written() {
    let (mut db, local, _) = store_with_peers(1);
    let file = match handle_event(&mut db, &local, created("/root", "a.txt", 10)) {
        RWatchOutcome::FileAdded { file, .. } => file,
        other => panic!("not added: {:?}", other),
    };
    let expected = NewRFile {
        uid: file.uid.clone(),
        node: file.node.clone(),
        folder: file.folder.clone(),
        filename: file.filename.clone(),
        size: file.size,
        status: file.status.clone(),
        created_at: file.created_at,
        modified_at: file.modified_at,
        updated_at: file.updated_at,
    }
    .to_slice()
    .unwrap();
    assert_eq!(db.messages_outgoing[0].data, Some(expected));
}
