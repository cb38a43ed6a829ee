use raidx::models::files::{NewRFile, REntry, RFile};
use raidx::models::nodes::RNode;
use raidx::peers::synchronizer::{
    exists_on_disk, init_sync, prune, scan, scan_at, sync_files, sync_files_at,
};
use raidx::schema::RDatabase;

fn local() -> RNode {
    RNode { uid: "node-1".to_string(), host: "0.0.0.0".to_string(), port: 4000, local: true }
}

fn file(folder: &str, filename: &str, size: u64) -> REntry {
    REntry {
        folder: folder.to_string(),
        filename: filename.to_string(),
        is_file: true,
        size,
        created_at: 100,
        modified_at: 200,
    }
}

fn dir(folder: &str, filename: &str) -> REntry {
    REntry { is_file: false, ..file(folder, filename, 0) }
}

fn snapshot(db: &RDatabase) -> Vec<(i32, String, String, String, i32, bool, i32)> {
    db.files
        .iter()
        .map(|f| (f.id, f.uid.clone(), f.folder.clone(), f.filename.clone(), f.size, f.sync, f.updated_at))
        .collect()
}

#[test]
fn scan_tracks_regular_files_only() {
    let mut db = RDatabase::new();
    let entries = vec![dir("/root", "sub"), file("/root", "a.txt", 10), file("/root/sub", "b.txt", 20)];
    let added = sync_files_at(&mut db, &local(), &entries, 1234);
    assert_eq!(added.len(), 2);
    assert_eq!(added[0].filename, "a.txt");
    assert_eq!(added[0].uid, RFile::calc_uid("/root/a.txt"));
    assert_eq!(added[0].status, "READY");
    assert_eq!(added[0].updated_at, 1234);
    assert_eq!(added[1].folder, "/root/sub");
    assert_eq!(added[1].uid, RFile::calc_uid("/root/sub/b.txt"));
    assert_eq!(db.files.len(), 2);
    let again = sync_files(&mut db, &local(), &entries);
    assert!(again.is_empty());
    assert_eq!(db.files.len(), 2);
}

#[test]
fn exists_goes_by_the_whole_path() {
    let entries = vec![dir("/root", "sub"), file("/root", "a.txt", 10)];
    assert!(exists_on_disk(&entries, "/root/a.txt"));
    assert!(exists_on_disk(&entries, "/root/sub"));
    assert!(!exists_on_disk(&entries, "/root/a"));
    assert!(!exists_on_disk(&entries, "/root"));
    assert!(!exists_on_disk(&vec![], "/root/a.txt"));
}

#[test]
fn a_second_scan_changes_nothing() {
    let mut db = RDatabase::new();
    NewRFile::describe(&local(), &file("/gone", "x", 1), 5).save(&mut db).unwrap();
    let entries = vec![file("/root", "a.txt", 10), dir("/root", "d"), file("/root/d", "b", 0)];
    let added = scan_at(&mut db, &local(), &entries, 1000);
    assert_eq!(added.len(), 2);
    let once = snapshot(&db);
    assert_eq!(once.len(), 2);
    assert_eq!(once[0].0, 2);
    assert_eq!(once[1].0, 3);
    let next_id = db.files_next_id;
    assert!(scan_at(&mut db, &local(), &entries, 2000).is_empty());
    assert_eq!(snapshot(&db), once);
    assert_eq!(db.files_next_id, next_id);
    scan_at(&mut db, &local(), &entries, 3000);
    assert_eq!(snapshot(&db), once);
}

#[test]
fn a_missing_file_is_forgotten_and_stays_forgotten() {
    let mut db = RDatabase::new();
    let both = vec![file("/root", "a.txt", 10), file("/root", "b.txt", 20)];
    scan_at(&mut db, &local(), &both, 1);
    assert_eq!(db.files.len(), 2);
    let only_b = vec![file("/root", "b.txt", 20)];
    assert_eq!(prune(&mut db, &only_b), 1);
    assert_eq!(db.files.len(), 1);
    assert_eq!(db.files[0].filename, "b.txt");
    scan_at(&mut db, &local(), &only_b, 2);
    assert_eq!(db.files.len(), 1);
    assert!(RFile::from_entry(&db, "/root/a.txt").is_none());
    scan_at(&mut db, &local(), &only_b, 3);
    assert!(RFile::from_entry(&db, "/root/a.txt").is_none());
    scan_at(&mut db, &local(), &both, 4);
    let back = RFile::from_entry(&db, "/root/a.txt").unwrap();
    assert_eq!(back.id, 3);
    assert_eq!(back.updated_at, 4);
    assert_eq!(db.files.len(), 2);
}

#[test]
fn scan_at_the_current_time() {
    let mut db = RDatabase::new();
    NewRFile::describe(&local(), &file("/gone", "x", 1), 5).save(&mut db).unwrap();
    let added = scan(&mut db, &local(), &vec![file("/root", "a.txt", 10)]);
    assert_eq!(added.len(), 1);
    assert_eq!(added[0].filename, "a.txt");
    assert_eq!(added[0].id, 2);
    assert_eq!(db.files.len(), 1);
    assert_eq!(db.files[0].filename, "a.txt");
    assert!(db.files[0].updated_at > 1_600_000_000);
    let once = snapshot(&db);
    let again = scan(&mut db, &local(), &vec![file("/root", "a.txt", 10)]);
    assert!(again.is_empty());
    assert_eq!(snapshot(&db), once);
}

#[test]
fn init_sync_creates_the_local_node() {
    let mut db = RDatabase::new();
    let entries = vec![file("/root", "a.txt", 10)];
    assert!(init_sync(&mut db, &entries));
    let local = RNode::get_local(&db).unwrap();
    assert_eq!(local.host, "0.0.0.0");
    assert_eq!(local.port, 4000);
    assert_eq!(db.files.len(), 1);
    assert_eq!(db.files[0].node, local.uid);
    assert!(init_sync(&mut db, &entries));
    assert_eq!(db.nodes.len(), 1);
    assert_eq!(db.files.len(), 1);
    assert!(init_sync(&mut db, &vec![]));
    assert!(db.files.is_empty());
    assert!(db.messages_outgoing.is_empty());
}

#[test]
fn a_full_table_takes_no_more_files() {
    let mut db = RDatabase::new();
    db.files_next_id = i32::MAX - 1;
    let entries = vec![file("/r", "a", 1), file("/r", "b", 1), file("/r", "c", 1)];
    let added = sync_files_at(&mut db, &local(), &entries, 9);
    assert_eq!(added.len(), 1);
    assert_eq!(added[0].filename, "a");
    assert_eq!(db.files_next_id, i32::MAX);
    scan_at(&mut db, &local(), &entries, 10);
    assert_eq!(db.files.len(), 1);
}
