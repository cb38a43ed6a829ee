use raidx::models::files::{NewRFile, REntry, RFile};
use raidx::models::nodes::RNode;
use raidx::models::utils::ambient::to_column;
use raidx::models::utils::digest::to_hex_upper;
use raidx::models::utils::error::{RDatabaseError, RStoreFailure};
use raidx::schema::RDatabase;

fn local() -> RNode {
    RNode { uid: "node-1".to_string(), host: "0.0.0.0".to_string(), port: 4000, local: true }
}

fn entry(folder: &str, filename: &str, size: u64) -> REntry {
    REntry {
        folder: folder.to_string(),
        filename: filename.to_string(),
        is_file: true,
        size,
        created_at: 1_700_000_000,
        modified_at: 1_700_000_100,
    }
}

fn descriptor(uid: &str) -> NewRFile {
    NewRFile {
        uid: uid.to_string(),
        node: "node-1".to_string(),
        folder: "/root".to_string(),
        filename: "a.txt".to_string(),
        size: 10,
        status: "READY".to_string(),
        created_at: 1,
        modified_at: 2,
        updated_at: 3,
    }
}

#[test]
fn uid_is_the_sha1_of_the_path_in_upper_hex() {
    assert_eq!(RFile::calc_uid("/root/a.txt"), "71E98BB3A75A67A45B12CC2346EE5547FC5BE621");
    assert_eq!(RFile::calc_uid("abc"), "A9993E364706816ABA3E25717850C26C9CD0D89D");
    assert_eq!(RFile::calc_uid(""), "DA39A3EE5E6B4B0D3255BFEF95601890AFD80709");
    assert_eq!(RFile::calc_uid("hello world"), "2AAE6C35C94FCFB415DBE95F408B9CE91EE846ED");
    assert_eq!(RFile::calc_uid("/tmp/ü.txt"), "2E8395E40EC006AF912F903E9410934C7A168D8A");
}

#[test]
fn uid_is_stable_and_tells_paths_apart() {
    assert_eq!(RFile::calc_uid("/root/a.txt"), RFile::calc_uid("/root/a.txt"));
    assert_ne!(RFile::calc_uid("/root/a.txt"), RFile::calc_uid("/root/b.txt"));
    assert_ne!(RFile::calc_uid("/root/a.txt"), RFile::calc_uid("/root/a.txt "));
    assert_eq!(RFile::calc_uid("/root/a.txt").len(), 40);
}

#[test]
fn hex_is_two_upper_case_digits_a_byte() {
    assert_eq!(to_hex_upper(&vec![]), "");
    assert_eq!(to_hex_upper(&vec![0]), "00");
    assert_eq!(to_hex_upper(&vec![0x0a, 0x14, 0x1e]), "0A141E");
    assert_eq!(to_hex_upper(&vec![0xff, 0x10, 0x9c]), "FF109C");
}

#[test]
fn abspath_joins_folder_and_name() {
    assert_eq!(RFile::get_abspath("/root".to_string(), "a.txt".to_string()), "/root/a.txt");
    assert_eq!(RFile::get_abspath("/root/".to_string(), "a.txt".to_string()), "/root/a.txt");
    assert_eq!(RFile::get_abspath("/".to_string(), "a.txt".to_string()), "/a.txt");
    assert_eq!(RFile::get_abspath("".to_string(), "a.txt".to_string()), "a.txt");
    assert_eq!(RFile::get_abspath("/root".to_string(), "/etc/passwd".to_string()), "/etc/passwd");
    assert_eq!(RFile::get_abspath("/root".to_string(), "".to_string()), "/root/");
    assert_eq!(RFile::get_abspath("rel/dir".to_string(), "sub/a".to_string()), "rel/dir/sub/a");
    assert_eq!(RFile::get_abspath("/ö".to_string(), "é".to_string()), "/ö/é");
}

#[test]
fn abspath_is_what_std_joins() {
    for (folder, name) in [("/root", "a.txt"), ("/root/", "a"), ("", "x"), ("/a", "/b"), ("/a", ""), ("a/b", "c/d")] {
        let expected = std::path::Path::new(folder).join(name).to_str().unwrap().to_string();
        assert_eq!(RFile::get_abspath(folder.to_string(), name.to_string()), expected);
    }
}

#[test]
fn column_keeps_the_low_32_bits() {
    assert_eq!(to_column(0), 0);
    assert_eq!(to_column(10), 10);
    assert_eq!(to_column(2_147_483_647), 2_147_483_647);
    assert_eq!(to_column(2_147_483_648), -2_147_483_648);
    assert_eq!(to_column(4_294_967_295), -1);
    assert_eq!(to_column(4_294_967_296), 0);
    assert_eq!(to_column(u64::MAX), -1);
}

#[test]
fn save_numbers_the_rows_and_reads_back() {
    let mut db = RDatabase::new();
    let a = descriptor("A").save(&mut db).unwrap();
    let b = descriptor("B").save(&mut db).unwrap();
    assert_eq!(a.id, 1);
    assert_eq!(b.id, 2);
    assert!(a.sync);
    assert_eq!(a.uid, "A");
    assert_eq!(a.node, "node-1");
    assert_eq!(a.folder, "/root");
    assert_eq!(a.filename, "a.txt");
    assert_eq!(a.size, 10);
    assert_eq!(a.status, "READY");
    assert_eq!((a.created_at, a.modified_at, a.updated_at), (1, 2, 3));
    assert_eq!(RFile::get_by_uid(&db, "B".to_string()).unwrap().id, 2);
    assert!(RFile::get_by_uid(&db, "C".to_string()).is_none());
    assert_eq!(RFile::from_new_rfile(&db, descriptor("A")).unwrap().id, 1);
    assert_eq!(descriptor("B").to_rfile(&db).unwrap().id, 2);
    assert!(descriptor("Z").to_rfile(&db).is_none());
    let all = RFile::get_all(&db).unwrap();
    assert_eq!(all.len(), 2);
    assert_eq!(all[0].uid, "A");
    assert_eq!(all[1].uid, "B");
}

#[test]
fn a_file_uid_is_tracked_once() {
    let mut db = RDatabase::new();
    descriptor("A").save(&mut db).unwrap();
    let again = descriptor("A").save(&mut db);
    assert_eq!(again.unwrap_err(), RDatabaseError::DieselResult(RStoreFailure::UniqueViolation));
    assert_eq!(db.files.len(), 1);
    assert_eq!(db.files_next_id, 2);
}

#[test]
fn a_full_table_refuses_a_file() {
    let mut db = RDatabase::new();
    db.files_next_id = i32::MAX;
    let r = descriptor("A").save(&mut db);
    assert_eq!(r.unwrap_err(), RDatabaseError::DieselResult(RStoreFailure::Full));
    assert!(db.files.is_empty());
}

#[test]
fn remove_from_uid_counts_what_it_removed() {
    let mut db = RDatabase::new();
    descriptor("A").save(&mut db).unwrap();
    descriptor("B").save(&mut db).unwrap();
    assert_eq!(RFile::remove_from_uid(&mut db, &"A".to_string()), 1);
    assert_eq!(RFile::remove_from_uid(&mut db, &"A".to_string()), 0);
    assert_eq!(db.files.len(), 1);
    assert_eq!(db.files[0].uid, "B");
    let c = descriptor("C").save(&mut db).unwrap();
    assert_eq!(c.id, 3);
}

#[test]
fn from_entry_tracks_a_file_on_disk() {
    let mut db = RDatabase::new();
    let file = NewRFile::from_entry(&mut db, &local(), &entry("/root", "a.txt", 10)).unwrap();
    assert_eq!(file.folder, "/root");
    assert_eq!(file.filename, "a.txt");
    assert_eq!(file.size, 10);
    assert_eq!(file.status, "READY");
    assert_eq!(file.node, "node-1");
    assert_eq!(file.uid, "71E98BB3A75A67A45B12CC2346EE5547FC5BE621");
    assert_eq!(file.created_at, 1_700_000_000);
    assert_eq!(file.modified_at, 1_700_000_100);
    assert!(file.updated_at > 1_600_000_000);
    assert!(file.sync);
    assert_eq!(file.abspath(), "/root/a.txt");
    assert_eq!(RFile::from_entry(&db, "/root/a.txt").unwrap().id, file.id);
    assert!(RFile::from_entry(&db, "/root/b.txt").is_none());
    let again = NewRFile::from_entry(&mut db, &local(), &entry("/root", "a.txt", 99));
    assert_eq!(again.unwrap_err(), RDatabaseError::DieselResult(RStoreFailure::UniqueViolation));
    assert_eq!(db.files.len(), 1);
    assert_eq!(db.files[0].size, 10);
}

#[test]
fn describe_narrows_sizes_and_times() {
    let e = REntry {
        folder: "/d".to_string(),
        filename: "big".to_string(),
        is_file: true,
        size: 4_294_967_306,
        created_at: 5,
        modified_at: 6,
    };
    let d = NewRFile::describe(&local(), &e, 7);
    assert_eq!(d.size, 10);
    assert_eq!((d.created_at, d.modified_at, d.updated_at), (5, 6, 7));
    assert_eq!(d.uid, RFile::calc_uid("/d/big"));
    assert_eq!(e.path(), "/d/big");
}

#[test]
fn check_sync_sets_the_flag_of_the_record() {
    let mut db = RDatabase::new();
    let mut a = descriptor("A").save(&mut db).unwrap();
    descriptor("B").save(&mut db).unwrap();
    assert_eq!(a.check_sync(&mut db, false).unwrap(), 1);
    assert!(!a.sync);
    assert!(!db.files[0].sync);
    assert!(db.files[1].sync);
    assert_eq!(a.check_sync(&mut db, true).unwrap(), 1);
    assert!(a.sync);
    assert!(db.files[0].sync);
    RFile::remove_from_uid(&mut db, &"A".to_string());
    assert_eq!(a.check_sync(&mut db, false).unwrap(), 0);
    assert!(!a.sync);
    assert!(db.files[0].sync);
}

#[test]
fn refresh_reads_the_row_again() {
    let mut db = RDatabase::new();
    let mut a = descriptor("A").save(&mut db).unwrap();
    let mut other = a.clone();
    other.check_sync(&mut db, false).unwrap();
    assert!(a.sync);
    a.size = 77;
    let again = a.refresh(&db).unwrap();
    assert_eq!(again.size, 10);
    again.size = 11;
    assert!(!a.sync);
    assert_eq!(a.size, 11);
    RFile::remove_from_uid(&mut db, &"A".to_string());
    a.size = 78;
    assert_eq!(a.refresh(&db).unwrap_err(), RDatabaseError::EntryNotExists);
    assert_eq!(a.size, 78);
}
