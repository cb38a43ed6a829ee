use vstd::prelude::*;
use vstd::string::*;
use crate::models::nodes::RNode;
use crate::models::utils::ambient::{column_of, to_column, unix_now};
use crate::models::utils::digest::{
    hex_upper, lemma_hex_injective, sha1_digest, sha1_of, to_hex_upper,
};
use crate::models::utils::error::{RDatabaseError, RStoreFailure};
use crate::models::utils::scan::{first_of, lemma_first_found, lemma_first_none};
use crate::schema::{files_view, RDatabase, RDatabaseView, RFileTableView};

verus! {

/// A tracked file, as a row of the file table.
#[derive(Debug)]
pub struct RFile {
    pub id: i32,
    pub uid: String,
    pub node: String,
    pub folder: String,
    pub filename: String,
    pub size: i32,
    pub status: String,
    pub sync: bool,
    pub created_at: i32,
    pub modified_at: i32,
    pub updated_at: i32,
}

/// What a tracked file holds, as plain values.
pub struct RFileView {
    pub id: i32,
    pub uid: Seq<char>,
    pub node: Seq<char>,
    pub folder: Seq<char>,
    pub filename: Seq<char>,
    pub size: i32,
    pub status: Seq<char>,
    pub sync: bool,
    pub created_at: i32,
    pub modified_at: i32,
    pub updated_at: i32,
}

impl View for RFile {
    type V = RFileView;

    open spec fn view(&self) -> RFileView {
        RFileView {
            id: self.id,
            uid: self.uid@,
            node: self.node@,
            folder: self.folder@,
            filename: self.filename@,
            size: self.size,
            status: self.status@,
            sync: self.sync,
            created_at: self.created_at,
            modified_at: self.modified_at,
            updated_at: self.updated_at,
        }
    }
}

impl Clone for RFile {
    fn clone(&self) -> (r: RFile)
        ensures
            r@ == self@,
    {
        RFile {
            id: self.id,
            uid: self.uid.clone(),
            node: self.node.clone(),
            folder: self.folder.clone(),
            filename: self.filename.clone(),
            size: self.size,
            status: self.status.clone(),
            sync: self.sync,
            created_at: self.created_at,
            modified_at: self.modified_at,
            updated_at: self.updated_at,
        }
    }
}

/// The description of a file from which its row is created.
#[derive(Debug)]
pub struct NewRFile {
    pub uid: String,
    pub node: String,
    pub folder: String,
    pub filename: String,
    pub size: i32,
    pub status: String,
    pub created_at: i32,
    pub modified_at: i32,
    pub updated_at: i32,
}

/// What a file description holds, as plain values.
pub struct NewRFileView {
    pub uid: Seq<char>,
    pub node: Seq<char>,
    pub folder: Seq<char>,
    pub filename: Seq<char>,
    pub size: i32,
    pub status: Seq<char>,
    pub created_at: i32,
    pub modified_at: i32,
    pub updated_at: i32,
}

impl View for NewRFile {
    type V = NewRFileView;

    open spec fn view(&self) -> NewRFileView {
        NewRFileView {
            uid: self.uid@,
            node: self.node@,
            folder: self.folder@,
            filename: self.filename@,
            size: self.size,
            status: self.status@,
            created_at: self.created_at,
            modified_at: self.modified_at,
            updated_at: self.updated_at,
        }
    }
}

impl Clone for NewRFile {
    fn clone(&self) -> (r: NewRFile)
        ensures
            r@ == self@,
    {
        NewRFile {
            uid: self.uid.clone(),
            node: self.node.clone(),
            folder: self.folder.clone(),
            filename: self.filename.clone(),
            size: self.size,
            status: self.status.clone(),
            created_at: self.created_at,
            modified_at: self.modified_at,
            updated_at: self.updated_at,
        }
    }
}

impl NewRFileView {
    /// The row that the store makes of this description under the given id.
    /// A file is described when it is seen on disk, so the row starts in sync.
    pub open spec fn row(self, id: i32) -> RFileView {
        RFileView {
            id,
            uid: self.uid,
            node: self.node,
            folder: self.folder,
            filename: self.filename,
            size: self.size,
            status: self.status,
            sync: true,
            created_at: self.created_at,
            modified_at: self.modified_at,
            updated_at: self.updated_at,
        }
    }
}

impl RFileView {
    /// The description that this row was, or could have been, created from.
    pub open spec fn descriptor(self) -> NewRFileView {
        NewRFileView {
            uid: self.uid,
            node: self.node,
            folder: self.folder,
            filename: self.filename,
            size: self.size,
            status: self.status,
            created_at: self.created_at,
            modified_at: self.modified_at,
            updated_at: self.updated_at,
        }
    }
}

/// What is known of a path on disk when it is looked at: where it is, whether
/// it is a regular file, and its size and times in bytes and seconds.
#[derive(Debug)]
pub struct REntry {
    pub folder: String,
    pub filename: String,
    pub is_file: bool,
    pub size: u64,
    pub created_at: u64,
    pub modified_at: u64,
}

/// What is known of a path on disk, as plain values.
pub struct REntryView {
    pub folder: Seq<char>,
    pub filename: Seq<char>,
    pub is_file: bool,
    pub size: u64,
    pub created_at: u64,
    pub modified_at: u64,
}

impl View for REntry {
    type V = REntryView;

    open spec fn view(&self) -> REntryView {
        REntryView {
            folder: self.folder@,
            filename: self.filename@,
            is_file: self.is_file,
            size: self.size,
            created_at: self.created_at,
            modified_at: self.modified_at,
        }
    }
}

impl Clone for REntry {
    fn clone(&self) -> (r: REntry)
        ensures
            r@ == self@,
    {
        REntry {
            folder: self.folder.clone(),
            filename: self.filename.clone(),
            is_file: self.is_file,
            size: self.size,
            created_at: self.created_at,
            modified_at: self.modified_at,
        }
    }
}

impl REntryView {
    /// The path of the entry.
    pub open spec fn path(self) -> Seq<char> {
        joined(self.folder, self.filename)
    }

    /// The description of the entry as a file of `node`, looked at at the
    /// time `now`.
    pub open spec fn descriptor(self, node: Seq<char>, now: u64) -> NewRFileView {
        NewRFileView {
            uid: uid_of(self.path()),
            node,
            folder: self.folder,
            filename: self.filename,
            size: column_of(self.size),
            status: "READY"@,
            created_at: column_of(self.created_at),
            modified_at: column_of(self.modified_at),
            updated_at: column_of(now),
        }
    }
}

impl REntry {
    /// The path of the entry.
    pub fn path(&self) -> (r: String)
        ensures
            r@ == self@.path(),
    {
        RFile::get_abspath(self.folder.clone(), self.filename.clone())
    }
}

/// A file name appended to a folder: the name alone where it starts at the
/// root, else the folder, a separator unless the folder is empty or ends in
/// one, and the name.
pub open spec fn joined(folder: Seq<char>, filename: Seq<char>) -> Seq<char> {
    if filename.len() > 0 && filename[0] == '/' {
        filename
    } else if folder.len() == 0 || folder.last() == '/' {
        folder + filename
    } else {
        folder + seq!['/'] + filename
    }
}

/// The uid of a path: the SHA-1 digest of its UTF-8 bytes, in upper-case
/// hexadecimal.
pub open spec fn uid_of(path: Seq<char>) -> Seq<char> {
    hex_upper(sha1_digest(vstd::utf8::encode_utf8(path)))
}

/// One path has one uid; two paths have the same uid exactly when their
/// bytes have the same digest; and two paths have the same bytes only when
/// they are the same path.
pub proof fn lemma_uid_of_paths(first: Seq<char>, second: Seq<char>)
    ensures
        first == second ==> uid_of(first) == uid_of(second),
        uid_of(first) == uid_of(second) <==> sha1_digest(vstd::utf8::encode_utf8(first)) == sha1_digest(
            vstd::utf8::encode_utf8(second),
        ),
        vstd::utf8::encode_utf8(first) == vstd::utf8::encode_utf8(second) <==> first == second,
{
    if uid_of(first) == uid_of(second) {
        lemma_hex_injective(
            sha1_digest(vstd::utf8::encode_utf8(first)),
            sha1_digest(vstd::utf8::encode_utf8(second)),
        );
    }
    vstd::utf8::encode_utf8_decode_utf8(first);
    vstd::utf8::encode_utf8_decode_utf8(second);
}

/// The test that a file has the given uid.
pub open spec fn has_uid(uid: Seq<char>) -> spec_fn(RFileView) -> bool {
    |f: RFileView| f.uid == uid
}

/// The test that a file has another uid than the given one.
pub open spec fn other_uid(uid: Seq<char>) -> spec_fn(RFileView) -> bool {
    |f: RFileView| f.uid != uid
}

/// The row with its sync flag set.
pub open spec fn with_sync(row: RFileView, sync: bool) -> RFileView {
    RFileView { sync, ..row }
}

/// The rows after the sync flag of those of one uid was set.
pub open spec fn synced(rows: Seq<RFileView>, uid: Seq<char>, sync: bool) -> Seq<RFileView> {
    rows.map_values(
        |f: RFileView|
            if f.uid == uid {
                with_sync(f, sync)
            } else {
                f
            },
    )
}

/// What a lookup gave, as plain values.
pub open spec fn found(r: Option<RFile>) -> Option<RFileView> {
    match r {
        Some(file) => Some(file@),
        None => None,
    }
}

impl RFileTableView {
    /// Whether the table can take another row.
    pub open spec fn has_room(self) -> bool {
        self.next_id < i32::MAX
    }

    /// The table after a file was inserted.
    pub open spec fn inserted(self, file: NewRFileView) -> RFileTableView {
        RFileTableView { rows: self.rows.push(file.row(self.next_id)), next_id: (self.next_id + 1) as i32 }
    }

    /// The table without the rows of the given uid.
    pub open spec fn removed(self, uid: Seq<char>) -> RFileTableView {
        RFileTableView { rows: self.rows.filter(other_uid(uid)), next_id: self.next_id }
    }

    /// What saving a file does to the table: nothing where its uid is
    /// tracked already or the table is full.
    pub open spec fn saved(self, file: NewRFileView) -> RFileTableView {
        if self.tracks(file.uid) || !self.has_room() {
            self
        } else {
            self.inserted(file)
        }
    }
}

impl RFileTableView {
    /// The table with only the rows that pass a test.
    pub open spec fn kept(self, keep: spec_fn(RFileView) -> bool) -> RFileTableView {
        RFileTableView { rows: self.rows.filter(keep), next_id: self.next_id }
    }
}

/// Keeping some of the rows keeps the table well formed; the rows that stay
/// were there before, and pass the test.
pub proof fn lemma_kept(table: RFileTableView, keep: spec_fn(RFileView) -> bool)
    ensures
        table.wf() ==> table.kept(keep).wf(),
        forall|i: int| 0 <= i < table.kept(keep).rows.len() ==> keep(#[trigger] table.kept(keep).rows[i]),
        forall|i: int|
            0 <= i < table.kept(keep).rows.len() ==> table.rows.contains(#[trigger] table.kept(keep).rows[i]),
    decreases table.rows.len(),
{
    reveal(Seq::filter);
    let after = table.kept(keep).rows;
    if table.rows.len() > 0 {
        let before = RFileTableView { rows: table.rows.drop_last(), next_id: table.next_id };
        let kept = before.kept(keep).rows;
        let last = table.rows.last();
        lemma_kept(before, keep);
        assert(after == if keep(last) {
            kept.push(last)
        } else {
            kept
        });
        assert forall|i: int| 0 <= i < after.len() implies table.rows.contains(#[trigger] after[i]) by {
            let r = after[i];
            if i < kept.len() {
                assert(kept[i] == r);
                assert(before.rows.contains(kept[i]));
                let j = choose|j: int| 0 <= j < before.rows.len() && before.rows[j] == r;
                assert(table.rows[j] == r);
            } else {
                assert(table.rows[table.rows.len() - 1] == r);
            }
        }
        assert forall|i: int| 0 <= i < after.len() implies keep(#[trigger] after[i]) by {
            if i < kept.len() {
                assert(keep(kept[i]));
            }
        }
        if table.wf() {
            assert(before.wf()) by {
                assert forall|i: int| 0 <= i < before.rows.len() implies 1 <= (#[trigger] before.rows[i]).id
                    < before.next_id by {
                    assert(before.rows[i] == table.rows[i]);
                }
                assert forall|i: int, j: int| 0 <= i < j < before.rows.len() implies (
                #[trigger] before.rows[i]).id < (#[trigger] before.rows[j]).id by {
                    assert(before.rows[i] == table.rows[i]);
                    assert(before.rows[j] == table.rows[j]);
                }
                assert forall|i: int, j: int| 0 <= i < j < before.rows.len() implies (
                #[trigger] before.rows[i]).uid != (#[trigger] before.rows[j]).uid by {
                    assert(before.rows[i] == table.rows[i]);
                    assert(before.rows[j] == table.rows[j]);
                }
            }
            assert forall|i: int| 0 <= i < after.len() implies 1 <= (#[trigger] after[i]).id
                < table.next_id by {
                assert(table.rows.contains(after[i]));
                let j = choose|j: int| 0 <= j < table.rows.len() && table.rows[j] == after[i];
                assert(1 <= table.rows[j].id < table.next_id);
            }
            assert forall|i: int, j: int| 0 <= i < j < after.len() implies (#[trigger] after[i]).id < (
            #[trigger] after[j]).id && after[i].uid != after[j].uid by {
                if j < kept.len() {
                    assert(kept[i].id < kept[j].id);
                    assert(kept[i].uid != kept[j].uid);
                } else {
                    assert(kept[i] == after[i]);
                    assert(before.rows.contains(kept[i]));
                    let k = choose|k: int| 0 <= k < before.rows.len() && before.rows[k] == after[i];
                    assert(table.rows[k].id < table.rows[table.rows.len() - 1].id);
                    assert(table.rows[k].uid != table.rows[table.rows.len() - 1].uid);
                }
            }
        }
    }
}

/// Taking the rows of a uid out keeps the table well formed, and leaves the
/// uid untracked.
pub proof fn lemma_removed_wf(table: RFileTableView, uid: Seq<char>)
    ensures
        table.wf() ==> table.removed(uid).wf(),
        !table.removed(uid).tracks(uid),
{
    lemma_kept(table, other_uid(uid));
    assert(table.removed(uid) == table.kept(other_uid(uid)));
}

/// Inserting a file whose uid is new, into a table with room, keeps the
/// table well formed.
pub proof fn lemma_inserted_wf(table: RFileTableView, file: NewRFileView)
    requires
        table.wf(),
        table.has_room(),
        !table.tracks(file.uid),
    ensures
        table.inserted(file).wf(),
{
    let after = table.inserted(file);
    assert forall|i: int| 0 <= i < after.rows.len() implies 1 <= (#[trigger] after.rows[i]).id
        < after.next_id by {
        if i < table.rows.len() {
            assert(after.rows[i] == table.rows[i]);
        }
    }
    assert forall|i: int, j: int| 0 <= i < j < after.rows.len() implies (#[trigger] after.rows[i]).id < (
    #[trigger] after.rows[j]).id && after.rows[i].uid != after.rows[j].uid by {
        assert(after.rows[i] == table.rows[i]);
        if j < table.rows.len() {
            assert(after.rows[j] == table.rows[j]);
        }
    }
}

impl RFile {
    /// The path of a file named `filename` in `folder`.
    pub fn get_abspath(folder: String, filename: String) -> (r: String)
        ensures
            r@ == joined(folder@, filename@),
    {
        let name = filename.as_str();
        if name.unicode_len() > 0 && name.get_char(0) == '/' {
            return filename;
        }
        let n = folder.as_str().unicode_len();
        let mut path = folder;
        if n > 0 && path.as_str().get_char(n - 1) != '/' {
            path.append("/");
            proof {
                reveal_strlit("/");
                assert("/"@ =~= seq!['/']);
            }
        }
        path.append(name);
        path
    }

    /// Takes the files of the given uid out of the table, and says how
    /// many there were.
    pub fn remove_from_uid(conn: &mut RDatabase, search_uid: &String) -> (r: usize)
        ensures
            final(conn)@ == (RDatabaseView { files: old(conn)@.files.removed(search_uid@), ..old(conn)@ }),
            r == old(conn)@.files.rows.len() - final(conn)@.files.rows.len(),
            old(conn)@.wf() ==> final(conn)@.wf(),
    {
        let mut kept: Vec<RFile> = Vec::new();
        let mut i: usize = 0;
        let ghost keep = other_uid(search_uid@);
        proof {
            reveal(Seq::filter);
            assert(conn@.files.rows.take(0) =~= Seq::<RFileView>::empty());
            assert(files_view(kept@) =~= Seq::<RFileView>::empty());
        }
        while i < conn.files.len()
            invariant
                i <= conn.files.len(),
                keep == other_uid(search_uid@),
                kept.len() <= i,
                files_view(kept@) == conn@.files.rows.take(i as int).filter(keep),
            decreases conn.files.len() - i,
        {
            let ghost before = kept@;
            proof {
                let all = conn@.files.rows;
                assert(all.take(i as int + 1) =~= all.take(i as int).push(all[i as int]));
                all.take(i as int).lemma_filter_push(all[i as int], keep);
            }
            if conn.files[i].uid != *search_uid {
                let row = conn.files[i].clone();
                kept.push(row);
                assert(files_view(kept@) =~= files_view(before).push(row@));
            }
            i += 1;
        }
        proof {
            assert(conn@.files.rows.take(conn.files.len() as int) =~= conn@.files.rows);
            lemma_removed_wf(conn@.files, search_uid@);
        }
        let removed = conn.files.len() - kept.len();
        conn.files = kept;
        removed
    }

    /// The tracked file of a path: the one whose uid is the path's.
    pub fn from_entry(conn: &RDatabase, entry: &str) -> (r: Option<RFile>)
        ensures
            found(r) == first_of(conn@.files.rows, has_uid(uid_of(entry@))),
    {
        let entry_uid = RFile::calc_uid(entry);
        RFile::get_by_uid(conn, entry_uid)
    }

    /// The tracked file that a description names by its uid.
    pub fn from_new_rfile(conn: &RDatabase, file: NewRFile) -> (r: Option<RFile>)
        ensures
            found(r) == first_of(conn@.files.rows, has_uid(file@.uid)),
    {
        RFile::get_by_uid(conn, file.uid)
    }

    /// The first tracked file of the given uid.
    pub fn get_by_uid(conn: &RDatabase, file_uid: String) -> (r: Option<RFile>)
        ensures
            found(r) == first_of(conn@.files.rows, has_uid(file_uid@)),
    {
        let mut i: usize = 0;
        while i < conn.files.len()
            invariant
                i <= conn.files.len(),
                forall|j: int| 0 <= j < i ==> !has_uid(file_uid@)(#[trigger] conn@.files.rows[j]),
            decreases conn.files.len() - i,
        {
            if conn.files[i].uid == file_uid {
                proof {
                    lemma_first_found(conn@.files.rows, has_uid(file_uid@), i as int);
                }
                return Some(conn.files[i].clone());
            }
            i += 1;
        }
        proof {
            lemma_first_none(conn@.files.rows, has_uid(file_uid@));
        }
        None
    }

    /// Every tracked file, in the order of insertion. Always `Ok`.
    pub fn get_all(conn: &RDatabase) -> (r: Result<Vec<RFile>, ()>)
        ensures
            r is Ok,
            files_view(r.unwrap()@) == conn@.files.rows,
    {
        let mut all: Vec<RFile> = Vec::new();
        let mut i: usize = 0;
        while i < conn.files.len()
            invariant
                i <= conn.files.len(),
                files_view(all@) == conn@.files.rows.take(i as int),
            decreases conn.files.len() - i,
        {
            let ghost before = all@;
            let file = conn.files[i].clone();
            all.push(file);
            assert(files_view(all@) =~= files_view(before).push(file@));
            assert(conn@.files.rows.take(i as int + 1) =~= conn@.files.rows.take(i as int).push(
                conn@.files.rows[i as int],
            ));
            i += 1;
        }
        assert(conn@.files.rows.take(conn.files.len() as int) =~= conn@.files.rows);
        Ok(all)
    }

    /// The uid of a path.
    pub fn calc_uid(entry: &str) -> (r: String)
        ensures
            r@ == uid_of(entry@),
    {
        let digest = sha1_of(entry.as_bytes());
        to_hex_upper(&digest)
    }

    /// The path of this file.
    pub fn abspath(&self) -> (r: String)
        ensures
            r@ == joined(self@.folder, self@.filename),
    {
        RFile::get_abspath(self.folder.clone(), self.filename.clone())
    }

    /// Records whether this file was found on disk: sets the sync flag of
    /// this value and of the rows of its uid to `path_exists`, and says how
    /// many rows there were. Always `Ok`.
    pub fn check_sync(&mut self, conn: &mut RDatabase, path_exists: bool) -> (r: Result<usize, RDatabaseError>)
        ensures
            final(self)@ == with_sync(old(self)@, path_exists),
            final(conn)@ == (RDatabaseView {
                files: RFileTableView {
                    rows: synced(old(conn)@.files.rows, old(self)@.uid, path_exists),
                    next_id: old(conn)@.files.next_id,
                },
                ..old(conn)@
            }),
            r is Ok,
            r.unwrap() == old(conn)@.files.rows.filter(has_uid(old(self)@.uid)).len(),
            old(conn)@.wf() ==> final(conn)@.wf(),
    {
        let mut count: usize = 0;
        let mut i: usize = 0;
        let ghost rows = conn@.files.rows;
        proof {
            reveal(Seq::filter);
            assert(rows.take(0) =~= Seq::<RFileView>::empty());
        }
        while i < conn.files.len()
            invariant
                i <= conn.files.len(),
                conn.files.len() == rows.len(),
                count <= i,
                count == rows.take(i as int).filter(has_uid(self@.uid)).len(),
                forall|j: int| 0 <= j < i ==> (#[trigger] conn@.files.rows[j]) == synced(rows, self@.uid, path_exists)[j],
                forall|j: int| i <= j < rows.len() ==> (#[trigger] conn@.files.rows[j]) == rows[j],
                conn@.files.next_id == old(conn)@.files.next_id,
                conn@.nodes == old(conn)@.nodes,
                conn@.messages_incoming == old(conn)@.messages_incoming,
                conn@.messages_outgoing == old(conn)@.messages_outgoing,
            decreases conn.files.len() - i,
        {
            let ghost before = conn@.files.rows;
            proof {
                assert(rows.take(i as int + 1) =~= rows.take(i as int).push(rows[i as int]));
                rows.take(i as int).lemma_filter_push(rows[i as int], has_uid(self@.uid));
                assert(before[i as int] == rows[i as int]);
                assert(before[i as int] == conn.files@[i as int]@);
            }
            if conn.files[i].uid == self.uid {
                let mut row = conn.files[i].clone();
                row.sync = path_exists;
                conn.files.set(i, row);
                proof {
                    assert(conn@.files.rows[i as int] == with_sync(rows[i as int], path_exists));
                    assert forall|j: int| 0 <= j < rows.len() && j != i implies (
                    #[trigger] conn@.files.rows[j]) == before[j] by {}
                }
                count += 1;
            }
            proof {
                assert(conn@.files.rows[i as int] == synced(rows, self@.uid, path_exists)[i as int]);
                assert forall|j: int| 0 <= j < i + 1 implies (#[trigger] conn@.files.rows[j]) == synced(
                    rows,
                    self@.uid,
                    path_exists,
                )[j] by {
                    if j < i {
                        assert(conn@.files.rows[j] == before[j]);
                    }
                }
                assert forall|j: int| i + 1 <= j < rows.len() implies (#[trigger] conn@.files.rows[j])
                    == rows[j] by {
                    assert(conn@.files.rows[j] == before[j]);
                }
            }
            i += 1;
        }
        self.sync = path_exists;
        proof {
            assert(rows.take(rows.len() as int) =~= rows);
            let after = synced(rows, old(self)@.uid, path_exists);
            assert(conn@.files.rows =~= after);
            if old(conn)@.wf() {
                assert forall|a: int| 0 <= a < after.len() implies (#[trigger] after[a]).id == rows[a].id
                    && after[a].uid == rows[a].uid by {}
                assert(conn@.files.wf());
            }
        }
        Ok(count)
    }

    /// Reads this file again from the table, by its uid, and hands it back.
    /// Fails with `EntryNotExists`, leaving the value as it is, exactly when
    /// no row has that uid.
    pub fn refresh(&mut self, conn: &RDatabase) -> (r: Result<&mut RFile, RDatabaseError>)
        ensures
            match r {
                Ok(file) => {
                    &&& Some(file@) == first_of(conn@.files.rows, has_uid(old(self)@.uid))
                    &&& *final(self) == *final(file)
                },
                Err(e) => {
                    &&& e == RDatabaseError::EntryNotExists
                    &&& first_of(conn@.files.rows, has_uid(old(self)@.uid)) is None
                    &&& final(self)@ == old(self)@
                },
            },
    {
        match RFile::get_by_uid(conn, self.uid.clone()) {
            Some(row) => {
                *self = row;
                Ok(self)
            },
            None => Err(RDatabaseError::EntryNotExists),
        }
    }
}

impl NewRFile {
    /// The description of an entry as a file of `node`, looked at at the
    /// time `now`.
    pub fn describe(node: &RNode, entry: &REntry, now: u64) -> (r: NewRFile)
        ensures
            r@ == entry@.descriptor(node@.uid, now),
    {
        let path = entry.path();
        NewRFile {
            uid: RFile::calc_uid(path.as_str()),
            node: node.uid.clone(),
            folder: entry.folder.clone(),
            filename: entry.filename.clone(),
            size: to_column(entry.size),
            status: String::from_str("READY"),
            created_at: to_column(entry.created_at),
            modified_at: to_column(entry.modified_at),
            updated_at: to_column(now),
        }
    }

    /// Starts to track an entry as a file of `node`, with the current time
    /// as the time of the last update. Fails, changing nothing, as `save`
    /// does.
    pub fn from_entry(conn: &mut RDatabase, node: &RNode, entry: &REntry) -> (r: Result<RFile, RDatabaseError>)
        ensures
            match r {
                Ok(file) => {
                    &&& !old(conn)@.files.tracks(uid_of(entry@.path()))
                    &&& old(conn)@.files.has_room()
                    &&& exists|now: u64|
                        file@ == (#[trigger] entry@.descriptor(node@.uid, now)).row(old(conn)@.files.next_id)
                    &&& final(conn)@ == (RDatabaseView {
                        files: RFileTableView {
                            rows: old(conn)@.files.rows.push(file@),
                            next_id: (old(conn)@.files.next_id + 1) as i32,
                        },
                        ..old(conn)@
                    })
                },
                Err(e) => {
                    &&& e == save_error(old(conn)@.files, uid_of(entry@.path()))
                    &&& (old(conn)@.files.tracks(uid_of(entry@.path())) || !old(conn)@.files.has_room())
                    &&& final(conn)@ == old(conn)@
                },
            },
            old(conn)@.wf() ==> final(conn)@.wf(),
    {
        let now = unix_now();
        NewRFile::describe(node, entry, now).save(conn)
    }

    /// The tracked file that this description names by its uid.
    pub fn to_rfile(self, conn: &RDatabase) -> (r: Option<RFile>)
        ensures
            found(r) == first_of(conn@.files.rows, has_uid(self@.uid)),
    {
        RFile::from_new_rfile(conn, self)
    }

    /// Inserts the file and returns its row. Fails, changing nothing, with
    /// the store's `UniqueViolation` exactly when a file of the same uid is
    /// tracked already, and else with the store's `Full` exactly when the
    /// table has handed out its last id.
    pub fn save(self, conn: &mut RDatabase) -> (r: Result<RFile, RDatabaseError>)
        ensures
            match r {
                Ok(file) => {
                    &&& !old(conn)@.files.tracks(self@.uid)
                    &&& old(conn)@.files.has_room()
                    &&& file@ == self@.row(old(conn)@.files.next_id)
                },
                Err(e) => {
                    &&& e == save_error(old(conn)@.files, self@.uid)
                    &&& (old(conn)@.files.tracks(self@.uid) || !old(conn)@.files.has_room())
                },
            },
            final(conn)@ == (RDatabaseView { files: old(conn)@.files.saved(self@), ..old(conn)@ }),
            old(conn)@.wf() ==> final(conn)@.wf(),
    {
        let mut i: usize = 0;
        while i < conn.files.len()
            invariant
                i <= conn.files.len(),
                forall|j: int| 0 <= j < i ==> (#[trigger] conn@.files.rows[j]).uid != self@.uid,
            decreases conn.files.len() - i,
        {
            if conn.files[i].uid == self.uid {
                assert(conn@.files.rows[i as int].uid == self@.uid);
                return Err(RDatabaseError::DieselResult(RStoreFailure::UniqueViolation));
            }
            i += 1;
        }
        if conn.files_next_id == i32::MAX {
            return Err(RDatabaseError::DieselResult(RStoreFailure::Full));
        }
        let id = conn.files_next_id;
        let row = RFile {
            id,
            uid: self.uid,
            node: self.node,
            folder: self.folder,
            filename: self.filename,
            size: self.size,
            status: self.status,
            sync: true,
            created_at: self.created_at,
            modified_at: self.modified_at,
            updated_at: self.updated_at,
        };
        let stored = row.clone();
        let ghost before = conn.files@;
        conn.files.push(row);
        conn.files_next_id = id + 1;
        proof {
            assert(files_view(conn.files@) =~= files_view(before).push(stored@));
            if old(conn)@.wf() {
                lemma_inserted_wf(old(conn)@.files, self@);
            }
        }
        Ok(stored)
    }
}

/// The error with which saving a file of the given uid fails.
pub open spec fn save_error(table: RFileTableView, uid: Seq<char>) -> RDatabaseError {
    if table.tracks(uid) {
        RDatabaseError::DieselResult(RStoreFailure::UniqueViolation)
    } else {
        RDatabaseError::DieselResult(RStoreFailure::Full)
    }
}

} // verus!
