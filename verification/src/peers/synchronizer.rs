use vstd::prelude::*;
use vstd::string::*;
use crate::models::files::{
    found, joined, uid_of, NewRFile, NewRFileView, REntry, REntryView, RFile, RFileView,
};
use crate::models::nodes::{with_local, RNode};
use crate::models::utils::ambient::unix_now;
use crate::models::utils::scan::first_of;
use crate::models::utils::text::same_text;
use crate::schema::{files_view, RDatabase, RDatabaseView, RFileTableView};

verus! {

/// What was found in and around the watched folder, as plain values.
pub open spec fn entries_view(entries: Seq<REntry>) -> Seq<REntryView> {
    entries.map_values(|e: REntry| e@)
}

/// Whether a path is among the entries.
pub open spec fn on_disk(entries: Seq<REntryView>, path: Seq<char>) -> bool {
    exists|i: int| 0 <= i < entries.len() && (#[trigger] entries[i]).path() == path
}

/// The test that a tracked file is still on disk.
pub open spec fn present(entries: Seq<REntryView>) -> spec_fn(RFileView) -> bool {
    |f: RFileView| on_disk(entries, joined(f.folder, f.filename))
}

/// The table without the files that are gone from disk.
pub open spec fn pruned(table: RFileTableView, entries: Seq<REntryView>) -> RFileTableView {
    RFileTableView { rows: table.rows.filter(present(entries)), next_id: table.next_id }
}

/// The table after each regular file among the entries, in their order, was
/// saved as a file of `node` seen at the time `now`; an entry whose uid is
/// tracked already adds nothing.
pub open spec fn added(table: RFileTableView, entries: Seq<REntryView>, node: Seq<char>, now: u64) -> RFileTableView
    decreases entries.len(),
{
    if entries.len() == 0 {
        table
    } else {
        let before = added(table, entries.drop_last(), node, now);
        if entries.last().is_file {
            before.saved(entries.last().descriptor(node, now))
        } else {
            before
        }
    }
}

/// The table after a full scan: first the files that are gone are taken
/// out, then those that are new are added.
pub open spec fn scanned(table: RFileTableView, entries: Seq<REntryView>, node: Seq<char>, now: u64) -> RFileTableView {
    added(pruned(table, entries), entries, node, now)
}

/// Whether `after` is what a full scan for `node`, at some time, makes of
/// `table`.
pub open spec fn scan_of(
    table: RFileTableView,
    entries: Seq<REntryView>,
    node: Seq<char>,
    after: RFileTableView,
) -> bool {
    exists|now: u64| after == #[trigger] scanned(table, entries, node, now)
}

/// Whether every row of a table is on disk.
pub open spec fn all_present(table: RFileTableView, entries: Seq<REntryView>) -> bool {
    forall|i: int| 0 <= i < table.rows.len() ==> present(entries)(#[trigger] table.rows[i])
}

/// Whether each of the first `k` entries that is a regular file is tracked,
/// or else the table is full.
pub open spec fn all_tracked(table: RFileTableView, entries: Seq<REntryView>, k: int) -> bool {
    forall|i: int|
        0 <= i < k && (#[trigger] entries[i]).is_file ==> table.tracks(uid_of(entries[i].path()))
            || !table.has_room()
}

/// Saving keeps the rows that are there, and leaves the file tracked unless
/// the table is full.
pub proof fn lemma_saved(table: RFileTableView, file: NewRFileView)
    ensures
        table.saved(file).tracks(file.uid) || !table.saved(file).has_room(),
        forall|uid: Seq<char>| table.tracks(uid) ==> table.saved(file).tracks(uid),
        !table.has_room() ==> !table.saved(file).has_room(),
        table.rows.len() <= table.saved(file).rows.len(),
        forall|i: int| 0 <= i < table.rows.len() ==> table.saved(file).rows[i] == table.rows[i],
{
    let after = table.saved(file);
    if !(table.tracks(file.uid) || !table.has_room()) {
        assert(after.rows[table.rows.len() as int].uid == file.uid);
        assert forall|uid: Seq<char>| table.tracks(uid) implies after.tracks(uid) by {
            let i = choose|i: int| 0 <= i < table.rows.len() && (#[trigger] table.rows[i]).uid == uid;
            assert(after.rows[i].uid == uid);
        }
    }
}

/// Where every row is on disk, nothing is pruned.
pub proof fn lemma_pruned_same(table: RFileTableView, entries: Seq<REntryView>)
    requires
        all_present(table, entries),
    ensures
        pruned(table, entries) == table,
    decreases table.rows.len(),
{
    reveal(Seq::filter);
    if table.rows.len() > 0 {
        let before = RFileTableView { rows: table.rows.drop_last(), next_id: table.next_id };
        assert forall|i: int| 0 <= i < before.rows.len() implies present(entries)(#[trigger] before.rows[i]) by {
            assert(before.rows[i] == table.rows[i]);
        }
        lemma_pruned_same(before, entries);
        assert(present(entries)(table.rows[table.rows.len() - 1]));
        assert(table.rows.drop_last().push(table.rows.last()) =~= table.rows);
    }
    assert(pruned(table, entries).rows =~= table.rows);
}

/// After pruning, every row is on disk.
pub proof fn lemma_pruned_present(table: RFileTableView, entries: Seq<REntryView>)
    ensures
        all_present(pruned(table, entries), entries),
{
    let after = pruned(table, entries);
    assert forall|i: int| 0 <= i < after.rows.len() implies present(entries)(#[trigger] after.rows[i]) by {
        table.rows.lemma_filter_pred(present(entries), i);
    }
}

/// Adding entries keeps every row on disk, and leaves each regular file
/// among them tracked unless the table is full.
pub proof fn lemma_added(table: RFileTableView, all: Seq<REntryView>, k: int, node: Seq<char>, now: u64)
    requires
        0 <= k <= all.len(),
        all_present(table, all),
    ensures
        all_present(added(table, all.take(k), node, now), all),
        all_tracked(added(table, all.take(k), node, now), all, k),
        !table.has_room() ==> !added(table, all.take(k), node, now).has_room(),
        forall|uid: Seq<char>| table.tracks(uid) ==> added(table, all.take(k), node, now).tracks(uid),
    decreases k,
{
    if k > 0 {
        let before = added(table, all.take(k - 1), node, now);
        let entry = all[k - 1];
        let after = added(table, all.take(k), node, now);
        assert(all.take(k).drop_last() =~= all.take(k - 1));
        assert(all.take(k).last() == entry);
        lemma_added(table, all, k - 1, node, now);
        if entry.is_file {
            let file = entry.descriptor(node, now);
            lemma_saved(before, file);
            assert forall|i: int| 0 <= i < after.rows.len() implies present(all)(#[trigger] after.rows[i]) by {
                if i < before.rows.len() {
                    assert(after.rows[i] == before.rows[i]);
                } else {
                    assert(after.rows[i] == file.row(before.next_id));
                    assert(all[k - 1].path() == joined(file.folder, file.filename));
                }
            }
            assert forall|i: int| 0 <= i < k && (#[trigger] all[i]).is_file implies after.tracks(
                uid_of(all[i].path()),
            ) || !after.has_room() by {
                if i < k - 1 {
                    assert(before.tracks(uid_of(all[i].path())) || !before.has_room());
                }
            }
        } else {
            assert forall|i: int| 0 <= i < k && (#[trigger] all[i]).is_file implies after.tracks(
                uid_of(all[i].path()),
            ) || !after.has_room() by {
                assert(i < k - 1);
            }
        }
    } else {
        assert(all.take(0) =~= Seq::<REntryView>::empty());
    }
}

/// Where each regular file among the entries is tracked, or the table is
/// full, adding them again changes nothing.
pub proof fn lemma_added_same(table: RFileTableView, all: Seq<REntryView>, k: int, node: Seq<char>, now: u64)
    requires
        0 <= k <= all.len(),
        all_tracked(table, all, k),
    ensures
        added(table, all.take(k), node, now) == table,
    decreases k,
{
    if k > 0 {
        assert(all.take(k).drop_last() =~= all.take(k - 1));
        assert(all.take(k).last() == all[k - 1]);
        lemma_added_same(table, all, k - 1, node, now);
        if all[k - 1].is_file {
            assert(table.tracks(uid_of(all[k - 1].path())) || !table.has_room());
        }
    } else {
        assert(all.take(0) =~= Seq::<REntryView>::empty());
    }
}

/// Idempotence: a second full scan of the same entries, whenever it is
/// made, leaves the table as the first left it.
pub proof fn lemma_scan_idempotent(
    table: RFileTableView,
    entries: Seq<REntryView>,
    node: Seq<char>,
    first: u64,
    second: u64,
)
    ensures
        scanned(scanned(table, entries, node, first), entries, node, second) == scanned(
            table,
            entries,
            node,
            first,
        ),
{
    let once = scanned(table, entries, node, first);
    lemma_pruned_present(table, entries);
    assert(entries.take(entries.len() as int) =~= entries);
    lemma_added(pruned(table, entries), entries, entries.len() as int, node, first);
    lemma_pruned_same(once, entries);
    lemma_added_same(once, entries, entries.len() as int, node, second);
}

/// After a full scan every tracked file is on disk: a file whose path is
/// not among the entries is not tracked, whenever the scan was made.
pub proof fn lemma_scan_tracks_present(table: RFileTableView, entries: Seq<REntryView>, node: Seq<char>, now: u64)
    ensures
        all_present(scanned(table, entries, node, now), entries),
{
    lemma_pruned_present(table, entries);
    assert(entries.take(entries.len() as int) =~= entries);
    lemma_added(pruned(table, entries), entries, entries.len() as int, node, now);
}

/// Whether a path is among the entries.
pub fn exists_on_disk(entries: &Vec<REntry>, path: &str) -> (r: bool)
    ensures
        r == on_disk(entries_view(entries@), path@),
{
    let mut i: usize = 0;
    while i < entries.len()
        invariant
            i <= entries.len(),
            forall|j: int| 0 <= j < i ==> (#[trigger] entries_view(entries@)[j]).path() != path@,
        decreases entries.len() - i,
    {
        let here = entries[i].path();
        if same_text(here.as_str(), path) {
            assert(entries_view(entries@)[i as int].path() == path@);
            return true;
        }
        i += 1;
    }
    false
}

/// Stops tracking the files that are gone from disk, and says how many
/// there were.
pub fn prune(conn: &mut RDatabase, entries: &Vec<REntry>) -> (r: usize)
    ensures
        final(conn)@ == (RDatabaseView {
            files: pruned(old(conn)@.files, entries_view(entries@)),
            ..old(conn)@
        }),
        r == old(conn)@.files.rows.len() - final(conn)@.files.rows.len(),
        old(conn)@.wf() ==> final(conn)@.wf(),
{
    proof {
        crate::models::files::lemma_kept(conn@.files, present(entries_view(entries@)));
    }
    let mut kept: Vec<RFile> = Vec::new();
    let mut i: usize = 0;
    let ghost keep = present(entries_view(entries@));
    proof {
        reveal(Seq::filter);
        assert(conn@.files.rows.take(0) =~= Seq::<RFileView>::empty());
        assert(files_view(kept@) =~= Seq::<RFileView>::empty());
    }
    while i < conn.files.len()
        invariant
            i <= conn.files.len(),
            keep == present(entries_view(entries@)),
            kept.len() <= i,
            files_view(kept@) == conn@.files.rows.take(i as int).filter(keep),
        decreases conn.files.len() - i,
    {
        let ghost before = kept@;
        proof {
            let all = conn@.files.rows;
            assert(all.take(i as int + 1) =~= all.take(i as int).push(all[i as int]));
            all.take(i as int).lemma_filter_push(all[i as int], keep);
        }
        let path = conn.files[i].abspath();
        if exists_on_disk(entries, path.as_str()) {
            let row = conn.files[i].clone();
            kept.push(row);
            assert(files_view(kept@) =~= files_view(before).push(row@));
        }
        i += 1;
    }
    assert(conn@.files.rows.take(conn.files.len() as int) =~= conn@.files.rows);
    let removed = conn.files.len() - kept.len();
    conn.files = kept;
    removed
}

/// Starts to track each regular file among the entries that is not tracked
/// yet, as a file of `local_node` seen at the time `now`, and gives the new
/// rows in the order of the entries.
pub fn sync_files_at(conn: &mut RDatabase, local_node: &RNode, entries: &Vec<REntry>, now: u64) -> (r: Vec<RFile>)
    ensures
        final(conn)@ == (RDatabaseView {
            files: added(old(conn)@.files, entries_view(entries@), local_node@.uid, now),
            ..old(conn)@
        }),
        final(conn)@.files.rows == old(conn)@.files.rows + files_view(r@),
        old(conn)@.wf() ==> final(conn)@.wf(),
{
    let mut new_files: Vec<RFile> = Vec::new();
    let mut i: usize = 0;
    let ghost all = entries_view(entries@);
    proof {
        assert(all.take(0) =~= Seq::<REntryView>::empty());
        assert(conn@.files.rows =~= old(conn)@.files.rows + files_view(new_files@));
    }
    while i < entries.len()
        invariant
            i <= entries.len(),
            all == entries_view(entries@),
            conn@ == (RDatabaseView {
                files: added(old(conn)@.files, all.take(i as int), local_node@.uid, now),
                ..old(conn)@
            }),
            conn@.files.rows == old(conn)@.files.rows + files_view(new_files@),
            old(conn)@.wf() ==> conn@.wf(),
        decreases entries.len() - i,
    {
        proof {
            assert(all.take(i as int + 1).drop_last() =~= all.take(i as int));
            assert(all.take(i as int + 1).last() == entries@[i as int]@);
        }
        if entries[i].is_file {
            let ghost before = new_files@;
            match NewRFile::describe(local_node, &entries[i], now).save(conn) {
                Ok(file) => {
                    new_files.push(file);
                    proof {
                        assert(files_view(new_files@) =~= files_view(before).push(file@));
                        assert(conn@.files.rows =~= old(conn)@.files.rows + files_view(new_files@));
                    }
                },
                Err(_) => {},
            }
        }
        i += 1;
    }
    assert(all.take(entries.len() as int) =~= all);
    new_files
}

/// Starts to track each regular file among the entries that is not tracked
/// yet, with the current time as the time of the last update.
pub fn sync_files(conn: &mut RDatabase, local_node: &RNode, entries: &Vec<REntry>) -> (r: Vec<RFile>)
    ensures
        exists|now: u64|
            final(conn)@ == (RDatabaseView {
                files: #[trigger] added(old(conn)@.files, entries_view(entries@), local_node@.uid, now),
                ..old(conn)@
            }),
        final(conn)@.files.rows == old(conn)@.files.rows + files_view(r@),
        old(conn)@.wf() ==> final(conn)@.wf(),
{
    let now = unix_now();
    sync_files_at(conn, local_node, entries, now)
}

/// A full scan for the node `local_node` at the time `now`: the files that
/// are gone from disk are taken out, and those that are new are added.
/// Gives the new rows in the order of the entries.
pub fn scan_at(conn: &mut RDatabase, local_node: &RNode, entries: &Vec<REntry>, now: u64) -> (r: Vec<RFile>)
    ensures
        final(conn)@ == (RDatabaseView {
            files: scanned(old(conn)@.files, entries_view(entries@), local_node@.uid, now),
            ..old(conn)@
        }),
        final(conn)@.files.rows == pruned(old(conn)@.files, entries_view(entries@)).rows + files_view(r@),
        old(conn)@.wf() ==> final(conn)@.wf(),
{
    prune(conn, entries);
    sync_files_at(conn, local_node, entries, now)
}

/// A full scan for the node `local_node` at the current time. Gives the new
/// rows in the order of the entries.
pub fn scan(conn: &mut RDatabase, local_node: &RNode, entries: &Vec<REntry>) -> (r: Vec<RFile>)
    ensures
        final(conn)@ == (RDatabaseView { files: final(conn)@.files, ..old(conn)@ }),
        scan_of(old(conn)@.files, entries_view(entries@), local_node@.uid, final(conn)@.files),
        final(conn)@.files.rows == pruned(old(conn)@.files, entries_view(entries@)).rows + files_view(r@),
        old(conn)@.wf() ==> final(conn)@.wf(),
{
    let now = unix_now();
    scan_at(conn, local_node, entries, now)
}

/// The first full scan: makes sure of the local node, which serves on
/// `0.0.0.0:4000` unless the store has one already, and scans for it at the
/// current time. Where there is no local node and none can be created, the
/// files stay as they are; in a store without nodes one can always be
/// created. Returns whether the scan was made.
pub fn init_sync(conn: &mut RDatabase, entries: &Vec<REntry>) -> (r: bool)
    ensures
        final(conn)@.messages_incoming == old(conn)@.messages_incoming,
        final(conn)@.messages_outgoing == old(conn)@.messages_outgoing,
        match first_of(final(conn)@.nodes, with_local(true)) {
            Some(local) => r && scan_of(
                old(conn)@.files,
                entries_view(entries@),
                local.uid,
                final(conn)@.files,
            ),
            None => !r && final(conn)@ == old(conn)@,
        },
        match first_of(old(conn)@.nodes, with_local(true)) {
            Some(local) => final(conn)@.nodes == old(conn)@.nodes,
            None => r ==> {
                &&& final(conn)@.nodes.len() == old(conn)@.nodes.len() + 1
                &&& final(conn)@.nodes.drop_last() == old(conn)@.nodes
                &&& final(conn)@.nodes.last().local
                &&& final(conn)@.nodes.last().host == "0.0.0.0"@
                &&& final(conn)@.nodes.last().port == 4000
            },
        },
        old(conn)@.nodes.len() == 0 ==> r,
        old(conn)@.wf() ==> final(conn)@.wf(),
{
    let local_node = RNode::get_local_or_create(conn, String::from_str("0.0.0.0"), 4000);
    match local_node {
        Some(node) => {
            let ghost mid = conn@;
            proof {
                let nodes = mid.nodes;
                if first_of(old(conn)@.nodes, with_local(true)) is None {
                    crate::models::utils::scan::lemma_first_of(old(conn)@.nodes, with_local(true));
                    assert forall|j: int| 0 <= j < nodes.len() - 1 implies !with_local(true)(
                        #[trigger] nodes[j],
                    ) by {
                        assert(nodes[j] == old(conn)@.nodes[j]);
                    }
                    assert(nodes[nodes.len() - 1] == node@);
                    assert(nodes.drop_last() =~= old(conn)@.nodes);
                    crate::models::utils::scan::lemma_first_found(nodes, with_local(true), nodes.len() - 1);
                }
                assert(first_of(mid.nodes, with_local(true)) == Some(node@));
                assert(mid.files == old(conn)@.files);
            }
            scan(conn, &node, entries);
            assert(conn@.nodes == mid.nodes);
            true
        },
        None => false,
    }
}

} // verus!
