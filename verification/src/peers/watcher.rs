use vstd::prelude::*;
use vstd::string::*;
use crate::models::files::{
    has_uid, save_error, uid_of, NewRFile, NewRFileView, REntry, REntryView, RFile,
};
use crate::models::nodes::{with_local, RNode, RNodeView};
use crate::models::queues::messages::{RMessageQueue, RQueueView};
use crate::models::queues::messages_outgoing::RMessageOutgoing;
use crate::models::utils::error::RDatabaseError;
use crate::models::utils::scan::first_of;
use crate::protocol::message::{RMessage, RMessageTrait, RMessageType, RMessageView};
use crate::protocol::wire::file_json;
use crate::schema::{nodes_view, RDatabase, RDatabaseView, RFileTableView};

verus! {

/// What the watcher saw happen under the folder.
#[derive(Debug)]
pub enum RWatchEvent {
    /// The data of the file at this path changed.
    DataChanged(String),
    /// A file was created; this is what is known of it.
    FileCreated(REntry),
    /// The file at this path was removed.
    FileRemoved(String),
    /// The folder at this path was removed.
    FolderRemoved(String),
    /// Anything else.
    Other,
}

/// What the watcher saw, as plain values.
pub enum RWatchEventView {
    DataChanged(Seq<char>),
    FileCreated(REntryView),
    FileRemoved(Seq<char>),
    FolderRemoved(Seq<char>),
    Other,
}

impl View for RWatchEvent {
    type V = RWatchEventView;

    open spec fn view(&self) -> RWatchEventView {
        match self {
            RWatchEvent::DataChanged(path) => RWatchEventView::DataChanged(path@),
            RWatchEvent::FileCreated(entry) => RWatchEventView::FileCreated(entry@),
            RWatchEvent::FileRemoved(path) => RWatchEventView::FileRemoved(path@),
            RWatchEvent::FolderRemoved(path) => RWatchEventView::FolderRemoved(path@),
            RWatchEvent::Other => RWatchEventView::Other,
        }
    }
}

/// What handling an event did.
#[derive(Debug)]
pub enum RWatchOutcome {
    /// The file is tracked now, and this many peers have a message about it
    /// in the outgoing queue.
    FileAdded { file: RFile, queued: usize },
    /// The file could not be saved.
    AddFailed(RDatabaseError),
    /// The file of this uid is no longer tracked.
    FileRemoved(String),
    /// No tracked file has the path that was removed.
    FileNotFound,
    /// The event asks for nothing.
    Ignored,
}

/// The message that tells the peers of a new file: its description, as
/// written, under the kind `FileAdded`.
pub open spec fn file_added(file: NewRFileView) -> RMessageView {
    RMessageView { kind: RMessageType::FileAdded, data: Some(file_json(file)) }
}

/// Whether `after` is `before` with one message for each of the first `k`
/// peers appended, in their order.
pub open spec fn fanned_out(
    before: RQueueView,
    after: RQueueView,
    peers: Seq<RNodeView>,
    message: RMessageView,
    k: int,
) -> bool {
    &&& 0 <= k <= peers.len()
    &&& after.next_id == before.next_id + k
    &&& after.rows.len() == before.rows.len() + k
    &&& forall|i: int| 0 <= i < before.rows.len() ==> (#[trigger] after.rows[i]) == before.rows[i]
    &&& forall|j: int|
        0 <= j < k ==> {
            let row = #[trigger] after.rows[before.rows.len() + j];
            &&& row.id == before.next_id + j
            &&& row.peer == peers[j].uid
            &&& row.message_type == message.kind.tag()
            &&& row.data == message.data
        }
}

/// How many messages a queue can still take.
pub open spec fn room(queue: RQueueView) -> int {
    i32::MAX - queue.next_id
}

/// Queues a message for every peer: every node of the store that is not
/// local, in the order of the store. Says how many were queued: all of
/// them, unless the queue runs out of ids, and then as many as it had room
/// for.
pub fn announce(conn: &mut RDatabase, message: &RMessage) -> (r: usize)
    ensures
        final(conn)@ == (RDatabaseView { messages_outgoing: final(conn)@.messages_outgoing, ..old(conn)@ }),
        fanned_out(
            old(conn)@.messages_outgoing,
            final(conn)@.messages_outgoing,
            old(conn)@.nodes.filter(with_local(false)),
            message@,
            r as int,
        ),
        r == old(conn)@.nodes.filter(with_local(false)).len() || r == room(old(conn)@.messages_outgoing),
        r <= room(old(conn)@.messages_outgoing),
        old(conn)@.wf() ==> final(conn)@.wf(),
{
    let peers = match RNode::get_others(conn) {
        Some(peers) => peers,
        None => Vec::new(),
    };
    let ghost all = nodes_view(peers@);
    let ghost before = conn@.messages_outgoing;
    let mut queued: usize = 0;
    let mut i: usize = 0;
    let mut full = false;
    while i < peers.len()
        invariant
            i <= peers.len(),
            all == nodes_view(peers@),
            all == old(conn)@.nodes.filter(with_local(false)),
            before == old(conn)@.messages_outgoing,
            conn@ == (RDatabaseView { messages_outgoing: conn@.messages_outgoing, ..old(conn)@ }),
            fanned_out(before, conn@.messages_outgoing, all, message@, queued as int),
            full ==> !conn@.messages_outgoing.has_room(),
            !full ==> queued == i,
            queued <= i,
            full ==> queued == room(before),
            queued <= room(before),
            old(conn)@.wf() ==> conn@.wf(),
        decreases peers.len() - i,
    {
        let ghost now = conn@.messages_outgoing;
        match RMessageOutgoing::push(conn, peers[i].uid.clone(), message.clone()) {
            Ok(row) => {
                proof {
                    let after = conn@.messages_outgoing;
                    assert(!full);
                    assert forall|j: int| 0 <= j < now.rows.len() implies (#[trigger] after.rows[j])
                        == now.rows[j] by {}
                    assert(after.rows[before.rows.len() + queued as int] == row@);
                    assert(all[i as int] == peers@[i as int]@);
                }
                queued += 1;
            },
            Err(_) => {
                full = true;
            },
        }
        i += 1;
    }
    queued
}

/// Handles one event of the watcher for the node `local_node`.
///
/// A created file is saved, with the current time as the time of its last
/// update, and where that succeeds every peer gets a `FileAdded` message
/// that carries its description. A removed file is looked up by the uid of
/// its path and, where it is tracked, taken out. Every other event asks for
/// nothing.
pub fn handle_event(conn: &mut RDatabase, local_node: &RNode, event: RWatchEvent) -> (r: RWatchOutcome)
    ensures
        match event@ {
            RWatchEventView::FileCreated(entry) => match r {
                RWatchOutcome::FileAdded { file, queued } => {
                    &&& !old(conn)@.files.tracks(uid_of(entry.path()))
                    &&& old(conn)@.files.has_room()
                    &&& exists|now: u64|
                        file@ == (#[trigger] entry.descriptor(local_node@.uid, now)).row(
                            old(conn)@.files.next_id,
                        )
                    &&& final(conn)@.files == (RFileTableView {
                        rows: old(conn)@.files.rows.push(file@),
                        next_id: (old(conn)@.files.next_id + 1) as i32,
                    })
                    &&& final(conn)@.nodes == old(conn)@.nodes
                    &&& final(conn)@.messages_incoming == old(conn)@.messages_incoming
                    &&& fanned_out(
                        old(conn)@.messages_outgoing,
                        final(conn)@.messages_outgoing,
                        old(conn)@.nodes.filter(with_local(false)),
                        file_added(file@.descriptor()),
                        queued as int,
                    )
                    &&& (queued == old(conn)@.nodes.filter(with_local(false)).len() || queued == room(
                        old(conn)@.messages_outgoing,
                    ))
                },
                RWatchOutcome::AddFailed(e) => {
                    &&& e == save_error(old(conn)@.files, uid_of(entry.path()))
                    &&& (old(conn)@.files.tracks(uid_of(entry.path())) || !old(conn)@.files.has_room())
                    &&& final(conn)@ == old(conn)@
                },
                _ => false,
            },
            RWatchEventView::FileRemoved(path) => match first_of(
                old(conn)@.files.rows,
                has_uid(uid_of(path)),
            ) {
                Some(file) => {
                    &&& r matches RWatchOutcome::FileRemoved(uid)
                    &&& uid@ == uid_of(path)
                    &&& final(conn)@ == (RDatabaseView {
                        files: old(conn)@.files.removed(uid_of(path)),
                        ..old(conn)@
                    })
                },
                None => r is FileNotFound && final(conn)@ == old(conn)@,
            },
            _ => r is Ignored && final(conn)@ == old(conn)@,
        },
        old(conn)@.wf() ==> final(conn)@.wf(),
{
    match event {
        RWatchEvent::FileCreated(entry) => {
            match NewRFile::from_entry(conn, local_node, &entry) {
                Ok(file) => {
                    let descriptor = NewRFile {
                        uid: file.uid.clone(),
                        node: file.node.clone(),
                        folder: file.folder.clone(),
                        filename: file.filename.clone(),
                        size: file.size,
                        status: file.status.clone(),
                        created_at: file.created_at,
                        modified_at: file.modified_at,
                        updated_at: file.updated_at,
                    };
                    let data = match descriptor.to_slice() {
                        Ok(data) => data,
                        Err(_) => Vec::new(),
                    };
                    let message = RMessage { _type: RMessageType::FileAdded, data: Some(data) };
                    let queued = announce(conn, &message);
                    RWatchOutcome::FileAdded { file, queued }
                },
                Err(e) => RWatchOutcome::AddFailed(e),
            }
        },
        RWatchEvent::FileRemoved(path) => {
            match RFile::from_entry(conn, path.as_str()) {
                Some(file) => {
                    proof {
                        crate::models::utils::scan::lemma_first_of(
                            conn@.files.rows,
                            has_uid(uid_of(path@)),
                        );
                    }
                    RFile::remove_from_uid(conn, &file.uid);
                    RWatchOutcome::FileRemoved(file.uid)
                },
                None => RWatchOutcome::FileNotFound,
            }
        },
        _ => RWatchOutcome::Ignored,
    }
}

} // verus!
