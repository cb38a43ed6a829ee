use vstd::prelude::*;
use crate::models::files::{RFile, RFileView};
use crate::models::nodes::{RNode, RNodeView};
use crate::models::queues::messages::{rows_view, RQueueView};
use crate::models::queues::messages_incoming::RMessagesIncoming;
use crate::models::queues::messages_outgoing::RMessageOutgoing;

verus! {

/// The file table as plain values: its rows in the order of insertion, and
/// the id that the next row will get.
pub struct RFileTableView {
    pub rows: Seq<RFileView>,
    pub next_id: i32,
}

impl RFileTableView {
    /// No two rows share a uid; ids are positive, were handed out in the
    /// order of insertion, and the next one is larger than all of them.
    pub open spec fn wf(self) -> bool {
        &&& 1 <= self.next_id
        &&& forall|i: int| 0 <= i < self.rows.len() ==> 1 <= (#[trigger] self.rows[i]).id < self.next_id
        &&& forall|i: int, j: int|
            0 <= i < j < self.rows.len() ==> (#[trigger] self.rows[i]).id < (#[trigger] self.rows[j]).id
        &&& forall|i: int, j: int|
            0 <= i < j < self.rows.len() ==> (#[trigger] self.rows[i]).uid != (#[trigger] self.rows[j]).uid
    }

    /// Whether a row has the given uid.
    pub open spec fn tracks(self, uid: Seq<char>) -> bool {
        exists|i: int| 0 <= i < self.rows.len() && (#[trigger] self.rows[i]).uid == uid
    }
}

/// No two nodes share a uid.
pub open spec fn nodes_wf(nodes: Seq<RNodeView>) -> bool {
    forall|i: int, j: int| 0 <= i < j < nodes.len() ==> (#[trigger] nodes[i]).uid != (#[trigger] nodes[j]).uid
}

/// The store as plain values.
pub struct RDatabaseView {
    pub nodes: Seq<RNodeView>,
    pub files: RFileTableView,
    pub messages_incoming: RQueueView,
    pub messages_outgoing: RQueueView,
}

impl RDatabaseView {
    /// Every table keeps its keys unique.
    pub open spec fn wf(self) -> bool {
        &&& nodes_wf(self.nodes)
        &&& self.files.wf()
        &&& self.messages_incoming.wf()
        &&& self.messages_outgoing.wf()
    }
}

/// The store: the four tables that the daemon keeps. Rows stand in the order
/// in which they were inserted.
pub struct RDatabase {
    pub nodes: Vec<RNode>,
    pub files: Vec<RFile>,
    pub files_next_id: i32,
    pub messages_incoming: Vec<RMessagesIncoming>,
    pub messages_incoming_next_id: i32,
    pub messages_outgoing: Vec<RMessageOutgoing>,
    pub messages_outgoing_next_id: i32,
}

/// The nodes of a table as plain values.
pub open spec fn nodes_view(rows: Seq<RNode>) -> Seq<RNodeView> {
    rows.map_values(|n: RNode| n@)
}

/// The files of a table as plain values.
pub open spec fn files_view(rows: Seq<RFile>) -> Seq<RFileView> {
    rows.map_values(|f: RFile| f@)
}

impl View for RDatabase {
    type V = RDatabaseView;

    open spec fn view(&self) -> RDatabaseView {
        RDatabaseView {
            nodes: nodes_view(self.nodes@),
            files: RFileTableView { rows: files_view(self.files@), next_id: self.files_next_id },
            messages_incoming: RQueueView {
                rows: rows_view(self.messages_incoming@),
                next_id: self.messages_incoming_next_id,
            },
            messages_outgoing: RQueueView {
                rows: rows_view(self.messages_outgoing@),
                next_id: self.messages_outgoing_next_id,
            },
        }
    }
}

impl RDatabase {
    /// A store with no rows, whose tables number their rows from 1.
    pub fn new() -> (db: RDatabase)
        ensures
            db@.wf(),
            db@.nodes.len() == 0,
            db@.files.rows.len() == 0,
            db@.files.next_id == 1,
            db@.messages_incoming.rows.len() == 0,
            db@.messages_incoming.next_id == 1,
            db@.messages_outgoing.rows.len() == 0,
            db@.messages_outgoing.next_id == 1,
    {
        RDatabase {
            nodes: Vec::new(),
            files: Vec::new(),
            files_next_id: 1,
            messages_incoming: Vec::new(),
            messages_incoming_next_id: 1,
            messages_outgoing: Vec::new(),
            messages_outgoing_next_id: 1,
        }
    }
}

} // verus!
