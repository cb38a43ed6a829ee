use vstd::prelude::*;
use crate::models::queues::messages::{
    head_of, lemma_deleted_absent, lemma_deleted_wf, lemma_most_recent_is_row, remove_id, rows_view,
    top_of, RMessageQueue, RNewQueuedView, RQueueView, RQueued, RQueuedView,
};
use crate::models::utils::ambient::{new_uid, to_column, unix_now};
use crate::models::utils::error::{RDatabaseError, RStoreFailure};
use crate::models::utils::text::{copy_payload, payload_view};
use crate::protocol::message::{RMessage, RMessageType};
use crate::schema::{RDatabase, RDatabaseView};

verus! {

/// A row of the incoming queue: a message from the node `from`.
#[derive(Debug)]
pub struct RMessagesIncoming {
    pub id: i32,
    pub uid: String,
    pub message_type: String,
    pub data: Option<Vec<u8>>,
    pub from: String,
    pub created_at: i32,
}

impl View for RMessagesIncoming {
    type V = RQueuedView;

    open spec fn view(&self) -> RQueuedView {
        RQueuedView {
            id: self.id,
            uid: self.uid@,
            message_type: self.message_type@,
            data: payload_view(self.data),
            peer: self.from@,
            created_at: self.created_at,
        }
    }
}

impl Clone for RMessagesIncoming {
    fn clone(&self) -> (r: RMessagesIncoming)
        ensures
            r@ == self@,
    {
        RMessagesIncoming {
            id: self.id,
            uid: self.uid.clone(),
            message_type: self.message_type.clone(),
            data: copy_payload(&self.data),
            from: self.from.clone(),
            created_at: self.created_at,
        }
    }
}

impl RQueued for RMessagesIncoming {
    fn row_id(&self) -> (r: i32) {
        self.id
    }

    fn row_created_at(&self) -> (r: i32) {
        self.created_at
    }

    fn duplicate(&self) -> (r: RMessagesIncoming) {
        self.clone()
    }
}

/// An incoming message that is about to be queued: a row without its id.
#[derive(Debug)]
pub struct RNewMessagesIncoming {
    pub uid: String,
    pub message_type: String,
    pub data: Option<Vec<u8>>,
    pub from: String,
    pub created_at: i32,
}

impl View for RNewMessagesIncoming {
    type V = RNewQueuedView;

    open spec fn view(&self) -> RNewQueuedView {
        RNewQueuedView {
            uid: self.uid@,
            message_type: self.message_type@,
            data: payload_view(self.data),
            peer: self.from@,
            created_at: self.created_at,
        }
    }
}

impl Clone for RNewMessagesIncoming {
    fn clone(&self) -> (r: RNewMessagesIncoming)
        ensures
            r@ == self@,
    {
        RNewMessagesIncoming {
            uid: self.uid.clone(),
            message_type: self.message_type.clone(),
            data: copy_payload(&self.data),
            from: self.from.clone(),
            created_at: self.created_at,
        }
    }
}

impl RNewMessagesIncoming {
    /// The row for a message from the node `node_uid`, under the uid and the
    /// time that the caller drew.
    pub fn new(node_uid: String, message: RMessage, uid: String, created_at: i32) -> (r: RNewMessagesIncoming)
        ensures
            r@ == (RNewQueuedView {
                uid: uid@,
                message_type: message@.kind.tag(),
                data: message@.data,
                peer: node_uid@,
                created_at,
            }),
    {
        RNewMessagesIncoming {
            uid,
            message_type: message._type.to_string(),
            data: message.data,
            from: node_uid,
            created_at,
        }
    }

    /// Appends this message to the incoming queue and returns the row as
    /// stored. Fails with the store's `Full`, changing nothing, exactly when
    /// the queue has handed out its last id.
    pub fn save(self, conn: &mut RDatabase) -> (r: Result<RMessagesIncoming, RDatabaseError>)
        ensures
            match r {
                Ok(row) => {
                    &&& old(conn)@.messages_incoming.has_room()
                    &&& row@ == self@.row(old(conn)@.messages_incoming.next_id)
                    &&& final(conn)@ == (RDatabaseView {
                        messages_incoming: old(conn)@.messages_incoming.pushed(self@),
                        ..old(conn)@
                    })
                },
                Err(e) => {
                    &&& e == RDatabaseError::DieselResult(RStoreFailure::Full)
                    &&& !old(conn)@.messages_incoming.has_room()
                    &&& final(conn)@ == old(conn)@
                },
            },
            old(conn)@.wf() ==> final(conn)@.wf(),
    {
        if conn.messages_incoming_next_id == i32::MAX {
            return Err(RDatabaseError::DieselResult(RStoreFailure::Full));
        }
        let id = conn.messages_incoming_next_id;
        let row = RMessagesIncoming {
            id,
            uid: self.uid,
            message_type: self.message_type,
            data: self.data,
            from: self.from,
            created_at: self.created_at,
        };
        let stored = row.clone();
        let ghost before = conn.messages_incoming@;
        conn.messages_incoming.push(row);
        conn.messages_incoming_next_id = id + 1;
        proof {
            assert(rows_view(conn.messages_incoming@) =~= rows_view(before).push(stored@));
        }
        Ok(stored)
    }
}

impl RMessageQueue<RMessagesIncoming> for RMessagesIncoming {
    open spec fn queue(db: RDatabaseView) -> RQueueView {
        db.messages_incoming
    }

    open spec fn with_queue(db: RDatabaseView, queue: RQueueView) -> RDatabaseView {
        RDatabaseView { messages_incoming: queue, ..db }
    }

    open spec fn id_of(&self) -> i32 {
        self.id
    }

    open spec fn row_of(&self) -> RQueuedView {
        self@
    }

    fn push(conn: &mut RDatabase, node_uid: String, message: RMessage) -> (r: Result<
        RMessagesIncoming,
        RDatabaseError,
    >)
    {
        let uid = new_uid();
        let created_at = to_column(unix_now());
        RNewMessagesIncoming::new(node_uid, message, uid, created_at).save(conn)
    }

    fn last(conn: &RDatabase) -> (r: Option<RMessagesIncoming>) {
        head_of(&conn.messages_incoming)
    }

    fn last_n(conn: &RDatabase, n: usize) -> (r: Option<Vec<RMessagesIncoming>>) {
        Some(top_of(&conn.messages_incoming, n))
    }

    fn delete_by_id(conn: &mut RDatabase, id: i32) -> (r: Result<(), RDatabaseError>)
    {
        proof {
            lemma_deleted_wf(conn@.messages_incoming, id);
            if !conn@.messages_incoming.has_id(id) {
                lemma_deleted_absent(conn@.messages_incoming, id);
            }
        }
        if remove_id(&mut conn.messages_incoming, id) {
            Ok(())
        } else {
            Err(RDatabaseError::EntryNotDeleted)
        }
    }

    fn delete(&self, conn: &mut RDatabase) -> (r: Result<(), RDatabaseError>)
    {
        RMessagesIncoming::delete_by_id(conn, self.id)
    }

    fn pop(conn: &mut RDatabase) -> (r: Result<RMessagesIncoming, RDatabaseError>)
    {
        proof {
            lemma_most_recent_is_row(conn@.messages_incoming);
        }
        match RMessagesIncoming::last(conn) {
            Some(message) => {
                match message.delete(conn) {
                    Ok(_) => Ok(message),
                    Err(e) => Err(e),
                }
            },
            None => Err(RDatabaseError::EntryNotExists),
        }
    }

    fn to_message(&self) -> (r: Option<RMessage>) {
        match RMessageType::from_tag(self.message_type.as_str()) {
            Some(kind) => Some(RMessage { _type: kind, data: copy_payload(&self.data) }),
            None => None,
        }
    }
}

} // verus!
