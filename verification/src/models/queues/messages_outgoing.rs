use vstd::prelude::*;
use crate::models::queues::messages::{
    head_of, lemma_deleted_absent, lemma_deleted_wf, lemma_most_recent_is_row, remove_id, rows_view,
    top_of, RMessageQueue, RNewQueuedView, RQueueView, RQueued, RQueuedView,
};
use crate::models::utils::ambient::{new_uid, to_column, unix_now};
use crate::models::utils::error::{RDatabaseError, RStoreFailure};
use crate::models::utils::text::{copy_payload, payload_view};
use crate::protocol::message::{RMessage, RMessageType};
use crate::schema::{RDatabase, RDatabaseView};

verus! {

/// A row of the outgoing queue: a message for the node `to`.
#[derive(Debug)]
pub struct RMessageOutgoing {
    pub id: i32,
    pub uid: String,
    pub message_type: String,
    pub data: Option<Vec<u8>>,
    pub to: String,
    pub created_at: i32,
}

impl View for RMessageOutgoing {
    type V = RQueuedView;

    open spec fn view(&self) -> RQueuedView {
        RQueuedView {
            id: self.id,
            uid: self.uid@,
            message_type: self.message_type@,
            data: payload_view(self.data),
            peer: self.to@,
            created_at: self.created_at,
        }
    }
}

impl Clone for RMessageOutgoing {
    fn clone(&self) -> (r: RMessageOutgoing)
        ensures
            r@ == self@,
    {
        RMessageOutgoing {
            id: self.id,
            uid: self.uid.clone(),
            message_type: self.message_type.clone(),
            data: copy_payload(&self.data),
            to: self.to.clone(),
            created_at: self.created_at,
        }
    }
}

impl RQueued for RMessageOutgoing {
    fn row_id(&self) -> (r: i32) {
        self.id
    }

    fn row_created_at(&self) -> (r: i32) {
        self.created_at
    }

    fn duplicate(&self) -> (r: RMessageOutgoing) {
        self.clone()
    }
}

/// An outgoing message that is about to be queued: a row without its id.
#[derive(Debug)]
pub struct RNewMessageOutgoing {
    pub uid: String,
    pub message_type: String,
    pub data: Option<Vec<u8>>,
    pub to: String,
    pub created_at: i32,
}

impl View for RNewMessageOutgoing {
    type V = RNewQueuedView;

    open spec fn view(&self) -> RNewQueuedView {
        RNewQueuedView {
            uid: self.uid@,
            message_type: self.message_type@,
            data: payload_view(self.data),
            peer: self.to@,
            created_at: self.created_at,
        }
    }
}

impl Clone for RNewMessageOutgoing {
    fn clone(&self) -> (r: RNewMessageOutgoing)
        ensures
            r@ == self@,
    {
        RNewMessageOutgoing {
            uid: self.uid.clone(),
            message_type: self.message_type.clone(),
            data: copy_payload(&self.data),
            to: self.to.clone(),
            created_at: self.created_at,
        }
    }
}

impl RNewMessageOutgoing {
    /// The row for a message to the node `node_uid`, under the uid and the
    /// time that the caller drew.
    pub fn new(node_uid: String, message: RMessage, uid: String, created_at: i32) -> (r: RNewMessageOutgoing)
        ensures
            r@ == (RNewQueuedView {
                uid: uid@,
                message_type: message@.kind.tag(),
                data: message@.data,
                peer: node_uid@,
                created_at,
            }),
    {
        RNewMessageOutgoing {
            uid,
            message_type: message._type.to_string(),
            data: message.data,
            to: node_uid,
            created_at,
        }
    }

    /// Appends this message to the outgoing queue and returns the row as
    /// stored. Fails with the store's `Full`, changing nothing, exactly when
    /// the queue has handed out its last id.
    pub fn save(self, conn: &mut RDatabase) -> (r: Result<RMessageOutgoing, RDatabaseError>)
        ensures
            match r {
                Ok(row) => {
                    &&& old(conn)@.messages_outgoing.has_room()
                    &&& row@ == self@.row(old(conn)@.messages_outgoing.next_id)
                    &&& final(conn)@ == (RDatabaseView {
                        messages_outgoing: old(conn)@.messages_outgoing.pushed(self@),
                        ..old(conn)@
                    })
                },
                Err(e) => {
                    &&& e == RDatabaseError::DieselResult(RStoreFailure::Full)
                    &&& !old(conn)@.messages_outgoing.has_room()
                    &&& final(conn)@ == old(conn)@
                },
            },
            old(conn)@.wf() ==> final(conn)@.wf(),
    {
        if conn.messages_outgoing_next_id == i32::MAX {
            return Err(RDatabaseError::DieselResult(RStoreFailure::Full));
        }
        let id = conn.messages_outgoing_next_id;
        let row = RMessageOutgoing {
            id,
            uid: self.uid,
            message_type: self.message_type,
            data: self.data,
            to: self.to,
            created_at: self.created_at,
        };
        let stored = row.clone();
        let ghost before = conn.messages_outgoing@;
        conn.messages_outgoing.push(row);
        conn.messages_outgoing_next_id = id + 1;
        proof {
            assert(rows_view(conn.messages_outgoing@) =~= rows_view(before).push(stored@));
        }
        Ok(stored)
    }
}

impl RMessageQueue<RMessageOutgoing> for RMessageOutgoing {
    open spec fn queue(db: RDatabaseView) -> RQueueView {
        db.messages_outgoing
    }

    open spec fn with_queue(db: RDatabaseView, queue: RQueueView) -> RDatabaseView {
        RDatabaseView { messages_outgoing: queue, ..db }
    }

    open spec fn id_of(&self) -> i32 {
        self.id
    }

    open spec fn row_of(&self) -> RQueuedView {
        self@
    }

    fn push(conn: &mut RDatabase, node_uid: String, message: RMessage) -> (r: Result<
        RMessageOutgoing,
        RDatabaseError,
    >)
    {
        let uid = new_uid();
        let created_at = to_column(unix_now());
        RNewMessageOutgoing::new(node_uid, message, uid, created_at).save(conn)
    }

    fn last(conn: &RDatabase) -> (r: Option<RMessageOutgoing>) {
        head_of(&conn.messages_outgoing)
    }

    fn last_n(conn: &RDatabase, n: usize) -> (r: Option<Vec<RMessageOutgoing>>) {
        Some(top_of(&conn.messages_outgoing, n))
    }

    fn delete_by_id(conn: &mut RDatabase, id: i32) -> (r: Result<(), RDatabaseError>)
    {
        proof {
            lemma_deleted_wf(conn@.messages_outgoing, id);
            if !conn@.messages_outgoing.has_id(id) {
                lemma_deleted_absent(conn@.messages_outgoing, id);
            }
        }
        if remove_id(&mut conn.messages_outgoing, id) {
            Ok(())
        } else {
            Err(RDatabaseError::EntryNotDeleted)
        }
    }

    fn delete(&self, conn: &mut RDatabase) -> (r: Result<(), RDatabaseError>)
    {
        RMessageOutgoing::delete_by_id(conn, self.id)
    }

    fn pop(conn: &mut RDatabase) -> (r: Result<RMessageOutgoing, RDatabaseError>)
    {
        proof {
            lemma_most_recent_is_row(conn@.messages_outgoing);
        }
        match RMessageOutgoing::last(conn) {
            Some(message) => {
                match message.delete(conn) {
                    Ok(_) => Ok(message),
                    Err(e) => Err(e),
                }
            },
            None => Err(RDatabaseError::EntryNotExists),
        }
    }

    fn to_message(&self) -> (r: Option<RMessage>) {
        match RMessageType::from_tag(self.message_type.as_str()) {
            Some(kind) => Some(RMessage { _type: kind, data: copy_payload(&self.data) }),
            None => None,
        }
    }
}

} // verus!
