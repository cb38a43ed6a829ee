//! Core of a peer-to-peer directory synchronisation daemon: the node registry,
//! the tracked-file table and its reconciliation with the folder on disk, the
//! outgoing and incoming message queues, and the wire protocol.

pub mod models;
pub mod peers;
pub mod protocol;
pub mod schema;
pub mod utils;
