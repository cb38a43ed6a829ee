use vstd::prelude::*;

verus! {

/// Why the store refused an operation.
#[derive(Debug, Clone, Copy, PartialEq, Eq, Structural)]
pub enum RStoreFailure {
    /// No row matches the key that was looked up.
    NotFound,
    /// A row with the same unique key is already stored.
    UniqueViolation,
    /// The table has handed out its last row id.
    Full,
}

/// What can go wrong in an operation on the store.
#[derive(Debug, Clone, Copy, PartialEq, Eq, Structural)]
pub enum RDatabaseError {
    /// No row is there to read or to take.
    EntryNotExists,
    /// A row was written and could not be read back. The store of this
    /// library reads every row back, so it gives this error nowhere; a store
    /// on disk may.
    EntryNotInsert,
    /// No row was there to delete.
    EntryNotDeleted,
    /// The store refused the operation, for the cause given.
    DieselResult(RStoreFailure),
}

impl RDatabaseError {
    /// The store failure behind this error, if it wraps one.
    pub fn cause(&self) -> (r: Option<RStoreFailure>)
        ensures
            r == (match *self {
                RDatabaseError::DieselResult(f) => Some(f),
                _ => None,
            }),
    {
        match self {
            RDatabaseError::DieselResult(f) => Some(*f),
            _ => None,
        }
    }
}

} // verus!
