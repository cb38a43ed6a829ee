use vstd::prelude::*;

verus! {

/// A fresh random identifier, from `uuid::Uuid::new_v4` written out by its
/// `Display` impl. Nothing is claimed of the text: it is random, and two calls
/// may in principle give the same one.
#[verifier::external_body]
pub(crate) fn new_uid() -> (uid: String) {
    uuid::Uuid::new_v4().to_string()
}

/// The wall clock in whole seconds since the Unix epoch, from
/// `std::time::SystemTime::elapsed` on the epoch; zero where the clock is set
/// before the epoch. Nothing is claimed of the value.
#[verifier::external_body]
pub(crate) fn unix_now() -> (secs: u64) {
    std::time::UNIX_EPOCH.elapsed().map(|d| d.as_secs()).unwrap_or(0)
}

/// The column value of a count of seconds or bytes: its low 32 bits, read as
/// a signed number.
pub open spec fn column_of(value: u64) -> i32 {
    value as i32
}

/// Narrows a count of seconds or bytes to the width of the store's integer
/// columns.
pub fn to_column(value: u64) -> (r: i32)
    ensures
        r == column_of(value),
{
    #[verifier::truncate]
    (value as i32)
}

} // verus!
