//! Fresh identifiers and the current time, which come from outside and on which nothing
//! can be promised; the library takes what they give as arguments where it can.
use vstd::prelude::*;

verus! {

/// `uuid::Uuid::new_v4`, as text. Random: the contract claims only the form that uuid's
/// `Display` gives every UUID, hyphenated: 36 characters, with `-` at positions 8, 13, 18
/// and 23.
#[verifier::external_body]
pub(crate) fn new_uuid() -> (r: String)
    ensures
        r@.len() == 36,
        r@[8] == '-' && r@[13] == '-' && r@[18] == '-' && r@[23] == '-',
{
    uuid::Uuid::new_v4().to_string()
}

/// `chrono::Utc::now().timestamp()`: the current time in seconds since the epoch. It
/// depends on the clock: no contract is claimed of the result.
#[verifier::external_body]
pub(crate) fn now_timestamp() -> (r: i64) {
    chrono::Utc::now().timestamp()
}

} // verus!
