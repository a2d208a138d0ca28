//! The wall clock.

use vstd::prelude::*;
use time::OffsetDateTime;

verus! {

/// `time::OffsetDateTime::now_utc` followed by `unix_timestamp`: the seconds
/// since the Unix epoch that the system clock shows. Nothing is claimed of
/// the result: two calls may differ, and the clock may run backwards.
#[verifier::external_body]
pub(crate) fn unix_timestamp_now() -> i64 {
    OffsetDateTime::now_utc().unix_timestamp()
}

} // verus!
