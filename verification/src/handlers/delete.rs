//! Deleting a stream (`DELETE /v1/stream/{name}`).

use crate::protocol::error::{Error, ErrorView};
use vstd::prelude::*;

verus! {

/// The outcome of a delete request given the store's answer: deleting is
/// idempotent, so a missing stream counts as deleted; other errors stand.
pub open spec fn delete_outcome_spec(r: Result<(), ErrorView>) -> Result<(), ErrorView> {
    match r {
        Err(ErrorView::NotFound(_)) => Ok(()),
        other => other,
    }
}

/// The outcome of a delete request (answered 204 on success).
pub fn delete_outcome(r: Result<(), Error>) -> (out: Result<(), Error>)
    ensures
        crate::storage::unit_result(out) == delete_outcome_spec(crate::storage::unit_result(r)),
{
    match r {
        Err(Error::NotFound(_)) => Ok(()),
        other => other,
    }
}

} // verus!
