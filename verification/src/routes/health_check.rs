//! The liveness probe endpoint.

use vstd::prelude::*;

use crate::response::Response;

verus! {

/// Handles `GET /health_check`: always replies 200 with an empty body,
/// whatever happened before. The handler has no failure path of its own.
pub fn health_check() -> (r: Response)
    ensures
        r.is_empty_with_status(200),
{
    Response::empty_with_status(200)
}

} // verus!
