//! The subscription intake endpoint.
//!
//! Per request the pipeline is: decode the body, validate field presence,
//! write one row, answer with a bare status code. Exactly one terminal
//! outcome is reached for each request: accepted (200), rejected (400), or
//! — when a real store turns the write down — failed (500). No retry
//! happens inside the handler.

use vstd::prelude::*;

use crate::form::{field_of, parse_form, well_formed_body};
use crate::response::Response;
use crate::store::{Store, WriteError};
use crate::uid::is_version4;
use crate::validation::validate;

verus! {

/// A body the intake accepts: decodable (no duplicate field) and with both
/// the `email` and the `name` field present.
pub open spec fn body_accepted(body: Seq<char>) -> bool {
    &&& well_formed_body(body)
    &&& field_of(body, "email"@) is Some
    &&& field_of(body, "name"@) is Some
}

/// Handles `POST /subscriptions` against the store model.
///
/// Exactly the accepted bodies yield 200, and then exactly one new row is
/// appended, holding the submitted email and name byte-identically and a
/// fresh version-4 identifier; every other body yields 400 and leaves the
/// store untouched. Either way the response body is empty.
pub fn subscribe(store: &mut Store, body: &str) -> (r: Response)
    ensures
        r.body@ == Seq::<u8>::empty(),
        r.status == 200 <==> body_accepted(body@),
        !body_accepted(body@) ==> r.status == 400 && final(store)@ == old(store)@,
        body_accepted(body@) ==> {
            &&& final(store)@.len() == old(store)@.len() + 1
            &&& final(store)@ == old(store)@.push(final(store)@.last())
            &&& field_of(body@, "email"@) == Some(final(store)@.last().email)
            &&& field_of(body@, "name"@) == Some(final(store)@.last().name)
            &&& is_version4(final(store)@.last().id)
        },
{
    match parse_form(body) {
        Err(_) => Response::empty_with_status(400),
        Ok(parsed) => match validate(parsed) {
            Err(_) => Response::empty_with_status(400),
            Ok(data) => {
                store.insert_subscription(data);
                Response::empty_with_status(200)
            },
        },
    }
}

/// Maps the outcome of a real write to the response the intake sends: 200
/// with an empty body on success, 500 with an empty body on a store
/// failure. The cause stays with the caller for logging and is never put
/// in the response.
pub fn response_for_write(outcome: &Result<(), WriteError>) -> (r: Response)
    ensures
        outcome is Ok ==> r.is_empty_with_status(200),
        outcome is Err ==> r.is_empty_with_status(500),
{
    match outcome {
        Ok(_) => Response::empty_with_status(200),
        Err(_) => Response::empty_with_status(500),
    }
}

} // verus!
