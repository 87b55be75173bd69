//! The transport-level reply a handler produces: a status code and a body.

use vstd::prelude::*;

verus! {

/// An HTTP reply as the handlers build it. Every reply of this service
/// carries an empty body; the status code alone tells the outcome apart.
pub struct Response {
    pub status: u16,
    pub body: Vec<u8>,
}

impl Response {
    /// True of a reply with the given status code and no body at all.
    pub open spec fn is_empty_with_status(self, status: u16) -> bool {
        self.status == status && self.body@ == Seq::<u8>::empty()
    }

    /// Builds the empty-bodied reply for a status code.
    pub fn empty_with_status(status: u16) -> (r: Response)
        ensures
            r.is_empty_with_status(status),
    {
        Response { status, body: Vec::new() }
    }
}

} // verus!
