//! Validation of a decoded subscription form.
//!
//! The rule is presence alone: both fields must occur in the decoded body,
//! and any value that is present — empty, without an `@`, of any length —
//! is accepted as it stands. No trimming, format check or length bound is
//! applied; tightening this is a recorded design gap, not an option this
//! module takes on its own.

use vstd::prelude::*;

use crate::form::ParsedForm;

verus! {

/// A subscription submission whose required fields were both present in
/// the decoded request body. The texts are carried through unchanged.
#[derive(Debug)]
pub struct FormData {
    pub email: String,
    pub name: String,
}

/// Why a decoded body was rejected: a required field was absent.
#[derive(PartialEq, Eq, Structural, Clone, Copy, Debug)]
pub enum RejectionReason {
    MissingField,
}

/// Accepts a decoded form exactly when both fields are present, handing
/// their texts through unchanged; rejects any form with a field missing.
pub fn validate(form: ParsedForm) -> (r: Result<FormData, RejectionReason>)
    ensures
        match r {
            Ok(d) => {
                &&& form.email matches Some(e) && e@ == d.email@
                &&& form.name matches Some(m) && m@ == d.name@
            },
            Err(reason) => {
                &&& reason == RejectionReason::MissingField
                &&& form.email is None || form.name is None
            },
        },
{
    match (form.email, form.name) {
        (Some(email), Some(name)) => Ok(FormData { email, name }),
        _ => Err(RejectionReason::MissingField),
    }
}

} // verus!
