//! A minimal newsletter-subscription intake library.
//!
//! The crate covers the request-to-storage pipeline of a small HTTP intake
//! service: decoding `application/x-www-form-urlencoded` bodies, validating
//! that the required fields are present, assigning identifiers and
//! timestamps, and recording subscriptions in a model of the backing store.
//! It also provides the pure parts of the integration-test harness: deriving
//! a unique database name and the administrative statements that set the
//! database up. Network and database I/O live outside the library; callers
//! hand in plain values and get plain values back.

pub mod clock;
pub mod form;
pub mod harness;
pub mod response;
pub mod routes;
pub mod store;
pub mod text;
pub mod uid;
pub mod validation;
