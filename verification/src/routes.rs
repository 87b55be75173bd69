//! The two HTTP endpoints of the service, as functions from plain request
//! data to a [`crate::response::Response`]. The HTTP server that dispatches
//! requests to them lives outside the library.

pub mod health_check;
pub mod subscriptions;
