//! A verified request router for a small HTTP front-end.
//!
//! The library holds the pure logic of the service: parsing a query
//! string into a key/value mapping, choosing a route from a request
//! path, building the downstream URL for the `/compute` endpoint, and
//! composing every response body. The surrounding binary performs the
//! actual network I/O and feeds plain values in and out.

pub mod query;
pub mod router;
pub mod text;
