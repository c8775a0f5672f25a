//! Admission control for a per-request hook of an HTTP proxy: every request
//! is allowed or denied against a rate limit, and the counters live between
//! requests as one encoded snapshot in the host's shared storage.
//!
//! A request is decided by `filter::RateLimitFilter::on_http_request_headers`
//! from what the host read for it. The filter decodes the snapshot
//! (`snapshot`), fills the limiting engine of this one request from it
//! (`engine`), extracts the attributes of the request (`attributes`), asks
//! the engine whether the request is over a limit, counts it if it is not,
//! and encodes what the engine then reports as the next snapshot. What the
//! engine does is described in `model`, and `laws` holds what follows for
//! one request and for runs of requests.
//!
//! The engine is limitador's and the encoding is bincode's. The calls into
//! them, and into the few functions of std that have no contract of their
//! own, are the only code here that is not proved; each says above its
//! contract what it takes for granted.

pub mod attributes;
pub mod clock;
pub mod counter;
pub mod engine;
pub mod error;
pub mod filter;
pub mod laws;
pub mod limit;
pub mod model;
pub mod snapshot;

