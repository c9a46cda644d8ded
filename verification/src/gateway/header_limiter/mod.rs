//! Limits on the size of HTTP headers.
//!
//! Many headers pass through when requests are proxied; they can accumulate and
//! exceed the default limit of the HTTP server, which answers with status 431.

pub mod recommendations;
