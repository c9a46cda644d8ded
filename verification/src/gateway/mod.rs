//! The HTTP gateway: routing, balancing and forwarding.

pub mod balancer;
pub mod header_laws;
pub mod header_limiter;
pub mod laws;
pub mod proxy;
pub mod route_laws;
pub mod routes;
