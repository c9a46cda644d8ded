//! Cache strategy layer.
//!
//! Supported providers:
//! - `memory`, which stores data in-process
//! - `redis`
//! - `memcached`
//!
//! The in-process store, the values that all providers share, the expiry rules
//! and the key namespace of the gateway live here.

pub mod base;
pub mod in_memory;
pub mod laws;
pub mod memcached;
pub mod runtime;
pub mod value;
pub mod value_laws;
