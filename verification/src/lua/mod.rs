//! What scripts configure, and what is decided about them.
//!
//! Scripts run in a virtual machine outside of this library. It hands over the
//! values that scripts pass in and the outcomes of their handlers, and gets back
//! what they mean.

pub mod args;
pub mod bus_api;
pub mod laws;
pub mod middleware;
pub mod rules;
pub mod scripts;
pub mod settings;
pub mod static_forward;
pub mod value;
