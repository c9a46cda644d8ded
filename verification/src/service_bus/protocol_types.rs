//! Wire-level `type` values used by the service-bus protocol.

use vstd::prelude::*;

verus! {

pub const CONNECT: &'static str = "connect";

pub const AUTHENTICATE: &'static str = "authenticate";

pub const SUBSCRIBE: &'static str = "subscribe";

pub const UNSUBSCRIBE: &'static str = "unsubscribe";

pub const PUBLISH: &'static str = "publish";

pub const FORWARD: &'static str = "forward";

pub const FORWARD_RESPONSE: &'static str = "forward_response";

pub const EVENT: &'static str = "event";

pub const ACK: &'static str = "ack";

pub const ERROR: &'static str = "error";

} // verus!
