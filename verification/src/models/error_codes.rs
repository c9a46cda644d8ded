//! Stable error codes used by HTTP responses.

use vstd::prelude::*;

verus! {

pub const AUTH_FAILED: &'static str = "AUTH_FAILED";

pub const INVALID_CONFIG: &'static str = "INVALID_CONFIG";

pub const FINGERPRINT_INVALID: &'static str = "FINGERPRINT_INVALID";

pub const REGISTRATION_IP_NOT_ALLOWED: &'static str = "REGISTRATION_IP_NOT_ALLOWED";

} // verus!
