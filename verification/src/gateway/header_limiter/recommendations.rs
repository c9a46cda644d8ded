//! Recommended sizes of header blocks.

use vstd::prelude::*;

verus! {

/// The default limit of the HTTP server.
pub const DEFAULT_MAX_HEADER_SIZE_BYTES: usize = 16384;

/// The size beyond which a header block suggests an issue with the deployment.
pub const RECOMMENDED_MAX_HEADER_SIZE_BYTES: usize = 32768;

} // verus!
