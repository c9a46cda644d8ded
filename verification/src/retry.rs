//! How often a client tries to connect.

use vstd::prelude::*;

verus! {

/// How often a client tries to connect before it gives up.
pub const MAX_CONNECT_ATTEMPTS: u32 = 30;

/// How long a client waits between attempts, in milliseconds.
pub const CONNECT_RETRY_DELAY_MS: u64 = 500;

/// The attempts that a client has made.
pub struct ConnectAttempts {
    made: u32,
}

impl View for ConnectAttempts {
    type V = u32;

    closed spec fn view(&self) -> u32 {
        self.made
    }
}

impl ConnectAttempts {
    /// No attempt has been made.
    pub fn new() -> (attempts: Self)
        ensures
            attempts@ == 0,
    {
        ConnectAttempts { made: 0 }
    }

    /// Takes note of a failed attempt. Returns whether to try again.
    pub fn failed(&mut self) -> (again: bool)
        requires
            old(self)@ < MAX_CONNECT_ATTEMPTS,
        ensures
            final(self)@ == old(self)@ + 1,
            again == (final(self)@ < MAX_CONNECT_ATTEMPTS),
    {
        self.made = self.made + 1;
        self.made < MAX_CONNECT_ATTEMPTS
    }
}

} // verus!
