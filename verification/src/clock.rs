//! Points in time, and the identifiers that are drawn at random.

use vstd::prelude::*;

verus! {

/// A point in time in UTC: whole seconds since the Unix epoch and the
/// nanoseconds past them.
#[derive(Clone, Copy, Debug, PartialEq, Eq, Structural)]
pub struct Timestamp {
    pub seconds: i64,
    pub nanos: u32,
}

impl Timestamp {
    /// Nanoseconds since the Unix epoch.
    pub open spec fn ns(self) -> int {
        self.seconds * 1_000_000_000 + self.nanos
    }

    /// The nanoseconds that have passed since an earlier point in time, or 0
    /// where that point lies ahead.
    pub open spec fn ns_since(self, earlier: Timestamp) -> int {
        if self.ns() > earlier.ns() {
            self.ns() - earlier.ns()
        } else {
            0
        }
    }

    /// The whole milliseconds that have passed since an earlier point in time,
    /// or 0 where that point lies ahead.
    pub open spec fn ms_since(self, earlier: Timestamp) -> int {
        self.ns_since(earlier) / 1_000_000
    }

    /// The nanoseconds that have passed since `earlier`.
    pub fn nanos_since(self, earlier: Timestamp) -> (elapsed: u128)
        ensures
            elapsed == self.ns_since(earlier),
            elapsed < 0x2_0000_0000_0000_0000 * 1_000_000_000,
    {
        let a: i128 = (self.seconds as i128) * 1_000_000_000 + self.nanos as i128;
        let b: i128 = (earlier.seconds as i128) * 1_000_000_000 + earlier.nanos as i128;
        if a > b {
            (a - b) as u128
        } else {
            0
        }
    }

    /// The whole milliseconds that have passed since `earlier`.
    pub fn millis_since(self, earlier: Timestamp) -> (elapsed: u128)
        ensures
            elapsed == self.ms_since(earlier),
    {
        self.nanos_since(earlier) / 1_000_000
    }
}

/// `chrono::Utc::now`, read through `timestamp` and `timestamp_subsec_nanos`:
/// the seconds since the Unix epoch, which are not negative, and the nanoseconds
/// past them, which are less than a second. Which point in time it is depends on
/// the clock of the machine and is left unsaid.
#[verifier::external_body]
fn chrono_utc_now() -> (now: (i64, u32))
    ensures
        now.0 >= 0,
        now.1 < 1_000_000_000,
{
    let now = chrono::Utc::now();
    (now.timestamp(), now.timestamp_subsec_nanos())
}

/// The current time.
pub fn utc_now() -> (now: Timestamp)
    ensures
        now.seconds >= 0,
        now.nanos < 1_000_000_000,
{
    let (seconds, nanos) = chrono_utc_now();
    Timestamp { seconds, nanos }
}

/// How long a clock that never runs backwards has been running.
#[derive(Clone, Copy, Debug, PartialEq, Eq, Structural)]
pub struct Moment {
    pub seconds: u64,
    pub nanos: u32,
}

impl Moment {
    /// Nanoseconds since the clock was started.
    pub open spec fn ns(self) -> int {
        self.seconds * 1_000_000_000 + self.nanos
    }

    /// Nanoseconds since the clock was started.
    pub fn total_nanos(self) -> (total: u128)
        ensures
            total == self.ns(),
    {
        self.seconds as u128 * 1_000_000_000 + self.nanos as u128
    }

    /// The deadline that lies a number of seconds ahead.
    pub fn deadline(self, seconds: u64) -> (deadline: u128)
        ensures
            deadline == self.ns() + seconds * 1_000_000_000,
    {
        self.total_nanos() + seconds as u128 * 1_000_000_000
    }
}

/// `std::time::Instant`, a reading of the monotonic clock.
#[verifier::external_type_specification]
#[verifier::external_body]
pub struct ExInstant(std::time::Instant);

/// `Instant::now`: a reading of the monotonic clock, of which nothing is claimed.
pub assume_specification[ std::time::Instant::now ]() -> (now: std::time::Instant)
;

/// `Instant::elapsed`: the time since a reading, of which nothing is claimed.
pub assume_specification[ std::time::Instant::elapsed ](origin: &std::time::Instant) -> (elapsed:
    std::time::Duration)
;

/// `Duration::as_secs`: the whole seconds of a span, of which nothing is claimed.
pub assume_specification[ std::time::Duration::as_secs ](span: &std::time::Duration) -> (seconds:
    u64)
;

/// `Duration::subsec_nanos`: the nanoseconds past the whole seconds of a span, which
/// are less than a second. How many they are is left unsaid.
pub assume_specification[ std::time::Duration::subsec_nanos ](span: &std::time::Duration) -> (nanos:
    u32)
    ensures
        nanos < 1_000_000_000,
;

/// A clock that never runs backwards.
pub struct MonotonicClock {
    origin: std::time::Instant,
}

impl MonotonicClock {
    /// A clock that starts now.
    pub fn start() -> Self {
        MonotonicClock { origin: std::time::Instant::now() }
    }

    /// How long the clock has been running.
    pub fn read(&self) -> (moment: Moment)
        ensures
            moment.nanos < 1_000_000_000,
    {
        let elapsed = self.origin.elapsed();
        Moment { seconds: elapsed.as_secs(), nanos: elapsed.subsec_nanos() }
    }
}

/// A hexadecimal digit in small letters.
pub open spec fn is_hex(c: char) -> bool {
    '0' <= c <= '9' || 'a' <= c <= 'f'
}

/// The hyphenated notation of a UUID of the given version: groups of 8, 4, 4, 4
/// and 12 hexadecimal digits, the third of which begins with the version.
pub open spec fn is_uuid(s: Seq<char>, version: char) -> bool {
    &&& s.len() == 36
    &&& forall|i: int|
        0 <= i < 36 ==> if i == 8 || i == 13 || i == 18 || i == 23 {
            #[trigger] s[i] == '-'
        } else {
            is_hex(s[i])
        }
    &&& s[14] == version
}

/// `uuid::Uuid::new_v4`, written out by its `Display`: the hyphenated notation of
/// a UUID of version 4. Its other digits are random and left unsaid.
#[verifier::external_body]
pub(crate) fn random_uuid() -> (id: String)
    ensures
        is_uuid(id@, '4'),
{
    uuid::Uuid::new_v4().to_string()
}

/// `uuid::Uuid::now_v7`, written out by its `Display`: the hyphenated notation of
/// a UUID of version 7. Its other digits come from the clock and a random source
/// and are left unsaid.
#[verifier::external_body]
pub(crate) fn time_ordered_uuid() -> (id: String)
    ensures
        is_uuid(id@, '7'),
{
    uuid::Uuid::now_v7().to_string()
}

impl Timestamp {
    /// What has passed between two points in time is their distance, and nothing where
    /// the earlier one lies ahead; whole milliseconds are what a million nanoseconds
    /// each make up of it.
    pub proof fn distances_are_what_has_passed(self, earlier: Timestamp)
        ensures
            earlier.ns() <= self.ns() ==> earlier.ns() + self.ns_since(earlier) == self.ns(),
            self.ns() <= earlier.ns() ==> self.ns_since(earlier) == 0 && self.ms_since(earlier)
                == 0,
            self.ms_since(earlier) * 1_000_000 <= self.ns_since(earlier)
                < self.ms_since(earlier) * 1_000_000 + 1_000_000,
            self.seconds == earlier.seconds ==> self.ns() - earlier.ns() == self.nanos
                - earlier.nanos,
            self.nanos == earlier.nanos ==> self.ns() - earlier.ns() == (self.seconds
                - earlier.seconds) * 1_000_000_000,
    {
    }
}

} // verus!
