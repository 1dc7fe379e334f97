//! Readings of the clocks.

use std::time::{Instant, UNIX_EPOCH};

use vstd::prelude::*;

verus! {

/// `std::time::Instant`: a point on the clock that never goes back.
#[verifier::external_type_specification]
#[verifier::external_body]
pub struct ExInstant(std::time::Instant);

/// `Instant::now`. Nothing is claimed of it.
#[verifier::external_body]
fn instant_now() -> (now: Instant) {
    Instant::now()
}

/// `Instant::elapsed`, in nanoseconds. Nothing is claimed of it.
#[verifier::external_body]
fn elapsed_nanos(since: &Instant) -> (nanos: u128) {
    since.elapsed().as_nanos()
}

/// `SystemTime::elapsed` of the Unix epoch, in milliseconds, or nothing where the
/// system clock stands before it. Nothing is claimed of it.
#[verifier::external_body]
fn unix_millis() -> (millis: Option<u128>) {
    UNIX_EPOCH.elapsed().ok().map(|since| since.as_millis())
}

/// One reading of both clocks: nanoseconds since some start, and milliseconds since
/// the Unix epoch.
#[derive(Debug, Clone, Copy)]
pub struct Moment {
    pub nanos: u128,
    pub unix_ms: u128,
}

/// The milliseconds that a reading of the system clock stands for; a clock before
/// the epoch counts as standing at it.
pub fn since_epoch(reading: Option<u128>) -> (millis: u128)
    ensures
        reading matches Some(ms) ==> millis == ms,
        reading is None ==> millis == 0,
{
    match reading {
        Some(ms) => ms,
        None => 0,
    }
}

/// The milliseconds since the Unix epoch.
pub fn now_ms() -> (millis: u128) {
    since_epoch(unix_millis())
}

impl Moment {
    /// The moment at which so many nanoseconds have passed since the start and the system
    /// clock gives the reading.
    pub fn shown(nanos: u128, reading: Option<u128>) -> (moment: Moment)
        ensures
            moment.nanos == nanos,
            reading matches Some(ms) ==> moment.unix_ms == ms,
            reading is None ==> moment.unix_ms == 0,
    {
        Moment { nanos, unix_ms: since_epoch(reading) }
    }
}

/// A clock that counts from when it was started.
#[derive(Debug)]
pub struct Clock {
    started: Instant,
}

impl Clock {
    /// A clock that starts now.
    pub fn start() -> (clock: Clock) {
        Clock { started: instant_now() }
    }

    /// What the clocks show.
    pub fn read(&self) -> (moment: Moment) {
        Moment::shown(elapsed_nanos(&self.started), unix_millis())
    }
}

} // verus!
