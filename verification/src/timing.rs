use vstd::prelude::*;
use std::time::{Duration, Instant};

verus! {

/// `std::time::Instant`, carried through opaque.
#[verifier::external_type_specification]
#[verifier::external_body]
pub struct ExInstant(Instant);

/// `Instant` is `Copy`, so its `Clone` hands back the same moment.
pub assume_specification[ <Instant as Clone>::clone ](i: &Instant) -> (r: Instant)
    ensures
        r == *i,
;

/// Wraps `std::time::Instant::now`. The moment it returns depends on the
/// clock, so nothing is promised of it.
#[verifier::external_body]
fn instant_now() -> (now: Instant) {
    Instant::now()
}

/// Wraps `std::time::Instant::elapsed`: the time that has passed since
/// `start`. It depends on the clock, so nothing is promised of it.
#[verifier::external_body]
fn instant_elapsed(start: &Instant) -> (passed: Duration) {
    start.elapsed()
}

/// Wraps `std::time::Duration::as_micros`: the whole microseconds in `d`.
/// `Duration` is opaque here, so nothing is promised of the number.
#[verifier::external_body]
fn duration_as_micros(d: &Duration) -> (micros: u128) {
    d.as_micros()
}

/// `stop` replaces the measurement rather than adding to it: two stopwatches
/// with the same start, stopped with the same clock reading, end up equal,
/// whatever each had measured before.
pub proof fn lemma_stop_forgets_the_previous_measurement(t1: Time, t2: Time, a1: Time, a2: Time, reading: u128)
    requires
        t1.started_at() == t2.started_at(),
        t1.stopped_with(a1, reading),
        t2.stopped_with(a2, reading),
    ensures
        a1 == a2,
        a1.measured() == reading,
{
}

/// A stopwatch: `start` marks a moment, `stop` measures the time passed
/// since then, `elapsed` reports that measurement in microseconds.
#[derive(Debug, Clone)]
pub struct Time {
    start: Instant,
    duration_micros: u128,
}

impl Time {
    /// The last measurement, in microseconds.
    pub closed spec fn measured(&self) -> u128 {
        self.duration_micros
    }

    /// The moment of the last `start`.
    pub closed spec fn started_at(&self) -> Instant {
        self.start
    }

    /// Marks `moment` as the start; the last measurement is kept.
    pub fn start_at(&mut self, moment: Instant)
        ensures
            final(self).started_at() == moment,
            final(self).measured() == old(self).measured(),
    {
        self.start = moment;
    }

    /// Records `micros` as the measurement; the start moment is kept.
    pub fn record(&mut self, micros: u128)
        ensures
            final(self).measured() == micros,
            final(self).started_at() == old(self).started_at(),
    {
        self.duration_micros = micros;
    }

    /// Starts timing now: the clock's reading becomes the start (through
    /// `start_at`); the last measurement is kept.
    pub fn start(&mut self)
        ensures
            final(self).measured() == old(self).measured(),
    {
        let now = instant_now();
        self.start_at(now);
    }

    /// Whether `after` is this stopwatch stopped with the clock reading
    /// `reading` (whole microseconds since its start): the start is kept and
    /// the measurement is the reading, whatever was measured before.
    pub open spec fn stopped_with(&self, after: Time, reading: u128) -> bool {
        &&& after.started_at() == self.started_at()
        &&& after.measured() == reading
    }

    /// Measures the time passed since the last `start` and records it in
    /// whole microseconds (through `record`), replacing the last measurement;
    /// the start moment is kept. Returns, as a ghost value, the clock reading
    /// taken.
    pub fn stop(&mut self) -> (reading: Ghost<u128>)
        ensures
            old(self).stopped_with(*final(self), reading@),
            final(self).started_at() == old(self).started_at(),
    {
        let passed = instant_elapsed(&self.start);
        let micros = duration_as_micros(&passed);
        self.record(micros);
        Ghost(micros)
    }

    /// The last measurement in microseconds (zero before the first `stop`).
    pub fn elapsed(&self) -> (micros: u128)
        ensures
            micros == self.measured(),
    {
        self.duration_micros
    }

    /// A stopwatch started now, with nothing measured yet.
    pub fn init() -> (t: Self)
        ensures
            t.measured() == 0,
    {
        Self::default()
    }
}

impl Default for Time {
    fn default() -> (t: Self)
        ensures
            t.measured() == 0,
    {
        Time { start: instant_now(), duration_micros: 0 }
    }
}

} // verus!
