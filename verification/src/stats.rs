//! A sliding window over the durations of the most recent frames.

use std::collections::VecDeque;
use std::time::Duration;
use std::time::Instant;
use vstd::prelude::*;

verus! {

/// Number of frame durations that the window holds.
pub const WINDOW: usize = 30;

/// Declares `std::time::Instant` as an opaque type.
#[verifier::external_type_specification]
#[verifier::external_body]
pub struct ExInstant(Instant);

/// Sum of the first `n` entries of `s`.
pub open spec fn sum_to(s: Seq<u64>, n: int) -> int
    decreases n,
{
    if n <= 0 {
        0
    } else {
        sum_to(s, n - 1) + s[n - 1] as int
    }
}

/// `Instant::now`: the reading of the monotonic clock. Nothing is claimed of
/// the value.
#[verifier::external_body]
fn clock_now() -> Instant {
    Instant::now()
}

/// `Instant::elapsed`: the time that has passed since `stamp` was taken.
/// Nothing is claimed of the value.
#[verifier::external_body]
fn clock_elapsed(stamp: &Instant) -> Duration {
    stamp.elapsed()
}

/// `Duration::as_micros`: the duration in whole microseconds. Nothing is
/// claimed of the value.
#[verifier::external_body]
fn duration_micros(d: &Duration) -> u128 {
    d.as_micros()
}

/// Frame statistics: the durations of the last `WINDOW` frames in
/// microseconds, oldest first, and the number of frames captured so far.
pub struct Stats {
    stamp: Instant,
    last_frametimes: VecDeque<u64>,
    frames: u64,
}

impl Stats {
    /// The window of frame durations, oldest first.
    pub closed spec fn frametimes(&self) -> Seq<u64> {
        self.last_frametimes@
    }

    /// The number of frames captured so far.
    pub closed spec fn frame_count(&self) -> u64 {
        self.frames
    }

    /// The window always holds exactly `WINDOW` durations.
    pub open spec fn wf(&self) -> bool {
        self.frametimes().len() == WINDOW
    }

    /// A fresh record: a window of zeros and no frame captured.
    pub fn new() -> (s: Self)
        ensures
            s.wf(),
            s.frame_count() == 0,
            forall|i: int| 0 <= i < WINDOW ==> s.frametimes()[i] == 0,
    {
        let mut dq: VecDeque<u64> = VecDeque::new();
        let mut i: usize = 0;
        while i < WINDOW
            invariant
                i <= WINDOW,
                dq@.len() == i,
                forall|j: int| 0 <= j < i ==> dq@[j] == 0,
            decreases WINDOW - i,
        {
            dq.push_back(0);
            i += 1;
        }
        Stats { stamp: clock_now(), last_frametimes: dq, frames: 0 }
    }

    /// Slides the window by one frame that took `micros` microseconds: the
    /// oldest duration leaves, `micros` becomes the newest.
    pub fn record_frame(&mut self, micros: u64)
        requires
            old(self).wf(),
            old(self).frame_count() < u64::MAX,
        ensures
            final(self).wf(),
            final(self).frametimes() == old(self).frametimes().subrange(1, WINDOW as int).push(
                micros,
            ),
            final(self).frame_count() == old(self).frame_count() + 1,
    {
        let _ = self.last_frametimes.pop_front();
        self.last_frametimes.push_back(micros);
        self.frames += 1;
    }

    /// Captures the frame that ends now: records the time since the last
    /// capture (in microseconds, reduced to 64 bits) and restarts the clock.
    /// The recorded duration is whatever the clock gave; the rest of the
    /// window moves up by one.
    pub fn capture_frame(&mut self)
        requires
            old(self).wf(),
            old(self).frame_count() < u64::MAX,
        ensures
            final(self).wf(),
            forall|i: int|
                0 <= i < WINDOW - 1 ==> #[trigger] final(self).frametimes()[i] == old(
                    self,
                ).frametimes()[i + 1],
            final(self).frame_count() == old(self).frame_count() + 1,
    {
        let elapsed = clock_elapsed(&self.stamp);
        let micros: u128 = duration_micros(&elapsed);
        let low: u64 = #[verifier::truncate] (micros as u64);
        self.record_frame(low);
        self.stamp = clock_now();
    }

    /// The number of frames captured so far.
    pub fn frames(&self) -> (n: u64)
        ensures
            n == self.frame_count(),
    {
        self.frames
    }

    /// The duration at position `i` of the window, oldest first.
    pub fn frametime(&self, i: usize) -> (t: u64)
        requires
            i < self.frametimes().len(),
        ensures
            t == self.frametimes()[i as int],
    {
        self.last_frametimes[i]
    }

    /// The sum of the durations in the window, in microseconds. The mean
    /// frame time is this sum divided by `WINDOW`.
    pub fn total_micros(&self) -> (total: u128)
        ensures
            total == sum_to(self.frametimes(), self.frametimes().len() as int),
    {
        let n: usize = self.last_frametimes.len();
        let mut total: u128 = 0;
        let mut i: usize = 0;
        while i < n
            invariant
                n == self.last_frametimes@.len(),
                i <= n,
                total == sum_to(self.last_frametimes@, i as int),
                total <= i * u64::MAX,
            decreases n - i,
        {
            total = total + self.last_frametimes[i] as u128;
            i += 1;
        }
        total
    }
}

} // verus!
