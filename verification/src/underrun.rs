//! Detects output callbacks that came too late.

use vstd::prelude::*;

#[allow(unused_imports)]
use crate::schedule;
use crate::schedule::NS_PER_SECOND;

verus! {

/// Watches the intervals between output callbacks. A callback is late when more than one and a
/// half times as long has passed as the buffer before it lasts.
#[derive(Debug)]
pub struct OutputUnderrunTracker {
    /// The time of the previous callback; zero before the first.
    pub prev_host_time_ns: u64,
    /// How many frames the previous callback rendered.
    pub prev_frames: u32,
    /// How many callbacks in a row were late, up to now.
    pub consecutive: u32,
    /// How many callbacks were late in all, modulo `2^64`.
    pub count: u64,
    /// The time of the callback that was late most recently; zero if none was.
    pub last_host_time_ns: u64,
}

/// How long the previous buffer lasts, in whole nanoseconds.
pub open spec fn expected_interval(frames: u32, sample_rate: u32) -> nat {
    schedule::duration_of(frames as nat, sample_rate as nat)
}

impl OutputUnderrunTracker {
    /// Whether a callback at `host_time_ns` is late.
    pub open spec fn is_late(self, host_time_ns: u64, sample_rate: u32) -> bool {
        &&& self.prev_host_time_ns != 0
        &&& self.prev_frames > 0
        &&& sample_rate > 0
        &&& expected_interval(self.prev_frames, sample_rate) > 0
        &&& schedule::elapsed(host_time_ns, self.prev_host_time_ns) > expected_interval(
            self.prev_frames,
            sample_rate,
        ) * 3 / 2
    }

    /// What is known after a callback at `host_time_ns` that renders `frames` frames.
    pub open spec fn observed(
        self,
        host_time_ns: u64,
        frames: u32,
        sample_rate: u32,
    ) -> OutputUnderrunTracker {
        let seen = OutputUnderrunTracker {
            prev_host_time_ns: host_time_ns,
            prev_frames: frames,
            ..self
        };
        if self.is_late(host_time_ns, sample_rate) {
            OutputUnderrunTracker {
                consecutive: if self.consecutive == u32::MAX {
                    u32::MAX
                } else {
                    (self.consecutive + 1) as u32
                },
                count: self.count.wrapping_add(1),
                last_host_time_ns: host_time_ns,
                ..seen
            }
        } else {
            OutputUnderrunTracker { consecutive: 0, ..seen }
        }
    }

    /// No callback yet.
    pub fn new() -> (t: OutputUnderrunTracker)
        ensures
            t == (OutputUnderrunTracker {
                prev_host_time_ns: 0,
                prev_frames: 0,
                consecutive: 0,
                count: 0,
                last_host_time_ns: 0,
            }),
    {
        OutputUnderrunTracker {
            prev_host_time_ns: 0,
            prev_frames: 0,
            consecutive: 0,
            count: 0,
            last_host_time_ns: 0,
        }
    }

    /// Takes note of a callback at `host_time_ns` that renders `frames` frames.
    pub fn observe(&mut self, host_time_ns: u64, frames: u32, sample_rate: u32)
        ensures
            *final(self) == old(self).observed(host_time_ns, frames, sample_rate),
            final(self).prev_host_time_ns == host_time_ns,
            final(self).prev_frames == frames,
            old(self).is_late(host_time_ns, sample_rate) ==> {
                &&& final(self).consecutive == if old(self).consecutive == u32::MAX {
                    u32::MAX as int
                } else {
                    old(self).consecutive + 1
                }
                &&& final(self).count == old(self).count.wrapping_add(1)
                &&& final(self).last_host_time_ns == host_time_ns
            },
            !old(self).is_late(host_time_ns, sample_rate) ==> {
                &&& final(self).consecutive == 0
                &&& final(self).count == old(self).count
                &&& final(self).last_host_time_ns == old(self).last_host_time_ns
            },
    {
        let mut late: bool = false;
        if self.prev_host_time_ns != 0 && self.prev_frames > 0 && sample_rate > 0 {
            let expected: u64 = self.prev_frames as u64 * NS_PER_SECOND / sample_rate as u64;
            let interval: u64 = if host_time_ns >= self.prev_host_time_ns {
                host_time_ns - self.prev_host_time_ns
            } else {
                0
            };
            proof {
                let n = self.prev_frames as int * NS_PER_SECOND;
                assert(n / sample_rate as int <= n) by (nonlinear_arith)
                    requires
                        n >= 0,
                        sample_rate > 0,
                ;
            }
            late = expected > 0 && interval > expected * 3 / 2;
        }
        self.prev_host_time_ns = host_time_ns;
        self.prev_frames = frames;
        if late {
            self.consecutive = self.consecutive.saturating_add(1);
            self.count = self.count.wrapping_add(1);
            self.last_host_time_ns = host_time_ns;
        } else {
            self.consecutive = 0;
        }
    }

    /// How many callbacks were late in all.
    pub fn count(&self) -> (n: u64)
        ensures
            n == self.count,
    {
        self.count
    }

    /// The time of the callback that was late most recently; zero if none was.
    pub fn last_host_time_ns(&self) -> (t: u64)
        ensures
            t == self.last_host_time_ns,
    {
        self.last_host_time_ns
    }

    /// How many callbacks in a row were late, up to now.
    pub fn consecutive(&self) -> (n: u32)
        ensures
            n == self.consecutive,
    {
        self.consecutive
    }
}

impl Default for OutputUnderrunTracker {
    fn default() -> (t: OutputUnderrunTracker)
        ensures
            t.prev_host_time_ns == 0 && t.prev_frames == 0 && t.consecutive == 0 && t.count == 0
                && t.last_host_time_ns == 0,
    {
        OutputUnderrunTracker::new()
    }
}

/// Callbacks that come on time are never taken for late ones: not the first, not one that comes
/// within one and a half buffers of the last, not one with a clock that went back, and none at all
/// without a sample rate.
pub proof fn law_timely_callbacks_are_not_late(
    t: OutputUnderrunTracker,
    host_time_ns: u64,
    sample_rate: u32,
)
    requires
        t.prev_host_time_ns == 0 || host_time_ns <= t.prev_host_time_ns || sample_rate == 0
            || host_time_ns - t.prev_host_time_ns <= expected_interval(t.prev_frames, sample_rate)
            * 3 / 2,
    ensures
        !t.is_late(host_time_ns, sample_rate),
{
}

/// A callback that comes more than one and a half buffers after the last is late, whenever it is
/// known how long a buffer lasts.
pub proof fn law_large_gaps_are_late(
    t: OutputUnderrunTracker,
    host_time_ns: u64,
    sample_rate: u32,
)
    requires
        t.prev_host_time_ns != 0,
        sample_rate > 0,
        expected_interval(t.prev_frames, sample_rate) > 0,
        host_time_ns - t.prev_host_time_ns > expected_interval(t.prev_frames, sample_rate) * 3
            / 2,
    ensures
        t.is_late(host_time_ns, sample_rate),
{
    assert(t.prev_frames == 0 ==> schedule::duration_of(0, sample_rate as nat) == 0)
        by (nonlinear_arith)
        requires
            sample_rate > 0,
    ;
}

/// A late callback is counted, in all and in its row, and its time is kept; a timely one ends the
/// row and changes neither the count nor that time. Either is what the next one is measured by.
pub proof fn law_late_callbacks_are_counted(
    t: OutputUnderrunTracker,
    host_time_ns: u64,
    frames: u32,
    sample_rate: u32,
)
    ensures
        ({
            let next = t.observed(host_time_ns, frames, sample_rate);
            &&& next.prev_host_time_ns == host_time_ns
            &&& next.prev_frames == frames
            &&& t.is_late(host_time_ns, sample_rate) ==> {
                &&& next.count == (t.count + 1) % 0x1_0000_0000_0000_0000
                &&& t.consecutive < u32::MAX ==> next.consecutive == t.consecutive + 1
                &&& t.consecutive == u32::MAX ==> next.consecutive == u32::MAX
                &&& next.last_host_time_ns == host_time_ns
            }
            &&& !t.is_late(host_time_ns, sample_rate) ==> {
                &&& next.count == t.count
                &&& next.consecutive == 0
                &&& next.last_host_time_ns == t.last_host_time_ns
            }
        }),
{
}

/// A callback is measured by the one before it: of two callbacks in a row the second is late
/// exactly if more than one and a half times as long has passed between them as the frames of the
/// first last, in whole nanoseconds.
pub proof fn law_callbacks_are_measured_by_the_last(
    t: OutputUnderrunTracker,
    first_ns: u64,
    frames: u32,
    second_ns: u64,
    sample_rate: u32,
)
    requires
        0 < first_ns <= second_ns,
        sample_rate > 0,
    ensures
        ({
            let expected = frames * 1_000_000_000 / sample_rate as int;
            t.observed(first_ns, frames, sample_rate).is_late(second_ns, sample_rate) <==> expected
                > 0 && second_ns - first_ns > expected * 3 / 2
        }),
{
    assert(frames == 0 ==> schedule::duration_of(0, sample_rate as nat) == 0) by (nonlinear_arith)
        requires
            sample_rate > 0,
    ;
}

} // verus!
