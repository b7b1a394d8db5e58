//! Linear gain ramps that avoid clicks when a gain changes.

use vstd::prelude::*;

#[allow(unused_imports)]
use crate::math;
use crate::math::{SampleMath, MS_PER_SECOND, SILENCE};

verus! {

/// A gain that moves from `current` to `target` in equal steps, one per sample.
#[derive(Debug, Clone, Copy, PartialEq, Eq, Structural)]
pub struct Ramp {
    /// The gain of the sample that was rendered last.
    pub current: u32,
    /// The gain the ramp ends at.
    pub target: u32,
    /// How many samples are left until `target` is reached.
    pub remaining_samples: u32,
    /// What is added to `current` for each sample but the last.
    pub step: u32,
}

impl Ramp {
    /// A ramp that rests at `value`.
    pub open spec fn resting_at(value: u32) -> Ramp {
        Ramp { current: value, target: value, remaining_samples: 0, step: SILENCE }
    }

    /// This ramp, sent to `target` over the next `samples` samples.
    pub open spec fn aimed_at<M: SampleMath>(self, m: &M, target: u32, samples: u32) -> Ramp {
        if samples == 0 {
            Ramp::resting_at(target)
        } else {
            Ramp {
                current: self.current,
                target,
                remaining_samples: samples,
                step: math::quotient_of(
                    m,
                    math::difference_of(m, target, self.current),
                    math::word_of_count(m, samples),
                ),
            }
        }
    }

    /// This ramp one sample later.
    pub open spec fn advanced<M: SampleMath>(self, m: &M) -> Ramp {
        if self.remaining_samples == 0 {
            self
        } else if self.remaining_samples == 1 {
            Ramp { current: self.target, remaining_samples: 0, ..self }
        } else {
            Ramp {
                current: math::sum_of(m, self.current, self.step),
                remaining_samples: (self.remaining_samples - 1) as u32,
                ..self
            }
        }
    }

    /// This ramp `n` samples later.
    pub open spec fn advanced_by<M: SampleMath>(self, m: &M, n: nat) -> Ramp
        decreases n,
    {
        if n == 0 {
            self
        } else {
            self.advanced_by(m, (n - 1) as nat).advanced(m)
        }
    }

    /// A ramp that rests at `initial`.
    pub fn new(initial: u32) -> (r: Ramp)
        ensures
            r == Ramp::resting_at(initial),
    {
        Ramp { current: initial, target: initial, remaining_samples: 0, step: SILENCE }
    }

    /// The gain of the sample that was rendered last.
    pub fn value(&self) -> (r: u32)
        ensures
            r == self.current,
    {
        self.current
    }

    /// The gain the ramp ends at.
    pub fn target(&self) -> (r: u32)
        ensures
            r == self.target,
    {
        self.target
    }

    /// Whether the target has been reached.
    pub fn is_settled(&self) -> (r: bool)
        ensures
            r == (self.remaining_samples == 0),
    {
        self.remaining_samples == 0
    }

    /// Jumps to `value`.
    pub fn set_immediate(&mut self, value: u32)
        ensures
            *final(self) == Ramp::resting_at(value),
    {
        *self = Ramp::new(value);
    }

    /// Starts towards `target`, to arrive after `ramp_samples` samples; at once for zero samples.
    pub fn set_target<M: SampleMath>(&mut self, m: &M, target: u32, ramp_samples: u32)
        requires
            math::is_pure(m),
        ensures
            *final(self) == old(self).aimed_at(m, target, ramp_samples),
    {
        if ramp_samples == 0 {
            self.set_immediate(target);
            return;
        }
        let distance: u32 = m.minus(target, self.current);
        let count: u32 = m.of_count(ramp_samples);
        self.target = target;
        self.remaining_samples = ramp_samples;
        self.step = m.over(distance, count);
    }

    /// Moves on by one sample and returns the gain for it. The last step sets the target itself,
    /// so that no rounding error is left.
    pub fn advance<M: SampleMath>(&mut self, m: &M) -> (gain: u32)
        requires
            math::is_pure(m),
        ensures
            *final(self) == old(self).advanced(m),
            gain == final(self).current,
    {
        if self.remaining_samples == 0 {
            return self.current;
        }
        self.remaining_samples = self.remaining_samples - 1;
        if self.remaining_samples == 0 {
            self.current = self.target;
        } else {
            self.current = m.plus(self.current, self.step);
        }
        self.current
    }
}

/// The number of samples that `ms` milliseconds take at `sample_rate`: none for a duration that
/// is not positive or a rate of zero, else the nearest count and at least one.
pub open spec fn samples_in_ms<M: SampleMath>(m: &M, ms: u32, sample_rate: u32) -> u32 {
    if math::is_at_most(m, ms, SILENCE) || sample_rate == 0 {
        0
    } else {
        let samples = math::count_of(
            m,
            math::product_of(
                m,
                math::quotient_of(m, ms, MS_PER_SECOND),
                math::word_of_count(m, sample_rate),
            ),
        );
        if samples == 0 {
            1
        } else {
            samples
        }
    }
}

/// Converts a duration in milliseconds to samples.
pub fn ms_to_samples<M: SampleMath>(m: &M, ms: u32, sample_rate: u32) -> (samples: u32)
    requires
        math::is_pure(m),
    ensures
        samples == samples_in_ms(m, ms, sample_rate),
{
    if m.at_most(ms, SILENCE) || sample_rate == 0 {
        return 0;
    }
    let seconds: u32 = m.over(ms, MS_PER_SECOND);
    let rate: u32 = m.of_count(sample_rate);
    let exact: u32 = m.times(seconds, rate);
    let samples: u32 = m.to_count(exact);
    if samples == 0 {
        1
    } else {
        samples
    }
}

/// A ramp that was sent to `target` over `samples` samples is under way until exactly `samples`
/// samples have been rendered, and then rests at `target`, whatever the arithmetic rounds to.
pub proof fn law_ramp_lands_on_its_target<M: SampleMath>(
    r: Ramp,
    m: &M,
    target: u32,
    samples: u32,
    n: nat,
)
    requires
        n <= samples,
    ensures
        r.aimed_at(m, target, samples).advanced_by(m, n).remaining_samples == samples - n,
        n == samples ==> r.aimed_at(m, target, samples).advanced_by(m, n).current == target,
        r.aimed_at(m, target, samples).advanced_by(m, n).target == target,
    decreases n,
{
    if n > 0 {
        law_ramp_lands_on_its_target(r, m, target, samples, (n - 1) as nat);
    }
}

/// A ramp that has settled keeps its gain for ever.
pub proof fn law_settled_ramp_holds<M: SampleMath>(r: Ramp, m: &M, n: nat)
    requires
        r.remaining_samples == 0,
    ensures
        r.advanced_by(m, n) == r,
    decreases n,
{
    if n > 0 {
        law_settled_ramp_holds(r, m, (n - 1) as nat);
    }
}

/// The gain `k` steps of `step` away from `start`.
pub open spec fn along<M: SampleMath>(m: &M, start: u32, step: u32, k: nat) -> u32
    decreases k,
{
    if k == 0 {
        start
    } else {
        math::sum_of(m, along(m, start, step, (k - 1) as nat), step)
    }
}

/// A ramp is a straight line from the gain at which it was started: whatever `r` was doing when it
/// was sent to `target`, the gain of sample `k` on the way is `k` equal steps away from the gain at
/// that time, and a step is the `samples`-th part of the way that was left then.
pub proof fn law_ramps_are_straight_lines<M: SampleMath>(
    r: Ramp,
    m: &M,
    target: u32,
    samples: u32,
    k: nat,
)
    requires
        k < samples,
    ensures
        r.aimed_at(m, target, samples).advanced_by(m, k).current == along(
            m,
            r.current,
            math::quotient_of(
                m,
                math::difference_of(m, target, r.current),
                math::word_of_count(m, samples),
            ),
            k,
        ),
    decreases k,
{
    if k > 0 {
        law_ramps_are_straight_lines(r, m, target, samples, (k - 1) as nat);
        law_ramp_lands_on_its_target(r, m, target, samples, (k - 1) as nat);
        lemma_step_is_kept(r.aimed_at(m, target, samples), m, (k - 1) as nat);
    }
}

proof fn lemma_step_is_kept<M: SampleMath>(r: Ramp, m: &M, n: nat)
    ensures
        r.advanced_by(m, n).step == r.step,
        r.advanced_by(m, n).target == r.target,
    decreases n,
{
    if n > 0 {
        lemma_step_is_kept(r, m, (n - 1) as nat);
    }
}

/// Of what a ramp was doing before it is sent elsewhere, only the gain that it had reached matters:
/// two ramps with the same gain are alike from then on. Sent there over no samples at all, a ramp
/// is at its target at once and rests.
pub proof fn law_aiming_forgets_earlier_targets<M: SampleMath>(
    a: Ramp,
    b: Ramp,
    m: &M,
    target: u32,
    samples: u32,
)
    requires
        a.current == b.current,
    ensures
        a.aimed_at(m, target, samples) == b.aimed_at(m, target, samples),
        a.aimed_at(m, target, samples).current == if samples == 0 {
            target
        } else {
            a.current
        },
        a.aimed_at(m, target, 0).advanced(m) == a.aimed_at(m, target, 0),
{
}

/// A duration takes no samples exactly if it is not positive or nothing is sampled. Otherwise it
/// takes as many as it has seconds times the rate, rounded, but never none; so a ramp of positive
/// length never jumps.
pub proof fn law_durations_take_samples<M: SampleMath>(m: &M, ms: u32, sample_rate: u32)
    ensures
        samples_in_ms(m, ms, sample_rate) == 0 <==> math::is_at_most(m, ms, SILENCE) || sample_rate
            == 0,
        samples_in_ms(m, ms, sample_rate) > 1 ==> samples_in_ms(m, ms, sample_rate)
            == math::count_of(
            m,
            math::product_of(
                m,
                math::quotient_of(m, ms, MS_PER_SECOND),
                math::word_of_count(m, sample_rate),
            ),
        ),
        samples_in_ms(m, ms, sample_rate) == 1 ==> math::count_of(
            m,
            math::product_of(
                m,
                math::quotient_of(m, ms, MS_PER_SECOND),
                math::word_of_count(m, sample_rate),
            ),
        ) <= 1,
{
}

} // verus!
