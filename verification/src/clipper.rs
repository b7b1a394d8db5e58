//! A soft clipper for the end of the mix.

use vstd::prelude::*;

#[allow(unused_imports)]
use crate::math;
use crate::math::{SampleMath, UNITY};

verus! {

/// Passes samples within the threshold through unchanged and bends larger ones towards it.
#[derive(Debug)]
pub struct SoftClipper {
    /// The magnitude up to which samples are left alone.
    pub threshold: u32,
    /// How many samples have been bent so far, modulo `2^64`.
    pub engaged_count: u64,
}

/// Whether the clipper has to bend `x`.
pub open spec fn exceeds<M: SampleMath>(m: &M, threshold: u32, x: u32) -> bool {
    !math::is_at_most(m, math::magnitude_of(m, x), threshold)
}

/// What a clipper with this threshold makes of `x`: beyond the threshold `t`, an excess `e` of the
/// magnitude is squeezed to `e / (1 + e)`, and the sign is kept.
pub open spec fn clipped<M: SampleMath>(m: &M, threshold: u32, x: u32) -> u32 {
    if exceeds(m, threshold, x) {
        let excess = math::difference_of(m, math::magnitude_of(m, x), threshold);
        math::product_of(
            m,
            math::sign_of(m, x),
            math::sum_of(
                m,
                threshold,
                math::quotient_of(m, excess, math::sum_of(m, UNITY, excess)),
            ),
        )
    } else {
        x
    }
}

/// A count of `n` after `x` went through a clipper with this threshold.
pub open spec fn counted<M: SampleMath>(m: &M, threshold: u32, x: u32, n: u64) -> u64 {
    if exceeds(m, threshold, x) {
        if n == u64::MAX {
            0
        } else {
            (n + 1) as u64
        }
    } else {
        n
    }
}

impl SoftClipper {
    /// A clipper with this threshold.
    pub fn new(threshold: u32) -> (c: SoftClipper)
        ensures
            c == (SoftClipper { threshold, engaged_count: 0 }),
    {
        SoftClipper { threshold, engaged_count: 0 }
    }

    /// Clips one sample.
    pub fn process<M: SampleMath>(&mut self, m: &M, x: u32) -> (y: u32)
        requires
            math::is_pure(m),
        ensures
            y == clipped(m, old(self).threshold, x),
            final(self).threshold == old(self).threshold,
            final(self).engaged_count == counted(
                m,
                old(self).threshold,
                x,
                old(self).engaged_count,
            ),
    {
        let size: u32 = m.magnitude(x);
        if m.at_most(size, self.threshold) {
            return x;
        }
        self.engaged_count = self.engaged_count.wrapping_add(1);
        let sign: u32 = m.sign(x);
        let excess: u32 = m.minus(size, self.threshold);
        let scale: u32 = m.plus(UNITY, excess);
        let squeezed: u32 = m.over(excess, scale);
        let bent: u32 = m.plus(self.threshold, squeezed);
        m.times(sign, bent)
    }

    /// Clips one frame, left before right.
    pub fn process_stereo<M: SampleMath>(&mut self, m: &M, l: u32, r: u32) -> (y: (u32, u32))
        requires
            math::is_pure(m),
        ensures
            y.0 == clipped(m, old(self).threshold, l),
            y.1 == clipped(m, old(self).threshold, r),
            final(self).threshold == old(self).threshold,
            final(self).engaged_count == counted(
                m,
                old(self).threshold,
                r,
                counted(m, old(self).threshold, l, old(self).engaged_count),
            ),
    {
        let left: u32 = self.process(m, l);
        let right: u32 = self.process(m, r);
        (left, right)
    }

    /// How many samples have been bent so far.
    pub fn engaged_count(&self) -> (n: u64)
        ensures
            n == self.engaged_count,
    {
        self.engaged_count
    }
}

impl Default for SoftClipper {
    fn default() -> (c: SoftClipper)
        ensures
            c == (SoftClipper { threshold: 0, engaged_count: 0 }),
    {
        SoftClipper::new(0)
    }
}

/// Samples whose magnitude does not exceed the threshold pass unchanged and are not counted.
pub proof fn law_quiet_samples_pass<M: SampleMath>(m: &M, threshold: u32, x: u32, n: u64)
    requires
        math::is_at_most(m, math::magnitude_of(m, x), threshold),
    ensures
        clipped(m, threshold, x) == x,
        counted(m, threshold, x, n) == n,
{
}

/// Louder samples are counted, modulo `2^64`, and keep their sign; what their magnitude has above
/// the threshold comes out as its share in itself and one, on top of the threshold.
pub proof fn law_loud_samples_are_bent<M: SampleMath>(
    m: &M,
    threshold: u32,
    x: u32,
    n: u64,
    excess: u32,
)
    requires
        !math::is_at_most(m, math::magnitude_of(m, x), threshold),
        excess == math::difference_of(m, math::magnitude_of(m, x), threshold),
    ensures
        clipped(m, threshold, x) == math::product_of(
            m,
            math::sign_of(m, x),
            math::sum_of(
                m,
                threshold,
                math::quotient_of(m, excess, math::sum_of(m, UNITY, excess)),
            ),
        ),
        counted(m, threshold, x, n) == (n + 1) % 0x1_0000_0000_0000_0000,
{
}

/// What becomes of a sample depends on its magnitude and its sign alone: samples of the same
/// magnitude are all bent or all passed, and all are counted alike.
pub proof fn law_equal_magnitudes_are_clipped_alike<M: SampleMath>(
    m: &M,
    threshold: u32,
    x: u32,
    y: u32,
    n: u64,
)
    requires
        math::magnitude_of(m, x) == math::magnitude_of(m, y),
    ensures
        counted(m, threshold, x, n) == counted(m, threshold, y, n),
        counted(m, threshold, x, n) != n && math::sign_of(m, x) == math::sign_of(m, y) ==> clipped(
            m,
            threshold,
            x,
        ) == clipped(m, threshold, y),
{
}

} // verus!
