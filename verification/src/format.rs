//! The format in which everything is mixed: interleaved stereo at the rate of the output device.

use vstd::prelude::*;

verus! {

/// The number of channels of the internal mix.
pub const CHANNELS: usize = 2;

/// One sample: the raw word of a single-precision number (see [`crate::math`]).
pub type Sample = u32;

/// The output format. The sample rate is known once the device is open.
#[derive(Debug, Clone, Copy, PartialEq, Eq, Structural)]
pub struct AudioFormat {
    /// Frames per second.
    pub sample_rate: u32,
}

impl AudioFormat {
    /// The format with this sample rate.
    pub fn new(sample_rate: u32) -> (format: AudioFormat)
        ensures
            format.sample_rate == sample_rate,
    {
        AudioFormat { sample_rate }
    }

    /// The number of samples in an interleaved buffer of `frames` frames.
    pub fn samples_for_frames(&self, frames: usize) -> (samples: usize)
        requires
            frames * CHANNELS <= usize::MAX,
        ensures
            samples == frames * CHANNELS,
    {
        frames * CHANNELS
    }
}

} // verus!
