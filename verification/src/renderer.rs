//! A renderer that produces silence and counts frames.

use vstd::prelude::*;

use crate::clock::RenderedFrameCounter;
use crate::format::CHANNELS;
use crate::math::SILENCE;
use crate::music::silence;

verus! {

/// Renders silence and counts what it has rendered.
#[derive(Debug)]
pub struct Renderer {
    /// Counts the rendered frames.
    pub frame_counter: RenderedFrameCounter,
}

impl Renderer {
    /// A renderer that has rendered nothing.
    pub fn new() -> (r: Renderer)
        ensures
            r.frame_counter.frames == 0,
    {
        Renderer { frame_counter: RenderedFrameCounter::new() }
    }

    /// Silences a buffer of interleaved samples and counts its whole frames.
    pub fn render(&mut self, output: &mut [u32])
        ensures
            final(output)@ == Seq::new(old(output)@.len(), |i: int| SILENCE),
            final(self).frame_counter.frames == old(self).frame_counter.frames.wrapping_add(
                (old(output)@.len() / CHANNELS as nat) as u64,
            ),
    {
        silence(output);
        let frames: u64 = (output.len() / CHANNELS) as u64;
        self.frame_counter.add(frames);
    }

    /// How many frames have been rendered.
    pub fn rendered_frames(&self) -> (n: u64)
        ensures
            n == self.frame_counter.frames,
    {
        self.frame_counter.get()
    }
}

impl Default for Renderer {
    fn default() -> (r: Renderer)
        ensures
            r.frame_counter.frames == 0,
    {
        Renderer::new()
    }
}

} // verus!
