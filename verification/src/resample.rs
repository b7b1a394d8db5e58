//! Conversion between sample rates: frame counts, and the buffers around a resampling engine.
//!
//! The engine itself works on floating point. It is driven from outside: this module says what to
//! feed it, takes what it gives back, and keeps account of its delay.

use vstd::prelude::*;

use crate::format::CHANNELS;
use crate::math::SILENCE;
use crate::text::joined;

verus! {

/// How many frames a streaming engine should take at once, roughly.
pub const STREAM_CHUNK_TARGET_FRAMES: usize = 1024;

/// How many frames are fed at once when a whole sound is resampled.
pub const ONESHOT_CHUNK_FRAMES: usize = 4096;

/// Why resampling failed.
#[derive(Debug, Clone, PartialEq)]
pub enum ResampleError {
    /// The engine could not be set up.
    Construction(String),
    /// The engine failed.
    Processing(String),
}

impl ResampleError {
    /// What is told of this error.
    pub open spec fn text(self) -> Seq<char> {
        match self {
            ResampleError::Construction(msg) => "resampler construction failed: "@ + msg@,
            ResampleError::Processing(msg) => "resampling failed: "@ + msg@,
        }
    }

    /// What is told of this error.
    pub fn message(&self) -> (s: String)
        ensures
            s@ == self.text(),
    {
        match self {
            ResampleError::Construction(msg) => joined(
                "resampler construction failed: ",
                msg.as_str(),
            ),
            ResampleError::Processing(msg) => joined("resampling failed: ", msg.as_str()),
        }
    }
}

/// `frames` frames at `from_rate`, counted at `to_rate`, rounded to the nearest count.
pub open spec fn converted(frames: nat, from_rate: nat, to_rate: nat) -> nat {
    if from_rate == to_rate || frames == 0 {
        frames
    } else {
        (frames * to_rate + from_rate / 2) / from_rate
    }
}

/// Converts a number of frames from one sample rate to another, rounding to the nearest (modulo
/// `2^64`).
pub fn convert_frame_count(frames: u64, from_rate: u32, to_rate: u32) -> (n: u64)
    requires
        from_rate != 0 || from_rate == to_rate || frames == 0,
    ensures
        n as int == converted(frames as nat, from_rate as nat, to_rate as nat) as int
            % 0x1_0000_0000_0000_0000,
{
    if from_rate == to_rate || frames == 0 {
        return frames;
    }
    assert(frames as u128 * to_rate as u128 <= 0xffff_ffff_ffff_ffff * 0xffff_ffff)
        by (nonlinear_arith)
        requires
            frames <= 0xffff_ffff_ffff_ffff,
            to_rate <= 0xffff_ffff,
    ;
    let numerator: u128 = frames as u128 * to_rate as u128;
    let denominator: u128 = from_rate as u128;
    let exact: u128 = (numerator + denominator / 2) / denominator;
    assert(exact as u64 as u128 == exact % 0x1_0000_0000_0000_0000u128) by (bit_vector);
    exact as u64
}

/// The converted count lies as near to the exact ratio as a count can: no more than half a frame
/// away.
pub proof fn law_conversion_rounds_to_nearest(frames: nat, from_rate: nat, to_rate: nat)
    requires
        from_rate > 0,
    ensures
        2 * converted(frames, from_rate, to_rate) * from_rate <= 2 * frames * to_rate + from_rate,
        2 * frames * to_rate <= 2 * converted(frames, from_rate, to_rate) * from_rate + from_rate,
{
    let x = frames * to_rate;
    let f = from_rate;
    if from_rate == to_rate || frames == 0 {
        assert(2 * frames * f <= 2 * frames * to_rate + f) by (nonlinear_arith)
            requires
                f == to_rate || frames == 0,
        ;
        assert(2 * frames * to_rate <= 2 * frames * f + f) by (nonlinear_arith)
            requires
                f == to_rate || frames == 0,
        ;
    } else {
        let q = (x + f / 2) / f;
        assert(q * f <= x + f / 2 < q * f + f) by (nonlinear_arith)
            requires
                f > 0,
                q == (x + f / 2) / f,
        ;
        assert(2 * q * f == 2 * (q * f)) by (nonlinear_arith);
        assert(2 * frames * to_rate == 2 * x) by (nonlinear_arith)
            requires
                x == frames * to_rate,
        ;
    }
}

/// A later frame is not converted to an earlier one.
pub proof fn law_conversion_is_monotonic(a: nat, b: nat, from_rate: nat, to_rate: nat)
    requires
        a <= b,
        from_rate > 0,
    ensures
        converted(a, from_rate, to_rate) <= converted(b, from_rate, to_rate),
{
    if from_rate != to_rate && b != 0 {
        assert(a * to_rate <= b * to_rate) by (nonlinear_arith)
            requires
                a <= b,
        ;
        let x = a * to_rate + from_rate / 2;
        let y = b * to_rate + from_rate / 2;
        assert(0 <= x / from_rate <= y / from_rate) by (nonlinear_arith)
            requires
                0 <= x <= y,
                from_rate > 0,
        ;
    }
}

/// Between equal rates nothing changes.
pub proof fn law_conversion_between_equal_rates(frames: nat, rate: nat)
    ensures
        converted(frames, rate, rate) == frames,
{
}

/// Whether `planar` holds a plane for each channel, each with room for `frames` frames.
pub open spec fn planes_fit(planar: Seq<Vec<u32>>, frames: int) -> bool {
    &&& planar.len() == CHANNELS
    &&& planar[0]@.len() >= frames
    &&& planar[1]@.len() >= frames
}

/// The channel `ch` of the first `frames` interleaved frames of `input`.
pub open spec fn channel_of(input: Seq<u32>, ch: int, frames: int) -> Seq<u32> {
    Seq::new(frames as nat, |i: int| input[i * 2 + ch])
}

/// Copies `frames` interleaved frames into one plane per channel. What the planes hold beyond that
/// stays.
pub fn deinterleave(input: &[u32], frames: usize, planar: &mut Vec<Vec<u32>>)
    requires
        frames * 2 <= input@.len(),
        planes_fit(old(planar)@, frames as int),
    ensures
        final(planar)@.len() == 2,
        final(planar)@[0]@ == channel_of(input@, 0, frames as int) + old(planar)@[0]@.skip(
            frames as int,
        ),
        final(planar)@[1]@ == channel_of(input@, 1, frames as int) + old(planar)@[1]@.skip(
            frames as int,
        ),
{
    let len: usize = input.len();
    let mut i: usize = 0;
    while i < frames
        invariant
            i <= frames,
            frames * 2 <= input@.len() == len,
            planar@.len() == 2,
            planes_fit(old(planar)@, frames as int),
            planar@[0]@.len() == old(planar)@[0]@.len(),
            planar@[1]@.len() == old(planar)@[1]@.len(),
            forall|k: int| 0 <= k < i ==> planar@[0]@[k] == input@[k * 2],
            forall|k: int| 0 <= k < i ==> planar@[1]@[k] == input@[k * 2 + 1],
            forall|k: int|
                i <= k < planar@[0]@.len() ==> planar@[0]@[k] == old(planar)@[0]@[k],
            forall|k: int|
                i <= k < planar@[1]@.len() ==> planar@[1]@[k] == old(planar)@[1]@[k],
        decreases frames - i,
    {
        let base: usize = i * CHANNELS;
        let left: &mut Vec<u32> = &mut planar[0];
        left[i] = input[base];
        let right: &mut Vec<u32> = &mut planar[1];
        right[i] = input[base + 1];
        i = i + 1;
    }
    assert(planar@[0]@ =~= channel_of(input@, 0, frames as int) + old(planar)@[0]@.skip(
        frames as int,
    ));
    assert(planar@[1]@ =~= channel_of(input@, 1, frames as int) + old(planar)@[1]@.skip(
        frames as int,
    ));
}

/// The frames from `from` up to `to` of two planes, interleaved.
pub open spec fn interleaved(planar: Seq<Vec<u32>>, from: int, to: int) -> Seq<u32> {
    Seq::new(
        (2 * (to - from)) as nat,
        |i: int| planar[i % 2]@[from + i / 2],
    )
}

/// The smaller of two counts.
pub open spec fn least(a: nat, b: nat) -> nat {
    if a < b {
        a
    } else {
        b
    }
}

/// Appends the first `n_out` frames of the planes to `out`, interleaved, without those that only
/// stem from the engine's delay: `delay_to_skip` says how many of them are still to come.
pub fn append_resampled_output(
    planar: &Vec<Vec<u32>>,
    n_out: usize,
    delay_to_skip: &mut usize,
    out: &mut Vec<u32>,
)
    requires
        planes_fit(planar@, n_out as int),
    ensures
        ({
            let skip = least(*old(delay_to_skip) as nat, n_out as nat);
            &&& *final(delay_to_skip) == *old(delay_to_skip) - skip
            &&& final(out)@ == old(out)@ + interleaved(planar@, skip as int, n_out as int)
        }),
{
    let skip: usize = if *delay_to_skip < n_out {
        *delay_to_skip
    } else {
        n_out
    };
    *delay_to_skip = *delay_to_skip - skip;
    let mut i: usize = skip;
    assert(out@ =~= old(out)@ + interleaved(planar@, skip as int, skip as int));
    while i < n_out
        invariant
            skip <= i <= n_out,
            planes_fit(planar@, n_out as int),
            out@ == old(out)@ + interleaved(planar@, skip as int, i as int),
        decreases n_out - i,
    {
        out.push(planar[0][i]);
        out.push(planar[1][i]);
        i = i + 1;
        assert(out@ =~= old(out)@ + interleaved(planar@, skip as int, i as int));
    }
}

/// `samples`, cut off or followed by silence so that there are `n` of them.
pub open spec fn fitted(samples: Seq<u32>, n: nat) -> Seq<u32> {
    if samples.len() >= n {
        samples.take(n as int)
    } else {
        samples + Seq::new((n - samples.len()) as nat, |i: int| SILENCE)
    }
}

/// What to feed the engine next.
#[derive(Debug, Clone, Copy, PartialEq, Eq, Structural)]
pub enum Feed {
    /// The planes are full.
    Whole,
    /// Only this many frames of the planes are meant, and they are the last ones.
    Rest(usize),
}

/// A whole sound on its way through a resampling engine.
#[derive(Debug)]
pub struct OneshotResample {
    /// The length of the sound.
    pub frames: usize,
    /// The rate of the sound.
    pub source_rate: u32,
    /// The rate it is converted to.
    pub output_rate: u32,
    /// How many frames have been fed.
    pub pos: usize,
    /// Whether the last frames have been fed.
    pub flushed: bool,
    /// How many frames of the engine's delay are still to come.
    pub delay_to_skip: usize,
    /// What the engine has given back.
    pub out: Vec<u32>,
}

impl OneshotResample {
    /// The length of the result.
    pub open spec fn target_frames(self) -> int {
        converted(self.frames as nat, self.source_rate as nat, self.output_rate as nat) as int
            % 0x1_0000_0000_0000_0000
    }

    /// Whether what has been fed is within the sound.
    pub open spec fn wf(self) -> bool {
        &&& self.source_rate > 0
        &&& self.pos <= self.frames
        &&& self.target_frames() * 2 <= usize::MAX
    }

    /// What is fed next.
    pub open spec fn next(self) -> Option<Feed> {
        if self.frames - self.pos >= ONESHOT_CHUNK_FRAMES {
            Some(Feed::Whole)
        } else if !self.flushed {
            Some(Feed::Rest((self.frames - self.pos) as usize))
        } else {
            None
        }
    }

    /// Whether nothing of a sound of `frames` frames has been fed to an engine with the delay
    /// `output_delay`, or come back from it.
    pub open spec fn is_begun(self, frames: usize, output_delay: usize) -> bool {
        &&& self.frames == frames
        &&& self.pos == 0
        &&& !self.flushed
        &&& self.delay_to_skip == output_delay
        &&& self.out@.len() == 0
    }

    /// How many frames are fed next.
    pub open spec fn next_frames(self) -> nat {
        match self.next() {
            Some(Feed::Whole) => ONESHOT_CHUNK_FRAMES as nat,
            Some(Feed::Rest(n)) => n as nat,
            None => 0,
        }
    }

    /// How many frames have been fed once the next ones have, and whether these were the last.
    pub open spec fn progress(self) -> (int, bool) {
        (self.pos + self.next_frames(), self.flushed || self.next_frames() < ONESHOT_CHUNK_FRAMES)
    }

    /// A sound of which nothing has been fed, for an engine with this delay.
    pub fn new(
        frames: usize,
        source_rate: u32,
        output_rate: u32,
        output_delay: usize,
    ) -> (r: OneshotResample)
        requires
            source_rate > 0,
            (converted(frames as nat, source_rate as nat, output_rate as nat) as int
                % 0x1_0000_0000_0000_0000) * 2 <= usize::MAX,
        ensures
            r.wf(),
            r.is_begun(frames, output_delay),
            r.frames == frames,
            r.source_rate == source_rate,
            r.output_rate == output_rate,
            r.pos == 0,
            !r.flushed,
            r.delay_to_skip == output_delay,
            r.out@ == Seq::<u32>::empty(),
    {
        OneshotResample {
            frames,
            source_rate,
            output_rate,
            pos: 0,
            flushed: false,
            delay_to_skip: output_delay,
            out: Vec::new(),
        }
    }

    /// Puts the next frames of `input` into the planes: whole chunks as long as there are any,
    /// then the rest, even if nothing is left, since the engine has to be flushed. None once that
    /// has been done. What `input` has beyond the frames to convert is left alone.
    pub fn feed(&mut self, input: &[u32], planar: &mut Vec<Vec<u32>>) -> (feed: Option<Feed>)
        requires
            old(self).wf(),
            input@.len() >= old(self).frames * 2,
            planes_fit(old(planar)@, ONESHOT_CHUNK_FRAMES as int),
        ensures
            feed == old(self).next(),
            (final(self).pos as int, final(self).flushed) == old(self).progress(),
            final(self).out@ == old(self).out@,
            final(self).wf(),
            planes_fit(final(planar)@, ONESHOT_CHUNK_FRAMES as int),
            ({
                let n = match feed {
                    Some(Feed::Whole) => ONESHOT_CHUNK_FRAMES as int,
                    Some(Feed::Rest(k)) => k as int,
                    None => 0,
                };
                let from = input@.skip(old(self).pos * 2);
                &&& *final(self) == (OneshotResample {
                    pos: (old(self).pos + n) as usize,
                    flushed: old(self).flushed || feed matches Some(Feed::Rest(_)),
                    out: final(self).out,
                    ..*old(self)
                })
                &&& final(planar)@[0]@ == channel_of(from, 0, n) + old(planar)@[0]@.skip(n)
                &&& final(planar)@[1]@ == channel_of(from, 1, n) + old(planar)@[1]@.skip(n)
            }),
    {
        let left: usize = self.frames - self.pos;
        let len: usize = input.len();
        assert(self.pos * 2 <= len);
        let start: usize = self.pos * CHANNELS;
        let (_, from) = input.split_at(start);
        assert(from@ =~= input@.skip(self.pos * 2));
        if left >= ONESHOT_CHUNK_FRAMES {
            deinterleave(from, ONESHOT_CHUNK_FRAMES, planar);
            self.pos = self.pos + ONESHOT_CHUNK_FRAMES;
            return Some(Feed::Whole);
        }
        if self.flushed {
            deinterleave(from, 0, planar);
            return None;
        }
        deinterleave(from, left, planar);
        self.pos = self.pos + left;
        self.flushed = true;
        Some(Feed::Rest(left))
    }

    /// Takes what the engine has given back.
    pub fn accept(&mut self, planar: &Vec<Vec<u32>>, n_out: usize)
        requires
            planes_fit(planar@, n_out as int),
        ensures
            ({
                let skip = least(old(self).delay_to_skip as nat, n_out as nat);
                &&& final(self).out@ == old(self).out@ + interleaved(
                    planar@,
                    skip as int,
                    n_out as int,
                )
                &&& *final(self) == (OneshotResample {
                    delay_to_skip: (old(self).delay_to_skip - skip) as usize,
                    out: final(self).out,
                    ..*old(self)
                })
            }),
    {
        append_resampled_output(planar, n_out, &mut self.delay_to_skip, &mut self.out);
    }

    /// The result and its length in frames: exactly as long as the sound is at the new rate. What
    /// the engine gave beyond that is cut off, and what is missing is silence.
    pub fn finish(self) -> (result: (Vec<u32>, usize))
        requires
            self.wf(),
        ensures
            result.1 == self.target_frames(),
            result.0@ == fitted(self.out@, (2 * self.target_frames()) as nat),
            result.0@ == Seq::new(
                (result.1 * 2) as nat,
                |i: int|
                    if i < self.out@.len() {
                        self.out@[i]
                    } else {
                        SILENCE
                    },
            ),
    {
        let target: usize = convert_frame_count(
            self.frames as u64,
            self.source_rate,
            self.output_rate,
        ) as usize;
        let mut out: Vec<u32> = self.out;
        out.resize(target * CHANNELS, SILENCE);
        assert(out@ =~= fitted(self.out@, (2 * self.target_frames()) as nat));
        assert(out@ =~= Seq::new(
            (target * 2) as nat,
            |i: int|
                if i < self.out@.len() {
                    self.out@[i]
                } else {
                    SILENCE
                },
        ));
        (out, target)
    }
}

/// The buffers of a streaming engine.
#[derive(Debug)]
pub struct StreamResampler {
    /// How many frames the engine takes at once.
    pub input_frames: usize,
    /// The delay of the engine.
    pub output_delay: usize,
    /// How many frames of that delay are still to come.
    pub delay_to_skip: usize,
    /// One plane per channel with what the engine is fed.
    pub planar: Vec<Vec<u32>>,
}

impl StreamResampler {
    /// Whether the planes are as long as the engine needs.
    pub open spec fn wf(self) -> bool {
        &&& self.planar@.len() == CHANNELS
        &&& self.planar@[0]@.len() == self.input_frames
        &&& self.planar@[1]@.len() == self.input_frames
    }

    /// Whether putting `frames` interleaved frames into the planes leads to `next`.
    pub open spec fn is_loaded(self, next: StreamResampler, input: Seq<u32>, frames: int) -> bool {
        &&& next == (StreamResampler { planar: next.planar, ..self })
        &&& next.planar@.len() == self.planar@.len()
        &&& next.planar@[0]@ == channel_of(input, 0, frames) + self.planar@[0]@.skip(frames)
        &&& next.planar@[1]@ == channel_of(input, 1, frames) + self.planar@[1]@.skip(frames)
    }

    /// Whether these are the buffers of an engine that takes `input_frames` frames at once and has
    /// the delay `output_delay`, of which nothing has come back yet.
    pub open spec fn is_begun(self, input_frames: usize, output_delay: usize) -> bool {
        &&& self.wf()
        &&& self.input_frames == input_frames
        &&& self.output_delay == output_delay
        &&& self.delay_to_skip == output_delay
    }

    /// These buffers for an engine that has been reset.
    pub open spec fn restarted(self) -> StreamResampler {
        StreamResampler { delay_to_skip: self.output_delay, ..self }
    }

    /// Buffers for an engine that takes `input_frames` frames at once.
    pub fn new(input_frames: usize, output_delay: usize) -> (r: StreamResampler)
        ensures
            r.is_begun(input_frames, output_delay),
            r.wf(),
            r.input_frames == input_frames,
            r.output_delay == output_delay,
            r.delay_to_skip == output_delay,
    {
        let mut planar: Vec<Vec<u32>> = Vec::new();
        planar.push(vec![SILENCE; input_frames]);
        planar.push(vec![SILENCE; input_frames]);
        StreamResampler { input_frames, output_delay, delay_to_skip: output_delay, planar }
    }

    /// How many frames the engine takes at once.
    pub fn input_frames_needed(&self) -> (n: usize)
        ensures
            n == self.input_frames,
    {
        self.input_frames
    }

    /// Puts interleaved frames into the planes: as many as the engine takes, or the last ones of
    /// the stream. Returns how many that are.
    pub fn load(&mut self, input: &[u32]) -> (frames: usize)
        requires
            old(self).wf(),
            input@.len() / 2 <= old(self).input_frames,
        ensures
            final(self).wf(),
            frames == input@.len() / 2,
            old(self).is_loaded(*final(self), input@, frames as int),
    {
        let frames: usize = input.len() / CHANNELS;
        deinterleave(input, frames, &mut self.planar);
        frames
    }

    /// Appends what the engine has given back to `out`.
    pub fn take(&mut self, planar: &Vec<Vec<u32>>, n_out: usize, out: &mut Vec<u32>)
        requires
            planes_fit(planar@, n_out as int),
        ensures
            ({
                let skip = least(old(self).delay_to_skip as nat, n_out as nat);
                &&& *final(self) == (StreamResampler {
                    delay_to_skip: (old(self).delay_to_skip - skip) as usize,
                    ..*old(self)
                })
                &&& final(out)@ == old(out)@ + interleaved(planar@, skip as int, n_out as int)
            }),
    {
        append_resampled_output(planar, n_out, &mut self.delay_to_skip, out);
    }

    /// Prepares for an engine that has been reset after a seek: its delay comes once more.
    pub fn reset(&mut self)
        ensures
            *final(self) == old(self).restarted(),
            *final(self) == (StreamResampler {
                delay_to_skip: old(self).output_delay,
                ..*old(self)
            }),
    {
        self.delay_to_skip = self.output_delay;
    }
}

/// Taking the channels of interleaved frames apart keeps every sample: the plane of a channel holds
/// its samples in their order, the left ones from the even places and the right ones from the odd.
pub proof fn law_planes_hold_their_channel(input: Seq<u32>, frames: nat, i: int)
    requires
        2 * frames <= input.len(),
        0 <= i < frames,
    ensures
        channel_of(input, 0, frames as int).len() == frames,
        channel_of(input, 1, frames as int).len() == frames,
        channel_of(input, 0, frames as int)[i] == input[2 * i],
        channel_of(input, 1, frames as int)[i] == input[2 * i + 1],
{
}

/// Putting planes together gives one frame for each place from `from` up to `to`: first the sample
/// of the left plane there, then that of the right one.
pub proof fn law_frames_are_put_together(planar: Seq<Vec<u32>>, from: int, to: int, i: int)
    requires
        from <= i < to,
    ensures
        interleaved(planar, from, to).len() == 2 * (to - from),
        interleaved(planar, from, to)[2 * (i - from)] == planar[0]@[i],
        interleaved(planar, from, to)[2 * (i - from) + 1] == planar[1]@[i],
{
}

/// Taking frames apart and putting them together again gives the same frames.
pub proof fn law_planes_give_back_the_frames(input: Seq<u32>, frames: nat, planar: Seq<Vec<u32>>)
    requires
        2 * frames <= input.len(),
        planar.len() == 2,
        planar[0]@ == channel_of(input, 0, frames as int),
        planar[1]@ == channel_of(input, 1, frames as int),
    ensures
        interleaved(planar, 0, frames as int) == input.take(2 * frames as int),
{
    let whole = interleaved(planar, 0, frames as int);
    assert forall|i: int| 0 <= i < 2 * frames implies whole[i] == input[i] by {
        assert(i / 2 * 2 + i % 2 == i);
    }
    assert(whole =~= input.take(2 * frames as int));
}

/// A sound is fed to the engine as long as a whole chunk is left, chunk by chunk, and then once
/// more with the rest, which may be nothing; after that nothing is fed. With the rest all of the
/// sound has been fed.
pub proof fn law_sounds_are_fed_to_their_end(r: OneshotResample)
    requires
        r.wf(),
    ensures
        ({
            let left = r.frames - r.pos;
            &&& left >= ONESHOT_CHUNK_FRAMES <==> r.next() == Some(Feed::Whole)
            &&& left < ONESHOT_CHUNK_FRAMES && !r.flushed <==> r.next() is Some && r.next()->0
                is Rest
            &&& left < ONESHOT_CHUNK_FRAMES && r.flushed <==> r.next() is None
            &&& r.next() matches Some(Feed::Rest(n)) ==> r.pos + n == r.frames
        }),
{
}

/// The delay of an engine is skipped once: however its output is cut into two pieces, what is
/// skipped of both together is what would be skipped of it in one piece, and no more than there is.
pub proof fn law_the_delay_is_skipped_once(delay: nat, first: nat, second: nat)
    ensures
        least(delay, first) <= delay,
        least(delay, first) <= first,
        least(delay, first) == delay || least(delay, first) == first,
        ({
            let left = (delay - least(delay, first)) as nat;
            least(delay, first) + least(left, second) == least(delay, first + second)
        }),
{
}

/// Converting there and back again from a rate to a higher one gives the same count.
pub proof fn law_conversion_to_a_higher_rate_is_undone(frames: nat, low: nat, high: nat)
    requires
        0 < low <= high,
    ensures
        converted(converted(frames, low, high), high, low) == frames,
{
    law_conversion_rounds_to_nearest(frames, low, high);
    if low != high && frames != 0 {
        let n = converted(frames, low, high);
        let d = frames * high;
        assert(2 * n * low <= 2 * d + low && 2 * d <= 2 * n * low + low) by (nonlinear_arith)
            requires
                2 * n * low <= 2 * frames * high + low,
                2 * frames * high <= 2 * n * low + low,
                d == frames * high,
        ;
        assert(n > 0) by (nonlinear_arith)
            requires
                2 * frames * high <= 2 * n * low + low,
                frames >= 1,
                high > low,
                low > 0,
        ;
        let x = n * low + high / 2;
        assert(n * low == low * n) by (nonlinear_arith);
        assert(frames * high <= x < frames * high + high) by (nonlinear_arith)
            requires
                x == n * low + high / 2,
                2 * n * low <= 2 * frames * high + low,
                2 * frames * high <= 2 * n * low + low,
                low < high,
        ;
        assert(x / high == frames) by (nonlinear_arith)
            requires
                frames * high <= x < frames * high + high,
                high > 0,
        ;
    }
}

/// A sound that is made to fit keeps its samples as far as they go and as far as there is room, and
/// what is missing behind them is silence.
pub proof fn law_fitted_sounds_keep_their_samples(samples: Seq<u32>, n: nat, i: int)
    requires
        0 <= i < n,
    ensures
        fitted(samples, n).len() == n,
        i < samples.len() ==> fitted(samples, n)[i] == samples[i],
        i >= samples.len() ==> fitted(samples, n)[i] == SILENCE,
        fitted(fitted(samples, n), n) == fitted(samples, n),
{
    assert(fitted(fitted(samples, n), n) =~= fitted(samples, n));
}

/// A whole sound is as long at its new rate as its frames take there, to the nearest frame.
pub proof fn law_resampled_sounds_last_as_long(r: OneshotResample)
    requires
        r.source_rate > 0,
        r.frames * r.output_rate < 0x8000_0000_0000_0000 * r.source_rate,
    ensures
        2 * r.target_frames() * r.source_rate <= 2 * r.frames * r.output_rate + r.source_rate,
        2 * r.frames * r.output_rate <= 2 * r.target_frames() * r.source_rate + r.source_rate,
        r.source_rate == r.output_rate ==> r.target_frames() == r.frames,
{
    let rate = r.source_rate as nat;
    law_conversion_rounds_to_nearest(r.frames as nat, rate, r.output_rate as nat);
    let c = converted(r.frames as nat, rate, r.output_rate as nat);
    let x = r.frames * r.output_rate;
    assert(c < 0x1_0000_0000_0000_0000) by (nonlinear_arith)
        requires
            2 * c * rate <= 2 * r.frames * r.output_rate + rate,
            r.frames * r.output_rate < 0x8000_0000_0000_0000 * rate,
            rate > 0,
    ;
}

/// Frames that are put into the planes of a streaming engine stand there in their order, left and
/// right apart; what the planes hold behind them stays, and so does everything else.
pub proof fn law_loaded_frames_stand_in_their_planes(
    before: StreamResampler,
    after: StreamResampler,
    input: Seq<u32>,
    frames: int,
    i: int,
)
    requires
        before.wf(),
        0 <= frames <= before.input_frames,
        2 * frames <= input.len(),
        before.is_loaded(after, input, frames),
        0 <= i < before.input_frames,
    ensures
        after.wf(),
        i < frames ==> after.planar@[0]@[i] == input[2 * i] && after.planar@[1]@[i] == input[2 * i
            + 1],
        i >= frames ==> after.planar@[0]@[i] == before.planar@[0]@[i] && after.planar@[1]@[i]
            == before.planar@[1]@[i],
        after.delay_to_skip == before.delay_to_skip,
        after.output_delay == before.output_delay,
{
}

/// Feeding a sound gets on until its end: every whole chunk moves on by its frames, the rest moves
/// to the end, and from then on nothing moves.
pub proof fn law_feeding_gets_to_the_end(r: OneshotResample)
    requires
        r.wf(),
    ensures
        r.pos <= r.progress().0 <= r.frames,
        r.frames - r.pos >= ONESHOT_CHUNK_FRAMES ==> r.progress() == (
            r.pos + ONESHOT_CHUNK_FRAMES,
            r.flushed,
        ),
        r.frames - r.pos < ONESHOT_CHUNK_FRAMES && !r.flushed ==> r.progress() == (
            r.frames as int,
            true,
        ),
        r.frames - r.pos < ONESHOT_CHUNK_FRAMES && r.flushed ==> r.progress() == (
            r.pos as int,
            true,
        ),
{
}

/// The delay of an engine is to be skipped from the start, once for the whole sound, and once more
/// each time the engine is reset; nothing else of its buffers changes then.
pub proof fn law_delays_are_skipped_from_the_start(
    whole: OneshotResample,
    stream: StreamResampler,
    frames: usize,
    delay: usize,
)
    requires
        whole.is_begun(frames, delay),
        stream.is_begun(frames, delay),
    ensures
        whole.delay_to_skip == delay,
        whole.out@.len() == 0,
        whole.frames - whole.pos == frames,
        whole.next() is Some,
        stream.delay_to_skip == delay,
        stream.planar@[0]@.len() == frames,
        stream.planar@[1]@.len() == frames,
        forall|left: usize|
            (#[trigger] (StreamResampler { delay_to_skip: left, ..stream }).restarted()) == stream,
{
}

} // verus!
