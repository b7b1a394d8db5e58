//! Decoding of 16-bit PCM WAV files.

use vstd::prelude::*;
use vstd::slice::slice_subrange;

use crate::format::CHANNELS;
#[allow(unused_imports)]
use crate::math;
use crate::math::{SampleMath, EQUAL_POWER_GAIN, PCM16_FULL_SCALE};
use crate::resample::ResampleError;
use crate::sound::SoundData;
#[allow(unused_imports)]
use crate::text;
use crate::text::numbered;

verus! {

/// Why a file could not be decoded.
#[derive(Debug, Clone, PartialEq)]
pub enum WavError {
    /// The file ends too early.
    Truncated,
    /// The file does not start with `RIFF`.
    NotRiff,
    /// The RIFF form is not `WAVE`.
    NotWave,
    /// The `fmt ` chunk is missing or too short.
    MissingFmtChunk,
    /// The `data` chunk is missing.
    MissingDataChunk,
    /// The samples are not PCM.
    UnsupportedFormatTag(u16),
    /// The samples do not have 16 bits.
    UnsupportedBitsPerSample(u16),
    /// The sound is neither mono nor stereo.
    UnsupportedChannelCount(u16),
    /// The sample rate is zero.
    InvalidSampleRate(u32),
    /// The sound could not be converted to the rate of the output.
    Resample(ResampleError),
}

impl WavError {
    /// What is told of this error.
    pub open spec fn text(self) -> Seq<char> {
        match self {
            WavError::Truncated => "wav data is truncated (cannot read RIFF header)"@,
            WavError::NotRiff => "not a RIFF file (missing 'RIFF' magic)"@,
            WavError::NotWave => "not a WAVE file (missing 'WAVE' format tag)"@,
            WavError::MissingFmtChunk => "wav is missing the 'fmt ' chunk"@,
            WavError::MissingDataChunk => "wav is missing the 'data' chunk"@,
            WavError::UnsupportedFormatTag(tag) => "unsupported wav format tag "@ + text::decimal(
                tag as nat,
            ) + " (only PCM = 1 is supported in M1)"@,
            WavError::UnsupportedBitsPerSample(bits) => "unsupported bits-per-sample "@
                + text::decimal(bits as nat) + " (only 16-bit PCM is supported in M1)"@,
            WavError::UnsupportedChannelCount(channels) => "unsupported channel count "@
                + text::decimal(channels as nat) + " (only mono or stereo is supported)"@,
            WavError::InvalidSampleRate(rate) => "invalid sample rate "@ + text::decimal(
                rate as nat,
            ) + " Hz (must be > 0)"@,
            WavError::Resample(err) => err.text(),
        }
    }

    /// What is told of this error.
    pub fn message(&self) -> (s: String)
        ensures
            s@ == self.text(),
    {
        match self {
            WavError::Truncated => "wav data is truncated (cannot read RIFF header)".to_owned(),
            WavError::NotRiff => "not a RIFF file (missing 'RIFF' magic)".to_owned(),
            WavError::NotWave => "not a WAVE file (missing 'WAVE' format tag)".to_owned(),
            WavError::MissingFmtChunk => "wav is missing the 'fmt ' chunk".to_owned(),
            WavError::MissingDataChunk => "wav is missing the 'data' chunk".to_owned(),
            WavError::UnsupportedFormatTag(tag) => numbered(
                "unsupported wav format tag ",
                *tag as u64,
                " (only PCM = 1 is supported in M1)",
            ),
            WavError::UnsupportedBitsPerSample(bits) => numbered(
                "unsupported bits-per-sample ",
                *bits as u64,
                " (only 16-bit PCM is supported in M1)",
            ),
            WavError::UnsupportedChannelCount(channels) => numbered(
                "unsupported channel count ",
                *channels as u64,
                " (only mono or stereo is supported)",
            ),
            WavError::InvalidSampleRate(rate) => numbered(
                "invalid sample rate ",
                *rate as u64,
                " Hz (must be > 0)",
            ),
            WavError::Resample(err) => err.message(),
        }
    }
}

/// The unsigned 16-bit number whose low byte is at `i`.
pub open spec fn u16_at(bytes: Seq<u8>, i: int) -> nat {
    (bytes[i] + 256 * bytes[i + 1]) as nat
}

/// The unsigned 32-bit number whose low byte is at `i`.
pub open spec fn u32_at(bytes: Seq<u8>, i: int) -> nat {
    (bytes[i] + 0x100 * bytes[i + 1] + 0x1_0000 * bytes[i + 2] + 0x100_0000 * bytes[i + 3]) as nat
}

/// The signed 16-bit number whose low byte is at `i`.
pub open spec fn i16_at(bytes: Seq<u8>, i: int) -> i16 {
    if u16_at(bytes, i) < 0x8000 {
        u16_at(bytes, i) as i16
    } else {
        (u16_at(bytes, i) - 0x1_0000) as i16
    }
}

/// Whether the four bytes at `i` are `a b c d`.
pub open spec fn tag_at(bytes: Seq<u8>, i: int, a: u8, b: u8, c: u8, d: u8) -> bool {
    bytes[i] == a && bytes[i + 1] == b && bytes[i + 2] == c && bytes[i + 3] == d
}

/// What a `fmt ` chunk says of the samples.
#[derive(Debug, Clone, Copy, PartialEq, Eq, Structural)]
pub struct WavFormat {
    /// The kind of encoding; `1` for PCM.
    pub format_tag: u16,
    /// The number of channels.
    pub channels: u16,
    /// Frames per second.
    pub sample_rate: u32,
    /// The size of a sample.
    pub bits_per_sample: u16,
}

/// The format that the 16 bytes of `bytes` from `i` on describe.
pub open spec fn format_at(bytes: Seq<u8>, i: int) -> WavFormat {
    WavFormat {
        format_tag: u16_at(bytes, i) as u16,
        channels: u16_at(bytes, i + 2) as u16,
        sample_rate: u32_at(bytes, i + 4) as u32,
        bits_per_sample: u16_at(bytes, i + 14) as u16,
    }
}

/// What the chunks of a file hold, as far as it matters here.
#[verifier::ext_equal]
pub struct Chunks {
    /// The last `fmt ` chunk.
    pub format: Option<WavFormat>,
    /// The last `data` chunk.
    pub data: Option<Seq<u8>>,
}

/// Where the chunk after the one at `pos` starts. A chunk of odd size is followed by a byte that
/// does not count, unless the file ends there.
pub open spec fn next_chunk(bytes: Seq<u8>, pos: int) -> int {
    let end = pos + 8 + u32_at(bytes, pos + 4);
    if u32_at(bytes, pos + 4) % 2 == 1 && end < bytes.len() {
        end + 1
    } else {
        end
    }
}

/// What the chunks from `pos` on hold, if `found` was found before. Fewer than eight bytes are no
/// chunk and end the search. A chunk that reaches beyond the file, or a `fmt ` chunk that is too
/// short, is an error.
pub open spec fn chunks_from(bytes: Seq<u8>, pos: int, found: Chunks) -> Result<Chunks, WavError>
    decreases bytes.len() - pos,
{
    if bytes.len() - pos < 8 {
        Ok(found)
    } else {
        let size = u32_at(bytes, pos + 4);
        if pos + 8 + size > bytes.len() {
            Err(WavError::Truncated)
        } else if tag_at(bytes, pos, 0x66, 0x6D, 0x74, 0x20) {
            if size < 16 {
                Err(WavError::MissingFmtChunk)
            } else {
                chunks_from(
                    bytes,
                    next_chunk(bytes, pos),
                    Chunks { format: Some(format_at(bytes, pos + 8)), ..found },
                )
            }
        } else if tag_at(bytes, pos, 0x64, 0x61, 0x74, 0x61) {
            chunks_from(
                bytes,
                next_chunk(bytes, pos),
                Chunks { data: Some(bytes.subrange(pos + 8, pos + 8 + size)), ..found },
            )
        } else {
            chunks_from(bytes, next_chunk(bytes, pos), found)
        }
    }
}

/// The format and the samples of a file, or what is wrong with it. Of several faults the first in
/// this order is reported: a short file, `RIFF`, `WAVE`, the chunks, a missing format, missing
/// samples, the encoding, the sample size, the channels, the sample rate.
pub open spec fn parsed(bytes: Seq<u8>) -> Result<(WavFormat, Seq<u8>), WavError> {
    if bytes.len() < 12 {
        Err(WavError::Truncated)
    } else if !tag_at(bytes, 0, 0x52, 0x49, 0x46, 0x46) {
        Err(WavError::NotRiff)
    } else if !tag_at(bytes, 8, 0x57, 0x41, 0x56, 0x45) {
        Err(WavError::NotWave)
    } else {
        match chunks_from(bytes, 12, Chunks { format: None, data: None }) {
            Err(e) => Err(e),
            Ok(chunks) => match (chunks.format, chunks.data) {
                (None, _) => Err(WavError::MissingFmtChunk),
                (Some(_), None) => Err(WavError::MissingDataChunk),
                (Some(format), Some(data)) => match format_fault(format) {
                    Some(e) => Err(e),
                    None => Ok((format, data)),
                },
            },
        }
    }
}

/// What stands against decoding samples of this format.
pub open spec fn format_fault(format: WavFormat) -> Option<WavError> {
    if format.format_tag != 1 {
        Some(WavError::UnsupportedFormatTag(format.format_tag))
    } else if format.bits_per_sample != 16 {
        Some(WavError::UnsupportedBitsPerSample(format.bits_per_sample))
    } else if format.channels != 1 && format.channels != 2 {
        Some(WavError::UnsupportedChannelCount(format.channels))
    } else if format.sample_rate == 0 {
        Some(WavError::InvalidSampleRate(format.sample_rate))
    } else {
        None
    }
}

/// The sample of a PCM value: full scale is one.
pub open spec fn pcm_sample<M: SampleMath>(m: &M, value: i16) -> u32 {
    math::quotient_of(m, math::word_of_pcm16(m, value), PCM16_FULL_SCALE)
}

/// The sample `i` of the interleaved stereo sound in `data`. A mono sample goes to both channels
/// at equal power.
pub open spec fn sample_at<M: SampleMath>(m: &M, data: Seq<u8>, channels: u16, i: int) -> u32 {
    if channels == 2 {
        pcm_sample(m, i16_at(data, 2 * i))
    } else {
        math::product_of(m, pcm_sample(m, i16_at(data, 2 * (i / 2))), EQUAL_POWER_GAIN)
    }
}

/// The number of whole frames in `data`.
pub open spec fn frame_count(data: Seq<u8>, channels: u16) -> nat {
    data.len() / (2 * channels as nat)
}

/// Reads the bytes of a file one after the other.
pub struct Cursor<'a> {
    /// The bytes.
    pub bytes: &'a [u8],
    /// How many have been read.
    pub pos: usize,
}

impl<'a> Cursor<'a> {
    /// Whether the position lies within the bytes.
    pub open spec fn wf(self) -> bool {
        self.pos <= self.bytes@.len()
    }

    /// Nothing read yet.
    pub fn new(bytes: &'a [u8]) -> (c: Cursor<'a>)
        ensures
            c.wf(),
            c.bytes@ == bytes@,
            c.pos == 0,
    {
        Cursor { bytes, pos: 0 }
    }

    /// How many bytes are left.
    pub fn remaining(&self) -> (n: usize)
        requires
            self.wf(),
        ensures
            n == self.bytes@.len() - self.pos,
    {
        self.bytes.len() - self.pos
    }

    /// Reads `len` bytes, if so many are left.
    pub fn take(&mut self, len: usize) -> (taken: Option<&'a [u8]>)
        requires
            old(self).wf(),
        ensures
            final(self).wf(),
            final(self).bytes@ == old(self).bytes@,
            taken is Some <==> len <= old(self).bytes@.len() - old(self).pos,
            taken matches Some(s) ==> s@ == old(self).bytes@.subrange(
                old(self).pos as int,
                old(self).pos + len,
            ) && final(self).pos == old(self).pos + len,
            taken is None ==> final(self).pos == old(self).pos,
    {
        if self.remaining() < len {
            return None;
        }
        let total: usize = self.bytes.len();
        assert(self.pos + len <= total);
        let s: &'a [u8] = slice_subrange(self.bytes, self.pos, self.pos + len);
        self.pos = self.pos + len;
        Some(s)
    }

    /// Reads an unsigned 16-bit number.
    pub fn read_u16_le(&mut self) -> (value: Option<u16>)
        requires
            old(self).wf(),
        ensures
            final(self).wf(),
            final(self).bytes@ == old(self).bytes@,
            value is Some <==> 2 <= old(self).bytes@.len() - old(self).pos,
            value matches Some(v) ==> v == u16_at(old(self).bytes@, old(self).pos as int)
                && final(self).pos == old(self).pos + 2,
            value is None ==> final(self).pos == old(self).pos,
    {
        match self.take(2) {
            Some(b) => Some(b[0] as u16 + 256 * b[1] as u16),
            None => None,
        }
    }

    /// Reads an unsigned 32-bit number.
    pub fn read_u32_le(&mut self) -> (value: Option<u32>)
        requires
            old(self).wf(),
        ensures
            final(self).wf(),
            final(self).bytes@ == old(self).bytes@,
            value is Some <==> 4 <= old(self).bytes@.len() - old(self).pos,
            value matches Some(v) ==> v == u32_at(old(self).bytes@, old(self).pos as int)
                && final(self).pos == old(self).pos + 4,
            value is None ==> final(self).pos == old(self).pos,
    {
        match self.take(4) {
            Some(b) => Some(
                b[0] as u32 + 0x100 * b[1] as u32 + 0x1_0000 * b[2] as u32 + 0x100_0000
                    * b[3] as u32,
            ),
            None => None,
        }
    }
}

/// The signed 16-bit number whose low byte is at `offset`.
pub fn read_i16_le(bytes: &[u8], offset: usize) -> (value: Option<i16>)
    ensures
        value == if offset + 1 < bytes@.len() {
            Some(i16_at(bytes@, offset as int))
        } else {
            None
        },
{
    let len: usize = bytes.len();
    if len < 2 || offset > len - 2 {
        return None;
    }
    let v: u16 = bytes[offset] as u16 + 256 * bytes[offset + 1] as u16;
    if v < 0x8000 {
        Some(v as i16)
    } else {
        Some((v as i32 - 0x1_0000) as i16)
    }
}

fn is_tag(s: &[u8], a: u8, b: u8, c: u8, d: u8) -> (yes: bool)
    requires
        s@.len() == 4,
    ensures
        yes == tag_at(s@, 0, a, b, c, d),
{
    s[0] == a && s[1] == b && s[2] == c && s[3] == d
}

/// Reads a `fmt ` chunk.
fn read_format(body: &[u8]) -> (format: Option<WavFormat>)
    ensures
        format == if body@.len() < 16 {
            None
        } else {
            Some(format_at(body@, 0))
        },
{
    let mut c: Cursor = Cursor::new(body);
    let format_tag: u16 = match c.read_u16_le() {
        Some(v) => v,
        None => {
            return None;
        },
    };
    let channels: u16 = match c.read_u16_le() {
        Some(v) => v,
        None => {
            return None;
        },
    };
    let sample_rate: u32 = match c.read_u32_le() {
        Some(v) => v,
        None => {
            return None;
        },
    };
    let _byte_rate: u32 = match c.read_u32_le() {
        Some(v) => v,
        None => {
            return None;
        },
    };
    let _block_align: u16 = match c.read_u16_le() {
        Some(v) => v,
        None => {
            return None;
        },
    };
    let bits_per_sample: u16 = match c.read_u16_le() {
        Some(v) => v,
        None => {
            return None;
        },
    };
    Some(WavFormat { format_tag, channels, sample_rate, bits_per_sample })
}

/// Finds the format and the samples of a file.
pub fn parse<'a>(bytes: &'a [u8]) -> (r: Result<(WavFormat, &'a [u8]), WavError>)
    ensures
        match r {
            Ok(found) => parsed(bytes@) == Ok::<(WavFormat, Seq<u8>), WavError>(
                (found.0, found.1@),
            ),
            Err(e) => parsed(bytes@) == Err::<(WavFormat, Seq<u8>), WavError>(e),
        },
{
    let mut cursor: Cursor = Cursor::new(bytes);
    if cursor.remaining() < 12 {
        return Err(WavError::Truncated);
    }
    let head: &[u8] = slice_subrange(bytes, 0, 4);
    if !is_tag(head, 0x52, 0x49, 0x46, 0x46) {
        return Err(WavError::NotRiff);
    }
    let form: &[u8] = slice_subrange(bytes, 8, 12);
    if !is_tag(form, 0x57, 0x41, 0x56, 0x45) {
        return Err(WavError::NotWave);
    }
    cursor.pos = 12;

    let mut format: Option<WavFormat> = None;
    let mut data: Option<&'a [u8]> = None;
    let ghost all = chunks_from(bytes@, 12, Chunks { format: None, data: None });
    while cursor.remaining() >= 8
        invariant
            cursor.wf(),
            cursor.bytes@ == bytes@,
            bytes@.len() >= 12,
            tag_at(bytes@, 0, 0x52, 0x49, 0x46, 0x46),
            tag_at(bytes@, 8, 0x57, 0x41, 0x56, 0x45),
            all == chunks_from(bytes@, 12, Chunks { format: None, data: None }),
            all == chunks_from(
                bytes@,
                cursor.pos as int,
                Chunks {
                    format,
                    data: match data {
                        Some(d) => Some(d@),
                        None => None,
                    },
                },
            ),
        decreases bytes@.len() - cursor.pos,
    {
        let ghost pos = cursor.pos as int;
        let id: &[u8] = match cursor.take(4) {
            Some(id) => id,
            None => {
                return Err(WavError::Truncated);
            },
        };
        let size: u32 = match cursor.read_u32_le() {
            Some(size) => size,
            None => {
                return Err(WavError::Truncated);
            },
        };
        if size as u64 > cursor.remaining() as u64 {
            return Err(WavError::Truncated);
        }
        let body: &'a [u8] = match cursor.take(size as usize) {
            Some(body) => body,
            None => {
                return Err(WavError::Truncated);
            },
        };
        assert(tag_at(id@, 0, 0x66, 0x6D, 0x74, 0x20) == tag_at(
            bytes@,
            pos,
            0x66,
            0x6D,
            0x74,
            0x20,
        ));
        assert(tag_at(id@, 0, 0x64, 0x61, 0x74, 0x61) == tag_at(
            bytes@,
            pos,
            0x64,
            0x61,
            0x74,
            0x61,
        ));
        if is_tag(id, 0x66, 0x6D, 0x74, 0x20) {
            match read_format(body) {
                Some(f) => {
                    assert(f == format_at(bytes@, pos + 8));
                    format = Some(f);
                },
                None => {
                    return Err(WavError::MissingFmtChunk);
                },
            }
        } else if is_tag(id, 0x64, 0x61, 0x74, 0x61) {
            assert(body@ =~= bytes@.subrange(pos + 8, pos + 8 + size));
            data = Some(body);
        }
        if size % 2 == 1 {
            let _ = cursor.take(1);
        }
        assert(cursor.pos == next_chunk(bytes@, pos));
    }
    match format {
        None => Err(WavError::MissingFmtChunk),
        Some(format) => match data {
            None => Err(WavError::MissingDataChunk),
            Some(data) => {
                if format.format_tag != 1 {
                    Err(WavError::UnsupportedFormatTag(format.format_tag))
                } else if format.bits_per_sample != 16 {
                    Err(WavError::UnsupportedBitsPerSample(format.bits_per_sample))
                } else if format.channels != 1 && format.channels != 2 {
                    Err(WavError::UnsupportedChannelCount(format.channels))
                } else if format.sample_rate == 0 {
                    Err(WavError::InvalidSampleRate(format.sample_rate))
                } else {
                    Ok((format, data))
                }
            },
        },
    }
}

fn sample_of<M: SampleMath>(m: &M, data: &[u8], offset: usize) -> (sample: u32)
    requires
        math::is_pure(m),
        offset + 1 < data@.len(),
    ensures
        sample == pcm_sample(m, i16_at(data@, offset as int)),
{
    let value: i16 = match read_i16_le(data, offset) {
        Some(value) => value,
        None => 0,
    };
    let word: u32 = m.of_pcm16(value);
    m.over(word, PCM16_FULL_SCALE)
}

/// A decoded file.
#[derive(Debug)]
pub struct WavDecode {
    /// The sound at the rate of the file.
    pub sound: SoundData,
    /// Whether that is not the rate of the output, so that it has to be resampled and then given
    /// to [`finish_resampled`].
    pub needs_resampling: bool,
}

/// Decodes a file to stereo at its own sample rate.
pub fn decode<M: SampleMath>(m: &M, bytes: &[u8], output_sample_rate: u32) -> (r: Result<
    WavDecode,
    WavError,
>)
    requires
        math::is_pure(m),
    ensures
        match parsed(bytes@) {
            Err(e) => r == Err::<WavDecode, WavError>(e),
            Ok((format, data)) => {
                &&& r is Ok
                &&& is_decoded(m, r->Ok_0, format, data, output_sample_rate)
                &&& r->Ok_0.sound.wf()
                &&& r->Ok_0.sound.sample_rate == format.sample_rate
                &&& r->Ok_0.sound.frames == frame_count(data, format.channels)
                &&& r->Ok_0.sound.interleaved@ == Seq::new(
                    frame_count(data, format.channels) * 2,
                    |i: int| sample_at(m, data, format.channels, i),
                )
                &&& r->Ok_0.needs_resampling == (format.sample_rate != output_sample_rate)
            },
        },
{
    let (format, data) = match parse(bytes) {
        Ok(found) => found,
        Err(e) => {
            return Err(e);
        },
    };
    let len: usize = data.len();
    let frame_size: usize = 2 * format.channels as usize;
    let frames: usize = len / frame_size;
    assert(frames * frame_size <= len) by (nonlinear_arith)
        requires
            frames == len / frame_size,
            frame_size > 0,
    ;
    assert(frames * 2 <= len) by (nonlinear_arith)
        requires
            frames * frame_size <= len,
            frame_size >= 2,
    ;
    assert(format.channels == 2 ==> frames * 4 <= len);
    let mut interleaved: Vec<u32> = Vec::with_capacity(frames * CHANNELS);
    let mut i: usize = 0;
    while i < frames
        invariant
            math::is_pure(m),
            i <= frames,
            frames * 2 <= len,
            format.channels == 2 ==> frames * 4 <= len,
            len == data@.len(),
            format.channels == 1 || format.channels == 2,
            interleaved@ == Seq::new(
                (i * 2) as nat,
                |k: int| sample_at(m, data@, format.channels, k),
            ),
        decreases frames - i,
    {
        if format.channels == 2 {
            let base: usize = i * 4;
            interleaved.push(sample_of(m, data, base));
            interleaved.push(sample_of(m, data, base + 2));
        } else {
            let mono: u32 = sample_of(m, data, i * 2);
            let sample: u32 = m.times(mono, EQUAL_POWER_GAIN);
            interleaved.push(sample);
            interleaved.push(sample);
        }
        i = i + 1;
        assert(interleaved@ =~= Seq::new(
            (i * 2) as nat,
            |k: int| sample_at(m, data@, format.channels, k),
        ));
    }
    Ok(
        WavDecode {
            sound: SoundData { sample_rate: format.sample_rate, frames, interleaved },
            needs_resampling: format.sample_rate != output_sample_rate,
        },
    )
}

/// Whether `sound` is what resampling gave, at the rate of the output.
pub open spec fn is_resampled(
    sound: SoundData,
    rate: u32,
    samples: Seq<u32>,
    frames: usize,
) -> bool {
    &&& sound.sample_rate == rate
    &&& sound.frames == frames
    &&& sound.interleaved@ == samples
}

/// Whether `r` is what decoding a file gives that holds `data` in `format`, for an output with
/// `output_rate` frames per second.
pub open spec fn is_decoded<M: SampleMath>(
    m: &M,
    r: WavDecode,
    format: WavFormat,
    data: Seq<u8>,
    output_rate: u32,
) -> bool {
    &&& r.sound.sample_rate == format.sample_rate
    &&& r.sound.frames == frame_count(data, format.channels)
    &&& r.sound.interleaved@ == Seq::new(
        frame_count(data, format.channels) * 2,
        |i: int| sample_at(m, data, format.channels, i),
    )
    &&& r.needs_resampling == (format.sample_rate != output_rate)
}

/// The sound at the rate of the output, from what resampling gave.
pub fn finish_resampled(
    output_sample_rate: u32,
    resampled: Result<(Vec<u32>, usize), ResampleError>,
) -> (r: Result<SoundData, WavError>)
    ensures
        resampled matches Ok(pcm) ==> r matches Ok(sound) && is_resampled(
            sound,
            output_sample_rate,
            pcm.0@,
            pcm.1,
        ),
        match resampled {
            Ok(pcm) => r == Ok::<SoundData, WavError>(
                SoundData {
                    sample_rate: output_sample_rate,
                    frames: pcm.1,
                    interleaved: pcm.0,
                },
            ),
            Err(e) => r == Err::<SoundData, WavError>(WavError::Resample(e)),
        },
{
    match resampled {
        Ok((interleaved, frames)) => Ok(
            SoundData { sample_rate: output_sample_rate, frames, interleaved },
        ),
        Err(e) => Err(WavError::Resample(e)),
    }
}

/// Whether `bytes` is a file with nothing but a format and, behind it, the samples `data`.
pub open spec fn is_plain_file(bytes: Seq<u8>, format: WavFormat, data: Seq<u8>) -> bool {
    &&& bytes.len() == 44 + data.len()
    &&& tag_at(bytes, 0, 0x52, 0x49, 0x46, 0x46)
    &&& tag_at(bytes, 8, 0x57, 0x41, 0x56, 0x45)
    &&& tag_at(bytes, 12, 0x66, 0x6D, 0x74, 0x20)
    &&& u32_at(bytes, 16) == 16
    &&& format_at(bytes, 20) == format
    &&& tag_at(bytes, 36, 0x64, 0x61, 0x74, 0x61)
    &&& u32_at(bytes, 40) == data.len()
    &&& bytes.skip(44) == data
}

/// A plain file gives back the format and the samples that were put into it, unless the format is
/// one that cannot be decoded; then that is what is wrong with the file.
pub proof fn law_plain_files_are_read_back(bytes: Seq<u8>, format: WavFormat, data: Seq<u8>)
    requires
        is_plain_file(bytes, format, data),
    ensures
        parsed(bytes) == match format_fault(format) {
            Some(e) => Err::<(WavFormat, Seq<u8>), WavError>(e),
            None => Ok::<(WavFormat, Seq<u8>), WavError>((format, data)),
        },
{
    reveal_with_fuel(chunks_from, 3);
    assert(bytes.subrange(44, 44 + data.len() as int) =~= data);
    assert(next_chunk(bytes, 12) == 36);
    assert(next_chunk(bytes, 36) == bytes.len());
}

/// Whether whole chunks, each with the byte that pads an odd size, lead from `from` to `to`.
pub open spec fn chunks_lead(bytes: Seq<u8>, from: int, to: int) -> bool
    decreases to - from,
{
    if from >= to {
        from == to
    } else {
        &&& 0 <= from
        &&& from + 8 <= to <= bytes.len()
        &&& from + 8 + padded(u32_at(bytes, from + 4)) <= to
        &&& chunks_lead(bytes, from + 8 + padded(u32_at(bytes, from + 4)), to)
    }
}

/// A size with the byte that pads it if it is odd.
pub open spec fn padded(size: nat) -> nat {
    size + size % 2
}

/// Whether `chunk` is one whole chunk that holds neither a format nor samples.
pub open spec fn is_other_chunk(chunk: Seq<u8>) -> bool {
    &&& chunk.len() >= 8
    &&& chunk.len() == 8 + padded(u32_at(chunk, 4))
    &&& chunk.take(4) != seq![0x66u8, 0x6D, 0x74, 0x20]
    &&& chunk.take(4) != seq![0x64u8, 0x61, 0x74, 0x61]
}

proof fn lemma_same_rest(a: Seq<u8>, i: int, b: Seq<u8>, j: int, found: Chunks)
    requires
        0 <= i <= a.len(),
        0 <= j <= b.len(),
        a.skip(i) == b.skip(j),
    ensures
        chunks_from(a, i, found) == chunks_from(b, j, found),
    decreases a.len() - i,
{
    let rest = a.skip(i);
    assert(a.len() - i == b.len() - j) by {
        assert(a.skip(i).len() == b.skip(j).len());
    }
    assert forall|k: int| i <= k < a.len() implies #[trigger] a[k] == b[k - i + j] by {
        assert(a.skip(i)[k - i] == a[k]);
        assert(b.skip(j)[k - i] == b[k - i + j]);
    }
    if rest.len() >= 8 {
        assert(a[i] == b[j] && a[i + 1] == b[j + 1] && a[i + 2] == b[j + 2] && a[i + 3] == b[j
            + 3]);
        assert(a[i + 4] == b[j + 4] && a[i + 5] == b[j + 5] && a[i + 6] == b[j + 6] && a[i + 7]
            == b[j + 7]);
        let size = u32_at(a, i + 4);
        assert(u32_at(b, j + 4) == size);
        if i + 8 + size <= a.len() {
            let p = next_chunk(a, i);
            let q = next_chunk(b, j);
            assert(p - i == q - j);
            assert(a.skip(p) =~= b.skip(q)) by {
                assert forall|k: int| 0 <= k < a.len() - p implies #[trigger] a.skip(p)[k]
                    == b.skip(q)[k] by {
                    assert(a[p + k] == b[q + k]);
                }
            }
            assert(a.subrange(i + 8, i + 8 + size) =~= b.subrange(j + 8, j + 8 + size)) by {
                assert forall|k: int| 0 <= k < size implies #[trigger] a.subrange(
                    i + 8,
                    i + 8 + size,
                )[k] == b.subrange(j + 8, j + 8 + size)[k] by {
                    assert(a[i + 8 + k] == b[j + 8 + k]);
                }
            }
            if tag_at(a, i, 0x66, 0x6D, 0x74, 0x20) {
                if size >= 16 {
                    assert(a[i + 8] == b[j + 8] && a[i + 9] == b[j + 9] && a[i + 10] == b[j + 10]
                        && a[i + 11] == b[j + 11]);
                    assert(a[i + 12] == b[j + 12] && a[i + 13] == b[j + 13] && a[i + 14] == b[j
                        + 14] && a[i + 15] == b[j + 15]);
                    assert(a[i + 22] == b[j + 22] && a[i + 23] == b[j + 23]);
                    assert(format_at(a, i + 8) == format_at(b, j + 8));
                    lemma_same_rest(
                        a,
                        p,
                        b,
                        q,
                        Chunks { format: Some(format_at(a, i + 8)), ..found },
                    );
                }
            } else if tag_at(a, i, 0x64, 0x61, 0x74, 0x61) {
                lemma_same_rest(
                    a,
                    p,
                    b,
                    q,
                    Chunks { data: Some(a.subrange(i + 8, i + 8 + size)), ..found },
                );
            } else {
                lemma_same_rest(a, p, b, q, found);
            }
        }
    }
}

proof fn lemma_other_chunk_is_skipped(
    bytes: Seq<u8>,
    chunk: Seq<u8>,
    at: int,
    from: int,
    found: Chunks,
)
    requires
        0 <= from <= at <= bytes.len(),
        chunks_lead(bytes, from, at),
        is_other_chunk(chunk),
    ensures
        chunks_from(bytes.take(at) + chunk + bytes.skip(at), from, found) == chunks_from(
            bytes,
            from,
            found,
        ),
    decreases at - from,
{
    let all = bytes.take(at) + chunk + bytes.skip(at);
    assert forall|k: int| 0 <= k < at implies all[k] == bytes[k] by {}
    if from == at {
        assert forall|k: int| 0 <= k < chunk.len() implies #[trigger] chunk[k] == all[at + k] by {}
        assert(all[at] == chunk[0] && all[at + 1] == chunk[1] && all[at + 2] == chunk[2] && all[at
            + 3] == chunk[3]);
        assert(all[at + 4] == chunk[4] && all[at + 5] == chunk[5] && all[at + 6] == chunk[6]
            && all[at + 7] == chunk[7]);
        assert(u32_at(all, at + 4) == u32_at(chunk, 4));
        assert(!tag_at(all, at, 0x66, 0x6D, 0x74, 0x20)) by {
            if tag_at(all, at, 0x66, 0x6D, 0x74, 0x20) {
                assert(chunk.take(4) =~= seq![0x66u8, 0x6D, 0x74, 0x20]);
            }
        }
        assert(!tag_at(all, at, 0x64, 0x61, 0x74, 0x61)) by {
            if tag_at(all, at, 0x64, 0x61, 0x74, 0x61) {
                assert(chunk.take(4) =~= seq![0x64u8, 0x61, 0x74, 0x61]);
            }
        }
        let next = at + chunk.len() as int;
        assert(next_chunk(all, at) == next);
        assert(all.skip(next) =~= bytes.skip(at));
        lemma_same_rest(all, next, bytes, at, found);
    } else {
        let size = u32_at(bytes, from + 4);
        let next = from + 8 + padded(size);
        assert(u32_at(all, from + 4) == size);
        assert(next_chunk(bytes, from) == next);
        assert(next_chunk(all, from) == next);
        assert(all.subrange(from + 8, from + 8 + size) =~= bytes.subrange(
            from + 8,
            from + 8 + size,
        ));
        if tag_at(bytes, from, 0x66, 0x6D, 0x74, 0x20) {
            if size >= 16 {
                assert(format_at(all, from + 8) == format_at(bytes, from + 8));
                lemma_other_chunk_is_skipped(
                    bytes,
                    chunk,
                    at,
                    next,
                    Chunks { format: Some(format_at(bytes, from + 8)), ..found },
                );
            }
        } else if tag_at(bytes, from, 0x64, 0x61, 0x74, 0x61) {
            lemma_other_chunk_is_skipped(
                bytes,
                chunk,
                at,
                next,
                Chunks { data: Some(bytes.subrange(from + 8, from + 8 + size)), ..found },
            );
        } else {
            lemma_other_chunk_is_skipped(bytes, chunk, at, next, found);
        }
    }
}

/// Chunks that hold neither a format nor samples do not matter: putting one before, between or
/// behind the chunks of a file changes nothing of what is read of it.
pub proof fn law_other_chunks_do_not_matter(bytes: Seq<u8>, chunk: Seq<u8>, at: int)
    requires
        12 <= at <= bytes.len(),
        chunks_lead(bytes, 12, at),
        is_other_chunk(chunk),
    ensures
        parsed(bytes.take(at) + chunk + bytes.skip(at)) == parsed(bytes),
{
    let all = bytes.take(at) + chunk + bytes.skip(at);
    assert forall|k: int| 0 <= k < 12 implies all[k] == bytes[k] by {}
    lemma_other_chunk_is_skipped(bytes, chunk, at, 12, Chunks { format: None, data: None });
}

/// A chunk of a file.
pub struct WavChunk {
    /// The four bytes that name it.
    pub tag: Seq<u8>,
    /// What it holds.
    pub body: Seq<u8>,
}

/// Whether the bytes from `pos` on are these chunks, one behind the other, each with the byte that
/// pads an odd size (which may be missing at the end), and then too little for another chunk.
pub open spec fn are_chunks(bytes: Seq<u8>, pos: int, chunks: Seq<WavChunk>) -> bool
    decreases chunks.len(),
{
    if chunks.len() == 0 {
        0 <= pos <= bytes.len() < pos + 8
    } else {
        let size = chunks[0].body.len() as int;
        &&& 0 <= pos
        &&& pos + 8 + size <= bytes.len()
        &&& bytes.subrange(pos, pos + 4) == chunks[0].tag
        &&& bytes[pos + 4] + 0x100 * bytes[pos + 5] + 0x1_0000 * bytes[pos + 6] + 0x100_0000
            * bytes[pos + 7] == size
        &&& bytes.subrange(pos + 8, pos + 8 + size) == chunks[0].body
        &&& are_chunks(
            bytes,
            if size % 2 == 1 && pos + 8 + size < bytes.len() {
                pos + 8 + size + 1
            } else {
                pos + 8 + size
            },
            chunks.skip(1),
        )
    }
}

/// What the last of the chunks with this tag holds, if there is one.
pub open spec fn last_with(chunks: Seq<WavChunk>, tag: Seq<u8>) -> Option<Seq<u8>>
    decreases chunks.len(),
{
    if chunks.len() == 0 {
        None
    } else if chunks.last().tag == tag {
        Some(chunks.last().body)
    } else {
        last_with(chunks.drop_last(), tag)
    }
}

/// Whether the first 16 bytes of `body` say what `format` says: the encoding, the channels, the
/// rate, eight bytes that do not matter here, and the size of a sample, low bytes first.
pub open spec fn describes(body: Seq<u8>, format: WavFormat) -> bool {
    &&& body.len() >= 16
    &&& format.format_tag == body[0] + 256 * body[1]
    &&& format.channels == body[2] + 256 * body[3]
    &&& format.sample_rate == body[4] + 0x100 * body[5] + 0x1_0000 * body[6] + 0x100_0000 * body[7]
    &&& format.bits_per_sample == body[14] + 256 * body[15]
}

proof fn lemma_last_with_first(chunks: Seq<WavChunk>, tag: Seq<u8>)
    requires
        chunks.len() > 0,
    ensures
        last_with(chunks, tag) == match last_with(chunks.skip(1), tag) {
            Some(body) => Some(body),
            None => if chunks[0].tag == tag {
                Some(chunks[0].body)
            } else {
                None
            },
        },
    decreases chunks.len(),
{
    if chunks.len() == 1 {
        assert(chunks.skip(1).len() == 0);
        assert(chunks.drop_last().len() == 0);
    } else {
        let rest = chunks.skip(1);
        assert(rest.last() == chunks.last());
        if chunks.last().tag != tag {
            assert(rest.drop_last() =~= chunks.drop_last().skip(1));
            lemma_last_with_first(chunks.drop_last(), tag);
        }
    }
}

/// The bytes that name a chunk with a format.
pub open spec fn format_tag_bytes() -> Seq<u8> {
    seq![0x66u8, 0x6D, 0x74, 0x20]
}

/// The bytes that name a chunk with samples.
pub open spec fn data_tag_bytes() -> Seq<u8> {
    seq![0x64u8, 0x61, 0x74, 0x61]
}

proof fn lemma_chunks_are_found(bytes: Seq<u8>, pos: int, chunks: Seq<WavChunk>, found: Chunks)
    requires
        are_chunks(bytes, pos, chunks),
        forall|i: int|
            0 <= i < chunks.len() && (#[trigger] chunks[i]).tag == format_tag_bytes()
                ==> chunks[i].body.len() >= 16,
    ensures
        ({
            let all = chunks_from(bytes, pos, found);
            &&& all is Ok
            &&& match last_with(chunks, format_tag_bytes()) {
                Some(body) => all->Ok_0.format is Some && describes(body, all->Ok_0.format->0),
                None => all->Ok_0.format == found.format,
            }
            &&& all->Ok_0.data == match last_with(chunks, data_tag_bytes()) {
                Some(body) => Some(body),
                None => found.data,
            }
        }),
    decreases chunks.len(),
{
    if chunks.len() > 0 {
        let size = chunks[0].body.len() as int;
        let tag = bytes.subrange(pos, pos + 4);
        let body = bytes.subrange(pos + 8, pos + 8 + size);
        let rest = chunks.skip(1);
        assert(u32_at(bytes, pos + 4) == size);
        assert(tag[0] == bytes[pos] && tag[1] == bytes[pos + 1] && tag[2] == bytes[pos + 2]
            && tag[3] == bytes[pos + 3]);
        assert(tag_at(bytes, pos, 0x66, 0x6D, 0x74, 0x20) == (tag =~= format_tag_bytes()));
        assert(tag_at(bytes, pos, 0x64, 0x61, 0x74, 0x61) == (tag =~= data_tag_bytes()));
        assert(format_tag_bytes()[0] != data_tag_bytes()[0]);
        lemma_last_with_first(chunks, format_tag_bytes());
        lemma_last_with_first(chunks, data_tag_bytes());
        assert forall|i: int|
            0 <= i < rest.len() && (#[trigger] rest[i]).tag == format_tag_bytes() implies
            rest[i].body.len() >= 16 by {
            assert(rest[i] == chunks[i + 1]);
        }
        let next = next_chunk(bytes, pos);
        if tag == format_tag_bytes() {
            assert(chunks[0].tag == format_tag_bytes());
            assert(body[0] == bytes[pos + 8] && body[1] == bytes[pos + 9] && body[2] == bytes[pos
                + 10] && body[3] == bytes[pos + 11]);
            assert(body[4] == bytes[pos + 12] && body[5] == bytes[pos + 13] && body[6] == bytes[pos
                + 14] && body[7] == bytes[pos + 15]);
            assert(body[14] == bytes[pos + 22] && body[15] == bytes[pos + 23]);
            assert(describes(body, format_at(bytes, pos + 8)));
            lemma_chunks_are_found(
                bytes,
                next,
                rest,
                Chunks { format: Some(format_at(bytes, pos + 8)), ..found },
            );
        } else if tag == data_tag_bytes() {
            lemma_chunks_are_found(bytes, next, rest, Chunks { data: Some(body), ..found });
        } else {
            lemma_chunks_are_found(bytes, next, rest, found);
        }
    }
}

/// Reading a file gives what the last of its formats says and the last of its samples, whatever
/// other chunks it has and in whatever order they come. Without a format or without samples that is
/// what is wrong with it; and a format is accepted exactly if it is 16-bit PCM with one channel or
/// two and a rate above zero.
pub proof fn law_files_give_their_format_and_samples(bytes: Seq<u8>, chunks: Seq<WavChunk>)
    requires
        bytes.len() >= 12,
        bytes.subrange(0, 4) == seq![0x52u8, 0x49, 0x46, 0x46],
        bytes.subrange(8, 12) == seq![0x57u8, 0x41, 0x56, 0x45],
        are_chunks(bytes, 12, chunks),
        forall|i: int|
            0 <= i < chunks.len() && (#[trigger] chunks[i]).tag == format_tag_bytes()
                ==> chunks[i].body.len() >= 16,
    ensures
        match (last_with(chunks, format_tag_bytes()), last_with(chunks, data_tag_bytes())) {
            (None, _) => parsed(bytes) == Err::<(WavFormat, Seq<u8>), WavError>(
                WavError::MissingFmtChunk,
            ),
            (Some(_), None) => parsed(bytes) == Err::<(WavFormat, Seq<u8>), WavError>(
                WavError::MissingDataChunk,
            ),
            (Some(body), Some(data)) => exists|format: WavFormat|
                {
                    &&& #[trigger] describes(body, format)
                    &&& match parsed(bytes) {
                        Ok(read) => {
                            &&& read.0 == format
                            &&& read.1 == data
                            &&& format.format_tag == 1
                            &&& format.bits_per_sample == 16
                            &&& format.channels == 1 || format.channels == 2
                            &&& format.sample_rate > 0
                        },
                        Err(WavError::UnsupportedFormatTag(tag)) => tag == format.format_tag && tag
                            != 1,
                        Err(WavError::UnsupportedBitsPerSample(bits)) => format.format_tag == 1
                            && bits == format.bits_per_sample && bits != 16,
                        Err(WavError::UnsupportedChannelCount(n)) => format.format_tag == 1
                            && format.bits_per_sample == 16 && n == format.channels && n != 1 && n
                            != 2,
                        Err(WavError::InvalidSampleRate(rate)) => format.format_tag == 1
                            && format.bits_per_sample == 16 && (format.channels == 1
                            || format.channels == 2) && rate == format.sample_rate && rate == 0,
                        Err(_) => false,
                    }
                },
        },
{
    let head = bytes.subrange(0, 4);
    let form = bytes.subrange(8, 12);
    assert(head[0] == bytes[0] && head[1] == bytes[1] && head[2] == bytes[2] && head[3]
        == bytes[3]);
    assert(form[0] == bytes[8] && form[1] == bytes[9] && form[2] == bytes[10] && form[3]
        == bytes[11]);
    let found = Chunks { format: None, data: None };
    lemma_chunks_are_found(bytes, 12, chunks, found);
    let all = chunks_from(bytes, 12, found)->Ok_0;
    if last_with(chunks, format_tag_bytes()) is Some && last_with(
        chunks,
        data_tag_bytes(),
    ) is Some {
        assert(describes(last_with(chunks, format_tag_bytes())->0, all.format->0));
    }
}

/// A file that is too short for its head, that does not start with `RIFF`, or whose form is not
/// `WAVE` is refused, in this order; a chunk that says it is longer than the file, where chunks
/// lead to it, and a format that is too short are faults of their own.
pub proof fn law_broken_files_are_refused(bytes: Seq<u8>, at: int)
    ensures
        bytes.len() < 12 ==> parsed(bytes) == Err::<(WavFormat, Seq<u8>), WavError>(
            WavError::Truncated,
        ),
        bytes.len() >= 12 && bytes.subrange(0, 4) != seq![0x52u8, 0x49, 0x46, 0x46] ==> parsed(
            bytes,
        ) == Err::<(WavFormat, Seq<u8>), WavError>(WavError::NotRiff),
        bytes.len() >= 12 && bytes.subrange(0, 4) == seq![0x52u8, 0x49, 0x46, 0x46]
            && bytes.subrange(8, 12) != seq![0x57u8, 0x41, 0x56, 0x45] ==> parsed(bytes) == Err::<
            (WavFormat, Seq<u8>),
            WavError,
        >(WavError::NotWave),
        bytes.len() >= 12 && bytes.subrange(0, 4) == seq![0x52u8, 0x49, 0x46, 0x46]
            && bytes.subrange(8, 12) == seq![0x57u8, 0x41, 0x56, 0x45] && chunks_lead(bytes, 12, at)
            && formats_are_whole(bytes, 12, at) && at + 8 <= bytes.len() ==> {
            &&& at + 8 + u32_at(bytes, at + 4) > bytes.len() ==> parsed(bytes) == Err::<
                (WavFormat, Seq<u8>),
                WavError,
            >(WavError::Truncated)
            &&& at + 8 + u32_at(bytes, at + 4) <= bytes.len() && bytes.subrange(at, at + 4)
                == format_tag_bytes() && u32_at(bytes, at + 4) < 16 ==> parsed(bytes) == Err::<
                (WavFormat, Seq<u8>),
                WavError,
            >(WavError::MissingFmtChunk)
        },
{
    if bytes.len() >= 12 {
        assert(tag_at(bytes, 0, 0x52, 0x49, 0x46, 0x46) == (bytes.subrange(0, 4)
            =~= seq![0x52u8, 0x49, 0x46, 0x46])) by {
            let head = bytes.subrange(0, 4);
            assert(head[0] == bytes[0] && head[1] == bytes[1] && head[2] == bytes[2] && head[3]
                == bytes[3]);
        }
        assert(tag_at(bytes, 8, 0x57, 0x41, 0x56, 0x45) == (bytes.subrange(8, 12)
            =~= seq![0x57u8, 0x41, 0x56, 0x45])) by {
            let form = bytes.subrange(8, 12);
            assert(form[0] == bytes[8] && form[1] == bytes[9] && form[2] == bytes[10] && form[3]
                == bytes[11]);
        }
        if chunks_lead(bytes, 12, at) && formats_are_whole(bytes, 12, at) && at + 8
            <= bytes.len() {
            lemma_broken_chunk_is_reached(bytes, 12, at, Chunks { format: None, data: None });
        }
    }
}

/// Whether every format among the chunks from `from` to `to` has its 16 bytes.
pub open spec fn formats_are_whole(bytes: Seq<u8>, from: int, to: int) -> bool
    decreases to - from,
{
    from < to ==> {
        &&& bytes.subrange(from, from + 4) == format_tag_bytes() ==> u32_at(bytes, from + 4) >= 16
        &&& from + 8 + padded(u32_at(bytes, from + 4)) <= to
        &&& formats_are_whole(bytes, from + 8 + padded(u32_at(bytes, from + 4)), to)
    }
}

proof fn lemma_broken_chunk_is_reached(bytes: Seq<u8>, from: int, at: int, found: Chunks)
    requires
        0 <= from <= at,
        at + 8 <= bytes.len(),
        chunks_lead(bytes, from, at),
        formats_are_whole(bytes, from, at),
    ensures
        at + 8 + u32_at(bytes, at + 4) > bytes.len() ==> chunks_from(bytes, from, found) == Err::<
            Chunks,
            WavError,
        >(WavError::Truncated),
        at + 8 + u32_at(bytes, at + 4) <= bytes.len() && bytes.subrange(at, at + 4)
            == format_tag_bytes() && u32_at(bytes, at + 4) < 16 ==> chunks_from(bytes, from, found)
            == Err::<Chunks, WavError>(WavError::MissingFmtChunk),
    decreases at - from,
{
    let size = u32_at(bytes, from + 4);
    let tag = bytes.subrange(from, from + 4);
    assert(tag[0] == bytes[from] && tag[1] == bytes[from + 1] && tag[2] == bytes[from + 2]
        && tag[3] == bytes[from + 3]);
    assert(tag_at(bytes, from, 0x66, 0x6D, 0x74, 0x20) == (tag =~= format_tag_bytes()));
    if from < at {
        let next = from + 8 + padded(size);
        assert(next_chunk(bytes, from) == next);
        if tag_at(bytes, from, 0x66, 0x6D, 0x74, 0x20) {
            lemma_broken_chunk_is_reached(
                bytes,
                next,
                at,
                Chunks { format: Some(format_at(bytes, from + 8)), ..found },
            );
        } else if tag_at(bytes, from, 0x64, 0x61, 0x74, 0x61) {
            lemma_broken_chunk_is_reached(
                bytes,
                next,
                at,
                Chunks { data: Some(bytes.subrange(from + 8, from + 8 + size)), ..found },
            );
        } else {
            lemma_broken_chunk_is_reached(bytes, next, at, found);
        }
    }
}

/// Whether two bytes, the low one first, are the PCM value `v` in two's complement.
pub open spec fn is_pcm16(low: u8, high: u8, v: i16) -> bool {
    (v >= 0 ==> v == low + 256 * high) && (v < 0 ==> v + 0x1_0000 == low + 256 * high)
}

/// The samples of a stereo file alternate between the channels: frame `k` has its left sample in
/// the bytes `4k` and `4k + 1` and its right one in the two behind them. A sample of a mono file
/// goes to both channels alike, at equal power. Full scale is one.
pub proof fn law_samples_keep_their_channels<M: SampleMath>(
    m: &M,
    data: Seq<u8>,
    k: nat,
    left: i16,
    right: i16,
)
    ensures
        4 * k + 4 <= data.len() && is_pcm16(data[4 * k as int], data[4 * k as int + 1], left)
            && is_pcm16(data[4 * k as int + 2], data[4 * k as int + 3], right) ==> {
            &&& sample_at(m, data, 2, 2 * k as int) == math::quotient_of(
                m,
                math::word_of_pcm16(m, left),
                PCM16_FULL_SCALE,
            )
            &&& sample_at(m, data, 2, 2 * k as int + 1) == math::quotient_of(
                m,
                math::word_of_pcm16(m, right),
                PCM16_FULL_SCALE,
            )
        },
        2 * k + 2 <= data.len() && is_pcm16(data[2 * k as int], data[2 * k as int + 1], left) ==> {
            &&& sample_at(m, data, 1, 2 * k as int) == math::product_of(
                m,
                math::quotient_of(m, math::word_of_pcm16(m, left), PCM16_FULL_SCALE),
                EQUAL_POWER_GAIN,
            )
            &&& sample_at(m, data, 1, 2 * k as int + 1) == sample_at(m, data, 1, 2 * k as int)
        },
{
}

/// Every whole frame counts, and a part of one at the end does not.
pub proof fn law_whole_frames_are_counted(data: Seq<u8>, channels: u16)
    requires
        channels == 1 || channels == 2,
    ensures
        channels == 1 ==> 2 * frame_count(data, channels) <= data.len() < 2 * frame_count(
            data,
            channels,
        ) + 2,
        channels == 2 ==> 4 * frame_count(data, channels) <= data.len() < 4 * frame_count(
            data,
            channels,
        ) + 4,
{
    if channels == 1 {
        assert(frame_count(data, channels) == data.len() / 2);
    } else {
        assert(frame_count(data, channels) == data.len() / 4);
    }
}

/// A decoded stereo file is a sound with the rate of the file, all its whole frames, and the left
/// and the right samples in their places; it has to be resampled exactly if its rate is not that of
/// the output. Of a mono file both samples of a frame are the same.
pub proof fn law_decoded_sounds_are_what_the_file_holds<M: SampleMath>(
    m: &M,
    r: WavDecode,
    format: WavFormat,
    data: Seq<u8>,
    output_rate: u32,
    k: nat,
    left: i16,
    right: i16,
)
    requires
        is_decoded(m, r, format, data, output_rate),
        format.channels == 1 || format.channels == 2,
        k < r.sound.frames,
    ensures
        r.needs_resampling <==> format.sample_rate != output_rate,
        r.sound.sample_rate == format.sample_rate,
        r.sound.wf(),
        format.channels == 2 ==> 4 * r.sound.frames <= data.len() < 4 * r.sound.frames + 4,
        format.channels == 1 ==> 2 * r.sound.frames <= data.len() < 2 * r.sound.frames + 2,
        format.channels == 2 && is_pcm16(data[4 * k as int], data[4 * k as int + 1], left)
            && is_pcm16(data[4 * k as int + 2], data[4 * k as int + 3], right)
            ==> r.sound.frame_at(k as int) == Some(
            (
                math::quotient_of(m, math::word_of_pcm16(m, left), PCM16_FULL_SCALE),
                math::quotient_of(m, math::word_of_pcm16(m, right), PCM16_FULL_SCALE),
            ),
        ),
        format.channels == 1 ==> exists|both: u32|
            r.sound.frame_at(k as int) == Some((both, both)),
{
    law_whole_frames_are_counted(data, format.channels);
    law_samples_keep_their_channels(m, data, k, left, right);
    if format.channels == 1 {
        let both = r.sound.interleaved@[2 * k as int];
        assert(r.sound.frame_at(k as int) == Some((both, both)));
    }
}

/// A resampled sound has the rate of the output, whatever the file had.
pub proof fn law_resampled_sounds_have_the_rate_of_the_output(
    sound: SoundData,
    rate: u32,
    samples: Seq<u32>,
    frames: usize,
    i: int,
)
    requires
        is_resampled(sound, rate, samples, frames),
        samples.len() == 2 * frames,
        0 <= i < frames,
    ensures
        sound.wf(),
        sound.sample_rate == rate,
        sound.frame_at(i) == Some((samples[2 * i], samples[2 * i + 1])),
{
}

/// What is told of a fault names what was found in the file, in decimal digits, and what would have
/// been accepted; a failed conversion is told of as the conversion tells it.
pub proof fn law_faults_are_told_with_what_was_found(n: u16, rate: u32, err: ResampleError)
    ensures
        WavError::UnsupportedFormatTag(n).text() == "unsupported wav format tag "@ + text::decimal(
            n as nat,
        ) + " (only PCM = 1 is supported in M1)"@,
        WavError::UnsupportedBitsPerSample(n).text() == "unsupported bits-per-sample "@
            + text::decimal(n as nat) + " (only 16-bit PCM is supported in M1)"@,
        WavError::UnsupportedChannelCount(n).text() == "unsupported channel count "@
            + text::decimal(n as nat) + " (only mono or stereo is supported)"@,
        WavError::InvalidSampleRate(rate).text() == "invalid sample rate "@ + text::decimal(
            rate as nat,
        ) + " Hz (must be > 0)"@,
        WavError::Resample(err).text() == err.text(),
        WavError::Truncated.text() == "wav data is truncated (cannot read RIFF header)"@,
        WavError::NotRiff.text() == "not a RIFF file (missing 'RIFF' magic)"@,
        WavError::NotWave.text() == "not a WAVE file (missing 'WAVE' format tag)"@,
        WavError::MissingFmtChunk.text() == "wav is missing the 'fmt ' chunk"@,
        WavError::MissingDataChunk.text() == "wav is missing the 'data' chunk"@,
{
}

} // verus!
