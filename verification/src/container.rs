//! Which music files can be handed to the decoding library.
//!
//! `symphonia` reports most of what can be wrong with a file as an error, but stops the program on
//! some files, a few of them only where arithmetic is checked for overflow. Such a file is found
//! out here, before it is opened:
//!
//! - a file that begins with an ID3 tag;
//! - a RIFF file with a format chunk with no frames per second, with integer samples of no bits,
//!   with more channels than its mask can be filled up with, or with blocks of the wrong size for
//!   its channels, and one whose chunks cannot be counted in 32 bits;
//! - an Ogg file with a Vorbis setup packet with a codebook that makes no sense, with a time that
//!   is out of range, or, unless it is short, with a page of a stream that does not begin at the
//!   start of the file.
//!
//! A codebook may stand in any setup packet of the file, since a seek may lead to any page. Memory
//! is taken to suffice for what a file asks for.

use vstd::prelude::*;
use vstd::slice::slice_subrange;

#[allow(unused_imports)]
use crate::codebook;
use crate::codebook::{check_packet, starts_setup};
#[allow(unused_imports)]
use crate::wav;

verus! {

/// What stands in the way of opening a file.
#[derive(Debug, Clone, Copy, PartialEq, Eq, Structural)]
pub enum Obstacle {
    /// The file has no frames per second.
    ZeroSampleRate,
    /// A header of the file makes no sense.
    MalformedHeader,
}

/// Where the walk over the chunks of a RIFF file goes on.
#[derive(Debug, Clone, Copy, PartialEq, Eq, Structural)]
pub enum ChunkStep {
    /// Nowhere: the samples begin, the file ends or the chunk is rejected with an error.
    Stop,
    /// Nowhere, since something stands in the way.
    Blocked(Obstacle),
    /// At that position.
    At(usize),
}

/// The step to the position `to`, unless the file ends before.
pub open spec fn step_to(bytes: Seq<u8>, to: int) -> ChunkStep {
    if to <= bytes.len() {
        ChunkStep::At(to as usize)
    } else {
        ChunkStep::Stop
    }
}

/// How many bits of the number `x` are set.
pub open spec fn ones_in(x: nat) -> nat
    decreases x,
{
    if x == 0 {
        0
    } else {
        x % 2 + ones_in(x / 2)
    }
}

/// How many bits the lowest `n` bits that are set in the number `x` reach over.
pub open spec fn span_of(x: nat, n: nat) -> nat
    decreases x,
{
    if x == 0 || n == 0 {
        0
    } else if x % 2 == 1 {
        1 + span_of(x / 2, (n - 1) as nat)
    } else {
        1 + span_of(x / 2, n)
    }
}

/// How many positions of channels are known.
pub const KNOWN_POSITIONS: u32 = 26;

/// Whether a mask of positions is good for `channels` channels. One that has too few positions is
/// filled up above its highest; one that has too many loses the highest.
pub open spec fn mask_fits(mask: nat, channels: nat) -> bool {
    if channels > ones_in(mask) {
        codebook::width_of(mask) + (channels - ones_in(mask)) <= KNOWN_POSITIONS
    } else {
        span_of(mask, channels) <= KNOWN_POSITIONS
    }
}

/// Whether a mask of positions cannot be filled up in 32 bits.
pub open spec fn mask_overflows(mask: nat, channels: nat) -> bool {
    channels > ones_in(mask) && (mask >= 0x8000_0000 || channels - ones_in(mask) >= 32)
}

/// Whether the extensible format chunk of `len` bytes at `at` is read up to its mask of positions.
pub open spec fn has_mask(bytes: Seq<u8>, at: int, len: int) -> bool {
    &&& len >= 40
    &&& at + 24 <= bytes.len()
    &&& wav::u16_at(bytes, at + 16) == 22
    &&& wav::u16_at(bytes, at + 14) % 8 == 0
    &&& wav::u16_at(bytes, at + 18) <= wav::u16_at(bytes, at + 14)
}

/// Whether the identifier of a sample format at `i` is the one numbered `kind`.
pub open spec fn is_kind(bytes: Seq<u8>, i: int, kind: u8) -> bool {
    &&& wav::tag_at(bytes, i, kind, 0, 0, 0)
    &&& wav::tag_at(bytes, i + 4, 0, 0, 0x10, 0)
    &&& wav::tag_at(bytes, i + 8, 0x80, 0, 0, 0xaa)
    &&& wav::tag_at(bytes, i + 12, 0, 0x38, 0x9b, 0x71)
}

/// Whether the identifier of a sample format at `i` is the one numbered `kind` among those of
/// ambisonic sound.
pub open spec fn is_ambisonic_kind(bytes: Seq<u8>, i: int, kind: u8) -> bool {
    &&& wav::tag_at(bytes, i, kind, 0, 0, 0)
    &&& wav::tag_at(bytes, i + 4, 0x21, 0x07, 0xd3, 0x11)
    &&& wav::tag_at(bytes, i + 8, 0x86, 0x44, 0xc8, 0xc1)
    &&& wav::tag_at(bytes, i + 12, 0xca, 0, 0, 0)
}

/// Whether the extensible format chunk at `at` says that samples are integers.
pub open spec fn has_integers(bytes: Seq<u8>, at: int) -> bool {
    is_kind(bytes, at + 24, 1) || is_ambisonic_kind(bytes, at + 24, 1)
}

/// Whether the extensible format chunk of `len` bytes at `at` is accepted, samples of no bits left
/// aside.
pub open spec fn accepts_extensible(bytes: Seq<u8>, at: int, len: int) -> bool {
    let bits = wav::u16_at(bytes, at + 14);
    &&& has_mask(bytes, at, len)
    &&& mask_fits(wav::u32_at(bytes, at + 20), wav::u16_at(bytes, at + 2))
    &&& at + 40 <= bytes.len()
    &&& if has_integers(bytes, at) {
        bits <= 32
    } else if is_kind(bytes, at + 24, 3) || is_ambisonic_kind(bytes, at + 24, 3) {
        wav::u16_at(bytes, at + 18) == bits && (bits == 32 || bits == 64)
    } else {
        is_kind(bytes, at + 24, 6) || is_kind(bytes, at + 24, 4)
    }
}

/// How much of the format chunk of `len` bytes at `at` is read; none if the chunk is rejected.
pub open spec fn format_extent(bytes: Seq<u8>, at: int, len: int) -> Option<int> {
    let tag = wav::u16_at(bytes, at);
    let channels = wav::u16_at(bytes, at + 2);
    let bits = wav::u16_at(bytes, at + 14);
    let extra = wav::u16_at(bytes, at + 16);
    let rejected = None::<int>;
    if len < 16 || at + 16 > bytes.len() {
        rejected
    } else if tag == 0xfffe {
        if accepts_extensible(bytes, at, len) {
            Some(40int)
        } else {
            rejected
        }
    } else if channels < 1 || channels > KNOWN_POSITIONS {
        rejected
    } else if tag == 1 {
        if (len == 16 || len == 18 || len == 40) && at + len <= bytes.len() && (bits == 8 || bits
            == 16 || bits == 24 || bits == 32) {
            Some(len)
        } else {
            rejected
        }
    } else if tag == 3 {
        if (len == 16 || len == 18 && at + 18 <= bytes.len() && extra == 0 || len == 40) && (bits
            == 32 || bits == 64) {
            Some(len)
        } else {
            rejected
        }
    } else if tag == 6 || tag == 7 {
        if len == 18 && at + 18 <= bytes.len() && at + 18 + extra <= bytes.len() {
            Some(18 + extra as int)
        } else {
            rejected
        }
    } else if tag == 2 || tag == 0x11 {
        if bits == 4 && len >= 20 && at + 18 <= bytes.len() && at + 18 + extra <= bytes.len() && (
        if tag == 2 {
            extra >= 32
        } else {
            extra == 2
        }) {
            Some(18 + extra as int)
        } else {
            rejected
        }
    } else {
        rejected
    }
}

/// Whether a block of `align` bytes has room for `head` bytes for each channel, and no more after
/// them than can be counted in bits.
pub open spec fn block_fits(align: nat, channels: nat, head: nat) -> bool {
    head * channels <= align && 8 * (align - head * channels) < 0x1_0000
}

/// What stands in the way in the format chunk at `at`, which is accepted otherwise: no frames per
/// second, integer samples of no bits in the extensible form, or blocks of the wrong size.
pub open spec fn format_obstacle(bytes: Seq<u8>, at: int) -> Option<Obstacle> {
    let tag = wav::u16_at(bytes, at);
    let channels = wav::u16_at(bytes, at + 2);
    let align = wav::u16_at(bytes, at + 12);
    if wav::u32_at(bytes, at + 4) == 0 {
        Some(Obstacle::ZeroSampleRate)
    } else if tag == 0xfffe && wav::u16_at(bytes, at + 14) == 0 && has_integers(bytes, at) {
        Some(Obstacle::MalformedHeader)
    } else if tag == 2 && !block_fits(align, channels, 7) || tag == 0x11 && !block_fits(
        align,
        channels,
        4,
    ) {
        Some(Obstacle::MalformedHeader)
    } else {
        None
    }
}

/// Where the walk goes on after the format chunk of `len` bytes at `at`.
pub open spec fn format_step(bytes: Seq<u8>, at: int, len: int) -> ChunkStep {
    if len >= 16 && at + 16 <= bytes.len() && wav::u16_at(bytes, at) == 0xfffe && has_mask(
        bytes,
        at,
        len,
    ) && mask_overflows(wav::u32_at(bytes, at + 20), wav::u16_at(bytes, at + 2)) {
        ChunkStep::Blocked(Obstacle::MalformedHeader)
    } else {
        match format_extent(bytes, at, len) {
            None => ChunkStep::Stop,
            Some(extent) => match format_obstacle(bytes, at) {
                Some(obstacle) => ChunkStep::Blocked(obstacle),
                None => step_to(bytes, at + extent),
            },
        }
    }
}

/// Where the reading of a list of `len` bytes of notes about the music is at its end, if it is at
/// `pos` with `consumed` bytes read; none if the list is rejected or the file ends.
pub open spec fn notes_end(bytes: Seq<u8>, pos: int, len: int, consumed: int) -> Option<int>
    decreases bytes.len() - pos,
{
    let pad = consumed % 2;
    let at = pos + pad;
    let read = consumed + pad;
    if pos < 0 || consumed < 0 || at > bytes.len() {
        None
    } else if read + 8 > len {
        let end = at + (if read < len {
            len - read
        } else {
            0
        }) + len % 2;
        if end <= bytes.len() {
            Some(end)
        } else {
            None
        }
    } else if at + 8 > bytes.len() {
        None
    } else {
        let size = wav::u32_at(bytes, at + 4);
        if len - (read + 8) < size || at + 8 + size > bytes.len() {
            None
        } else {
            notes_end(bytes, at + 8 + size, len, read + 8 + size)
        }
    }
}

/// The largest list that is walked through. A longer one cannot be counted in 32 bits.
pub const MAX_LIST_BYTES: u32 = 0xffff_ff00;

/// Where the walk goes on after the chunk at `pos`, which has `len` bytes after its head.
pub open spec fn chunk_step(bytes: Seq<u8>, pos: int, len: int) -> ChunkStep {
    let at = pos + 8;
    if wav::tag_at(bytes, pos, 0x64, 0x61, 0x74, 0x61) {
        ChunkStep::Stop
    } else if wav::tag_at(bytes, pos, 0x66, 0x6d, 0x74, 0x20) {
        format_step(bytes, at, len)
    } else if wav::tag_at(bytes, pos, 0x66, 0x61, 0x63, 0x74) {
        if len == 4 {
            step_to(bytes, at + 4)
        } else {
            ChunkStep::Stop
        }
    } else if wav::tag_at(bytes, pos, 0x4c, 0x49, 0x53, 0x54) {
        if len < 4 || at + 4 > bytes.len() {
            ChunkStep::Stop
        } else if len > MAX_LIST_BYTES {
            ChunkStep::Blocked(Obstacle::MalformedHeader)
        } else if wav::tag_at(bytes, at, 0x49, 0x4e, 0x46, 0x4f) {
            match notes_end(bytes, at + 4, len - 4, 0) {
                None => ChunkStep::Stop,
                Some(end) => step_to(bytes, end),
            }
        } else {
            step_to(bytes, at + len + len % 2)
        }
    } else {
        step_to(bytes, at + len)
    }
}

/// What stands in the way among the chunks of a RIFF file of `len` bytes, if the walk is at `pos`
/// with `consumed` bytes counted. A chunk begins at an even count, and fits the file, unless both
/// claim the largest length that there is.
pub open spec fn chunks_obstacle(
    bytes: Seq<u8>,
    len: nat,
    pos: int,
    consumed: nat,
) -> Option<Obstacle>
    decreases bytes.len() - pos,
{
    let at = pos + consumed % 2;
    let counted = consumed + consumed % 2 + 8;
    if at > bytes.len() {
        None
    } else if counted > u32::MAX {
        Some(Obstacle::MalformedHeader)
    } else if counted > len || at + 8 > bytes.len() {
        None
    } else {
        let size = wav::u32_at(bytes, at + 4);
        if counted + size > len && !(len == u32::MAX && size == u32::MAX) {
            None
        } else {
            match chunk_step(bytes, at, size as int) {
                ChunkStep::Stop => None,
                ChunkStep::Blocked(obstacle) => Some(obstacle),
                ChunkStep::At(next) => if pos < next <= bytes.len() {
                    chunks_obstacle(
                        bytes,
                        len,
                        next as int,
                        if counted + size > u32::MAX {
                            u32::MAX as nat
                        } else {
                            counted + size
                        },
                    )
                } else {
                    None
                },
            }
        }
    }
}

/// The 16-bit number at `i`.
fn read_u16(bytes: &[u8], i: usize) -> (value: u32)
    requires
        i + 2 <= bytes@.len(),
    ensures
        value == wav::u16_at(bytes@, i as int),
{
    bytes[i] as u32 + 0x100 * (bytes[i + 1] as u32)
}

/// The 32-bit number at `i`.
fn read_u32(bytes: &[u8], i: usize) -> (value: u32)
    requires
        i + 4 <= bytes@.len(),
    ensures
        value == wav::u32_at(bytes@, i as int),
{
    bytes[i] as u32 + 0x100 * (bytes[i + 1] as u32) + 0x1_0000 * (bytes[i + 2] as u32) + 0x100_0000
        * (bytes[i + 3] as u32)
}

/// Whether the four bytes at `i` are `a b c d`.
fn has_tag(bytes: &[u8], i: usize, a: u8, b: u8, c: u8, d: u8) -> (yes: bool)
    requires
        i + 4 <= bytes@.len(),
    ensures
        yes == wav::tag_at(bytes@, i as int, a, b, c, d),
{
    bytes[i] == a && bytes[i + 1] == b && bytes[i + 2] == c && bytes[i + 3] == d
}

/// The step `by` bytes on from `at`.
fn step_on(bytes: &[u8], at: usize, by: u64) -> (step: ChunkStep)
    requires
        at <= bytes@.len(),
    ensures
        step == step_to(bytes@, at + by),
        step matches ChunkStep::At(next) ==> next == at + by && next <= bytes@.len(),
{
    let n: usize = bytes.len();
    if by <= (n - at) as u64 {
        ChunkStep::At(at + by as usize)
    } else {
        ChunkStep::Stop
    }
}

/// How many bits the number `x` takes, how many of them are set, and how far the lowest `n` of
/// these reach.
fn measure_mask(x: u32, n: u32) -> (r: (u32, u32, u32))
    ensures
        r.0 == codebook::width_of(x as nat),
        r.1 == ones_in(x as nat),
        r.2 == span_of(x as nat, n as nat),
        r.0 <= x,
        r.1 <= x,
{
    let mut rest: u32 = x;
    let mut left: u32 = n;
    let mut width: u32 = 0;
    let mut ones: u32 = 0;
    let mut span: u32 = 0;
    while rest > 0
        invariant
            width + rest <= x,
            ones <= width,
            span <= width,
            width + codebook::width_of(rest as nat) == codebook::width_of(x as nat),
            ones + ones_in(rest as nat) == ones_in(x as nat),
            span + span_of(rest as nat, left as nat) == span_of(x as nat, n as nat),
        decreases rest,
    {
        if left > 0 {
            span = span + 1;
            left = left - rest % 2;
        }
        ones = ones + rest % 2;
        width = width + 1;
        rest = rest / 2;
    }
    (width, ones, span)
}

/// Whether the identifier of a sample format at `i` is the one numbered `kind`.
fn has_kind(bytes: &[u8], i: usize, kind: u8) -> (yes: bool)
    requires
        i + 16 <= bytes@.len(),
    ensures
        yes == is_kind(bytes@, i as int, kind),
{
    let n: usize = bytes.len();
    assert(i + 16 <= n);
    has_tag(bytes, i, kind, 0, 0, 0) && has_tag(bytes, i + 4, 0, 0, 0x10, 0) && has_tag(
        bytes,
        i + 8,
        0x80,
        0,
        0,
        0xaa,
    ) && has_tag(bytes, i + 12, 0, 0x38, 0x9b, 0x71)
}

/// Whether the identifier of a sample format at `i` is the ambisonic one numbered `kind`.
fn has_ambisonic_kind(bytes: &[u8], i: usize, kind: u8) -> (yes: bool)
    requires
        i + 16 <= bytes@.len(),
    ensures
        yes == is_ambisonic_kind(bytes@, i as int, kind),
{
    let n: usize = bytes.len();
    assert(i + 16 <= n);
    has_tag(bytes, i, kind, 0, 0, 0) && has_tag(bytes, i + 4, 0x21, 0x07, 0xd3, 0x11) && has_tag(
        bytes,
        i + 8,
        0x86,
        0x44,
        0xc8,
        0xc1,
    ) && has_tag(bytes, i + 12, 0xca, 0, 0, 0)
}

/// Reads the extensible format chunk of `len` bytes at `at`.
fn extensible_step(bytes: &[u8], at: usize, len: u32) -> (step: ChunkStep)
    requires
        len >= 16,
        at + 16 <= bytes@.len(),
        wav::u16_at(bytes@, at as int) == 0xfffe,
    ensures
        step == format_step(bytes@, at as int, len as int),
        step matches ChunkStep::At(next) ==> at <= next <= bytes@.len(),
{
    let left: usize = bytes.len() - at;
    let bits: u32 = read_u16(bytes, at + 14);
    if len < 40 || left < 24 || read_u16(bytes, at + 16) != 22 || bits % 8 != 0 || read_u16(
        bytes,
        at + 18,
    ) > bits {
        return ChunkStep::Stop;
    }
    let channels: u32 = read_u16(bytes, at + 2);
    let mask: u32 = read_u32(bytes, at + 20);
    let (width, ones, span): (u32, u32, u32) = measure_mask(mask, channels);
    if channels > ones {
        if mask >= 0x8000_0000 || channels - ones >= 32 {
            return ChunkStep::Blocked(Obstacle::MalformedHeader);
        }
        if width > KNOWN_POSITIONS || channels - ones > KNOWN_POSITIONS - width {
            return ChunkStep::Stop;
        }
    } else if span > KNOWN_POSITIONS {
        return ChunkStep::Stop;
    }
    if left < 40 {
        return ChunkStep::Stop;
    }
    let integers: bool = has_kind(bytes, at + 24, 1) || has_ambisonic_kind(bytes, at + 24, 1);
    let accepted: bool = if integers {
        bits <= 32
    } else if has_kind(bytes, at + 24, 3) || has_ambisonic_kind(bytes, at + 24, 3) {
        read_u16(bytes, at + 18) == bits && (bits == 32 || bits == 64)
    } else {
        has_kind(bytes, at + 24, 6) || has_kind(bytes, at + 24, 4)
    };
    if !accepted {
        return ChunkStep::Stop;
    }
    if read_u32(bytes, at + 4) == 0 {
        return ChunkStep::Blocked(Obstacle::ZeroSampleRate);
    }
    if integers && bits == 0 {
        return ChunkStep::Blocked(Obstacle::MalformedHeader);
    }
    step_on(bytes, at, 40)
}

/// Whether a block of `align` bytes has room for its channels.
fn fits_block(align: u32, channels: u32, head: u32) -> (yes: bool)
    requires
        align < 0x1_0000,
        channels <= KNOWN_POSITIONS,
        head == 4 || head == 7,
    ensures
        yes == block_fits(align as nat, channels as nat, head as nat),
{
    let taken: u32 = if head == 4 {
        4 * channels
    } else {
        7 * channels
    };
    taken <= align && 8 * (align - taken) < 0x1_0000
}

/// Reads the format chunk of `len` bytes at `at`.
fn read_format(bytes: &[u8], at: usize, len: u32) -> (step: ChunkStep)
    requires
        at <= bytes@.len(),
    ensures
        step == format_step(bytes@, at as int, len as int),
        step matches ChunkStep::At(next) ==> at <= next <= bytes@.len(),
{
    let left: usize = bytes.len() - at;
    if len < 16 || left < 16 {
        return ChunkStep::Stop;
    }
    let tag: u32 = read_u16(bytes, at);
    if tag == 0xfffe {
        return extensible_step(bytes, at, len);
    }
    let channels: u32 = read_u16(bytes, at + 2);
    let align: u32 = read_u16(bytes, at + 12);
    let bits: u32 = read_u16(bytes, at + 14);
    if channels < 1 || channels > KNOWN_POSITIONS {
        return ChunkStep::Stop;
    }
    let extent: u32;
    if tag == 1 {
        if (len != 16 && len != 18 && len != 40) || left < len as usize || (bits != 8 && bits != 16
            && bits != 24 && bits != 32) {
            return ChunkStep::Stop;
        }
        extent = len;
    } else if tag == 3 {
        if (len != 16 && len != 18 && len != 40) || (bits != 32 && bits != 64) {
            return ChunkStep::Stop;
        }
        if len == 18 && (left < 18 || read_u16(bytes, at + 16) != 0) {
            return ChunkStep::Stop;
        }
        extent = len;
    } else if tag == 6 || tag == 7 {
        if len != 18 || left < 18 {
            return ChunkStep::Stop;
        }
        extent = 18 + read_u16(bytes, at + 16);
        if left < extent as usize {
            return ChunkStep::Stop;
        }
    } else if tag == 2 || tag == 0x11 {
        if bits != 4 || len < 20 || left < 18 {
            return ChunkStep::Stop;
        }
        let extra: u32 = read_u16(bytes, at + 16);
        extent = 18 + extra;
        if left < extent as usize || (tag == 2 && extra < 32) || (tag == 0x11 && extra != 2) {
            return ChunkStep::Stop;
        }
    } else {
        return ChunkStep::Stop;
    }
    if read_u32(bytes, at + 4) == 0 {
        return ChunkStep::Blocked(Obstacle::ZeroSampleRate);
    }
    if (tag == 2 && !fits_block(align, channels, 7)) || (tag == 0x11 && !fits_block(
        align,
        channels,
        4,
    )) {
        return ChunkStep::Blocked(Obstacle::MalformedHeader);
    }
    step_on(bytes, at, extent as u64)
}

/// Walks through a list of `len` bytes of notes at `start`.
fn skip_notes(bytes: &[u8], start: usize, len: u32) -> (end: Option<usize>)
    requires
        start <= bytes@.len(),
        len <= MAX_LIST_BYTES,
    ensures
        match end {
            Some(e) => notes_end(bytes@, start as int, len as int, 0) == Some(e as int) && start
                <= e <= bytes@.len(),
            None => notes_end(bytes@, start as int, len as int, 0) is None,
        },
{
    let n: usize = bytes.len();
    let mut pos: usize = start;
    let mut consumed: u32 = 0;
    loop
        invariant
            n == bytes@.len(),
            start <= pos <= n,
            consumed <= len <= MAX_LIST_BYTES,
            notes_end(bytes@, start as int, len as int, 0) == notes_end(
                bytes@,
                pos as int,
                len as int,
                consumed as int,
            ),
        decreases n - pos,
    {
        if consumed % 2 == 1 {
            if pos == n {
                return None;
            }
            pos = pos + 1;
            consumed = consumed + 1;
        }
        if consumed + 8 > len {
            let rest: u32 = if consumed < len {
                len - consumed
            } else {
                0
            };
            let by: u64 = rest as u64 + (len % 2) as u64;
            return if by <= (n - pos) as u64 {
                Some(pos + by as usize)
            } else {
                None
            };
        }
        if n - pos < 8 {
            return None;
        }
        let size: u32 = read_u32(bytes, pos + 4);
        if len - (consumed + 8) < size || ((n - pos - 8) as u64) < size as u64 {
            return None;
        }
        pos = pos + 8 + size as usize;
        consumed = consumed + 8 + size;
    }
}

/// Where the walk goes on after the chunk at `pos`.
fn walk_step(bytes: &[u8], pos: usize, len: u32) -> (step: ChunkStep)
    requires
        pos + 8 <= bytes@.len(),
    ensures
        step == chunk_step(bytes@, pos as int, len as int),
        step matches ChunkStep::At(next) ==> pos < next <= bytes@.len(),
{
    let n: usize = bytes.len();
    let at: usize = pos + 8;
    if has_tag(bytes, pos, 0x64, 0x61, 0x74, 0x61) {
        return ChunkStep::Stop;
    }
    if has_tag(bytes, pos, 0x66, 0x6d, 0x74, 0x20) {
        return read_format(bytes, at, len);
    }
    if has_tag(bytes, pos, 0x66, 0x61, 0x63, 0x74) {
        return if len == 4 {
            step_on(bytes, at, 4)
        } else {
            ChunkStep::Stop
        };
    }
    if has_tag(bytes, pos, 0x4c, 0x49, 0x53, 0x54) {
        if len < 4 || n - at < 4 {
            return ChunkStep::Stop;
        }
        if len > MAX_LIST_BYTES {
            return ChunkStep::Blocked(Obstacle::MalformedHeader);
        }
        if has_tag(bytes, at, 0x49, 0x4e, 0x46, 0x4f) {
            return match skip_notes(bytes, at + 4, len - 4) {
                Some(end) => ChunkStep::At(end),
                None => ChunkStep::Stop,
            };
        }
        return step_on(bytes, at, len as u64 + (len % 2) as u64);
    }
    step_on(bytes, at, len as u64)
}

/// Looks for what stands in the way among the chunks of a RIFF file of `len` bytes, which begin at
/// `start`.
fn find_in_chunks(bytes: &[u8], len: u32, start: usize) -> (r: Option<Obstacle>)
    requires
        start <= bytes@.len(),
    ensures
        r == chunks_obstacle(bytes@, len as nat, start as int, 0),
{
    let n: usize = bytes.len();
    let mut pos: usize = start;
    let mut consumed: u32 = 0;
    loop
        invariant
            n == bytes@.len(),
            pos <= n,
            chunks_obstacle(bytes@, len as nat, start as int, 0) == chunks_obstacle(
                bytes@,
                len as nat,
                pos as int,
                consumed as nat,
            ),
        decreases n - pos,
    {
        let mut at: usize = pos;
        if consumed % 2 == 1 {
            if pos == n {
                return None;
            }
            at = pos + 1;
        }
        let counted: u64 = consumed as u64 + (consumed % 2) as u64 + 8;
        if counted > u32::MAX as u64 {
            return Some(Obstacle::MalformedHeader);
        }
        if counted > len as u64 || n - at < 8 {
            return None;
        }
        let size: u32 = read_u32(bytes, at + 4);
        let total: u64 = counted + size as u64;
        if total > len as u64 && !(len == u32::MAX && size == u32::MAX) {
            return None;
        }
        match walk_step(bytes, at, size) {
            ChunkStep::Stop => return None,
            ChunkStep::Blocked(obstacle) => return Some(obstacle),
            ChunkStep::At(next) => {
                pos = next;
            },
        }
        consumed =
        if total > u32::MAX as u64 {
            u32::MAX
        } else {
            total as u32
        };
    }
}

/// How many bytes the first `n` segments of the Ogg page at `page` have.
pub open spec fn segments_len(bytes: Seq<u8>, page: int, n: nat) -> nat
    decreases n,
{
    if n == 0 {
        0
    } else {
        segments_len(bytes, page, (n - 1) as nat) + bytes[page + 27 + n - 1] as nat
    }
}

/// Where the packets of the Ogg page at `page` begin.
pub open spec fn body_start(bytes: Seq<u8>, page: int) -> int {
    page + 27 + bytes[page + 26]
}

/// Where the Ogg page at `page` ends.
pub open spec fn page_end(bytes: Seq<u8>, page: int) -> int {
    body_start(bytes, page) + segments_len(bytes, page, bytes[page + 26] as nat)
}

/// Whether there is an Ogg page at `page`, its checksum left aside.
pub open spec fn is_page(bytes: Seq<u8>, page: int) -> bool {
    &&& page + 27 <= bytes.len()
    &&& wav::tag_at(bytes, page, 0x4f, 0x67, 0x67, 0x53)
    &&& bytes[page + 4] == 0
    &&& bytes[page + 5] < 8
    &&& body_start(bytes, page) <= bytes.len()
    &&& page_end(bytes, page) <= bytes.len()
}

/// Whether the Ogg page at `page` goes on with a packet of an earlier page.
pub open spec fn is_continued(bytes: Seq<u8>, page: int) -> bool {
    bytes[page + 5] % 2 == 1
}

/// Whether the Ogg page at `page` begins a stream.
pub open spec fn is_first(bytes: Seq<u8>, page: int) -> bool {
    bytes[page + 5] / 2 % 2 == 1
}

/// One step of the checksum of an Ogg page.
pub open spec fn checksum_step(c: u32) -> u32 {
    if c < 0x8000_0000 {
        c << 1u32
    } else {
        (c << 1u32) ^ 0x04c1_1db7u32
    }
}

/// `n` steps of the checksum.
pub open spec fn checksum_steps(c: u32, n: nat) -> u32
    decreases n,
{
    if n == 0 {
        c
    } else {
        checksum_step(checksum_steps(c, (n - 1) as nat))
    }
}

/// The checksum of the bytes of an Ogg page at `page` up to `end`, those of the checksum itself
/// taken as zero.
pub open spec fn checksum_of(bytes: Seq<u8>, page: int, end: int) -> u32
    decreases end - page,
{
    if end <= page {
        0
    } else {
        let byte = if page + 22 <= end - 1 < page + 26 {
            0u8
        } else {
            bytes[end - 1]
        };
        checksum_steps(checksum_of(bytes, page, end - 1) ^ ((byte as u32) << 24u32), 8)
    }
}

/// What an Ogg page has of the packet that it begins with: how many bytes, and whether the packet
/// ends there. The first `n` segments are known to belong to it.
pub open spec fn first_packet(bytes: Seq<u8>, page: int, n: nat) -> (nat, bool)
    decreases bytes[page + 26] - n,
{
    if n >= bytes[page + 26] {
        (segments_len(bytes, page, n), false)
    } else if bytes[page + 27 + n] < 255 {
        (segments_len(bytes, page, n + 1), true)
    } else {
        first_packet(bytes, page, n + 1)
    }
}

/// The longest packet that is put together from several pages, in bytes.
pub const MAX_JOINED_BYTES: usize = 0x100_0000;

/// Whether nothing stands in the way in the setup packet that begins with `part`, at the end of the
/// page number `sequence` of the stream `serial`, and goes on in the pages from `at` on. Pages of
/// other streams may stand in between. A page that is broken stands in the way, as long as the
/// packet has not ended, and so does one that begins a stream: the reader may give up on that
/// stream and come back to the packet with any later page.
pub open spec fn joined_is_sound(
    bytes: Seq<u8>,
    part: Seq<u8>,
    serial: nat,
    sequence: nat,
    at: int,
) -> bool
    decreases bytes.len() - at,
{
    if at + 27 > bytes.len() {
        true
    } else if !is_page(bytes, at) || checksum_of(bytes, at, page_end(bytes, at)) != wav::u32_at(
        bytes,
        at + 22,
    ) {
        false
    } else if is_first(bytes, at) {
        false
    } else if wav::u32_at(bytes, at + 14) != serial {
        joined_is_sound(bytes, part, serial, sequence, page_end(bytes, at))
    } else {
        let number = wav::u32_at(bytes, at + 18);
        let (len, whole) = first_packet(bytes, at, 0);
        let start = body_start(bytes, at);
        let joined = part + bytes.subrange(start, start + len);
        if !is_continued(bytes, at) || number < sequence || number > sequence + 1 {
            true
        } else if joined.len() > MAX_JOINED_BYTES {
            false
        } else if whole {
            codebook::packet_is_sound(joined)
        } else {
            joined_is_sound(bytes, joined, serial, number, page_end(bytes, at))
        }
    }
}

/// Whether nothing stands in the way in the packets that begin in the Ogg page at `page`, from the
/// segment `i` on, which is at `at`; the packet that it belongs to begins at `start`, or in an
/// earlier page if `continued`.
pub open spec fn packets_are_sound(
    bytes: Seq<u8>,
    page: int,
    i: nat,
    start: int,
    at: int,
    continued: bool,
) -> bool
    decreases bytes[page + 26] - i,
{
    if i >= bytes[page + 26] {
        !continued && start < at && codebook::begins_setup(bytes, start) ==> joined_is_sound(
            bytes,
            bytes.subrange(start, at),
            wav::u32_at(bytes, page + 14),
            wav::u32_at(bytes, page + 18),
            at,
        )
    } else {
        let end = at + bytes[page + 27 + i];
        if bytes[page + 27 + i] == 255 {
            packets_are_sound(bytes, page, i + 1, start, end, continued)
        } else {
            &&& continued || codebook::packet_is_sound(bytes.subrange(start, end))
            &&& packets_are_sound(bytes, page, i + 1, end, end, false)
        }
    }
}

/// Whether nothing stands in the way in the Ogg page at `page`, if there is one.
pub open spec fn page_is_sound(bytes: Seq<u8>, page: int) -> bool {
    is_page(bytes, page) ==> packets_are_sound(
        bytes,
        page,
        0,
        body_start(bytes, page),
        body_start(bytes, page),
        is_continued(bytes, page),
    )
}

/// Whether there is an Ogg page at `page` with the checksum that it says.
pub open spec fn is_intact(bytes: Seq<u8>, page: int) -> bool {
    is_page(bytes, page) && checksum_of(bytes, page, page_end(bytes, page)) == wav::u32_at(
        bytes,
        page + 22,
    )
}

/// The time that the Ogg page at `page` ends at.
pub open spec fn time_of(bytes: Seq<u8>, page: int) -> nat {
    wav::u32_at(bytes, page + 6) + 0x1_0000_0000 * wav::u32_at(bytes, page + 10)
}

/// The first time that is out of range.
pub const END_OF_TIME: u64 = 0x2000_0000_0000_0000;

/// The time of an Ogg page on which no packet ends.
pub const NO_TIME: u64 = 0xffff_ffff_ffff_ffff;

/// Whether the Ogg page at `page`, if there is one that is intact, has a time that is in range.
/// One on which no packet ends may have none.
pub open spec fn is_timed(bytes: Seq<u8>, page: int) -> bool {
    is_intact(bytes, page) ==> time_of(bytes, page) < END_OF_TIME || time_of(bytes, page) == NO_TIME
        && !first_packet(bytes, page, 0).1
}

/// Whether a stream with the number `serial` begins in the Ogg pages from `at` on that begin
/// streams, one after the other.
pub open spec fn begins_stream(bytes: Seq<u8>, at: int, serial: nat) -> bool
    decreases bytes.len() - at,
{
    if is_page(bytes, at) && is_first(bytes, at) {
        wav::u32_at(bytes, at + 14) == serial && first_packet(bytes, at, 0).1 || begins_stream(
            bytes,
            page_end(bytes, at),
            serial,
        )
    } else {
        false
    }
}

/// Where the Ogg pages from `at` on that begin streams, one after the other, are at an end.
pub open spec fn beginnings_end(bytes: Seq<u8>, at: int) -> int
    decreases bytes.len() - at,
{
    if is_page(bytes, at) && is_first(bytes, at) {
        beginnings_end(bytes, page_end(bytes, at))
    } else {
        at
    }
}

/// Whether the Ogg page at `page`, if there is one that is intact, belongs to a stream that begins
/// with the pages from `mark` on.
pub open spec fn belongs(bytes: Seq<u8>, mark: int, page: int) -> bool {
    is_intact(bytes, page) && page >= beginnings_end(bytes, mark) ==> !is_first(bytes, page)
        && begins_stream(bytes, mark, wav::u32_at(bytes, page + 14))
}

/// How many bytes an Ogg page has at most. In a file that is shorter, the end of a stream is looked
/// for from its start; in others from the end of the file, and then by halves if another stream is
/// found there.
pub const MAX_PAGE_BYTES: usize = 65307;

/// Whether nothing stands in the way in the Ogg page at `page`, if there is one, in a file that
/// begins at `mark`.
pub open spec fn is_sound(bytes: Seq<u8>, mark: int, page: int) -> bool {
    &&& page_is_sound(bytes, page)
    &&& is_timed(bytes, page)
    &&& bytes.len() < MAX_PAGE_BYTES || belongs(bytes, mark, page)
}

/// Whether nothing stands in the way in any Ogg page from `mark` on.
pub open spec fn are_sound(bytes: Seq<u8>, mark: int) -> bool {
    forall|page: int| mark <= page < bytes.len() ==> #[trigger] is_sound(bytes, mark, page)
}

/// Whether there is an Ogg page at `page` that is intact and has no time.
pub open spec fn is_timeless(bytes: Seq<u8>, page: int) -> bool {
    is_intact(bytes, page) && time_of(bytes, page) == NO_TIME
}

/// Whether there is an Ogg page at `page` that is intact and begins a stream that may be FLAC,
/// whose header tells a length of its own.
pub open spec fn begins_flac(bytes: Seq<u8>, page: int) -> bool {
    &&& is_intact(bytes, page)
    &&& is_first(bytes, page)
    &&& body_start(bytes, page) < page_end(bytes, page)
    &&& bytes[body_start(bytes, page)] == 0x7f
}

/// Whether no Ogg page from `mark` on is without a time, or none begins a FLAC stream.
pub open spec fn lengths_fit(bytes: Seq<u8>, mark: int) -> bool {
    ||| forall|page: int| mark <= page < bytes.len() ==> !#[trigger] is_timeless(bytes, page)
    ||| forall|page: int| mark <= page < bytes.len() ==> !#[trigger] begins_flac(bytes, page)
}

/// How far into a file its format is looked for, in bytes.
pub const PROBED_BYTES: usize = 0x10_0000;

/// Where the first mark of a format or of a tag that is known begins, from `from` on; the length of
/// the file if there is none. A mark is only seen with some bytes behind it.
pub open spec fn first_mark(bytes: Seq<u8>, from: int) -> int
    decreases bytes.len() - from,
{
    if from + 16 > bytes.len() || from + 2 > PROBED_BYTES {
        bytes.len() as int
    } else if wav::tag_at(bytes, from, 0x52, 0x49, 0x46, 0x46) || wav::tag_at(
        bytes,
        from,
        0x4f,
        0x67,
        0x67,
        0x53,
    ) || is_tag(bytes, from) {
        from
    } else {
        first_mark(bytes, from + 1)
    }
}

/// Whether an ID3 tag begins at `at`.
pub open spec fn is_tag(bytes: Seq<u8>, at: int) -> bool {
    bytes[at] == 0x49 && bytes[at + 1] == 0x44 && bytes[at + 2] == 0x33
}

/// What stands in the way of opening a file.
pub open spec fn obstacle_in(bytes: Seq<u8>) -> Option<Obstacle> {
    let mark = first_mark(bytes, 0);
    if mark >= bytes.len() {
        None
    } else if bytes[mark] == 0x49 {
        Some(Obstacle::MalformedHeader)
    } else if bytes[mark] == 0x52 {
        if wav::tag_at(bytes, mark + 8, 0x57, 0x41, 0x56, 0x45) {
            chunks_obstacle(bytes, wav::u32_at(bytes, mark + 4), mark + 12, 0)
        } else {
            None
        }
    } else if are_sound(bytes, mark) && lengths_fit(bytes, mark) {
        None
    } else {
        Some(Obstacle::MalformedHeader)
    }
}

/// Whether a file can be handed to the decoding library.
pub open spec fn is_readable(bytes: Seq<u8>) -> bool {
    obstacle_in(bytes) is None
}

proof fn lemma_segments_fit(bytes: Seq<u8>, page: int, a: nat, b: nat)
    requires
        a <= b,
    ensures
        segments_len(bytes, page, a) <= segments_len(bytes, page, b),
        segments_len(bytes, page, b) <= segments_len(bytes, page, a) + 255 * (b - a),
    decreases b - a,
{
    if a < b {
        lemma_segments_fit(bytes, page, a, (b - 1) as nat);
    }
}

/// Finds where the Ogg page at `page` ends; none if there is no page.
fn find_page_end(bytes: &[u8], page: usize) -> (end: Option<usize>)
    requires
        page <= bytes@.len(),
    ensures
        match end {
            Some(e) => is_page(bytes@, page as int) && e == page_end(bytes@, page as int),
            None => !is_page(bytes@, page as int),
        },
{
    let n: usize = bytes.len();
    if n - page < 27 || !has_tag(bytes, page, 0x4f, 0x67, 0x67, 0x53) || bytes[page + 4] != 0
        || bytes[page + 5] >= 8 {
        return None;
    }
    let count: usize = bytes[page + 26] as usize;
    if n - page - 27 < count {
        return None;
    }
    let mut len: usize = 0;
    let mut i: usize = 0;
    while i < count
        invariant
            n == bytes@.len(),
            page + 27 + count <= n,
            count <= 255,
            i <= count,
            len == segments_len(bytes@, page as int, i as nat),
            len <= 255 * i,
        decreases count - i,
    {
        len = len + bytes[page + 27 + i] as usize;
        i = i + 1;
    }
    if n - page - 27 - count < len {
        None
    } else {
        Some(page + 27 + count + len)
    }
}

/// Computes the checksum of the Ogg page from `page` to `end`.
fn checksum(bytes: &[u8], page: usize, end: usize) -> (c: u32)
    requires
        page <= end <= bytes@.len(),
    ensures
        c == checksum_of(bytes@, page as int, end as int),
{
    let mut c: u32 = 0;
    let mut i: usize = page;
    while i < end
        invariant
            page <= i <= end <= bytes@.len(),
            c == checksum_of(bytes@, page as int, i as int),
        decreases end - i,
    {
        let byte: u8 = if 22 <= i - page && i - page < 26 {
            0
        } else {
            bytes[i]
        };
        let ghost fed = c ^ ((byte as u32) << 24u32);
        c = c ^ ((byte as u32) << 24u32);
        let mut k: u32 = 0;
        while k < 8
            invariant
                k <= 8,
                c == checksum_steps(fed, k as nat),
            decreases 8 - k,
        {
            c =
            if c < 0x8000_0000 {
                c << 1u32
            } else {
                (c << 1u32) ^ 0x04c1_1db7u32
            };
            k = k + 1;
        }
        i = i + 1;
    }
    c
}

/// Finds what the Ogg page at `page` has of the packet that it begins with.
fn find_first_packet(bytes: &[u8], page: usize) -> (r: (usize, bool))
    requires
        is_page(bytes@, page as int),
    ensures
        (r.0 as nat, r.1) == first_packet(bytes@, page as int, 0),
        body_start(bytes@, page as int) + r.0 <= page_end(bytes@, page as int),
{
    let n: usize = bytes.len();
    let count: usize = bytes[page + 26] as usize;
    let mut len: usize = 0;
    let mut i: usize = 0;
    while i < count
        invariant
            n == bytes@.len(),
            is_page(bytes@, page as int),
            count == bytes@[page + 26],
            i <= count <= 255,
            len == segments_len(bytes@, page as int, i as nat),
            len <= 255 * i,
            first_packet(bytes@, page as int, 0) == first_packet(bytes@, page as int, i as nat),
        decreases count - i,
    {
        let size: u8 = bytes[page + 27 + i];
        len = len + size as usize;
        i = i + 1;
        if size < 255 {
            proof {
                lemma_segments_fit(bytes@, page as int, i as nat, count as nat);
            }
            return (len, true);
        }
    }
    (len, false)
}

/// Follows a setup packet that begins with the bytes from `start` to `end` over the pages from
/// `end` on.
fn check_joined(bytes: &[u8], start: usize, end: usize, serial: u32, sequence: u32) -> (sound: bool)
    requires
        start <= end <= bytes@.len(),
        end - start <= 0x1_0000,
    ensures
        sound == joined_is_sound(
            bytes@,
            bytes@.subrange(start as int, end as int),
            serial as nat,
            sequence as nat,
            end as int,
        ),
{
    let n: usize = bytes.len();
    let mut part: Vec<u8> = Vec::new();
    part.extend_from_slice(slice_subrange(bytes, start, end));
    let mut at: usize = end;
    let mut number: u32 = sequence;
    assert(part@ =~= bytes@.subrange(start as int, end as int));
    loop
        invariant
            n == bytes@.len(),
            at <= n,
            part@.len() <= MAX_JOINED_BYTES,
            joined_is_sound(
                bytes@,
                bytes@.subrange(start as int, end as int),
                serial as nat,
                sequence as nat,
                end as int,
            ) == joined_is_sound(bytes@, part@, serial as nat, number as nat, at as int),
        decreases n - at,
    {
        if n - at < 27 {
            return true;
        }
        let next: usize = match find_page_end(bytes, at) {
            Some(next) => next,
            None => return false,
        };
        if checksum(bytes, at, next) != read_u32(bytes, at + 22) || bytes[at + 5] / 2 % 2 == 1 {
            return false;
        }
        if read_u32(bytes, at + 14) == serial {
            let found: u32 = read_u32(bytes, at + 18);
            let (len, whole): (usize, bool) = find_first_packet(bytes, at);
            let body: usize = at + 27 + bytes[at + 26] as usize;
            if bytes[at + 5] % 2 != 1 || found < number || found - number > 1 {
                return true;
            }
            if len > MAX_JOINED_BYTES - part.len() {
                return false;
            }
            let ghost before = part@;
            part.extend_from_slice(slice_subrange(bytes, body, body + len));
            assert(part@ =~= before + bytes@.subrange(body as int, body + len));
            if whole {
                return check_packet(part.as_slice());
            }
            number = found;
        }
        at = next;
    }
}

/// Looks into the Ogg page at `page`, if there is one.
fn check_page(bytes: &[u8], page: usize) -> (sound: bool)
    requires
        page <= bytes@.len(),
    ensures
        sound == page_is_sound(bytes@, page as int),
{
    let end: usize = match find_page_end(bytes, page) {
        Some(end) => end,
        None => return true,
    };
    let count: usize = bytes[page + 26] as usize;
    let mut start: usize = page + 27 + count;
    let mut at: usize = start;
    let mut continued: bool = bytes[page + 5] % 2 == 1;
    let mut i: usize = 0;
    while i < count
        invariant
            is_page(bytes@, page as int),
            end == page_end(bytes@, page as int),
            count == bytes@[page + 26],
            i <= count <= 255,
            body_start(bytes@, page as int) <= start <= at,
            at == body_start(bytes@, page as int) + segments_len(bytes@, page as int, i as nat),
            at - start <= 255 * i,
            page_is_sound(bytes@, page as int) == packets_are_sound(
                bytes@,
                page as int,
                i as nat,
                start as int,
                at as int,
                continued,
            ),
        decreases count - i,
    {
        let size: u8 = bytes[page + 27 + i];
        proof {
            lemma_segments_fit(bytes@, page as int, (i + 1) as nat, count as nat);
        }
        at = at + size as usize;
        i = i + 1;
        if size < 255 {
            if !continued && !check_packet(slice_subrange(bytes, start, at)) {
                return false;
            }
            start = at;
            continued = false;
        }
    }
    if continued || start == at || !starts_setup(bytes, start) {
        return true;
    }
    let serial: u32 = read_u32(bytes, page + 14);
    let sequence: u32 = read_u32(bytes, page + 18);
    check_joined(bytes, start, at, serial, sequence)
}

/// Looks for the first mark of a format or of a tag that is known.
fn find_mark(bytes: &[u8]) -> (mark: usize)
    ensures
        mark == first_mark(bytes@, 0),
        mark < bytes@.len() ==> mark + 16 <= bytes@.len(),
{
    let n: usize = bytes.len();
    let mut i: usize = 0;
    while i < n && n - i >= 16 && i <= PROBED_BYTES - 2
        invariant
            n == bytes@.len(),
            i <= n,
            first_mark(bytes@, 0) == first_mark(bytes@, i as int),
        decreases n - i,
    {
        if has_tag(bytes, i, 0x52, 0x49, 0x46, 0x46) || has_tag(bytes, i, 0x4f, 0x67, 0x67, 0x53)
            || (bytes[i] == 0x49 && bytes[i + 1] == 0x44 && bytes[i + 2] == 0x33) {
            return i;
        }
        i = i + 1;
    }
    n
}

/// Whether there is an Ogg page at `page` that is intact.
fn check_intact(bytes: &[u8], page: usize) -> (intact: bool)
    requires
        page <= bytes@.len(),
    ensures
        intact == is_intact(bytes@, page as int),
{
    match find_page_end(bytes, page) {
        Some(end) => checksum(bytes, page, end) == read_u32(bytes, page + 22),
        None => false,
    }
}

/// The time that the Ogg page at `page` ends at.
fn read_time(bytes: &[u8], page: usize) -> (time: u64)
    requires
        is_page(bytes@, page as int),
    ensures
        time == time_of(bytes@, page as int),
{
    let n: usize = bytes.len();
    assert(page + 27 <= n);
    read_u32(bytes, page + 6) as u64 + 0x1_0000_0000 * (read_u32(bytes, page + 10) as u64)
}

/// Checks that the Ogg page at `page` has a time that is in range, if there is one that is intact.
fn check_time(bytes: &[u8], page: usize) -> (timed: bool)
    requires
        page <= bytes@.len(),
    ensures
        timed == is_timed(bytes@, page as int),
{
    if find_page_end(bytes, page).is_none() {
        return true;
    }
    let time: u64 = read_time(bytes, page);
    if time < END_OF_TIME {
        return true;
    }
    if time == NO_TIME && !find_first_packet(bytes, page).1 {
        return true;
    }
    !check_intact(bytes, page)
}

/// Looks for the beginning of the stream `serial` in the Ogg pages from `start` on that begin
/// streams.
fn find_beginning(bytes: &[u8], start: usize, serial: u32) -> (found: bool)
    requires
        start <= bytes@.len(),
    ensures
        found == begins_stream(bytes@, start as int, serial as nat),
{
    let n: usize = bytes.len();
    let mut at: usize = start;
    loop
        invariant
            n == bytes@.len(),
            at <= n,
            begins_stream(bytes@, start as int, serial as nat) == begins_stream(
                bytes@,
                at as int,
                serial as nat,
            ),
        decreases n - at,
    {
        let end: usize = match find_page_end(bytes, at) {
            Some(end) => end,
            None => return false,
        };
        if bytes[at + 5] / 2 % 2 != 1 {
            return false;
        }
        if read_u32(bytes, at + 14) == serial && find_first_packet(bytes, at).1 {
            return true;
        }
        at = end;
    }
}

/// Finds where the Ogg pages from `start` on that begin streams are at an end.
fn find_beginnings_end(bytes: &[u8], start: usize) -> (end: usize)
    requires
        start <= bytes@.len(),
    ensures
        end == beginnings_end(bytes@, start as int),
        start <= end <= bytes@.len(),
{
    let n: usize = bytes.len();
    let mut at: usize = start;
    loop
        invariant
            n == bytes@.len(),
            start <= at <= n,
            beginnings_end(bytes@, start as int) == beginnings_end(bytes@, at as int),
        decreases n - at,
    {
        match find_page_end(bytes, at) {
            Some(end) => {
                if bytes[at + 5] / 2 % 2 != 1 {
                    return at;
                }
                at = end;
            },
            None => return at,
        }
    }
}

/// Checks that the Ogg page at `page`, if there is one that is intact, belongs to a stream that
/// begins with the pages from `mark` up to `end`.
fn check_belongs(bytes: &[u8], mark: usize, end: usize, page: usize) -> (yes: bool)
    requires
        mark <= bytes@.len(),
        page <= bytes@.len(),
        end == beginnings_end(bytes@, mark as int),
    ensures
        yes == belongs(bytes@, mark as int, page as int),
{
    if page < end || find_page_end(bytes, page).is_none() {
        return true;
    }
    if bytes[page + 5] / 2 % 2 != 1 && find_beginning(bytes, mark, read_u32(bytes, page + 14)) {
        return true;
    }
    !check_intact(bytes, page)
}

/// Looks into all Ogg pages from `mark` on.
fn check_pages(bytes: &[u8], mark: usize) -> (sound: bool)
    requires
        mark <= bytes@.len(),
    ensures
        sound == are_sound(bytes@, mark as int),
{
    let n: usize = bytes.len();
    let end: usize = find_beginnings_end(bytes, mark);
    let mut page: usize = mark;
    while page < n
        invariant
            n == bytes@.len(),
            mark <= page <= n,
            end == beginnings_end(bytes@, mark as int),
            forall|p: int| mark <= p < page ==> #[trigger] is_sound(bytes@, mark as int, p),
        decreases n - page,
    {
        if !check_page(bytes, page) || !check_time(bytes, page) || (n >= MAX_PAGE_BYTES
            && !check_belongs(bytes, mark, end, page)) {
            assert(!is_sound(bytes@, mark as int, page as int));
            return false;
        }
        page = page + 1;
    }
    true
}

/// Checks that no Ogg page from `mark` on is without a time.
fn check_timeless(bytes: &[u8], mark: usize) -> (none: bool)
    requires
        mark <= bytes@.len(),
    ensures
        none == (forall|page: int|
            mark <= page < bytes@.len() ==> !#[trigger] is_timeless(bytes@, page)),
{
    let n: usize = bytes.len();
    let mut page: usize = mark;
    while page < n
        invariant
            n == bytes@.len(),
            mark <= page <= n,
            forall|p: int| mark <= p < page ==> !#[trigger] is_timeless(bytes@, p),
        decreases n - page,
    {
        if find_page_end(bytes, page).is_some() && read_time(bytes, page) == NO_TIME
            && check_intact(bytes, page) {
            assert(is_timeless(bytes@, page as int));
            return false;
        }
        page = page + 1;
    }
    true
}

/// Checks that no Ogg page from `mark` on begins a stream that may be FLAC.
fn check_flac(bytes: &[u8], mark: usize) -> (none: bool)
    requires
        mark <= bytes@.len(),
    ensures
        none == (forall|page: int|
            mark <= page < bytes@.len() ==> !#[trigger] begins_flac(bytes@, page)),
{
    let n: usize = bytes.len();
    let mut page: usize = mark;
    while page < n
        invariant
            n == bytes@.len(),
            mark <= page <= n,
            forall|p: int| mark <= p < page ==> !#[trigger] begins_flac(bytes@, p),
        decreases n - page,
    {
        if let Some(end) = find_page_end(bytes, page) {
            let body: usize = page + 27 + bytes[page + 26] as usize;
            if bytes[page + 5] / 2 % 2 == 1 && body < end && bytes[body] == 0x7f && check_intact(
                bytes,
                page,
            ) {
                assert(begins_flac(bytes@, page as int));
                return false;
            }
        }
        page = page + 1;
    }
    true
}

/// Looks for what stands in the way of opening a file.
pub fn find_obstacle(bytes: &[u8]) -> (r: Option<Obstacle>)
    ensures
        r == obstacle_in(bytes@),
{
    let n: usize = bytes.len();
    let mark: usize = find_mark(bytes);
    if mark >= n {
        return None;
    }
    if bytes[mark] == 0x49 {
        return Some(Obstacle::MalformedHeader);
    }
    if bytes[mark] == 0x52 {
        return if has_tag(bytes, mark + 8, 0x57, 0x41, 0x56, 0x45) {
            find_in_chunks(bytes, read_u32(bytes, mark + 4), mark + 12)
        } else {
            None
        };
    }
    if check_pages(bytes, mark) && (check_timeless(bytes, mark) || check_flac(bytes, mark)) {
        None
    } else {
        Some(Obstacle::MalformedHeader)
    }
}

proof fn lemma_first_mark(bytes: Seq<u8>, from: int, at: int)
    requires
        0 <= from <= at,
        forall|i: int| from <= i < at ==> !#[trigger] is_mark(bytes, i),
    ensures
        at + 16 <= bytes.len() && at + 2 <= PROBED_BYTES && is_mark(bytes, at) ==> first_mark(
            bytes,
            from,
        ) == at,
        at + 16 > bytes.len() || at + 2 > PROBED_BYTES ==> first_mark(bytes, from) == bytes.len(),
    decreases at - from,
{
    if from < at {
        assert(!is_mark(bytes, from));
        lemma_first_mark(bytes, from + 1, at);
    }
}

/// Whether a format or a tag that is known begins at `i`.
pub open spec fn is_mark(bytes: Seq<u8>, i: int) -> bool {
    ||| bytes[i] == 0x52 && bytes[i + 1] == 0x49 && bytes[i + 2] == 0x46 && bytes[i + 3] == 0x46
    ||| bytes[i] == 0x4f && bytes[i + 1] == 0x67 && bytes[i + 2] == 0x67 && bytes[i + 3] == 0x53
    ||| bytes[i] == 0x49 && bytes[i + 1] == 0x44 && bytes[i + 2] == 0x33
}

/// A file in which no format begins is left to the decoding library: nothing stands in its way.
pub proof fn law_unknown_files_are_not_refused(bytes: Seq<u8>)
    requires
        forall|i: int| 0 <= i < bytes.len() ==> !#[trigger] is_mark(bytes, i),
    ensures
        obstacle_in(bytes) is None,
        is_readable(bytes),
{
    lemma_first_mark(bytes, 0, bytes.len() as int);
}

/// A file is judged by what begins in it first: one that begins with a tag is refused, and a RIFF
/// file that is no WAVE file is not.
pub proof fn law_files_are_judged_by_their_first_mark(bytes: Seq<u8>, at: int)
    requires
        0 <= at,
        at + 16 <= bytes.len(),
        at + 2 <= PROBED_BYTES,
        is_mark(bytes, at),
        forall|i: int| 0 <= i < at ==> !#[trigger] is_mark(bytes, i),
    ensures
        bytes[at] == 0x49 ==> obstacle_in(bytes) == Some(Obstacle::MalformedHeader),
        bytes[at] == 0x52 && bytes.subrange(at + 8, at + 12) != seq![0x57u8, 0x41, 0x56, 0x45]
            ==> obstacle_in(bytes) is None,
{
    lemma_first_mark(bytes, 0, at);
    let form = bytes.subrange(at + 8, at + 12);
    assert(form[0] == bytes[at + 8] && form[1] == bytes[at + 9] && form[2] == bytes[at + 10]
        && form[3] == bytes[at + 11]);
    if wav::tag_at(bytes, at + 8, 0x57, 0x41, 0x56, 0x45) {
        assert(form =~= seq![0x57u8, 0x41, 0x56, 0x45]);
    }
}

/// A plain file of PCM samples is not refused, unless it says that it has no frames per second;
/// then that is what stands in its way.
pub proof fn law_plain_pcm_files_are_not_refused(
    bytes: Seq<u8>,
    format: wav::WavFormat,
    data: Seq<u8>,
)
    requires
        wav::is_plain_file(bytes, format, data),
        format.format_tag == 1,
        1 <= format.channels <= 26,
        format.bits_per_sample == 8 || format.bits_per_sample == 16 || format.bits_per_sample == 24
            || format.bits_per_sample == 32,
    ensures
        format.sample_rate > 0 ==> obstacle_in(bytes) is None,
        format.sample_rate == 0 && wav::u32_at(bytes, 4) >= 24 ==> obstacle_in(bytes) == Some(
            Obstacle::ZeroSampleRate,
        ),
{
    lemma_first_mark(bytes, 0, 0);
    assert(is_mark(bytes, 0));
    assert(first_mark(bytes, 0) == 0);
    let len = wav::u32_at(bytes, 4);
    assert(wav::u16_at(bytes, 20) == 1);
    assert(wav::u16_at(bytes, 22) == format.channels);
    assert(wav::u16_at(bytes, 34) == format.bits_per_sample);
    assert(wav::u32_at(bytes, 24) == format.sample_rate);
    reveal_with_fuel(chunks_obstacle, 3);
    assert(format_extent(bytes, 20, 16) == Some(16int));
    if format.sample_rate > 0 {
        assert(chunk_step(bytes, 12, 16) == ChunkStep::At(36));
        assert(chunk_step(bytes, 36, data.len() as int) == ChunkStep::Stop);
    } else {
        assert(chunk_step(bytes, 12, 16) == ChunkStep::Blocked(Obstacle::ZeroSampleRate));
    }
}

/// The samples end the walk over the chunks of a file, and a chunk that is not known is stepped
/// over whole, if the file has it whole.
pub proof fn law_unknown_chunks_are_stepped_over(bytes: Seq<u8>, pos: int, len: nat)
    requires
        0 <= pos,
        pos + 8 <= bytes.len() <= usize::MAX,
    ensures
        ({
            let tag = bytes.subrange(pos, pos + 4);
            &&& tag == seq![0x64u8, 0x61, 0x74, 0x61] ==> chunk_step(bytes, pos, len as int)
                == ChunkStep::Stop
            &&& tag != seq![0x64u8, 0x61, 0x74, 0x61] && tag != seq![0x66u8, 0x6d, 0x74, 0x20]
                && tag != seq![0x66u8, 0x61, 0x63, 0x74] && tag != seq![0x4cu8, 0x49, 0x53, 0x54]
                ==> {
                let to = pos + 8 + len;
                &&& to <= bytes.len() ==> chunk_step(bytes, pos, len as int) == ChunkStep::At(
                    to as usize,
                )
                &&& to > bytes.len() ==> chunk_step(bytes, pos, len as int) == ChunkStep::Stop
            }
        }),
{
    let tag = bytes.subrange(pos, pos + 4);
    assert(tag[0] == bytes[pos] && tag[1] == bytes[pos + 1] && tag[2] == bytes[pos + 2] && tag[3]
        == bytes[pos + 3]);
    if wav::tag_at(bytes, pos, 0x64, 0x61, 0x74, 0x61) {
        assert(tag =~= seq![0x64u8, 0x61, 0x74, 0x61]);
    } else if wav::tag_at(bytes, pos, 0x66, 0x6d, 0x74, 0x20) {
        assert(tag =~= seq![0x66u8, 0x6d, 0x74, 0x20]);
    } else if wav::tag_at(bytes, pos, 0x66, 0x61, 0x63, 0x74) {
        assert(tag =~= seq![0x66u8, 0x61, 0x63, 0x74]);
    } else if wav::tag_at(bytes, pos, 0x4c, 0x49, 0x53, 0x54) {
        assert(tag =~= seq![0x4cu8, 0x49, 0x53, 0x54]);
    }
}

} // verus!
