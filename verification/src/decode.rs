//! Decoding of compressed or uncompressed music, a few frames at a time.

use std::io::Cursor;
use std::sync::Arc;

use symphonia::default::{get_codecs, get_probe};
use vstd::prelude::*;
use vstd::slice::slice_subrange;

#[allow(unused_imports)]
use crate::container;
use crate::container::{find_obstacle, Obstacle};
use crate::format::CHANNELS;
#[allow(unused_imports)]
use crate::math;
use crate::math::{SampleMath, EQUAL_POWER_GAIN, SILENCE};
#[allow(unused_imports)]
use crate::resample;
use crate::resample::{convert_frame_count, ResampleError, StreamResampler};
#[allow(unused_imports)]
use crate::text;
use crate::text::{joined, numbered};

verus! {

/// Why decoding failed.
#[derive(Debug)]
pub enum DecodeError {
    /// The decoding library failed.
    Symphonia(String),
    /// The file has no track that can be played.
    NoAudioTrack,
    /// The track is neither mono nor stereo.
    UnsupportedChannelCount(usize),
    /// The sample rate of the track is zero.
    InvalidSampleRate(u32),
    /// The track could not be converted to the rate of the output.
    Resample(ResampleError),
    /// The stream changes in a way that needs a new decoder.
    ResetRequired,
}

impl DecodeError {
    /// What is told of this error.
    pub open spec fn text(self) -> Seq<char> {
        match self {
            DecodeError::Symphonia(msg) => "symphonia decode error: "@ + msg@,
            DecodeError::NoAudioTrack => "no supported audio track found (wav / ogg vorbis only)"@,
            DecodeError::UnsupportedChannelCount(channels) => "unsupported channel count "@
                + text::decimal(channels as nat) + " (only mono or stereo is supported)"@,
            DecodeError::InvalidSampleRate(rate) => "invalid source sample rate "@ + text::decimal(
                rate as nat,
            ) + " Hz (must be > 0)"@,
            DecodeError::Resample(err) => err.text(),
            DecodeError::ResetRequired =>
                "stream requires a decoder reset (e.g. chained ogg physical streams), which is not supported yet"@,
        }
    }

    /// What is told of this error.
    pub fn message(&self) -> (s: String)
        ensures
            s@ == self.text(),
    {
        match self {
            DecodeError::Symphonia(msg) => joined("symphonia decode error: ", msg.as_str()),
            DecodeError::NoAudioTrack =>
                "no supported audio track found (wav / ogg vorbis only)".to_owned(),
            DecodeError::UnsupportedChannelCount(channels) => numbered(
                "unsupported channel count ",
                *channels as u64,
                " (only mono or stereo is supported)",
            ),
            DecodeError::InvalidSampleRate(rate) => numbered(
                "invalid source sample rate ",
                *rate as u64,
                " Hz (must be > 0)",
            ),
            DecodeError::Resample(err) => err.message(),
            DecodeError::ResetRequired =>
                "stream requires a decoder reset (e.g. chained ogg physical streams), which is not supported yet".to_owned(),
        }
    }
}

/// One call of a [`MusicDecoder`], with what it answered.
pub enum DecoderEvent {
    /// [`MusicDecoder::read`] was given a buffer that held `before`, left `after` in it and
    /// returned `result`.
    Read {
        /// The buffer before the call.
        before: Seq<u32>,
        /// The buffer after the call.
        after: Seq<u32>,
        /// How many frames were decoded, or what went wrong.
        result: Result<usize, DecodeError>,
    },
    /// [`MusicDecoder::seek`] was called with `frame` and returned `outcome`.
    Seek {
        /// The frame.
        frame: u64,
        /// Whether that worked.
        outcome: Result<(), DecodeError>,
    },
}

/// Decodes music to interleaved stereo at the rate of the output.
pub trait MusicDecoder {
    /// The calls that this decoder has answered so far, those of
    /// [`MusicDecoder::total_frames`] left aside. A verified decoder says what the record is. One
    /// that takes this default has an empty record for good, which no answer can be added to: it
    /// cannot be shown to keep the contract of [`MusicDecoder::read`] and
    /// [`MusicDecoder::seek`]. The default is for decoders outside the verified code.
    closed spec fn events(&self) -> Seq<DecoderEvent> {
        Seq::empty()
    }

    /// The length of the music, if it is known. A verified decoder says what it is. One that takes
    /// this default has none, and cannot be shown to keep the contract of
    /// [`MusicDecoder::total_frames`] if it tells one. The default is for decoders outside the
    /// verified code.
    closed spec fn length(&self) -> Option<u64> {
        None
    }

    /// Decodes frames to the start of `out` and returns how many; fewer than fit only at the end.
    fn read(&mut self, out: &mut [u32]) -> (result: Result<usize, DecodeError>)
        ensures
            final(out)@.len() == old(out)@.len(),
            result matches Ok(n) ==> 2 * n <= old(out)@.len(),
            final(self).events() == old(self).events().push(
                DecoderEvent::Read { before: old(out)@, after: final(out)@, result },
            ),
            final(self).length() == old(self).length(),
    ;

    /// Moves to `frame`.
    fn seek(&mut self, frame: u64) -> (outcome: Result<(), DecodeError>)
        ensures
            final(self).events() == old(self).events().push(DecoderEvent::Seek { frame, outcome }),
            final(self).length() == old(self).length(),
    ;

    /// The length of the music, if it is known.
    fn total_frames(&self) -> (total: Option<u64>)
        ensures
            total == self.length(),
    ;
}

/// Why the decoding library gave up on a file, a packet or a seek.
#[derive(Debug)]
pub enum CodecFailure {
    /// The file ended where more was needed.
    UnexpectedEnd(String),
    /// The file could not be read.
    Io(String),
    /// The data is malformed.
    Malformed(String),
    /// The stream changes in a way that needs a new decoder.
    ResetRequired,
    /// Anything else.
    Other(String),
}

/// What is known of a [`CodecFailure`]: its kind and what is told of it.
pub enum Failure {
    /// The file ended where more was needed.
    UnexpectedEnd(Seq<char>),
    /// The file could not be read.
    Io(Seq<char>),
    /// The data is malformed.
    Malformed(Seq<char>),
    /// The stream changes in a way that needs a new decoder.
    ResetRequired,
    /// Anything else.
    Other(Seq<char>),
}

impl View for CodecFailure {
    type V = Failure;

    open spec fn view(&self) -> Failure {
        match self {
            CodecFailure::UnexpectedEnd(text) => Failure::UnexpectedEnd(text@),
            CodecFailure::Io(text) => Failure::Io(text@),
            CodecFailure::Malformed(text) => Failure::Malformed(text@),
            CodecFailure::ResetRequired => Failure::ResetRequired,
            CodecFailure::Other(text) => Failure::Other(text@),
        }
    }
}

/// An error of the decoding library.
#[verifier::external_type_specification]
#[verifier::external_body]
pub struct ExCodecError(symphonia::core::errors::Error);

/// An open music file.
#[verifier::external_type_specification]
#[verifier::external_body]
pub struct ExProbeResult(symphonia::core::probe::ProbeResult);

/// A packet of a music file.
#[verifier::external_type_specification]
#[verifier::external_body]
pub struct ExPacket(symphonia::core::formats::Packet);

/// What an error of `symphonia` says.
pub uninterp spec fn explained(err: symphonia::core::errors::Error) -> Failure;

/// Tells the variants of `symphonia::core::errors::Error` apart and keeps the text that its
/// `to_string` gives. Both are functions of the error.
#[verifier::external_body]
fn explain(err: symphonia::core::errors::Error) -> (f: CodecFailure)
    ensures
        f@ == explained(err),
{
    let text = err.to_string();
    match err {
        symphonia::core::errors::Error::IoError(e) => match e.kind() {
            std::io::ErrorKind::UnexpectedEof => CodecFailure::UnexpectedEnd(text),
            _ => CodecFailure::Io(text),
        },
        symphonia::core::errors::Error::DecodeError(_) => CodecFailure::Malformed(text),
        symphonia::core::errors::Error::ResetRequired => CodecFailure::ResetRequired,
        _ => CodecFailure::Other(text),
    }
}

impl DecodeError {
    /// Whether this error reports `failure`.
    pub open spec fn reports(self, failure: Failure) -> bool {
        match failure {
            Failure::ResetRequired => self is ResetRequired,
            Failure::UnexpectedEnd(text)
            | Failure::Io(text)
            | Failure::Malformed(text)
            | Failure::Other(text) => self matches DecodeError::Symphonia(msg) && msg@ == text,
        }
    }

    /// The error that reports `failure`.
    pub fn of_failure(failure: CodecFailure) -> (e: DecodeError)
        ensures
            e.reports(failure@),
    {
        match failure {
            CodecFailure::UnexpectedEnd(text) => DecodeError::Symphonia(text),
            CodecFailure::Io(text) => DecodeError::Symphonia(text),
            CodecFailure::Malformed(text) => DecodeError::Symphonia(text),
            CodecFailure::ResetRequired => DecodeError::ResetRequired,
            CodecFailure::Other(text) => DecodeError::Symphonia(text),
        }
    }
}

impl From<symphonia::core::errors::Error> for CodecFailure {
    fn from(err: symphonia::core::errors::Error) -> (f: CodecFailure)
        ensures
            f@ == explained(err),
    {
        explain(err)
    }
}

impl vstd::std_specs::convert::FromSpecImpl<symphonia::core::errors::Error> for CodecFailure {
    open spec fn obeys_from_spec() -> bool {
        false
    }

    open spec fn from_spec(err: symphonia::core::errors::Error) -> CodecFailure {
        arbitrary()
    }
}

impl From<symphonia::core::errors::Error> for DecodeError {
    fn from(err: symphonia::core::errors::Error) -> (e: DecodeError)
        ensures
            e.reports(explained(err)),
    {
        DecodeError::of_failure(explain(err))
    }
}

impl vstd::std_specs::convert::FromSpecImpl<symphonia::core::errors::Error> for DecodeError {
    open spec fn obeys_from_spec() -> bool {
        false
    }

    open spec fn from_spec(err: symphonia::core::errors::Error) -> DecodeError {
        arbitrary()
    }
}

/// A music file in memory that can be shared without copying it.
#[derive(Debug, Clone)]
pub struct SharedBytes(pub Arc<Vec<u8>>);

impl SharedBytes {
    /// Another handle to the file.
    pub fn new(bytes: Arc<Vec<u8>>) -> (b: SharedBytes)
        ensures
            b.0@ == bytes@,
    {
        SharedBytes(bytes)
    }
}

impl From<Arc<Vec<u8>>> for SharedBytes {
    fn from(bytes: Arc<Vec<u8>>) -> (b: SharedBytes) {
        SharedBytes(bytes)
    }
}

impl vstd::std_specs::convert::FromSpecImpl<Arc<Vec<u8>>> for SharedBytes {
    open spec fn obeys_from_spec() -> bool {
        true
    }

    open spec fn from_spec(bytes: Arc<Vec<u8>>) -> SharedBytes {
        SharedBytes(bytes)
    }
}

impl From<Vec<u8>> for SharedBytes {
    fn from(bytes: Vec<u8>) -> (b: SharedBytes) {
        SharedBytes(Arc::new(bytes))
    }
}

impl vstd::std_specs::convert::FromSpecImpl<Vec<u8>> for SharedBytes {
    open spec fn obeys_from_spec() -> bool {
        true
    }

    open spec fn from_spec(bytes: Vec<u8>) -> SharedBytes {
        SharedBytes(Arc::new(bytes))
    }
}

impl AsRef<[u8]> for SharedBytes {
    fn as_ref(&self) -> (b: &[u8])
        ensures
            b@ == self.0@,
    {
        self.0.as_slice()
    }
}

/// A track of a music file.
#[derive(Debug, Clone, Copy, PartialEq, Eq, Structural)]
pub struct TrackInfo {
    /// The number of the track.
    pub id: u32,
    /// Whether the file does not say how the track is coded.
    pub codec_is_null: bool,
    /// Whether there is a decoder for the track.
    pub codec_is_registered: bool,
    /// Frames per second, if the file says so.
    pub sample_rate: Option<u32>,
    /// The number of channels, if the file says so.
    pub channels: Option<usize>,
    /// The length, if the file says so.
    pub n_frames: Option<u64>,
}

/// The music file that `symphonia` opens, or why it cannot.
pub uninterp spec fn container(bytes: Seq<u8>) -> Result<
    symphonia::core::probe::ProbeResult,
    Failure,
>;

/// The tracks of an open music file.
pub uninterp spec fn tracks_of(file: symphonia::core::probe::ProbeResult) -> Seq<TrackInfo>;

/// Why there is no decoder for a track of an open music file, for each of its tracks; none where
/// there is one.
pub uninterp spec fn refusals_of(file: symphonia::core::probe::ProbeResult) -> Seq<Option<Failure>>;

/// The bytes that an open music file was opened from.
pub uninterp spec fn bytes_of(file: symphonia::core::probe::ProbeResult) -> Seq<u8>;

/// The next packet of an open music file, with the number of the track that it belongs to, or why
/// there is none.
pub uninterp spec fn packet_after(file: symphonia::core::probe::ProbeResult) -> Result<
    (u32, symphonia::core::formats::Packet),
    Failure,
>;

/// An open music file after its next packet has been asked for.
pub uninterp spec fn file_behind_packet(
    file: symphonia::core::probe::ProbeResult,
) -> symphonia::core::probe::ProbeResult;

/// Where a seek to the frame `frame` of the track `track_id` of an open music file lands, or why
/// it fails.
pub uninterp spec fn landing_after(
    file: symphonia::core::probe::ProbeResult,
    frame: u64,
    track_id: u32,
) -> Result<u64, Failure>;

/// An open music file after a seek to the frame `frame` of the track `track_id`.
pub uninterp spec fn file_behind_seek(
    file: symphonia::core::probe::ProbeResult,
    frame: u64,
    track_id: u32,
) -> symphonia::core::probe::ProbeResult;

/// Calls `symphonia::core::probe::Probe::format` on the bytes, with the formats that `symphonia`
/// supports here and without any hint. The outcome is a function of the bytes, which the open file
/// keeps. Bytes on which the call does not return are left out: see [`container::is_readable`].
#[verifier::external_body]
fn probe(bytes: Arc<Vec<u8>>) -> (r: Result<symphonia::core::probe::ProbeResult, CodecFailure>)
    requires
        container::is_readable(bytes@),
    ensures
        match r {
            Ok(file) => container(bytes@) == Ok::<_, Failure>(file) && bytes_of(file) == bytes@,
            Err(failure) => container(bytes@) == Err::<
                symphonia::core::probe::ProbeResult,
                _,
            >(failure@),
        },
{
    let source = Box::new(Cursor::new(SharedBytes(bytes)));
    let stream = symphonia::core::io::MediaSourceStream::new(source, Default::default());
    let (hint, format, meta) = Default::default();
    get_probe().format(&hint, stream, &format, &meta).map_err(explain)
}

/// Lists what `symphonia::core::formats::FormatReader::tracks` says of an open file, asking
/// `symphonia::core::codecs::CodecRegistry::get_codec` which of the tracks can be decoded. That is
/// a function of the file.
#[verifier::external_body]
fn list_tracks(file: &symphonia::core::probe::ProbeResult) -> (tracks: Vec<TrackInfo>)
    ensures
        tracks@ == tracks_of(*file),
{
    file.format.tracks().iter().map(|t| TrackInfo {
        id: t.id,
        codec_is_null: t.codec_params.codec == symphonia::core::codecs::CODEC_TYPE_NULL,
        codec_is_registered: get_codecs().get_codec(t.codec_params.codec).is_some(),
        sample_rate: t.codec_params.sample_rate,
        channels: t.codec_params.channels.map(|c| c.count()),
        n_frames: t.codec_params.n_frames,
    }).collect()
}

/// Calls `symphonia::core::codecs::CodecRegistry::make` for the track at the position `index` and
/// keeps only why it failed, if it did. That is a function of the file and the position. Files on
/// which the call does not return are left out.
#[verifier::external_body]
fn find_refusal(file: &symphonia::core::probe::ProbeResult, index: usize) -> (refusal: Option<
    CodecFailure,
>)
    requires
        index < tracks_of(*file).len(),
        container::is_readable(bytes_of(*file)),
    ensures
        match refusal {
            Some(failure) => refusals_of(*file)[index as int] == Some(failure@),
            None => refusals_of(*file)[index as int] is None,
        },
{
    let params = &file.format.tracks()[index].codec_params;
    get_codecs().make(params, &Default::default()).err().map(explain)
}

/// Calls `symphonia::core::formats::FormatReader::next_packet` and asks the packet for its
/// `track_id`. The outcome is a function of the open file, and so is what becomes of the file,
/// which stays the same bytes. Files on which the call does not return are left out.
#[verifier::external_body]
fn take_packet(file: &mut symphonia::core::probe::ProbeResult) -> (r: Result<
    (u32, symphonia::core::formats::Packet),
    CodecFailure,
>)
    requires
        container::is_readable(bytes_of(*old(file))),
    ensures
        match r {
            Ok(taken) => packet_after(*old(file)) == Ok::<_, Failure>(taken),
            Err(failure) => packet_after(*old(file)) == Err::<
                (u32, symphonia::core::formats::Packet),
                _,
            >(failure@),
        },
        *final(file) == file_behind_packet(*old(file)),
        bytes_of(*final(file)) == bytes_of(*old(file)),
{
    let packet = file.format.next_packet().map_err(explain)?;
    Ok((packet.track_id(), packet))
}

/// The last frame that a file is asked for. It lies behind all times that are in range.
pub const LAST_FRAME: u64 = 0x4000_0000_0000_0000;

/// The frame that a file is asked for in order to get to `frame`.
pub open spec fn asked_for(frame: u64) -> u64 {
    if frame < LAST_FRAME {
        frame
    } else {
        LAST_FRAME
    }
}

/// Calls `symphonia::core::formats::FormatReader::seek` in its accurate mode and returns the
/// `actual_ts` that it reports. The outcome is a function of the open file and of the arguments,
/// and so is what becomes of the file, which stays the same bytes. Files on which the call does not
/// return are left out, and so are frames so late that a difference of times that the call may log
/// would overflow.
#[verifier::external_body]
fn seek_file(file: &mut symphonia::core::probe::ProbeResult, frame: u64, track_id: u32) -> (r:
    Result<u64, CodecFailure>)
    requires
        container::is_readable(bytes_of(*old(file))),
        frame <= LAST_FRAME,
    ensures
        match r {
            Ok(landed) => landing_after(*old(file), frame, track_id) == Ok::<_, Failure>(landed),
            Err(failure) => landing_after(*old(file), frame, track_id) == Err::<u64, _>(failure@),
        },
        *final(file) == file_behind_seek(*old(file), frame, track_id),
        bytes_of(*final(file)) == bytes_of(*old(file)),
{
    let to = symphonia::core::formats::SeekTo::TimeStamp { ts: frame, track_id };
    let mode = symphonia::core::formats::SeekMode::Accurate;
    Ok(file.format.seek(mode, to).map_err(explain)?.actual_ts)
}

/// How a track is going to be played.
#[derive(Debug, Clone, Copy, PartialEq, Eq, Structural)]
pub struct TrackPlan {
    /// The number of the track.
    pub track_id: u32,
    /// Frames per second in the file.
    pub source_sample_rate: u32,
    /// The length at the rate of the output, if the file says so.
    pub total_frames: Option<u64>,
}

impl TrackInfo {
    /// Whether the track can be decoded.
    pub open spec fn is_playable(self) -> bool {
        !self.codec_is_null && self.codec_is_registered
    }
}

/// The position from `from` on of the first track that can be decoded; the number of tracks if
/// there is none.
pub open spec fn first_playable(tracks: Seq<TrackInfo>, from: int) -> int
    decreases tracks.len() - from,
{
    if from >= tracks.len() {
        tracks.len() as int
    } else if tracks[from].is_playable() {
        from
    } else {
        first_playable(tracks, from + 1)
    }
}

/// The length `n` of a track, counted at the rate of the output (modulo `2^64`).
pub open spec fn length_at(n: Option<u64>, source_rate: u32, output_rate: u32) -> Option<u64> {
    match n {
        Some(frames) => Some(
            (resample::converted(frames as nat, source_rate as nat, output_rate as nat) as int
                % 0x1_0000_0000_0000_0000) as u64,
        ),
        None => None,
    }
}

/// How the track `t` is to be played at `output_rate`: it needs a rate and one or two channels.
pub open spec fn plan_of(t: TrackInfo, output_rate: u32) -> Result<TrackPlan, DecodeError> {
    match (t.sample_rate, t.channels) {
        (None, _) => Err(DecodeError::NoAudioTrack),
        (Some(rate), channels) => if rate == 0 {
            Err(DecodeError::InvalidSampleRate(rate))
        } else {
            match channels {
                None => Err(DecodeError::NoAudioTrack),
                Some(count) => if count == 1 || count == 2 {
                    Ok(
                        TrackPlan {
                            track_id: t.id,
                            source_sample_rate: rate,
                            total_frames: length_at(t.n_frames, rate, output_rate),
                        },
                    )
                } else {
                    Err(DecodeError::UnsupportedChannelCount(count))
                },
            }
        },
    }
}

/// Plans how the track `t` is played at `output_rate`.
pub fn plan_track(t: &TrackInfo, output_rate: u32) -> (r: Result<TrackPlan, DecodeError>)
    ensures
        r == plan_of(*t, output_rate),
{
    let source_sample_rate: u32 = match t.sample_rate {
        Some(rate) => rate,
        None => return Err(DecodeError::NoAudioTrack),
    };
    if source_sample_rate == 0 {
        return Err(DecodeError::InvalidSampleRate(source_sample_rate));
    }
    let channels: usize = match t.channels {
        Some(count) => count,
        None => return Err(DecodeError::NoAudioTrack),
    };
    if channels != 1 && channels != 2 {
        return Err(DecodeError::UnsupportedChannelCount(channels));
    }
    let total_frames: Option<u64> = match t.n_frames {
        Some(frames) => Some(convert_frame_count(frames, source_sample_rate, output_rate)),
        None => None,
    };
    Ok(TrackPlan { track_id: t.id, source_sample_rate, total_frames })
}

/// How a file with `tracks` is to be played at `output_rate`: the first track that can be decoded
/// is the one. Its position comes with the plan.
pub open spec fn planned(tracks: Seq<TrackInfo>, output_rate: u32) -> Result<
    (int, TrackPlan),
    DecodeError,
> {
    let i = first_playable(tracks, 0);
    if i < tracks.len() {
        match plan_of(tracks[i], output_rate) {
            Ok(plan) => Ok((i, plan)),
            Err(e) => Err(e),
        }
    } else {
        Err(DecodeError::NoAudioTrack)
    }
}

/// Plans how a file with `tracks` is played at `output_rate`.
pub fn plan_tracks(tracks: &Vec<TrackInfo>, output_rate: u32) -> (r: Result<
    (usize, TrackPlan),
    DecodeError,
>)
    ensures
        match r {
            Ok(found) => planned(tracks@, output_rate) == Ok::<_, DecodeError>(
                (found.0 as int, found.1),
            ) && found.0 < tracks@.len(),
            Err(e) => planned(tracks@, output_rate) == Err::<(int, TrackPlan), _>(e),
        },
{
    let mut i: usize = 0;
    while i < tracks.len()
        invariant
            i <= tracks@.len(),
            first_playable(tracks@, 0) == first_playable(tracks@, i as int),
        decreases tracks.len() - i,
    {
        if !tracks[i].codec_is_null && tracks[i].codec_is_registered {
            return match plan_track(&tracks[i], output_rate) {
                Ok(plan) => Ok((i, plan)),
                Err(e) => Err(e),
            };
        }
        i += 1;
    }
    Err(DecodeError::NoAudioTrack)
}

/// Whether the frames `before` were handed out to a buffer as far as they reached or fitted: `out`
/// was in the buffer, of which `written` frames count, and now `filled` is in it, of which `total`
/// frames count, and of `before` the frames `after` are left.
pub open spec fn handed_out(
    before: Seq<u32>,
    after: Seq<u32>,
    out: Seq<u32>,
    filled: Seq<u32>,
    written: int,
    total: int,
) -> bool {
    let take = resample::least(before.len() / 2, (out.len() / 2 - written) as nat) as int;
    &&& total == written + take
    &&& after == before.skip(2 * take)
    &&& filled == out.take(2 * written) + before.take(2 * take) + out.skip(2 * total)
}

/// Copies the frames of `pending` from `pos` on to `out`, behind the `written` frames that are
/// there already, as far as they reach or fit. Returns how many frames were copied.
fn copy_frames(pending: &Vec<u32>, pos: usize, out: &mut [u32], written: usize) -> (take: usize)
    requires
        pos <= pending@.len(),
        2 * written <= old(out)@.len(),
    ensures
        handed_out(
            pending@.skip(pos as int),
            pending@.skip(pos + 2 * take),
            old(out)@,
            final(out)@,
            written as int,
            written + take,
        ),
        pos + 2 * take <= pending@.len() <= usize::MAX,
        2 * (written + take) <= usize::MAX,
{
    let capacity: usize = out.len();
    let end: usize = pending.len();
    let available: usize = (end - pos) / CHANNELS;
    let room: usize = capacity / CHANNELS - written;
    let take: usize = if available < room {
        available
    } else {
        room
    };
    let mut i: usize = 0;
    while i < 2 * take
        invariant
            i <= 2 * take,
            capacity == out@.len(),
            end == pending@.len(),
            pos + 2 * take <= end,
            2 * written + 2 * take <= capacity,
            out@.len() == old(out)@.len(),
            out@ =~= old(out)@.take(2 * written as int) + pending@.subrange(pos as int, pos + i)
                + old(out)@.skip(2 * written + i),
        decreases 2 * take - i,
    {
        out[2 * written + i] = pending[pos + i];
        i += 1;
    }
    assert(pending@.skip(pos as int).take(2 * take as int) =~= pending@.subrange(
        pos as int,
        pos + 2 * take,
    ));
    assert(pending@.skip(pos as int).skip(2 * take as int) =~= pending@.skip(pos + 2 * take));
    take
}

/// How many frames lie between `landed` and `frame`; none if `landed` is not before it.
pub open spec fn frames_between(landed: u64, frame: u64) -> u64 {
    if landed <= frame {
        (frame - landed) as u64
    } else {
        0
    }
}

/// What a reader needs in order to drop frames.
#[derive(Debug, Clone, Copy, PartialEq, Eq, Structural)]
pub enum DiscardStep {
    /// The next packet, of which that many frames have to be dropped.
    Packet(u64),
    /// Nothing.
    Done,
}

/// Whether a packet that cannot be had for this reason is the end of the file.
pub open spec fn ends_the_file(failure: Failure) -> bool {
    failure is UnexpectedEnd
}

/// Whether a packet that cannot be decoded for this reason is skipped.
pub open spec fn is_skipped(failure: Failure) -> bool {
    failure is UnexpectedEnd || failure is Io || failure is Malformed
}

/// How many of `available` frames are dropped if `n` are to be, and what is needed then. A file
/// that has no more packets, which `eof` says, ends that early.
pub open spec fn discarded(available: nat, n: nat, eof: bool) -> (nat, DiscardStep) {
    let take = resample::least(available, n);
    (
        take,
        if take == n || eof {
            DiscardStep::Done
        } else {
            DiscardStep::Packet((n - take) as u64)
        },
    )
}

/// What is decoded of a track, at the rate and in the order of the file, and not yet handed out.
#[derive(Debug)]
pub struct NativeReader {
    /// The number of the track.
    pub track_id: u32,
    /// The last packet, as interleaved stereo.
    pub pending: Vec<u32>,
    /// How much of it has been handed out.
    pub pending_pos: usize,
    /// Whether the file has no more packets.
    pub eof: bool,
}

/// The stereo frames of a packet with `channels` channels.
pub open spec fn as_stereo<M: SampleMath>(m: &M, channels: usize, samples: Seq<u32>) -> Seq<u32> {
    if channels == 1 {
        Seq::new(
            2 * samples.len(),
            |i: int| math::product_of(m, samples[i / 2], EQUAL_POWER_GAIN),
        )
    } else {
        samples
    }
}

impl NativeReader {
    /// Whether whole frames are pending.
    pub open spec fn wf(self) -> bool {
        &&& self.pending_pos <= self.pending@.len()
        &&& self.pending_pos % 2 == 0
        &&& self.pending@.len() % 2 == 0
    }

    /// What has not been handed out.
    pub open spec fn unread(self) -> Seq<u32> {
        self.pending@.skip(self.pending_pos as int)
    }

    /// A reader of the track `track_id` with nothing decoded.
    pub fn new(track_id: u32) -> (r: NativeReader)
        ensures
            r.wf(),
            r.track_id == track_id,
            r.unread() == Seq::<u32>::empty(),
            !r.eof,
    {
        NativeReader { track_id, pending: Vec::new(), pending_pos: 0, eof: false }
    }

    /// How many frames have not been handed out.
    pub fn pending_frames(&self) -> (n: usize)
        requires
            self.wf(),
        ensures
            2 * n == self.unread().len(),
    {
        (self.pending.len() - self.pending_pos) / CHANNELS
    }

    /// Whether a packet of the track `track_id` is decoded.
    pub fn wants(&self, track_id: u32) -> (b: bool)
        ensures
            b == (track_id == self.track_id),
    {
        track_id == self.track_id
    }

    /// Takes note that the next packet could not be had: at the end of the file no more is to
    /// come.
    pub fn packet_missing(&mut self, failure: CodecFailure) -> (r: Result<(), DecodeError>)
        ensures
            r is Ok <==> failure is UnexpectedEnd,
            r is Ok <==> ends_the_file(failure@),
            r matches Err(e) ==> e.reports(failure@),
            *final(self) == (NativeReader { eof: old(self).eof || r is Ok, ..*old(self) }),
    {
        match failure {
            CodecFailure::UnexpectedEnd(_) => {
                self.eof = true;
                Ok(())
            },
            other => Err(DecodeError::of_failure(other)),
        }
    }

    /// Whether to go on after a packet that could not be decoded: one that is unreadable or
    /// malformed is skipped.
    pub fn packet_undecodable(&self, failure: CodecFailure) -> (r: Result<(), DecodeError>)
        ensures
            r is Ok <==> failure is UnexpectedEnd || failure is Io || failure is Malformed,
            r is Ok <==> is_skipped(failure@),
            r matches Err(e) ==> e.reports(failure@),
    {
        match failure {
            CodecFailure::UnexpectedEnd(_) => Ok(()),
            CodecFailure::Io(_) => Ok(()),
            CodecFailure::Malformed(_) => Ok(()),
            other => Err(DecodeError::of_failure(other)),
        }
    }

    /// Takes a decoded packet, whose samples are interleaved, in place of what is pending, and
    /// returns whether it holds any frame. A packet without frames is skipped.
    pub fn packet_decoded<M: SampleMath>(
        &mut self,
        m: &M,
        frames: usize,
        channels: usize,
        samples: &[u32],
    ) -> (r: Result<bool, DecodeError>)
        requires
            math::is_pure(m),
            samples@.len() == frames * channels,
        ensures
            r matches Ok(filled) ==> filled == (frames != 0),
            r matches Err(e) ==> e == DecodeError::UnsupportedChannelCount(channels),
            r is Err <==> frames != 0 && channels != 1 && channels != 2,
            frames == 0 ==> *final(self) == *old(self),
            frames != 0 ==> {
                &&& final(self).wf()
                &&& final(self).track_id == old(self).track_id
                &&& final(self).eof == old(self).eof
                &&& final(self).unread() == if r is Ok {
                    as_stereo(m, channels, samples@)
                } else {
                    Seq::<u32>::empty()
                }
            },
    {
        if frames == 0 {
            return Ok(false);
        }
        self.pending.clear();
        self.pending_pos = 0;
        if channels == 1 {
            let n: usize = samples.len();
            let mut i: usize = 0;
            while i < n
                invariant
                    math::is_pure(m),
                    i <= n,
                    n == samples@.len(),
                    self.pending_pos == 0,
                    self.track_id == old(self).track_id,
                    self.eof == old(self).eof,
                    self.pending@.len() == 2 * i,
                    forall|j: int|
                        0 <= j < 2 * i ==> #[trigger] self.pending@[j] == math::product_of(
                            m,
                            samples@[j / 2],
                            EQUAL_POWER_GAIN,
                        ),
                decreases n - i,
            {
                let v: u32 = m.times(samples[i], EQUAL_POWER_GAIN);
                self.pending.push(v);
                self.pending.push(v);
                i += 1;
            }
            assert(self.unread() =~= as_stereo(m, channels, samples@));
            Ok(true)
        } else if channels == 2 {
            self.pending.extend_from_slice(samples);
            assert(self.unread() =~= samples@);
            Ok(true)
        } else {
            Err(DecodeError::UnsupportedChannelCount(channels))
        }
    }

    /// Copies pending frames to `out` behind the `written` frames that are there already, as far
    /// as they reach or fit, and returns how many frames are there now.
    pub fn read_available(&mut self, out: &mut [u32], written: usize) -> (total: usize)
        requires
            old(self).wf(),
            2 * written <= old(out)@.len(),
        ensures
            handed_out(
                old(self).unread(),
                final(self).unread(),
                old(out)@,
                final(out)@,
                written as int,
                total as int,
            ),
            final(self).wf(),
            final(self).track_id == old(self).track_id,
            final(self).eof == old(self).eof,
    {
        let take: usize = copy_frames(&self.pending, self.pending_pos, out, written);
        self.pending_pos = self.pending_pos + 2 * take;
        written + take
    }

    /// Drops up to `n` pending frames and says what is needed in order to drop all `n` of them:
    /// nothing once that is done or the file has no more packets, and otherwise the next packet,
    /// with how many frames are then still to be dropped.
    pub fn discard_step(&mut self, n: u64) -> (step: DiscardStep)
        requires
            old(self).wf(),
        ensures
            ({
                let take = resample::least(old(self).unread().len() / 2, n as nat) as int;
                &&& step == if take == n || old(self).eof {
                    DiscardStep::Done
                } else {
                    DiscardStep::Packet((n - take) as u64)
                }
                &&& final(self).unread() == old(self).unread().skip(2 * take)
            }),
            ({
                let (take, next) = discarded(old(self).unread().len() / 2, n as nat, old(self).eof);
                &&& step == next
                &&& final(self).unread() == old(self).unread().skip(2 * take as int)
            }),
            final(self).wf(),
            final(self).track_id == old(self).track_id,
            final(self).eof == old(self).eof,
    {
        let end: usize = self.pending.len();
        let available: u64 = ((end - self.pending_pos) / CHANNELS) as u64;
        let take: u64 = if available < n {
            available
        } else {
            n
        };
        let ghost before = self.unread();
        self.pending_pos = self.pending_pos + (take as usize) * CHANNELS;
        assert(self.unread() =~= before.skip(2 * take as int));
        if take == n || self.eof {
            DiscardStep::Done
        } else {
            DiscardStep::Packet(n - take)
        }
    }

    /// Starts anew after a seek to `frame` that landed at `landed`, and returns how many frames
    /// lie between the two.
    pub fn restart(&mut self, frame: u64, landed: u64) -> (discard: u64)
        ensures
            discard == frames_between(landed, frame),
            final(self).wf(),
            final(self).track_id == old(self).track_id,
            final(self).unread() == Seq::<u32>::empty(),
            !final(self).eof,
    {
        self.pending.clear();
        self.pending_pos = 0;
        self.eof = false;
        if landed <= frame {
            frame - landed
        } else {
            0
        }
    }
}

/// What came out of the file.
pub enum Fetched {
    /// A packet of the track.
    Packet(symphonia::core::formats::Packet),
    /// A packet of another track, which is skipped.
    Foreign,
    /// Nothing: the file has no more packets.
    End,
}

/// What a packet of the track `track_id` is to a reader of the track `wanted`.
pub open spec fn fetched_for(
    wanted: u32,
    track_id: u32,
    packet: symphonia::core::formats::Packet,
) -> Fetched {
    if track_id == wanted {
        Fetched::Packet(packet)
    } else {
        Fetched::Foreign
    }
}

/// What a decoder needs in order to go on with a read.
#[derive(Debug, Clone, Copy, PartialEq, Eq, Structural)]
pub enum ReadStep {
    /// The next packet of the track.
    Packet,
    /// The conversion of that many frames of the file, after which the file has more.
    Convert(usize),
    /// The conversion of that many frames of the file, which are its last.
    Flush(usize),
    /// Nothing: that many frames have been read.
    Done(usize),
}

/// A decoder of a music file in memory. The packets are decoded and the frames are converted to
/// the rate of the output outside; the decoder says when, and puts the frames together.
pub struct SymphoniaDecoder {
    /// The open file.
    pub container: symphonia::core::probe::ProbeResult,
    /// What is decoded at the rate of the file.
    pub native: NativeReader,
    /// Frames per second in the file.
    pub source_sample_rate: u32,
    /// Frames per second at the output.
    pub output_sample_rate: u32,
    /// The length at the rate of the output, if it is known.
    pub total_frames: Option<u64>,
    /// The buffers of the conversion, if the two rates differ.
    pub resampler: Option<StreamResampler>,
    /// Frames at the rate of the file that wait for the conversion.
    pub scratch: Vec<u32>,
    /// How many frames wait.
    pub scratch_frames: usize,
    /// Frames at the rate of the output.
    pub resampled_pending: Vec<u32>,
    /// How much of them has been handed out.
    pub resampled_pending_pos: usize,
    /// Whether the last frames of the file have been converted.
    pub resample_finished: bool,
    /// The position in the music, in frames at the rate of the output.
    pub position_frames: u64,
}

impl SymphoniaDecoder {
    /// Whether the file can be read on, whole frames are pending, and no more wait than the
    /// conversion takes.
    pub open spec fn wf(self) -> bool {
        &&& container::is_readable(bytes_of(self.container))
        &&& self.native.wf()
        &&& self.resampled_pending_pos <= self.resampled_pending@.len()
        &&& self.resampled_pending_pos % 2 == 0
        &&& self.resampled_pending@.len() % 2 == 0
        &&& self.resampler matches Some(r) ==> {
            &&& r.wf()
            &&& self.scratch@.len() == 2 * r.input_frames
            &&& self.scratch_frames <= r.input_frames
        }
    }

    /// What is converted and not yet handed out.
    pub open spec fn unread(self) -> Seq<u32> {
        self.resampled_pending@.skip(self.resampled_pending_pos as int)
    }

    /// What waits for the conversion.
    pub open spec fn waiting(self) -> Seq<u32> {
        self.scratch@.take(2 * self.scratch_frames as int)
    }

    /// A decoder at the start of the track that `plan` describes.
    pub open spec fn starts(self, plan: TrackPlan, output_sample_rate: u32) -> bool {
        &&& self.wf()
        &&& self.native.track_id == plan.track_id
        &&& self.native.unread() == Seq::<u32>::empty()
        &&& !self.native.eof
        &&& self.source_sample_rate == plan.source_sample_rate
        &&& self.output_sample_rate == output_sample_rate
        &&& self.total_frames == plan.total_frames
        &&& self.resampler is None
        &&& self.waiting() == Seq::<u32>::empty()
        &&& self.unread() == Seq::<u32>::empty()
        &&& !self.resample_finished
        &&& self.position_frames == 0
    }

    /// Whether `r` is what opening a file with `bytes` gives. A file with a header that stands in
    /// the way is not opened.
    pub open spec fn is_opened(
        r: Result<SymphoniaDecoder, DecodeError>,
        bytes: Seq<u8>,
        output_sample_rate: u32,
    ) -> bool {
        match container::obstacle_in(bytes) {
            Some(Obstacle::ZeroSampleRate) => r == Err::<SymphoniaDecoder, DecodeError>(
                DecodeError::InvalidSampleRate(0),
            ),
            Some(Obstacle::MalformedHeader) => r matches Err(DecodeError::Symphonia(msg)) && msg@
                == "malformed header"@,
            None => match container(bytes) {
                Err(failure) => r matches Err(e) && e.reports(failure),
                Ok(file) => match planned(tracks_of(file), output_sample_rate) {
                    Err(e) => r == Err::<SymphoniaDecoder, DecodeError>(e),
                    Ok((i, plan)) => SymphoniaDecoder::is_started(
                        r,
                        file,
                        plan,
                        refusals_of(file)[i],
                        output_sample_rate,
                    ),
                },
            },
        }
    }

    /// Whether `r` is what a track of an open file gives that is to be played as `plan` says and
    /// has a decoder unless there is a `refusal`.
    pub open spec fn is_started(
        r: Result<SymphoniaDecoder, DecodeError>,
        file: symphonia::core::probe::ProbeResult,
        plan: TrackPlan,
        refusal: Option<Failure>,
        output_sample_rate: u32,
    ) -> bool {
        match refusal {
            Some(failure) => r matches Err(e) && e.reports(failure),
            None => r matches Ok(d) && d.container == file && d.starts(plan, output_sample_rate),
        }
    }

    /// Opens a music file for an output with `output_sample_rate` frames per second.
    pub fn open(bytes: Vec<u8>, output_sample_rate: u32) -> (r: Result<
        SymphoniaDecoder,
        DecodeError,
    >)
        ensures
            SymphoniaDecoder::is_opened(r, bytes@, output_sample_rate),
    {
        SymphoniaDecoder::open_shared(Arc::new(bytes), output_sample_rate)
    }

    /// Opens a music file that is shared, without a copy of it.
    pub fn open_shared(bytes: Arc<Vec<u8>>, output_sample_rate: u32) -> (r: Result<
        SymphoniaDecoder,
        DecodeError,
    >)
        ensures
            SymphoniaDecoder::is_opened(r, bytes@, output_sample_rate),
    {
        match find_obstacle(bytes.as_slice()) {
            Some(Obstacle::ZeroSampleRate) => return Err(DecodeError::InvalidSampleRate(0)),
            Some(Obstacle::MalformedHeader) =>
                return Err(DecodeError::Symphonia("malformed header".to_owned())),
            None => {},
        }
        let file = match probe(bytes) {
            Ok(file) => file,
            Err(failure) => return Err(DecodeError::of_failure(failure)),
        };
        let tracks: Vec<TrackInfo> = list_tracks(&file);
        let (index, plan): (usize, TrackPlan) = match plan_tracks(&tracks, output_sample_rate) {
            Ok(found) => found,
            Err(e) => return Err(e),
        };
        let refusal: Option<CodecFailure> = find_refusal(&file, index);
        SymphoniaDecoder::start(file, plan, refusal, output_sample_rate)
    }

    /// The decoder of a track of an open file, which is played as `plan` says, unless there is a
    /// `refusal` to decode it.
    pub fn start(
        file: symphonia::core::probe::ProbeResult,
        plan: TrackPlan,
        refusal: Option<CodecFailure>,
        output_sample_rate: u32,
    ) -> (r: Result<SymphoniaDecoder, DecodeError>)
        requires
            container::is_readable(bytes_of(file)),
        ensures
            SymphoniaDecoder::is_started(
                r,
                file,
                plan,
                match refusal {
                    Some(failure) => Some(failure@),
                    None => None,
                },
                output_sample_rate,
            ),
    {
        match refusal {
            Some(failure) => Err(DecodeError::of_failure(failure)),
            None => {
                let d = SymphoniaDecoder {
                    container: file,
                    native: NativeReader::new(plan.track_id),
                    source_sample_rate: plan.source_sample_rate,
                    output_sample_rate,
                    total_frames: plan.total_frames,
                    resampler: None,
                    scratch: Vec::new(),
                    scratch_frames: 0,
                    resampled_pending: Vec::new(),
                    resampled_pending_pos: 0,
                    resample_finished: false,
                    position_frames: 0,
                };
                assert(d.waiting() =~= Seq::<u32>::empty());
                Ok(d)
            },
        }
    }

    /// Whether the frames of the file have to be converted to the rate of the output.
    pub fn needs_resampler(&self) -> (b: bool)
        ensures
            b == (self.source_sample_rate != self.output_sample_rate),
    {
        self.source_sample_rate != self.output_sample_rate
    }

    /// Takes the buffers of the conversion, if it could be set up.
    pub fn with_resampler(self, built: Result<StreamResampler, ResampleError>) -> (r: Result<
        SymphoniaDecoder,
        DecodeError,
    >)
        requires
            self.wf(),
            self.scratch_frames == 0,
            built matches Ok(resampler) ==> resampler.wf() && 2 * resampler.input_frames
                <= usize::MAX,
        ensures
            match built {
                Ok(resampler) => {
                    &&& r matches Ok(d)
                    &&& d == (SymphoniaDecoder {
                        resampler: Some(resampler),
                        scratch: d.scratch,
                        ..self
                    })
                    &&& d.wf()
                },
                Err(e) => r == Err::<SymphoniaDecoder, DecodeError>(DecodeError::Resample(e)),
            },
    {
        match built {
            Ok(resampler) => {
                let scratch: Vec<u32> = vec![SILENCE; 2 * resampler.input_frames];
                Ok(SymphoniaDecoder { resampler: Some(resampler), scratch, ..self })
            },
            Err(e) => Err(DecodeError::Resample(e)),
        }
    }

    /// The length at the rate of the output, if it is known.
    pub fn total_frames(&self) -> (total: Option<u64>)
        ensures
            total == self.total_frames,
    {
        self.total_frames
    }

    /// How many frames a read into a buffer of `capacity` samples is going to want: no more than
    /// fit, and none behind the end.
    pub open spec fn wanted(self, capacity: nat) -> nat {
        match self.total_frames {
            Some(total) => resample::least(
                capacity / 2,
                (if total > self.position_frames {
                    total - self.position_frames
                } else {
                    0
                }) as nat,
            ),
            None => capacity / 2,
        }
    }

    /// How many frames a read into a buffer of `capacity` samples is going to want.
    pub fn begin_read(&self, capacity: usize) -> (want: usize)
        ensures
            want == self.wanted(capacity as nat),
    {
        let want: usize = capacity / CHANNELS;
        match self.total_frames {
            Some(total) => {
                let remaining: u64 = if total > self.position_frames {
                    total - self.position_frames
                } else {
                    0
                };
                if remaining < want as u64 {
                    remaining as usize
                } else {
                    want
                }
            },
            None => want,
        }
    }

    /// Whether gathering frames for the conversion leads to `next`, and `step` is then needed.
    pub open spec fn gathers(self, next: SymphoniaDecoder, step: ReadStep) -> bool {
        let need = self.resampler->Some_0.input_frames;
        let take = resample::least(
            self.native.unread().len() / 2,
            (need - self.scratch_frames) as nat,
        ) as int;
        let frames = self.scratch_frames + take;
        &&& next == (SymphoniaDecoder {
            native: next.native,
            resampler: next.resampler,
            scratch: next.scratch,
            scratch_frames: frames as usize,
            resampled_pending: next.resampled_pending,
            resampled_pending_pos: 0,
            ..self
        })
        &&& next.unread() == self.unread()
        &&& next.native.unread() == self.native.unread().skip(2 * take)
        &&& next.native.track_id == self.native.track_id
        &&& next.native.eof == self.native.eof
        &&& next.waiting() == self.waiting() + self.native.unread().take(2 * take)
        &&& step == if frames == need {
            ReadStep::Convert(need)
        } else if self.native.eof {
            ReadStep::Flush(frames as usize)
        } else {
            ReadStep::Packet
        }
        &&& next.resampler matches Some(r)
        &&& if step is Packet {
            next.resampler == self.resampler
        } else {
            self.resampler->Some_0.is_loaded(r, next.waiting(), frames)
        }
    }

    /// Whether a step of a read leads to `next`; see [`SymphoniaDecoder::read_step`].
    pub open spec fn steps_to(
        self,
        next: SymphoniaDecoder,
        out: Seq<u32>,
        filled: Seq<u32>,
        written: int,
        r: (ReadStep, usize),
    ) -> bool {
        let total = r.1;
        if self.resampler is None {
            &&& handed_out(
                self.native.unread(),
                next.native.unread(),
                out,
                filled,
                written,
                total as int,
            )
            &&& next == (SymphoniaDecoder { native: next.native, ..self })
            &&& next.native.track_id == self.native.track_id
            &&& next.native.eof == self.native.eof
            &&& r.0 == if total == out.len() / 2 || self.native.eof {
                ReadStep::Done(total)
            } else {
                ReadStep::Packet
            }
        } else {
            exists|middle: SymphoniaDecoder|
                {
                    &&& middle == (SymphoniaDecoder {
                        resampled_pending_pos: middle.resampled_pending_pos,
                        ..self
                    })
                    &&& handed_out(
                        self.unread(),
                        #[trigger] middle.unread(),
                        out,
                        filled,
                        written,
                        total as int,
                    )
                    &&& if total == out.len() / 2 || self.resample_finished {
                        r.0 == ReadStep::Done(total) && next == middle
                    } else {
                        middle.gathers(next, r.0)
                    }
                }
        }
    }

    /// Gathers frames of the file for the conversion, and says what is needed next.
    fn gather(&mut self) -> (step: ReadStep)
        requires
            old(self).wf(),
            old(self).resampler is Some,
        ensures
            final(self).wf(),
            old(self).gathers(*final(self), step),
    {
        let ghost start = *self;
        let rest: Vec<u32> = self.resampled_pending.split_off(self.resampled_pending_pos);
        self.resampled_pending = rest;
        self.resampled_pending_pos = 0;
        assert(self.unread() =~= start.unread());
        self.scratch_frames = self.native.read_available(
            self.scratch.as_mut_slice(),
            self.scratch_frames,
        );
        assert(self.waiting() =~= start.waiting() + start.native.unread().take(
            2 * (self.scratch_frames - start.scratch_frames),
        ));
        let frames: usize = self.scratch_frames;
        let room: usize = self.scratch.len();
        assert(2 * frames <= room);
        let eof: bool = self.native.eof;
        let waiting: &[u32] = slice_subrange(self.scratch.as_slice(), 0, 2 * frames);
        assert(waiting@ =~= self.waiting());
        match &mut self.resampler {
            Some(resampler) => {
                let need: usize = resampler.input_frames;
                if frames == need {
                    resampler.load(waiting);
                    ReadStep::Convert(need)
                } else if eof {
                    resampler.load(waiting);
                    ReadStep::Flush(frames)
                } else {
                    ReadStep::Packet
                }
            },
            None => ReadStep::Packet,
        }
    }

    /// Goes on with a read into `out`, of which `written` frames have been read, and says what is
    /// needed next and how many frames have been read. Frames that have to be converted are put
    /// into the planes of the conversion first.
    pub fn read_step(&mut self, out: &mut [u32], written: usize) -> (r: (ReadStep, usize))
        requires
            old(self).wf(),
            2 * written <= old(out)@.len(),
        ensures
            final(self).wf(),
            final(out)@.len() == old(out)@.len(),
            2 * r.1 <= final(out)@.len(),
            old(self).steps_to(*final(self), old(out)@, final(out)@, written as int, r),
    {
        if self.resampler.is_none() {
            let total: usize = self.native.read_available(out, written);
            if total == out.len() / CHANNELS || self.native.eof {
                return (ReadStep::Done(total), total);
            }
            return (ReadStep::Packet, total);
        }
        let take: usize = copy_frames(
            &self.resampled_pending,
            self.resampled_pending_pos,
            out,
            written,
        );
        let total: usize = written + take;
        self.resampled_pending_pos = self.resampled_pending_pos + 2 * take;
        let ghost middle = *self;
        assert(handed_out(
            old(self).unread(),
            middle.unread(),
            old(out)@,
            out@,
            written as int,
            total as int,
        ));
        if total == out.len() / CHANNELS || self.resample_finished {
            return (ReadStep::Done(total), total);
        }
        let step: ReadStep = self.gather();
        (step, total)
    }

    /// Whether the frames that wait are given up, and nothing else changes but the reader.
    pub open spec fn gave_up(self, next: SymphoniaDecoder) -> bool {
        next == (SymphoniaDecoder { native: next.native, scratch_frames: 0, ..self })
    }

    /// Takes the next packet out of the file. At the end of the file no more is to come, which is
    /// no error; if the file cannot be read on the read fails, and the frames that wait are given
    /// up.
    pub fn fetch_packet(&mut self) -> (r: Result<Fetched, DecodeError>)
        requires
            old(self).wf(),
        ensures
            final(self).wf(),
            packet_after(old(self).container) matches Ok(taken) ==> r == Ok::<Fetched, DecodeError>(
                fetched_for(old(self).native.track_id, taken.0, taken.1),
            ),
            match packet_after(old(self).container) {
                Ok((track_id, packet)) => {
                    &&& r == Ok::<Fetched, DecodeError>(
                        if track_id == old(self).native.track_id {
                            Fetched::Packet(packet)
                        } else {
                            Fetched::Foreign
                        },
                    )
                    &&& *final(self) == (SymphoniaDecoder {
                        container: file_behind_packet(old(self).container),
                        ..*old(self)
                    })
                },
                Err(Failure::UnexpectedEnd(_)) => {
                    &&& r == Ok::<Fetched, DecodeError>(Fetched::End)
                    &&& *final(self) == (SymphoniaDecoder {
                        container: file_behind_packet(old(self).container),
                        native: NativeReader { eof: true, ..old(self).native },
                        ..*old(self)
                    })
                },
                Err(failure) => {
                    &&& r matches Err(e)
                    &&& e.reports(failure)
                    &&& *final(self) == (SymphoniaDecoder {
                        container: file_behind_packet(old(self).container),
                        scratch_frames: 0,
                        ..*old(self)
                    })
                },
            },
    {
        match take_packet(&mut self.container) {
            Ok((track_id, packet)) => if self.native.wants(track_id) {
                Ok(Fetched::Packet(packet))
            } else {
                Ok(Fetched::Foreign)
            },
            Err(failure) => match self.packet_missing(failure) {
                Ok(()) => Ok(Fetched::End),
                Err(e) => Err(e),
            },
        }
    }

    /// Takes note that the next packet could not be had. At the end of the file that is no error;
    /// otherwise the read fails, and the frames that wait are given up.
    pub fn packet_missing(&mut self, failure: CodecFailure) -> (r: Result<(), DecodeError>)
        requires
            old(self).wf(),
        ensures
            final(self).wf(),
            r is Ok <==> failure is UnexpectedEnd,
            r is Ok <==> ends_the_file(failure@),
            r matches Err(e) ==> e.reports(failure@) && old(self).gave_up(*final(self))
                && final(self).native == old(self).native,
            r is Ok ==> *final(self) == (SymphoniaDecoder {
                native: NativeReader { eof: true, ..old(self).native },
                ..*old(self)
            }),
    {
        let r = self.native.packet_missing(failure);
        if r.is_err() {
            self.scratch_frames = 0;
        }
        r
    }

    /// Takes note that a packet could not be decoded. One that is unreadable or malformed is
    /// skipped; otherwise the read fails, and the frames that wait are given up.
    pub fn packet_undecodable(&mut self, failure: CodecFailure) -> (r: Result<(), DecodeError>)
        requires
            old(self).wf(),
        ensures
            final(self).wf(),
            r is Ok <==> failure is UnexpectedEnd || failure is Io || failure is Malformed,
            r is Ok <==> is_skipped(failure@),
            r matches Err(e) ==> e.reports(failure@) && old(self).gave_up(*final(self))
                && final(self).native == old(self).native,
            r is Ok ==> *final(self) == *old(self),
    {
        let r = self.native.packet_undecodable(failure);
        if r.is_err() {
            self.scratch_frames = 0;
        }
        r
    }

    /// Takes a decoded packet in place of what is pending, and returns whether it holds any
    /// frame. With another number of channels than one or two the read fails, and the frames that
    /// wait are given up.
    pub fn packet_decoded<M: SampleMath>(
        &mut self,
        m: &M,
        frames: usize,
        channels: usize,
        samples: &[u32],
    ) -> (r: Result<bool, DecodeError>)
        requires
            math::is_pure(m),
            old(self).wf(),
            samples@.len() == frames * channels,
        ensures
            final(self).wf(),
            r matches Ok(filled) ==> filled == (frames != 0),
            r matches Err(e) ==> e == DecodeError::UnsupportedChannelCount(channels),
            r is Err <==> frames != 0 && channels != 1 && channels != 2,
            frames == 0 ==> *final(self) == *old(self),
            r is Ok ==> *final(self) == (SymphoniaDecoder {
                native: final(self).native,
                ..*old(self)
            }),
            r is Err ==> old(self).gave_up(*final(self)),
            frames != 0 ==> {
                &&& final(self).native.track_id == old(self).native.track_id
                &&& final(self).native.eof == old(self).native.eof
                &&& final(self).native.unread() == if r is Ok {
                    as_stereo(m, channels, samples@)
                } else {
                    Seq::<u32>::empty()
                }
            },
    {
        let r = self.native.packet_decoded(m, frames, channels, samples);
        if r.is_err() {
            self.scratch_frames = 0;
        }
        r
    }

    /// Whether taking `n_out` frames from the planes of the conversion leads to `next`.
    pub open spec fn takes_converted(
        self,
        next: SymphoniaDecoder,
        planar: Seq<Vec<u32>>,
        n_out: nat,
        last: bool,
    ) -> bool {
        let before = self.resampler->Some_0;
        let skip = resample::least(before.delay_to_skip as nat, n_out);
        &&& next == (SymphoniaDecoder {
            resampler: Some(
                StreamResampler { delay_to_skip: (before.delay_to_skip - skip) as usize, ..before },
            ),
            scratch_frames: 0,
            resampled_pending: next.resampled_pending,
            resample_finished: self.resample_finished || last,
            ..self
        })
        &&& next.unread() == self.unread() + resample::interleaved(
            planar,
            skip as int,
            n_out as int,
        )
    }

    /// Whether the end of a seek to `frame` leads to `next`.
    pub open spec fn is_moved_to(self, next: SymphoniaDecoder, frame: u64) -> bool {
        &&& next == (SymphoniaDecoder {
            resampler: match self.resampler {
                Some(r) => Some(StreamResampler { delay_to_skip: r.output_delay, ..r }),
                None => None,
            },
            scratch_frames: 0,
            resampled_pending: next.resampled_pending,
            resampled_pending_pos: 0,
            resample_finished: false,
            position_frames: frame,
            ..self
        })
        &&& next.unread() == Seq::<u32>::empty()
    }

    /// Takes `n_out` frames that the conversion of the frames that waited has given, in one plane
    /// per channel. With `last` they were the last frames of the file.
    pub fn converted(&mut self, planar: &Vec<Vec<u32>>, n_out: usize, last: bool)
        requires
            old(self).wf(),
            old(self).resampler is Some,
            resample::planes_fit(planar@, n_out as int),
        ensures
            final(self).wf(),
            old(self).takes_converted(*final(self), planar@, n_out as nat, last),
            ({
                let before = old(self).resampler->Some_0;
                let skip = resample::least(before.delay_to_skip as nat, n_out as nat);
                &&& *final(self) == (SymphoniaDecoder {
                    resampler: Some(
                        StreamResampler {
                            delay_to_skip: (before.delay_to_skip - skip) as usize,
                            ..before
                        },
                    ),
                    scratch_frames: 0,
                    resampled_pending: final(self).resampled_pending,
                    resample_finished: old(self).resample_finished || last,
                    ..*old(self)
                })
                &&& final(self).unread() == old(self).unread() + resample::interleaved(
                    planar@,
                    skip as int,
                    n_out as int,
                )
            }),
    {
        let ghost start = *self;
        match &mut self.resampler {
            Some(resampler) => resampler.take(planar, n_out, &mut self.resampled_pending),
            None => {},
        }
        self.scratch_frames = 0;
        if last {
            self.resample_finished = true;
        }
        proof {
            let skip = resample::least(start.resampler->Some_0.delay_to_skip as nat, n_out as nat);
            assert(self.unread() =~= start.unread() + resample::interleaved(
                planar@,
                skip as int,
                n_out as int,
            ));
        }
    }

    /// Takes note that the conversion failed: the frames that waited are given up.
    pub fn conversion_failed(&mut self, err: ResampleError) -> (e: DecodeError)
        requires
            old(self).wf(),
        ensures
            final(self).wf(),
            e == DecodeError::Resample(err),
            *final(self) == (SymphoniaDecoder { scratch_frames: 0, ..*old(self) }),
    {
        self.scratch_frames = 0;
        DecodeError::Resample(err)
    }

    /// Moves the position behind the `n` frames of a read.
    pub fn finish_read(&mut self, n: usize)
        requires
            old(self).position_frames + n <= u64::MAX,
        ensures
            *final(self) == (SymphoniaDecoder {
                position_frames: (old(self).position_frames + n) as u64,
                ..*old(self)
            }),
    {
        self.position_frames = self.position_frames + n as u64;
    }

    /// The frame of the file that corresponds to `frame` at the rate of the output (modulo
    /// `2^64`).
    pub open spec fn frame_in_file(self, frame: u64) -> u64 {
        (resample::converted(
            frame as nat,
            self.output_sample_rate as nat,
            self.source_sample_rate as nat,
        ) as int % 0x1_0000_0000_0000_0000) as u64
    }

    /// Whether the start of a seek to `frame` leads to `next` and gives `r`.
    pub open spec fn seeks_to(
        self,
        next: SymphoniaDecoder,
        frame: u64,
        r: Result<u64, DecodeError>,
    ) -> bool {
        let target = self.frame_in_file(frame);
        let asked = asked_for(target);
        &&& next == (SymphoniaDecoder {
            container: file_behind_seek(self.container, asked, self.native.track_id),
            native: next.native,
            ..self
        })
        &&& match landing_after(self.container, asked, self.native.track_id) {
            Ok(landed) => {
                &&& r == Ok::<u64, DecodeError>(frames_between(landed, target))
                &&& next.native.track_id == self.native.track_id
                &&& next.native.unread() == Seq::<u32>::empty()
                &&& !next.native.eof
            },
            Err(failure) => {
                &&& r matches Err(e)
                &&& e.reports(failure)
                &&& next.native == self.native
            },
        }
    }

    /// Starts a seek to `frame`: moves the file there, forgets what was decoded, and returns how
    /// many frames lie between where the file landed and where it should be. If the file cannot be
    /// moved, nothing else changes. A file is not asked for a frame behind [`LAST_FRAME`], which
    /// none has.
    pub fn begin_seek(&mut self, frame: u64) -> (r: Result<u64, DecodeError>)
        requires
            old(self).wf(),
            old(self).output_sample_rate != 0,
        ensures
            final(self).wf(),
            old(self).seeks_to(*final(self), frame, r),
            *final(self) == (SymphoniaDecoder {
                container: file_behind_seek(
                    old(self).container,
                    asked_for(old(self).frame_in_file(frame)),
                    old(self).native.track_id,
                ),
                native: final(self).native,
                ..*old(self)
            }),
            ({
                let target = old(self).frame_in_file(frame);
                match landing_after(
                    old(self).container,
                    asked_for(target),
                    old(self).native.track_id,
                ) {
                    Ok(landed) => {
                        &&& r == Ok::<u64, DecodeError>(frames_between(landed, target))
                        &&& final(self).native.track_id == old(self).native.track_id
                        &&& final(self).native.unread() == Seq::<u32>::empty()
                        &&& !final(self).native.eof
                    },
                    Err(failure) => {
                        &&& r matches Err(e)
                        &&& e.reports(failure)
                        &&& final(self).native == old(self).native
                    },
                }
            }),
    {
        let target: u64 = convert_frame_count(
            frame,
            self.output_sample_rate,
            self.source_sample_rate,
        );
        let asked: u64 = if target < LAST_FRAME {
            target
        } else {
            LAST_FRAME
        };
        match seek_file(&mut self.container, asked, self.native.track_id) {
            Ok(landed) => Ok(self.native.restart(target, landed)),
            Err(failure) => Err(DecodeError::of_failure(failure)),
        }
    }

    /// Ends a seek to `frame`, after which the file is read from there: nothing that was converted
    /// before is handed out any more.
    pub fn end_seek(&mut self, frame: u64)
        requires
            old(self).wf(),
        ensures
            final(self).wf(),
            old(self).is_moved_to(*final(self), frame),
            *final(self) == (SymphoniaDecoder {
                resampler: match old(self).resampler {
                    Some(r) => Some(StreamResampler { delay_to_skip: r.output_delay, ..r }),
                    None => None,
                },
                scratch_frames: 0,
                resampled_pending: final(self).resampled_pending,
                resampled_pending_pos: 0,
                resample_finished: false,
                position_frames: frame,
                ..*old(self)
            }),
            final(self).unread() == Seq::<u32>::empty(),
    {
        self.resampled_pending.clear();
        self.resampled_pending_pos = 0;
        self.resample_finished = false;
        self.scratch_frames = 0;
        match &mut self.resampler {
            Some(resampler) => resampler.reset(),
            None => {},
        }
        self.position_frames = frame;
        assert(self.unread() =~= Seq::<u32>::empty());
    }
}

/// A read never goes behind the end of the music: where its length is known and the position is
/// not behind it, the position after a read of as many frames as are wanted is not either.
pub proof fn law_reads_end_with_the_music(
    decoder: SymphoniaDecoder,
    total: u64,
    capacity: nat,
    read: nat,
)
    requires
        decoder.total_frames == Some(total),
        decoder.position_frames <= total,
        read <= decoder.wanted(capacity),
    ensures
        decoder.position_frames + read <= total,
        decoder.position_frames == total ==> decoder.wanted(capacity) == 0,
{
}

/// Frames come out in the order in which they were decoded: handing frames out twice, to two
/// buffers, gives the frames in one piece.
pub proof fn law_frames_keep_their_order(
    before: Seq<u32>,
    between: Seq<u32>,
    after: Seq<u32>,
    first: Seq<u32>,
    first_filled: Seq<u32>,
    first_total: int,
    second: Seq<u32>,
    second_filled: Seq<u32>,
    second_total: int,
)
    requires
        before.len() % 2 == 0,
        handed_out(before, between, first, first_filled, 0, first_total),
        handed_out(between, after, second, second_filled, 0, second_total),
    ensures
        first_filled.take(2 * first_total) + second_filled.take(2 * second_total) + after
            == before,
{
    assert(first_filled.take(2 * first_total) =~= before.take(2 * first_total));
    assert(second_filled.take(2 * second_total) =~= between.take(2 * second_total));
    assert(before.take(2 * first_total) + between.take(2 * second_total) + after =~= before);
}

/// After a seek that landed early the frames in between are dropped exactly, though they may
/// spread over packets: dropping `n` frames of one packet, and what is left to drop of the next,
/// drops `n` frames of the two in one piece.
pub proof fn law_discarding_crosses_packets(first: Seq<u32>, second: Seq<u32>, n: nat)
    requires
        first.len() % 2 == 0,
        second.len() % 2 == 0,
    ensures
        ({
            let taken = resample::least(first.len() / 2, n);
            let left = (n - taken) as nat;
            let taken_next = resample::least(second.len() / 2, left);
            let both = first + second;
            first.skip(2 * taken as int) + second.skip(2 * taken_next as int) == both.skip(
                2 * resample::least(both.len() / 2, n) as int,
            )
        }),
{
    let taken = resample::least(first.len() / 2, n);
    let taken_next = resample::least(second.len() / 2, (n - taken) as nat);
    let both = first + second;
    assert(first.skip(2 * taken as int) + second.skip(2 * taken_next as int) =~= both.skip(
        2 * resample::least(both.len() / 2, n) as int,
    ));
}

/// Frames are handed out as far as they reach or fit, and no further: as many as are there or as
/// there is room for, whichever is less. They go behind what counts already, in their order, and
/// the rest of the buffer is left alone.
pub proof fn law_frames_are_handed_out_in_place(
    before: Seq<u32>,
    after: Seq<u32>,
    out: Seq<u32>,
    filled: Seq<u32>,
    written: int,
    total: int,
    i: int,
)
    requires
        before.len() % 2 == 0,
        0 <= 2 * written <= out.len(),
        handed_out(before, after, out, filled, written, total),
        0 <= i < out.len(),
    ensures
        filled.len() == out.len(),
        written <= total <= out.len() / 2,
        total == out.len() / 2 || after.len() == 0,
        after.len() + 2 * (total - written) == before.len(),
        filled[i] == if 2 * written <= i < 2 * total {
            before[i - 2 * written]
        } else {
            out[i]
        },
{
}

/// A mono packet gives each of its samples to both channels, at equal power; a stereo packet is
/// taken as it is.
pub proof fn law_packets_become_stereo<M: SampleMath>(m: &M, samples: Seq<u32>, i: int)
    requires
        0 <= i < samples.len(),
    ensures
        as_stereo(m, 1, samples).len() == 2 * samples.len(),
        as_stereo(m, 1, samples)[2 * i] == math::product_of(m, samples[i], EQUAL_POWER_GAIN),
        as_stereo(m, 1, samples)[2 * i + 1] == as_stereo(m, 1, samples)[2 * i],
        as_stereo(m, 2, samples) == samples,
{
}

/// The track that is played is the first one whose coding is known and can be decoded.
pub proof fn law_the_first_playable_track_is_played(tracks: Seq<TrackInfo>, output_rate: u32)
    ensures
        ({
            let i = first_playable(tracks, 0);
            &&& 0 <= i <= tracks.len()
            &&& forall|k: int|
                0 <= k < i ==> (#[trigger] tracks[k]).codec_is_null
                    || !tracks[k].codec_is_registered
            &&& i < tracks.len() ==> !tracks[i].codec_is_null && tracks[i].codec_is_registered
            &&& i == tracks.len() ==> planned(tracks, output_rate) == Err::<
                (int, TrackPlan),
                DecodeError,
            >(DecodeError::NoAudioTrack)
            &&& planned(tracks, output_rate) matches Ok(found) ==> found.0 == i && i < tracks.len()
                && plan_of(tracks[i], output_rate) == Ok::<TrackPlan, DecodeError>(found.1)
            &&& i < tracks.len() ==> (planned(tracks, output_rate) is Ok <==> plan_of(
                tracks[i],
                output_rate,
            ) is Ok)
        }),
{
    lemma_first_playable(tracks, 0);
}

proof fn lemma_first_playable(tracks: Seq<TrackInfo>, from: int)
    requires
        0 <= from <= tracks.len(),
    ensures
        from <= first_playable(tracks, from) <= tracks.len(),
        forall|k: int|
            from <= k < first_playable(tracks, from) ==> (#[trigger] tracks[k]).codec_is_null
                || !tracks[k].codec_is_registered,
        first_playable(tracks, from) < tracks.len() ==> !tracks[first_playable(
            tracks,
            from,
        )].codec_is_null && tracks[first_playable(tracks, from)].codec_is_registered,
    decreases tracks.len() - from,
{
    if from < tracks.len() && !tracks[from].is_playable() {
        lemma_first_playable(tracks, from + 1);
    }
}

/// A track can be played exactly if the file says its rate, which is not zero, and that it has one
/// channel or two. It is then played at its own rate, and its length is that of the file, counted
/// at the rate of the output, to the nearest frame.
pub proof fn law_tracks_are_played_as_the_file_says(t: TrackInfo, output_rate: u32)
    ensures
        plan_of(t, output_rate) is Ok <==> {
            &&& t.sample_rate matches Some(rate)
            &&& rate > 0
            &&& t.channels == Some(1usize) || t.channels == Some(2usize)
        },
        plan_of(t, output_rate) matches Ok(plan) ==> {
            &&& plan.track_id == t.id
            &&& t.sample_rate == Some(plan.source_sample_rate)
            &&& plan.total_frames is Some == t.n_frames is Some
            &&& t.n_frames matches Some(n) ==> plan.source_sample_rate == output_rate
                ==> plan.total_frames == Some(n)
            &&& t.n_frames matches Some(n) ==> n * output_rate < 0x8000_0000_0000_0000
                * plan.source_sample_rate ==> {
                let length = plan.total_frames->0;
                let rate = plan.source_sample_rate;
                &&& 2 * length * rate <= 2 * n * output_rate + rate
                &&& 2 * n * output_rate <= 2 * length * rate + rate
            }
        },
        t.sample_rate is None ==> plan_of(t, output_rate) == Err::<TrackPlan, DecodeError>(
            DecodeError::NoAudioTrack,
        ),
        t.sample_rate == Some(0u32) ==> plan_of(t, output_rate) == Err::<TrackPlan, DecodeError>(
            DecodeError::InvalidSampleRate(0),
        ),
        t.sample_rate matches Some(rate) ==> rate > 0 && t.channels is None ==> plan_of(
            t,
            output_rate,
        ) == Err::<TrackPlan, DecodeError>(DecodeError::NoAudioTrack),
        t.sample_rate matches Some(rate) ==> t.channels matches Some(n) ==> rate > 0 && n != 1 && n
            != 2 ==> plan_of(t, output_rate) == Err::<TrackPlan, DecodeError>(
            DecodeError::UnsupportedChannelCount(n),
        ),
{
    if let (Some(rate), Some(n)) = (t.sample_rate, t.n_frames) {
        if rate > 0 && n * output_rate < 0x8000_0000_0000_0000 * rate {
            resample::law_conversion_rounds_to_nearest(
                n as nat,
                rate as nat,
                output_rate as nat,
            );
            let c = resample::converted(n as nat, rate as nat, output_rate as nat);
            assert(c < 0x1_0000_0000_0000_0000) by (nonlinear_arith)
                requires
                    2 * c * rate <= 2 * n * output_rate + rate,
                    n * output_rate < 0x8000_0000_0000_0000 * rate,
                    rate > 0,
            ;
        }
    }
}

/// After a seek as many frames are dropped as lead from where it landed to where it should have;
/// none if it did not land before that.
pub proof fn law_seeks_drop_what_lies_between(landed: u64, frame: u64)
    ensures
        landed <= frame ==> landed + frames_between(landed, frame) == frame,
        frame <= landed ==> frames_between(landed, frame) == 0,
        asked_for(frame) <= frame,
        frame <= LAST_FRAME ==> asked_for(frame) == frame,
        frame >= LAST_FRAME ==> asked_for(frame) == LAST_FRAME,
{
}

/// A read wants as many frames as fit, or as are left of the music if that is less; where the
/// length is not known it wants as many as fit.
pub proof fn law_reads_want_what_fits_and_is_left(decoder: SymphoniaDecoder, capacity: nat)
    ensures
        decoder.wanted(capacity) <= capacity / 2,
        decoder.total_frames is None ==> decoder.wanted(capacity) == capacity / 2,
        decoder.total_frames matches Some(total) ==> {
            &&& total <= decoder.position_frames ==> decoder.wanted(capacity) == 0
            &&& decoder.position_frames < total ==> decoder.position_frames + decoder.wanted(
                capacity,
            ) == total || decoder.wanted(capacity) == capacity / 2
        },
{
}

/// Gathering frames for the conversion loses none and changes no order: what waits and what is
/// decoded are the same frames in one piece before and after. No more wait than the conversion
/// takes at once. It is done when that many wait, or all that are left of the file; until then a
/// packet is needed.
pub proof fn law_gathering_keeps_the_frames(
    before: SymphoniaDecoder,
    after: SymphoniaDecoder,
    step: ReadStep,
)
    requires
        before.wf(),
        before.resampler is Some,
        before.gathers(after, step),
    ensures
        after.waiting() + after.native.unread() == before.waiting() + before.native.unread(),
        after.unread() == before.unread(),
        after.scratch_frames <= before.resampler->0.input_frames,
        after.scratch_frames == before.resampler->0.input_frames || after.native.unread().len()
            == 0,
        step == ReadStep::Convert(before.resampler->0.input_frames) <==> after.scratch_frames
            == before.resampler->0.input_frames,
        step is Flush <==> after.scratch_frames < before.resampler->0.input_frames
            && before.native.eof,
        step matches ReadStep::Flush(n) ==> n == after.scratch_frames,
        step is Packet <==> after.scratch_frames < before.resampler->0.input_frames
            && !before.native.eof,
        !(step is Done),
        after.position_frames == before.position_frames,
        after.container == before.container,
        after.resample_finished == before.resample_finished,
{
    let take = after.scratch_frames - before.scratch_frames;
    assert(before.waiting() + before.native.unread().take(2 * take) + before.native.unread().skip(
        2 * take,
    ) =~= before.waiting() + before.native.unread());
}

/// A step of a read without a conversion takes decoded frames as they are, and is done when the
/// buffer is full or the file has no more. With a conversion it takes converted frames, and is done
/// when the buffer is full or the last frames have been converted; otherwise frames are gathered.
pub proof fn law_reads_end_with_the_buffer_or_the_file(
    before: SymphoniaDecoder,
    after: SymphoniaDecoder,
    out: Seq<u32>,
    filled: Seq<u32>,
    written: int,
    r: (ReadStep, usize),
)
    requires
        before.wf(),
        0 <= 2 * written <= out.len(),
        before.steps_to(after, out, filled, written, r),
    ensures
        filled.len() == out.len(),
        written <= r.1 <= out.len() / 2,
        filled.take(2 * written) == out.take(2 * written),
        filled.skip(2 * r.1 as int) == out.skip(2 * r.1 as int),
        r.0 matches ReadStep::Done(n) ==> n == r.1,
        before.resampler is None ==> {
            &&& filled.subrange(2 * written, 2 * r.1 as int) + after.native.unread()
                == before.native.unread()
            &&& r.0 is Done <==> r.1 == out.len() / 2 || before.native.eof
            &&& r.0 is Done || r.0 is Packet
        },
        before.resampler is Some ==> {
            &&& filled.subrange(2 * written, 2 * r.1 as int) + after.unread() == before.unread()
            &&& r.0 is Done <==> r.1 == out.len() / 2 || before.resample_finished
        },
        after.position_frames == before.position_frames,
{
    let source = if before.resampler is None {
        before.native.unread()
    } else {
        before.unread()
    };
    let n = 2 * (r.1 - written);
    if before.resampler is None {
        assert(after.native.unread() == source.skip(n));
    } else {
        let middle = choose|middle: SymphoniaDecoder|
            {
                &&& middle == (SymphoniaDecoder {
                    resampled_pending_pos: middle.resampled_pending_pos,
                    ..before
                })
                &&& handed_out(
                    before.unread(),
                    #[trigger] middle.unread(),
                    out,
                    filled,
                    written,
                    r.1 as int,
                )
                &&& if r.1 == out.len() / 2 || before.resample_finished {
                    r.0 == ReadStep::Done(r.1) && after == middle
                } else {
                    middle.gathers(after, r.0)
                }
            };
        assert(after.unread() == source.skip(n));
    }
    assert(filled == out.take(2 * written) + source.take(n) + out.skip(2 * r.1 as int));
    assert(filled.subrange(2 * written, 2 * r.1 as int) =~= source.take(n));
    assert(source.take(n) + source.skip(n) =~= source);
    assert(filled.take(2 * written) =~= out.take(2 * written));
    assert(filled.skip(2 * r.1 as int) =~= out.skip(2 * r.1 as int));
}

/// A frame of the output is looked for in the file where the music is then: between equal rates at
/// the same frame, and otherwise at the nearest one.
pub proof fn law_frames_are_found_at_their_time(decoder: SymphoniaDecoder, frame: u64)
    requires
        decoder.output_sample_rate > 0,
    ensures
        decoder.source_sample_rate == decoder.output_sample_rate ==> decoder.frame_in_file(frame)
            == frame,
        frame * decoder.source_sample_rate < 0x8000_0000_0000_0000 * decoder.output_sample_rate
            ==> {
            let found = decoder.frame_in_file(frame);
            let rate = decoder.output_sample_rate;
            &&& 2 * found * rate <= 2 * frame * decoder.source_sample_rate + rate
            &&& 2 * frame * decoder.source_sample_rate <= 2 * found * rate + rate
        },
{
    let rate = decoder.output_sample_rate;
    let other = decoder.source_sample_rate;
    resample::law_conversion_rounds_to_nearest(frame as nat, rate as nat, other as nat);
    if frame * other < 0x8000_0000_0000_0000 * rate {
        let c = resample::converted(frame as nat, rate as nat, other as nat);
        assert(c < 0x1_0000_0000_0000_0000) by (nonlinear_arith)
            requires
                2 * c * rate <= 2 * frame * other + rate,
                frame * other < 0x8000_0000_0000_0000 * rate,
                rate > 0,
        ;
    }
}

/// A failure is told of in its own words, except that the need for a new decoder is an error of its
/// own; no other failure is taken for that.
pub proof fn law_failures_are_told_apart(e: DecodeError, failure: Failure)
    requires
        e.reports(failure),
    ensures
        e is ResetRequired <==> failure is ResetRequired,
        e is Symphonia <==> !(failure is ResetRequired),
        failure matches Failure::UnexpectedEnd(text) ==> e->Symphonia_0@ == text,
        failure matches Failure::Io(text) ==> e->Symphonia_0@ == text,
        failure matches Failure::Malformed(text) ==> e->Symphonia_0@ == text,
        failure matches Failure::Other(text) ==> e->Symphonia_0@ == text,
{
}

/// A file is opened exactly if nothing stands in its way: no header is malformed, the library can
/// open it, and it has a track that can be played and decoded. It is then at the start of that
/// track.
pub proof fn law_files_open_unless_something_stands_in_the_way(
    r: Result<SymphoniaDecoder, DecodeError>,
    bytes: Seq<u8>,
    output_sample_rate: u32,
)
    requires
        SymphoniaDecoder::is_opened(r, bytes, output_sample_rate),
    ensures
        r is Ok <==> {
            &&& container::obstacle_in(bytes) is None
            &&& container(bytes) matches Ok(file)
            &&& planned(tracks_of(file), output_sample_rate) matches Ok(found)
            &&& refusals_of(file)[found.0] is None
        },
        r matches Ok(d) ==> {
            let file = container(bytes)->Ok_0;
            let found = planned(tracks_of(file), output_sample_rate)->Ok_0;
            &&& d.container == file
            &&& d.native.track_id == found.1.track_id
            &&& d.source_sample_rate == found.1.source_sample_rate
            &&& d.output_sample_rate == output_sample_rate
            &&& d.total_frames == found.1.total_frames
            &&& d.position_frames == 0
            &&& !d.native.eof
            &&& !d.resample_finished
            &&& d.native.unread().len() == 0
            &&& d.unread().len() == 0
            &&& d.waiting().len() == 0
        },
{
}

/// Only the end of the file ends it. A packet that cannot be decoded is skipped if it is cut off,
/// unreadable or malformed; anything else, and the need for a new decoder, is an error.
pub proof fn law_broken_packets_are_skipped(failure: Failure)
    ensures
        ends_the_file(failure) <==> failure is UnexpectedEnd,
        is_skipped(failure) <==> !(failure is ResetRequired) && !(failure is Other),
        ends_the_file(failure) ==> is_skipped(failure),
{
}

/// Frames are dropped as far as there are any, and a packet is needed for exactly those that are
/// still to be dropped; at the end of the file, or with none left to drop, nothing is needed.
pub proof fn law_frames_are_dropped_one_by_one(available: nat, n: nat, eof: bool)
    requires
        n <= u64::MAX,
    ensures
        discarded(available, n, eof).0 <= available,
        discarded(available, n, eof).0 == n || discarded(available, n, eof).0 == available,
        available >= n ==> discarded(available, n, eof) == (n, DiscardStep::Done),
        available < n && eof ==> discarded(available, n, eof) == (available, DiscardStep::Done),
        available < n && !eof ==> discarded(available, n, eof) == (
            available,
            DiscardStep::Packet((n - available) as u64),
        ),
{
}

/// Converted frames are put behind those that are there, without the delay of the conversion, and
/// the frames that waited are used up. The conversion is over once the last frames have gone
/// through it. The position moves only with what is read.
pub proof fn law_converted_frames_are_appended(
    before: SymphoniaDecoder,
    after: SymphoniaDecoder,
    planar: Seq<Vec<u32>>,
    n_out: nat,
    last: bool,
    i: int,
)
    requires
        before.resampler is Some,
        before.takes_converted(after, planar, n_out, last),
        before.resampler->0.delay_to_skip <= i < n_out,
    ensures
        ({
            let old_len = before.unread().len() as int;
            let skip = before.resampler->0.delay_to_skip as int;
            &&& after.unread().len() == old_len + 2 * (n_out - skip)
            &&& after.unread().take(old_len) == before.unread()
            &&& after.unread()[old_len + 2 * (i - skip)] == planar[0]@[i]
            &&& after.unread()[old_len + 2 * (i - skip) + 1] == planar[1]@[i]
            &&& after.resampler->0.delay_to_skip == 0
            &&& after.waiting().len() == 0
            &&& after.resample_finished == (before.resample_finished || last)
            &&& after.position_frames == before.position_frames
            &&& after.native == before.native
            &&& after.container == before.container
        }),
{
    assert(after.unread().take(before.unread().len() as int) =~= before.unread());
    let skip = before.resampler->0.delay_to_skip as int;
    resample::law_frames_are_put_together(planar, skip, n_out as int, i);
}

/// After a seek nothing of what was decoded or converted before is heard, the delay of the
/// conversion comes once more, and the music goes on from the frame that was asked for.
pub proof fn law_seeks_forget_what_was_converted(
    before: SymphoniaDecoder,
    after: SymphoniaDecoder,
    frame: u64,
)
    requires
        before.is_moved_to(after, frame),
    ensures
        after.position_frames == frame,
        after.unread().len() == 0,
        after.waiting().len() == 0,
        !after.resample_finished,
        before.resampler matches Some(r) ==> after.resampler is Some
            && after.resampler->0.delay_to_skip == r.output_delay,
        before.resampler is None ==> after.resampler is None,
        after.total_frames == before.total_frames,
        after.native == before.native,
        after.container == before.container,
{
}

/// A reader gets every packet of its own track as it is, and none of another.
pub proof fn law_packets_of_other_tracks_are_skipped(
    wanted: u32,
    track_id: u32,
    packet: symphonia::core::formats::Packet,
)
    ensures
        fetched_for(wanted, wanted, packet) == Fetched::Packet(packet),
        track_id != wanted ==> fetched_for(wanted, track_id, packet) is Foreign,
{
}

/// A read that fails gives up the frames that wait for the conversion; what was converted before
/// can still be read, and the position does not move.
pub proof fn law_failed_reads_give_up_what_waits(
    before: SymphoniaDecoder,
    after: SymphoniaDecoder,
)
    requires
        before.gave_up(after),
    ensures
        after.waiting().len() == 0,
        after.unread() == before.unread(),
        after.position_frames == before.position_frames,
        after.resampler == before.resampler,
        after.resample_finished == before.resample_finished,
        after.container == before.container,
{
}

/// What is told of a failure names what was found, in decimal digits, or says it in the words of
/// the library; a failed conversion is told of as the conversion tells it.
pub proof fn law_failures_are_told_with_what_was_found(
    msg: String,
    channels: usize,
    rate: u32,
    err: ResampleError,
)
    ensures
        DecodeError::Symphonia(msg).text() == "symphonia decode error: "@ + msg@,
        DecodeError::UnsupportedChannelCount(channels).text() == "unsupported channel count "@
            + text::decimal(channels as nat) + " (only mono or stereo is supported)"@,
        DecodeError::InvalidSampleRate(rate).text() == "invalid source sample rate "@
            + text::decimal(rate as nat) + " Hz (must be > 0)"@,
        DecodeError::Resample(err).text() == err.text(),
        err matches ResampleError::Construction(m) ==> err.text()
            == "resampler construction failed: "@ + m@,
        err matches ResampleError::Processing(m) ==> err.text() == "resampling failed: "@ + m@,
        DecodeError::NoAudioTrack.text()
            == "no supported audio track found (wav / ogg vorbis only)"@,
{
}

/// A seek asks the file for the frame where the music is then, and drops what lies between where it
/// lands and that frame; what was decoded before is forgotten. A seek that fails changes nothing
/// but the file.
pub proof fn law_seeks_lead_to_the_frame(
    before: SymphoniaDecoder,
    after: SymphoniaDecoder,
    frame: u64,
    r: Result<u64, DecodeError>,
)
    requires
        before.seeks_to(after, frame, r),
    ensures
        ({
            let target = before.frame_in_file(frame);
            let asked = if target < LAST_FRAME {
                target
            } else {
                LAST_FRAME
            };
            match landing_after(before.container, asked, before.native.track_id) {
                Ok(landed) => {
                    &&& r is Ok
                    &&& landed <= target ==> landed + r->Ok_0 == target
                    &&& landed > target ==> r->Ok_0 == 0
                    &&& after.native.unread().len() == 0
                    &&& !after.native.eof
                    &&& after.native.track_id == before.native.track_id
                },
                Err(failure) => {
                    &&& r is Err
                    &&& r->Err_0.reports(failure)
                    &&& after.native == before.native
                },
            }
        }),
        after.unread() == before.unread(),
        after.position_frames == before.position_frames,
        after.resampler == before.resampler,
        after.resample_finished == before.resample_finished,
{
}

/// A file that is not opened says why: the first thing that stands in its way is reported. No frames
/// per second are that, a header that makes no sense is told of as an error of the library, and what
/// the library or the tracks are refused for is passed on.
pub proof fn law_files_that_are_not_opened_say_why(
    r: Result<SymphoniaDecoder, DecodeError>,
    bytes: Seq<u8>,
    output_sample_rate: u32,
)
    requires
        SymphoniaDecoder::is_opened(r, bytes, output_sample_rate),
    ensures
        container::obstacle_in(bytes) == Some(Obstacle::ZeroSampleRate) ==> r == Err::<
            SymphoniaDecoder,
            DecodeError,
        >(DecodeError::InvalidSampleRate(0)),
        container::obstacle_in(bytes) == Some(Obstacle::MalformedHeader) ==> r is Err && r->Err_0
            is Symphonia && r->Err_0.text() == "symphonia decode error: "@ + "malformed header"@,
        container::obstacle_in(bytes) is None ==> match container(bytes) {
            Err(failure) => r is Err && r->Err_0.reports(failure),
            Ok(file) => match planned(tracks_of(file), output_sample_rate) {
                Err(e) => r == Err::<SymphoniaDecoder, DecodeError>(e),
                Ok(found) => refusals_of(file)[found.0] is Some ==> r is Err
                    && r->Err_0.reports(refusals_of(file)[found.0]->0),
            },
        },
{
}

} // verus!
