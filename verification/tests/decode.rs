//! Music files.

use std::sync::Arc;

use audioware::decode::{CodecFailure, DiscardStep, Fetched, ReadStep};
use audioware::resample::{convert_frame_count, ResampleError, StreamResampler};
use audioware::stream::channel;
use audioware::{
    Config, DecodeError, MusicDecoder, MusicFrameSource, SampleMath, SymphoniaDecoder, CHANNELS,
};
use rubato::audioadapter_buffers::direct::SequentialSliceOfVecs;
use rubato::{Fft, FixedSync, Indexing, Resampler};

/// Single-precision arithmetic of the machine.
struct F32Math;

impl SampleMath for F32Math {
    fn plus(&self, a: u32, b: u32) -> u32 {
        w(f(a) + f(b))
    }

    fn minus(&self, a: u32, b: u32) -> u32 {
        w(f(a) - f(b))
    }

    fn times(&self, a: u32, b: u32) -> u32 {
        w(f(a) * f(b))
    }

    fn over(&self, a: u32, b: u32) -> u32 {
        w(f(a) / f(b))
    }

    fn magnitude(&self, a: u32) -> u32 {
        w(f(a).abs())
    }

    fn sign(&self, a: u32) -> u32 {
        w(f(a).signum())
    }

    fn at_most(&self, a: u32, b: u32) -> bool {
        f(a) <= f(b)
    }

    fn of_count(&self, n: u32) -> u32 {
        w(n as f32)
    }

    fn of_pcm16(&self, n: i16) -> u32 {
        w(n as f32)
    }

    fn to_count(&self, a: u32) -> u32 {
        f(a).round() as u32
    }
}

/// The word of a number.
fn w(x: f32) -> u32 {
    x.to_bits()
}

/// The number of a word.
fn f(x: u32) -> f32 {
    f32::from_bits(x)
}

/// How many frames the conversion takes at once, about.
const STREAM_CHUNK_TARGET_FRAMES: usize = 1024;

/// A conversion between two rates.
struct Engine {
    inner: Fft<f32>,
    chan_out: Vec<Vec<f32>>,
}

impl Engine {
    fn new(source_rate: u32, output_rate: u32) -> Result<Engine, ResampleError> {
        let inner = Fft::<f32>::new(
            source_rate as usize,
            output_rate as usize,
            STREAM_CHUNK_TARGET_FRAMES,
            CHANNELS,
            FixedSync::Both,
        )
        .map_err(|e| ResampleError::Construction(e.to_string()))?;
        let chan_out = vec![vec![0.0; inner.output_frames_max()]; CHANNELS];
        Ok(Engine { inner, chan_out })
    }

    /// Converts the frames in the planes.
    fn run(
        &mut self,
        planes: &[Vec<u32>],
        partial: Option<usize>,
    ) -> Result<(Vec<Vec<u32>>, usize), ResampleError> {
        fn failed<E: ToString>(e: E) -> ResampleError {
            ResampleError::Processing(e.to_string())
        }
        let chan_in: Vec<Vec<f32>> =
            planes.iter().map(|p| p.iter().map(|x| f(*x)).collect()).collect();
        let need = self.inner.input_frames_next();
        let input = SequentialSliceOfVecs::new(&chan_in, CHANNELS, need).map_err(failed)?;
        let frames = self.inner.output_frames_max();
        let mut output = SequentialSliceOfVecs::new_mut(&mut self.chan_out, CHANNELS, frames)
            .map_err(failed)?;
        let indexing = partial.map(|n| Indexing::new().partial_len(n));
        let (_, n_out) = self
            .inner
            .process_into_buffer(&input, &mut output, indexing.as_ref())
            .map_err(failed)?;
        let words =
            self.chan_out.iter().map(|p| p.iter().map(|x| w(*x)).collect()).collect();
        Ok((words, n_out))
    }
}

/// A decoder with the parts that compute with numbers.
struct Player {
    core: SymphoniaDecoder,
    codec: Box<dyn symphonia::core::codecs::Decoder>,
    engine: Option<Engine>,
}

impl Player {
    fn open(bytes: Vec<u8>, output_rate: u32) -> Result<Player, DecodeError> {
        Player::start(SymphoniaDecoder::open(bytes, output_rate)?)
    }

    fn open_shared(bytes: Arc<Vec<u8>>, output_rate: u32) -> Result<Player, DecodeError> {
        Player::start(SymphoniaDecoder::open_shared(bytes, output_rate)?)
    }

    fn start(core: SymphoniaDecoder) -> Result<Player, DecodeError> {
        let tracks = core.container.format.tracks();
        let track = tracks.iter().find(|t| t.id == core.native.track_id).unwrap();
        let codec = symphonia::default::get_codecs()
            .make(&track.codec_params, &Default::default())
            .map_err(DecodeError::from)?;
        if !core.needs_resampler() {
            return Ok(Player { core, codec, engine: None });
        }
        let built = Engine::new(core.source_sample_rate, core.output_sample_rate);
        let (engine, buffers) = match built {
            Ok(engine) => {
                let buffers = StreamResampler::new(
                    engine.inner.input_frames_next(),
                    engine.inner.output_delay(),
                );
                (Some(engine), Ok(buffers))
            }
            Err(e) => (None, Err(e)),
        };
        let core = core.with_resampler(buffers)?;
        Ok(Player { core, codec, engine })
    }

    /// Decodes the next packet that holds anything, unless there is none.
    fn next_packet(&mut self) -> Result<(), DecodeError> {
        loop {
            let packet = match self.core.fetch_packet()? {
                Fetched::Packet(packet) => packet,
                Fetched::Foreign => continue,
                Fetched::End => return Ok(()),
            };
            match self.codec.decode(&packet) {
                Ok(audio) => {
                    let spec = *audio.spec();
                    let frames = audio.frames();
                    let duration = frames as u64;
                    let mut buf =
                        symphonia::core::audio::SampleBuffer::<f32>::new(duration, spec);
                    buf.copy_interleaved_ref(audio);
                    let words: Vec<u32> = buf.samples().iter().map(|x| w(*x)).collect();
                    let channels = spec.channels.count();
                    if self.core.packet_decoded(&F32Math, frames, channels, &words)? {
                        return Ok(());
                    }
                }
                Err(e) => self.core.packet_undecodable(CodecFailure::from(e))?,
            }
        }
    }
}

impl MusicDecoder for Player {
    fn read(&mut self, out: &mut [u32]) -> Result<usize, DecodeError> {
        let want = self.core.begin_read(out.len());
        let out = &mut out[..want * CHANNELS];
        let mut written = 0;
        loop {
            let (step, total) = self.core.read_step(out, written);
            written = total;
            let (partial, last) = match step {
                ReadStep::Done(n) => {
                    self.core.finish_read(n);
                    return Ok(n);
                }
                ReadStep::Packet => {
                    self.next_packet()?;
                    continue;
                }
                ReadStep::Convert(_) => (None, false),
                ReadStep::Flush(n) => (Some(n), true),
            };
            let planes = &self.core.resampler.as_ref().unwrap().planar;
            match self.engine.as_mut().unwrap().run(planes, partial) {
                Ok((words, n_out)) => self.core.converted(&words, n_out, last),
                Err(e) => return Err(self.core.conversion_failed(e)),
            }
        }
    }

    fn seek(&mut self, frame: u64) -> Result<(), DecodeError> {
        let mut left = self.core.begin_seek(frame)?;
        self.codec.reset();
        while let DiscardStep::Packet(more) = self.core.native.discard_step(left) {
            self.next_packet()?;
            left = more;
        }
        if let Some(engine) = &mut self.engine {
            engine.inner.reset();
        }
        self.core.end_seek(frame);
        Ok(())
    }

    fn total_frames(&self) -> Option<u64> {
        self.core.total_frames()
    }
}

/// Reads to a buffer of numbers.
fn read(decoder: &mut Player, out: &mut [f32]) -> Result<usize, DecodeError> {
    let mut words: Vec<u32> = out.iter().map(|x| w(*x)).collect();
    let n = decoder.read(&mut words)?;
    for (x, word) in out.iter_mut().zip(&words) {
        *x = f(*word);
    }
    Ok(n)
}

fn make_pcm16_wav(sample_rate: u32, channels: u16, samples: &[i16]) -> Vec<u8> {
    let bytes_per_sample = 2u32;
    let block_align = bytes_per_sample as u16 * channels;
    let byte_rate = sample_rate * block_align as u32;
    let data_bytes: Vec<u8> = samples.iter().flat_map(|s| s.to_le_bytes()).collect();
    let data_size = data_bytes.len() as u32;
    let fmt_size: u32 = 16;
    let riff_size = 4 + (8 + fmt_size) + (8 + data_size);

    let mut out = Vec::new();
    out.extend_from_slice(b"RIFF");
    out.extend_from_slice(&riff_size.to_le_bytes());
    out.extend_from_slice(b"WAVE");

    out.extend_from_slice(b"fmt ");
    out.extend_from_slice(&fmt_size.to_le_bytes());
    out.extend_from_slice(&1u16.to_le_bytes());
    out.extend_from_slice(&channels.to_le_bytes());
    out.extend_from_slice(&sample_rate.to_le_bytes());
    out.extend_from_slice(&byte_rate.to_le_bytes());
    out.extend_from_slice(&block_align.to_le_bytes());
    out.extend_from_slice(&16u16.to_le_bytes());

    out.extend_from_slice(b"data");
    out.extend_from_slice(&data_size.to_le_bytes());
    out.extend_from_slice(&data_bytes);

    out
}

fn describe(error: &DecodeError) -> Option<&'static str> {
    match error {
        DecodeError::Symphonia(_) => Some("symphonia decode error"),
        DecodeError::NoAudioTrack => Some("no supported audio track"),
        DecodeError::UnsupportedChannelCount(_) => Some("unsupported channel count"),
        DecodeError::InvalidSampleRate(_) => Some("invalid source sample rate"),
        DecodeError::Resample(_) => None,
        DecodeError::ResetRequired => Some("stream requires a decoder reset"),
    }
}

#[test]
fn decode_error_display_identifies_every_outer_variant_without_duplicates() {
    let errors = [
        DecodeError::Symphonia("malformed packet".into()),
        DecodeError::NoAudioTrack,
        DecodeError::UnsupportedChannelCount(5),
        DecodeError::InvalidSampleRate(0),

        DecodeError::Resample(ResampleError::Construction("zero rate".into())),
        DecodeError::ResetRequired,
    ];

    let outer_messages: Vec<String> = errors
        .iter()
        .filter_map(|error| {
            let message = error.message();
            let key = describe(error)?;
            assert!(
                message.contains(key),
                "{error:?} must retain its identifying phrase: {message}"
            );
            Some(message)
        })
        .collect();

    assert!(
        outer_messages
            .iter()
            .enumerate()
            .all(|(index, message)| outer_messages
                .iter()
                .enumerate()
                .all(|(other_index, other)| index == other_index || message != other)),
        "each outer DecodeError variant must have a distinct display message: {outer_messages:?}"
    );

    for error in &errors {
        let expected_argument = match error {
            DecodeError::Symphonia(message) => Some(message.clone()),
            DecodeError::UnsupportedChannelCount(channels) => Some(channels.to_string()),
            DecodeError::InvalidSampleRate(rate) => Some(rate.to_string()),
            DecodeError::NoAudioTrack
            | DecodeError::ResetRequired
            | DecodeError::Resample(_) => None,
        };
        let Some(argument) = expected_argument else {
            continue;
        };
        let rendered = error.message();
        assert!(
            rendered.contains(&argument),
            "{error:?} must print its argument ({argument}) so the device log says \
             what was actually wrong: {rendered}"
        );
    }

    assert_eq!(
        DecodeError::Resample(ResampleError::Construction("zero rate".into())).message(),
        "resampler construction failed: zero rate"
    );
}

#[test]
fn symphonia_reset_required_keeps_its_dedicated_error_variant() {
    assert!(matches!(
        DecodeError::from(symphonia::core::errors::Error::ResetRequired),
        DecodeError::ResetRequired
    ));
}

#[test]
fn other_symphonia_errors_are_retained_as_detailed_messages() {
    let error = DecodeError::from(symphonia::core::errors::Error::DecodeError("malformed packet"));
    match error {
        DecodeError::Symphonia(message) => {
            assert!(message.contains("malformed packet"));
        }
        other => panic!("non-reset Symphonia errors must be wrapped, got {other:?}"),
    }
}

const SAMPLE_RATE: u32 = 48_000;

fn i16_to_f32(sample: i16) -> f32 {
    sample as f32 / 32_768.0
}

fn make_sine_wave_wav(
    sample_rate: u32,
    freq_hz: f32,
    frames: usize,
    amplitude: i16,
) -> Vec<u8> {
    let mut samples = Vec::with_capacity(frames * 2);
    for i in 0..frames {
        let t = i as f32 / sample_rate as f32;
        let v = (amplitude as f32 * (2.0 * std::f32::consts::PI * freq_hz * t).sin()) as i16;
        samples.push(v);
        samples.push(v);
    }
    make_pcm16_wav(sample_rate, 2, &samples)
}

fn estimate_frequency_hz(left_channel: &[f32], sample_rate: u32) -> f32 {
    let margin = left_channel.len() / 20;
    let core = &left_channel[margin..left_channel.len() - margin];
    let mut crossings = 0usize;
    for w in core.windows(2) {
        if (w[0] <= 0.0 && w[1] > 0.0) || (w[0] >= 0.0 && w[1] < 0.0) {
            crossings += 1;
        }
    }
    let cycles = crossings as f32 / 2.0;
    let duration_s = core.len() as f32 / sample_rate as f32;
    cycles / duration_s
}

fn drain_left_channel(decoder: &mut Player, read_chunk_frames: usize) -> Vec<f32> {
    let mut got = Vec::new();
    loop {
        let mut buf = vec![0.0f32; read_chunk_frames * CHANNELS];
        let n = read(decoder, &mut buf).expect("read must succeed");
        if n == 0 {
            break;
        }
        for i in 0..n {
            got.push(buf[i * CHANNELS]);
        }
    }
    got
}

#[test]
fn open_shared_shares_the_compressed_bytes_instead_of_copying_them() {
    let samples: Vec<i16> = vec![0, 0, 16384, -16384];
    let bytes = Arc::new(make_pcm16_wav(SAMPLE_RATE, 2, &samples));
    let before = Arc::strong_count(&bytes);

    let decoder = SymphoniaDecoder::open_shared(Arc::clone(&bytes), SAMPLE_RATE)
        .expect("valid wav must open");

    assert!(
        Arc::strong_count(&bytes) > before
    );

    drop(decoder);
    assert_eq!(
        Arc::strong_count(&bytes),
        before
    );
}

#[test]
fn open_still_works_and_is_equivalent_to_open_shared() {
    let samples: Vec<i16> = vec![0, 0, 16384, -16384, -16384, 16384];
    let bytes = make_pcm16_wav(SAMPLE_RATE, 2, &samples);

    let mut by_value =
        Player::open(bytes.clone(), SAMPLE_RATE).expect("valid wav must open");
    let mut shared = Player::open_shared(Arc::new(bytes), SAMPLE_RATE)
        .expect("valid wav must open");

    assert_eq!(by_value.total_frames(), shared.total_frames());
    assert_eq!(
        drain_left_channel(&mut by_value, 4),
        drain_left_channel(&mut shared, 4)
    );
}

#[test]
fn decodes_stereo_wav_in_order() {
    let samples: Vec<i16> = vec![0, 0, 16384, -16384, -16384, 16384, 32767, -32768];
    let bytes = make_pcm16_wav(SAMPLE_RATE, 2, &samples);
    let mut decoder = Player::open(bytes, SAMPLE_RATE).expect("valid wav must open");

    assert_eq!(decoder.total_frames(), Some(4));

    let mut out = vec![0.0f32; 4 * CHANNELS];
    let n = read(&mut decoder, &mut out).expect("read must succeed");
    assert_eq!(n, 4);

    assert_eq!(out[0], 0.0);
    assert_eq!(out[1], 0.0);
    assert!((out[2] - i16_to_f32(16384)).abs() < 1e-6);
    assert!((out[3] - i16_to_f32(-16384)).abs() < 1e-6);
    assert_eq!(out[6], i16_to_f32(32767));
    assert_eq!(out[7], -1.0);

    let mut tail = vec![1.0f32; 2 * CHANNELS];
    let n2 = read(&mut decoder, &mut tail).expect("read at eof must succeed");
    assert_eq!(n2, 0);
}

#[test]
fn decode_mono_expands_to_stereo_with_equal_power_gain() {
    let samples: Vec<i16> = vec![32767, -32768, 0];
    let bytes = make_pcm16_wav(SAMPLE_RATE, 1, &samples);
    let mut decoder =
        Player::open(bytes, SAMPLE_RATE).expect("valid mono wav must open");

    let mut out = vec![0.0f32; 3 * CHANNELS];
    let n = read(&mut decoder, &mut out).expect("read must succeed");
    assert_eq!(n, 3);

    assert_eq!(
        out[0], out[1],
        "mono source must expand identically to both channels"
    );
    let expected = i16_to_f32(32767) * std::f32::consts::FRAC_1_SQRT_2;
    assert!((out[0] - expected).abs() < 1e-6);

    let original = i16_to_f32(-32768);
    let l = out[2];
    let r = out[3];
    assert!(((l * l + r * r) - original * original).abs() < 1e-5);
}

#[test]
fn streams_across_multiple_packets_in_order() {
    const FRAME_COUNT: usize = 3_000;
    let mut samples = Vec::with_capacity(FRAME_COUNT * 2);
    for i in 0..FRAME_COUNT {
        let v = (i % 30_000) as i16;
        samples.push(v);
        samples.push(-v);
    }
    let bytes = make_pcm16_wav(SAMPLE_RATE, 2, &samples);
    let mut decoder = Player::open(bytes, SAMPLE_RATE).expect("valid wav must open");
    assert_eq!(decoder.total_frames(), Some(FRAME_COUNT as u64));

    let mut got = Vec::with_capacity(FRAME_COUNT);
    let chunk_frames = 700;
    loop {
        let mut buf = vec![0.0f32; chunk_frames * CHANNELS];
        let n = read(&mut decoder, &mut buf).expect("read must succeed");
        if n == 0 {
            break;
        }
        for frame in 0..n {
            got.push(buf[frame * CHANNELS]);
        }
    }
    assert_eq!(got.len(), FRAME_COUNT);
    for (i, &v) in got.iter().enumerate() {
        let expected = i16_to_f32((i % 30_000) as i16);
        assert_eq!(v, expected, "frame {i} out of order or corrupted");
    }
}

#[test]
fn seek_lands_exactly_on_the_requested_sample_boundary() {
    const FRAME_COUNT: usize = 2_000;
    let mut samples = Vec::with_capacity(FRAME_COUNT * 2);
    for i in 0..FRAME_COUNT {
        samples.push(i as i16);
        samples.push(-(i as i16));
    }
    let bytes = make_pcm16_wav(SAMPLE_RATE, 2, &samples);
    let mut decoder = Player::open(bytes, SAMPLE_RATE).expect("valid wav must open");

    let target = 1_337u64;
    decoder.seek(target).expect("seek must succeed");

    let mut out = vec![0.0f32; 4 * CHANNELS];
    let n = read(&mut decoder, &mut out)
        .expect("read after seek must succeed");
    assert_eq!(n, 4);
    for i in 0..4u64 {
        let expected = (target + i) as i16;
        let idx = i as usize * CHANNELS;
        assert_eq!(out[idx], i16_to_f32(expected));
        assert_eq!(out[idx + 1], i16_to_f32(-expected));
    }
}

#[test]
fn ogg_container_is_recognized_by_the_probe() {
    let mut bytes = vec![0u8; 64];
    bytes[0..4].copy_from_slice(b"OggS");
    let err = match SymphoniaDecoder::open(bytes, SAMPLE_RATE) {
        Ok(_) => panic!("a bare \"OggS\" marker with no valid page must not open successfully"),
        Err(e) => e,
    };
    let message = err.message();
    assert!(
        !message.contains("no suitable format reader found"),
        "ogg should be recognized by the probe via its \"OggS\" marker, got: {message}"
    );
}

#[test]
fn vorbis_codec_is_registered() {
    let registry = symphonia::default::get_codecs();
    assert!(
        registry
            .get_codec(symphonia::core::codecs::CODEC_TYPE_VORBIS)
            .is_some(),
        "vorbis codec must be registered (Cargo.toml feature = [\"vorbis\"])"
    );
}

#[test]
fn resample_preserves_frequency_when_upsampling_44_1k_to_48k() {
    const SOURCE_RATE: u32 = 44_100;
    const OUTPUT_RATE: u32 = 48_000;
    const FREQ_HZ: f32 = 1_000.0;
    const FRAME_COUNT: usize = 4_410;

    let bytes = make_sine_wave_wav(SOURCE_RATE, FREQ_HZ, FRAME_COUNT, 20_000);
    let mut decoder = Player::open(bytes, OUTPUT_RATE).expect("valid wav must open");

    let left = drain_left_channel(&mut decoder, 512);
    let estimated = estimate_frequency_hz(&left, OUTPUT_RATE);
    assert!(
        (estimated - FREQ_HZ).abs() / FREQ_HZ < 0.02,
        "resampled frequency should stay close to {FREQ_HZ} Hz, got {estimated} Hz"
    );
}

#[test]
fn resample_produces_the_expected_output_length() {
    const SOURCE_RATE: u32 = 44_100;
    const OUTPUT_RATE: u32 = 48_000;
    const FRAME_COUNT: usize = 4_410;

    let bytes = make_sine_wave_wav(SOURCE_RATE, 1_000.0, FRAME_COUNT, 20_000);
    let mut decoder = Player::open(bytes, OUTPUT_RATE).expect("valid wav must open");

    let expected = convert_frame_count(FRAME_COUNT as u64, SOURCE_RATE, OUTPUT_RATE);
    assert_eq!(decoder.total_frames(), Some(expected));

    let left = drain_left_channel(&mut decoder, 4_096);
    assert_eq!(left.len() as u64, expected);
}

#[test]
fn resample_block_boundaries_are_seamless() {
    const SOURCE_RATE: u32 = 44_100;
    const OUTPUT_RATE: u32 = 48_000;
    const FRAME_COUNT: usize = 4_410;

    let bytes = make_sine_wave_wav(SOURCE_RATE, 1_000.0, FRAME_COUNT, 20_000);

    let mut chunked =
        Player::open(bytes.clone(), OUTPUT_RATE).expect("valid wav must open");

    let chunked_out = drain_left_channel(&mut chunked, 37);

    let mut bulk = Player::open(bytes, OUTPUT_RATE).expect("valid wav must open");

    let bulk_out = drain_left_channel(&mut bulk, 100_000);

    assert_eq!(
        chunked_out, bulk_out,
        "reading in small chunks must produce bit-identical output to a single bulk read"
    );
}

#[test]
fn resample_bypasses_when_rates_match() {
    let samples: Vec<i16> = vec![0, 0, 16384, -16384, -16384, 16384, 32767, -32768];
    let bytes = make_pcm16_wav(48_000, 2, &samples);
    let mut decoder = Player::open(bytes, 48_000).expect("valid wav must open");

    let mut out = vec![0.0f32; 4 * CHANNELS];
    let n = read(&mut decoder, &mut out).expect("read must succeed");
    assert_eq!(n, 4);

    assert_eq!(out[2], i16_to_f32(16384));
    assert_eq!(out[3], i16_to_f32(-16384));
    assert_eq!(out[6], i16_to_f32(32767));
    assert_eq!(out[7], -1.0);
}

#[test]
fn seek_after_resample_matches_a_fresh_decoder_seeked_to_the_same_position() {
    const SOURCE_RATE: u32 = 44_100;
    const OUTPUT_RATE: u32 = 48_000;
    const FRAME_COUNT: usize = 8_820;

    let bytes = make_sine_wave_wav(SOURCE_RATE, 1_000.0, FRAME_COUNT, 20_000);
    let target = convert_frame_count(2_000, SOURCE_RATE, OUTPUT_RATE);

    let mut warmed =
        Player::open(bytes.clone(), OUTPUT_RATE).expect("valid wav must open");
    let mut warm_buf = vec![0.0f32; 500 * CHANNELS];
    read(&mut warmed, &mut warm_buf)
        .expect("warm-up read must succeed");
    warmed.seek(target).expect("seek must succeed");
    let after_warm = drain_left_channel(&mut warmed, 333);

    let mut fresh = Player::open(bytes, OUTPUT_RATE).expect("valid wav must open");
    fresh.seek(target).expect("seek must succeed");
    let after_fresh = drain_left_channel(&mut fresh, 333);

    assert_eq!(
        after_warm, after_fresh,
        "seeking must fully discard prior resampler state regardless of playback history"
    );
}

#[test]
fn end_to_end_resamples_a_44_1k_wav_through_pump_and_read_without_error() {
    const SOURCE_RATE: u32 = 44_100;
    const OUTPUT_RATE: u32 = 48_000;
    let bytes = make_sine_wave_wav(SOURCE_RATE, 1_000.0, 2_000, 10_000);
    let mut decoder = Player::open(bytes, OUTPUT_RATE)
        .expect("mismatched sample rate must now succeed");
    let left = drain_left_channel(&mut decoder, 256);
    assert!(!left.is_empty());
}

fn small_config(preroll_ms: f32) -> Config {
    Config {
        preroll_ms: w(preroll_ms),
        ..Config::default()
    }
}

#[test]
fn end_to_end_streams_a_real_wav_through_pump_and_read_in_order() {
    const SAMPLE_RATE: u32 = 48_000;
    const FRAME_COUNT: usize = 500;
    let mut samples = Vec::with_capacity(FRAME_COUNT * 2);
    for i in 0..FRAME_COUNT {
        samples.push(i as i16);
        samples.push(-(i as i16));
    }
    let bytes = make_pcm16_wav(SAMPLE_RATE, 2, &samples);
    let mut decoder = Player::open(bytes, SAMPLE_RATE).expect("valid wav must open");

    let (mut producer, mut source) = channel(&F32Math, small_config(20.0), SAMPLE_RATE);

    let mut got: Vec<f32> = Vec::with_capacity(FRAME_COUNT);
    loop {
        let outcome = producer.pump(&mut source.shared, &mut decoder).expect("pump must succeed");
        let mut buf = vec![w(0.0); 64 * CHANNELS];
        let n = source.read(&mut buf);
        for i in 0..n {
            got.push(f(buf[i * CHANNELS]));
        }
        if outcome.reached_eof && got.len() >= FRAME_COUNT {
            break;
        }
        if outcome.pushed_frames == 0 && n == 0 && !outcome.reached_eof {
            if source.buffered_frames() == 0 {
                break;
            }
        }
    }

    assert_eq!(got.len(), FRAME_COUNT);
    for (i, &v) in got.iter().enumerate() {
        let expected = i as f32 / 32_768.0;
        assert_eq!(v, expected, "frame {i} out of order");
    }
}
