//! Sound files.

use audioware::resample::{
    convert_frame_count, Feed, OneshotResample, ResampleError, ONESHOT_CHUNK_FRAMES,
};
use audioware::wav::{self, WavError};
use audioware::{SampleMath, SoundData, CHANNELS};
use rubato::audioadapter_buffers::direct::SequentialSliceOfVecs;
use rubato::{
    calculate_cutoff, Async, FixedAsync, Indexing, Resampler, SincInterpolationParameters,
    SincInterpolationType, WindowFunction,
};

/// Single-precision arithmetic of the machine.
struct F32Math;

impl SampleMath for F32Math {
    fn plus(&self, a: u32, b: u32) -> u32 {
        w(f(a) + f(b))
    }

    fn minus(&self, a: u32, b: u32) -> u32 {
        w(f(a) - f(b))
    }

    fn times(&self, a: u32, b: u32) -> u32 {
        w(f(a) * f(b))
    }

    fn over(&self, a: u32, b: u32) -> u32 {
        w(f(a) / f(b))
    }

    fn magnitude(&self, a: u32) -> u32 {
        w(f(a).abs())
    }

    fn sign(&self, a: u32) -> u32 {
        w(f(a).signum())
    }

    fn at_most(&self, a: u32, b: u32) -> bool {
        f(a) <= f(b)
    }

    fn of_count(&self, n: u32) -> u32 {
        w(n as f32)
    }

    fn of_pcm16(&self, n: i16) -> u32 {
        w(n as f32)
    }

    fn to_count(&self, a: u32) -> u32 {
        f(a).round() as u32
    }
}

/// The word of a number.
fn w(x: f32) -> u32 {
    x.to_bits()
}

/// The number of a word.
fn f(x: u32) -> f32 {
    f32::from_bits(x)
}

/// A frame of a sound.
fn frame(sound: &SoundData, i: usize) -> (f32, f32) {
    let (l, r) = sound.frame(i).unwrap();
    (f(l), f(r))
}

/// Decodes a file and brings it to the rate of the output.
fn decode(bytes: &[u8], output_rate: u32) -> Result<SoundData, WavError> {
    let decoded = wav::decode(&F32Math, bytes, output_rate)?;
    if !decoded.needs_resampling {
        return Ok(decoded.sound);
    }
    wav::finish_resampled(output_rate, convert(&decoded.sound, output_rate))
}

fn failed<E: ToString>(e: E) -> ResampleError {
    ResampleError::Processing(e.to_string())
}

/// Converts a whole sound with an interpolating resampler.
fn convert(sound: &SoundData, output_rate: u32) -> Result<(Vec<u32>, usize), ResampleError> {
    let params = SincInterpolationParameters {
        sinc_len: 256,
        f_cutoff: Some(calculate_cutoff::<f32>(256, WindowFunction::BlackmanHarris2)),
        interpolation: SincInterpolationType::Cubic,
        oversampling_factor: 256,
        window: WindowFunction::BlackmanHarris2,
    };
    let ratio = output_rate as f64 / sound.sample_rate as f64;
    let mut engine = Async::<f32>::new_sinc(
        ratio,
        1.0,
        &params,
        ONESHOT_CHUNK_FRAMES,
        CHANNELS,
        FixedAsync::Input,
    )
    .map_err(|e| ResampleError::Construction(e.to_string()))?;
    let mut run = OneshotResample::new(
        sound.frames,
        sound.sample_rate,
        output_rate,
        engine.output_delay(),
    );
    let mut planes = vec![vec![w(0.0); ONESHOT_CHUNK_FRAMES]; CHANNELS];
    let mut chan_out = vec![vec![0.0f32; engine.output_frames_max()]; CHANNELS];
    while let Some(feed) = run.feed(&sound.interleaved, &mut planes) {
        let chan_in: Vec<Vec<f32>> =
            planes.iter().map(|p| p.iter().map(|x| f(*x)).collect()).collect();
        let input = SequentialSliceOfVecs::new(&chan_in, CHANNELS, ONESHOT_CHUNK_FRAMES)
            .map_err(failed)?;
        let frames = engine.output_frames_max();
        let mut output =
            SequentialSliceOfVecs::new_mut(&mut chan_out, CHANNELS, frames).map_err(failed)?;
        let indexing = match feed {
            Feed::Whole => None,
            Feed::Rest(n) => Some(Indexing::new().partial_len(n)),
        };
        let (_, n_out) = engine
            .process_into_buffer(&input, &mut output, indexing.as_ref())
            .map_err(failed)?;
        let words: Vec<Vec<u32>> =
            chan_out.iter().map(|p| p.iter().map(|x| w(*x)).collect()).collect();
        run.accept(&words, n_out);
    }
    Ok(run.finish())
}

fn make_pcm16_wav(sample_rate: u32, channels: u16, samples: &[i16]) -> Vec<u8> {
    let bytes_per_sample = 2u32;
    let block_align = bytes_per_sample as u16 * channels;
    let byte_rate = sample_rate * block_align as u32;
    let data_bytes: Vec<u8> = samples.iter().flat_map(|s| s.to_le_bytes()).collect();
    let data_size = data_bytes.len() as u32;
    let fmt_size: u32 = 16;
    let riff_size = 4 + (8 + fmt_size) + (8 + data_size);

    let mut out = Vec::new();
    out.extend_from_slice(b"RIFF");
    out.extend_from_slice(&riff_size.to_le_bytes());
    out.extend_from_slice(b"WAVE");

    out.extend_from_slice(b"fmt ");
    out.extend_from_slice(&fmt_size.to_le_bytes());
    out.extend_from_slice(&1u16.to_le_bytes());
    out.extend_from_slice(&channels.to_le_bytes());
    out.extend_from_slice(&sample_rate.to_le_bytes());
    out.extend_from_slice(&byte_rate.to_le_bytes());
    out.extend_from_slice(&block_align.to_le_bytes());
    out.extend_from_slice(&16u16.to_le_bytes());

    out.extend_from_slice(b"data");
    out.extend_from_slice(&data_size.to_le_bytes());
    out.extend_from_slice(&data_bytes);

    out
}

fn make_pcm8_wav(sample_rate: u32, channels: u16, samples: &[u8]) -> Vec<u8> {
    let block_align = channels;
    let byte_rate = sample_rate * block_align as u32;
    let data_size = samples.len() as u32;
    let fmt_size: u32 = 16;
    let riff_size = 4 + (8 + fmt_size) + (8 + data_size);

    let mut out = Vec::new();
    out.extend_from_slice(b"RIFF");
    out.extend_from_slice(&riff_size.to_le_bytes());
    out.extend_from_slice(b"WAVE");

    out.extend_from_slice(b"fmt ");
    out.extend_from_slice(&fmt_size.to_le_bytes());
    out.extend_from_slice(&1u16.to_le_bytes());
    out.extend_from_slice(&channels.to_le_bytes());
    out.extend_from_slice(&sample_rate.to_le_bytes());
    out.extend_from_slice(&byte_rate.to_le_bytes());
    out.extend_from_slice(&block_align.to_le_bytes());
    out.extend_from_slice(&8u16.to_le_bytes());

    out.extend_from_slice(b"data");
    out.extend_from_slice(&data_size.to_le_bytes());
    out.extend_from_slice(samples);

    out
}

#[test]
fn decodes_48k_stereo_pcm16() {
    let samples: Vec<i16> = vec![0, 0, 16384, -16384, -16384, 16384, 32767, -32768];
    let bytes = make_pcm16_wav(48_000, 2, &samples);
    let sound = decode(&bytes, 48_000).expect("valid 48k stereo pcm16 wav must decode");

    assert_eq!(sound.sample_rate, 48_000);
    assert_eq!(sound.frames, 4);
    assert_eq!(sound.interleaved.len(), 8);

    let (l0, r0) = frame(&sound, 0);
    assert_eq!(l0, 0.0);
    assert_eq!(r0, 0.0);

    let (l1, r1) = frame(&sound, 1);
    assert!((l1 - (16384.0 / 32768.0)).abs() < 1e-6);
    assert!((r1 - (-16384.0 / 32768.0)).abs() < 1e-6);

    let (l3, r3) = frame(&sound, 3);
    assert!((l3 - (32767.0 / 32768.0)).abs() < 1e-6);
    assert_eq!(r3, -1.0);
}

#[test]
fn wav_mono_expands_to_stereo_with_equal_power_gain() {
    let samples: Vec<i16> = vec![32767, -32768, 0];
    let bytes = make_pcm16_wav(48_000, 1, &samples);
    let sound = decode(&bytes, 48_000).expect("valid 48k mono pcm16 wav must decode");

    assert_eq!(sound.frames, 3);
    let expected_gain = std::f32::consts::FRAC_1_SQRT_2;

    let (l0, r0) = frame(&sound, 0);
    assert_eq!(
        l0, r0,
        "mono source must expand identically to both channels"
    );
    assert!((l0 - (32767.0 / 32768.0) * expected_gain).abs() < 1e-6);

    let (l1, r1) = frame(&sound, 1);
    let original = -32768.0_f32 / 32768.0;
    let expanded_power = l1 * l1 + r1 * r1;
    assert!((expanded_power - original * original).abs() < 1e-5);
}

#[test]
fn rejects_zero_sample_rate() {
    let bytes = make_pcm16_wav(0, 2, &[0, 0]);
    let err = decode(&bytes, 48_000).unwrap_err();
    assert_eq!(err, WavError::InvalidSampleRate(0));
}

#[test]
fn rejects_unsupported_bit_depth() {
    let bytes = make_pcm8_wav(48_000, 1, &[128, 200, 10]);
    let err = decode(&bytes, 48_000).unwrap_err();
    assert_eq!(err, WavError::UnsupportedBitsPerSample(8));
}

#[test]
fn rejects_truncated_input() {
    let err = decode(&[0x52, 0x49], 48_000).unwrap_err();
    assert_eq!(err, WavError::Truncated);
}

#[test]
fn rejects_missing_riff_magic() {
    let mut bytes = make_pcm16_wav(48_000, 1, &[0]);
    bytes[0] = b'X';
    let err = decode(&bytes, 48_000).unwrap_err();
    assert_eq!(err, WavError::NotRiff);
}

#[test]
fn odd_sized_chunk_padding_is_skipped_correctly() {
    let samples: Vec<i16> = vec![100, -100];
    let mut bytes = Vec::new();
    bytes.extend_from_slice(b"RIFF");
    let mut body = Vec::new();
    body.extend_from_slice(b"WAVE");

    body.extend_from_slice(b"junk");
    body.extend_from_slice(&3u32.to_le_bytes());
    body.extend_from_slice(&[1, 2, 3, 0]);

    body.extend_from_slice(b"fmt ");
    body.extend_from_slice(&16u32.to_le_bytes());
    body.extend_from_slice(&1u16.to_le_bytes());
    body.extend_from_slice(&1u16.to_le_bytes());
    body.extend_from_slice(&48_000u32.to_le_bytes());
    body.extend_from_slice(&(48_000u32 * 2).to_le_bytes());
    body.extend_from_slice(&2u16.to_le_bytes());
    body.extend_from_slice(&16u16.to_le_bytes());

    let data_bytes: Vec<u8> = samples.iter().flat_map(|s| s.to_le_bytes()).collect();
    body.extend_from_slice(b"data");
    body.extend_from_slice(&(data_bytes.len() as u32).to_le_bytes());
    body.extend_from_slice(&data_bytes);

    bytes.extend_from_slice(&(body.len() as u32).to_le_bytes());
    bytes.extend_from_slice(&body);

    let sound = decode(&bytes, 48_000)
        .expect("unknown odd-sized chunk must be skipped, not break parsing");
    assert_eq!(sound.frames, 2);
}

fn make_sine_wave_wav(
    sample_rate: u32,
    freq_hz: f32,
    frames: usize,
    amplitude: i16,
) -> Vec<u8> {
    let mut samples = Vec::with_capacity(frames * 2);
    for i in 0..frames {
        let t = i as f32 / sample_rate as f32;
        let v = (amplitude as f32 * (2.0 * std::f32::consts::PI * freq_hz * t).sin()) as i16;
        samples.push(v);
        samples.push(v);
    }
    make_pcm16_wav(sample_rate, 2, &samples)
}

fn estimate_frequency_hz(left_channel: &[f32], sample_rate: u32) -> f32 {
    let margin = left_channel.len() / 20;
    let core = &left_channel[margin..left_channel.len() - margin];
    let mut crossings = 0usize;
    for w in core.windows(2) {
        if (w[0] <= 0.0 && w[1] > 0.0) || (w[0] >= 0.0 && w[1] < 0.0) {
            crossings += 1;
        }
    }
    let cycles = crossings as f32 / 2.0;
    let duration_s = core.len() as f32 / sample_rate as f32;
    cycles / duration_s
}

#[test]
fn decodes_a_non_48k_wav_by_resampling_to_the_output_rate() {
    const SOURCE_RATE: u32 = 44_100;
    const OUTPUT_RATE: u32 = 48_000;
    const FREQ_HZ: f32 = 1_000.0;
    const FRAME_COUNT: usize = 4_410;

    let bytes = make_sine_wave_wav(SOURCE_RATE, FREQ_HZ, FRAME_COUNT, 20_000);
    let sound =
        decode(&bytes, OUTPUT_RATE).expect("non-48k wav must now decode via resampling");

    assert_eq!(sound.sample_rate, OUTPUT_RATE);
    let expected_frames =
        convert_frame_count(FRAME_COUNT as u64, SOURCE_RATE, OUTPUT_RATE);
    assert_eq!(sound.frames as u64, expected_frames);
    assert_eq!(sound.interleaved.len(), sound.frames * CHANNELS);

    let left: Vec<f32> = (0..sound.frames)
        .map(|i| frame(&sound, i).0)
        .collect();
    let estimated = estimate_frequency_hz(&left, OUTPUT_RATE);
    assert!(
        (estimated - FREQ_HZ).abs() / FREQ_HZ < 0.02,
        "resampled SE frequency should stay close to {FREQ_HZ} Hz, got {estimated} Hz"
    );
}

#[test]
fn bypasses_resampling_when_rates_already_match() {
    let samples: Vec<i16> = vec![0, 0, 16384, -16384, 32767, -32768];
    let bytes = make_pcm16_wav(48_000, 2, &samples);
    let sound = decode(&bytes, 48_000).expect("valid 48k wav must decode");

    assert_eq!(sound.frames, 3);
    let (l1, r1) = frame(&sound, 1);
    assert_eq!(l1, 16384.0 / 32768.0);
    assert_eq!(r1, -16384.0 / 32768.0);
    let (l2, r2) = frame(&sound, 2);
    assert_eq!(l2, 32767.0 / 32768.0);
    assert_eq!(r2, -1.0);
}
