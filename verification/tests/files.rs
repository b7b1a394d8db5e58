//! Faults of sound and music files, and what is planned for the tracks of good ones.

use std::sync::Arc;

use audioware::decode::{
    plan_track, plan_tracks, CodecFailure, DiscardStep, Fetched, NativeReader, SharedBytes,
    TrackInfo, TrackPlan,
};
use audioware::resample::ResampleError;
use audioware::wav::{self, WavError, WavFormat};
use audioware::{DecodeError, SampleMath, SymphoniaDecoder};

/// Single-precision arithmetic of the machine.
struct F32Math;

impl SampleMath for F32Math {
    fn plus(&self, a: u32, b: u32) -> u32 {
        w(f(a) + f(b))
    }

    fn minus(&self, a: u32, b: u32) -> u32 {
        w(f(a) - f(b))
    }

    fn times(&self, a: u32, b: u32) -> u32 {
        w(f(a) * f(b))
    }

    fn over(&self, a: u32, b: u32) -> u32 {
        w(f(a) / f(b))
    }

    fn magnitude(&self, a: u32) -> u32 {
        w(f(a).abs())
    }

    fn sign(&self, a: u32) -> u32 {
        w(f(a).signum())
    }

    fn at_most(&self, a: u32, b: u32) -> bool {
        f(a) <= f(b)
    }

    fn of_count(&self, n: u32) -> u32 {
        w(n as f32)
    }

    fn of_pcm16(&self, n: i16) -> u32 {
        w(n as f32)
    }

    fn to_count(&self, a: u32) -> u32 {
        f(a).round() as u32
    }
}

/// The word of a number.
fn w(x: f32) -> u32 {
    x.to_bits()
}

/// The number of a word.
fn f(x: u32) -> f32 {
    f32::from_bits(x)
}

fn make_pcm16_wav(sample_rate: u32, channels: u16, samples: &[i16]) -> Vec<u8> {
    let bytes_per_sample = 2u32;
    let block_align = bytes_per_sample as u16 * channels;
    let byte_rate = sample_rate * block_align as u32;
    let data_bytes: Vec<u8> = samples.iter().flat_map(|s| s.to_le_bytes()).collect();
    let data_size = data_bytes.len() as u32;
    let fmt_size: u32 = 16;
    let riff_size = 4 + (8 + fmt_size) + (8 + data_size);

    let mut out = Vec::new();
    out.extend_from_slice(b"RIFF");
    out.extend_from_slice(&riff_size.to_le_bytes());
    out.extend_from_slice(b"WAVE");

    out.extend_from_slice(b"fmt ");
    out.extend_from_slice(&fmt_size.to_le_bytes());
    out.extend_from_slice(&1u16.to_le_bytes());
    out.extend_from_slice(&channels.to_le_bytes());
    out.extend_from_slice(&sample_rate.to_le_bytes());
    out.extend_from_slice(&byte_rate.to_le_bytes());
    out.extend_from_slice(&block_align.to_le_bytes());
    out.extend_from_slice(&16u16.to_le_bytes());

    out.extend_from_slice(b"data");
    out.extend_from_slice(&data_size.to_le_bytes());
    out.extend_from_slice(&data_bytes);

    out
}


/// A file with the given format fields and two bytes of samples.
fn file_with(format_tag: u16, channels: u16, bits: u16) -> Vec<u8> {
    let mut bytes = make_pcm16_wav(48_000, channels, &[7]);
    bytes[20..22].copy_from_slice(&format_tag.to_le_bytes());
    bytes[34..36].copy_from_slice(&bits.to_le_bytes());
    bytes
}

fn fault(bytes: &[u8]) -> WavError {
    wav::decode(&F32Math, bytes, 48_000).unwrap_err()
}

#[test]
fn every_fault_of_a_sound_file_is_told() {
    let good = make_pcm16_wav(48_000, 1, &[1, 2, 3]);

    let mut not_wave = good.clone();
    not_wave[8] = b'X';
    assert_eq!(fault(&not_wave), WavError::NotWave);

    assert_eq!(fault(&good[..12]), WavError::MissingFmtChunk);
    assert_eq!(fault(&good[..36]), WavError::MissingDataChunk);
    assert_eq!(fault(&good[..48]), WavError::Truncated);
    assert_eq!(fault(&good[..11]), WavError::Truncated);
    assert_eq!(fault(&[]), WavError::Truncated);

    let mut short_format = good.clone();
    short_format[16] = 14;
    assert_eq!(fault(&short_format), WavError::MissingFmtChunk);

    assert_eq!(fault(&file_with(3, 1, 16)), WavError::UnsupportedFormatTag(3));
    assert_eq!(fault(&file_with(1, 1, 24)), WavError::UnsupportedBitsPerSample(24));
    assert_eq!(fault(&file_with(1, 6, 16)), WavError::UnsupportedChannelCount(6));
}

#[test]
fn the_first_of_several_faults_is_reported() {
    assert_eq!(fault(&file_with(3, 6, 24)), WavError::UnsupportedFormatTag(3));
    assert_eq!(fault(&file_with(1, 6, 24)), WavError::UnsupportedBitsPerSample(24));
}

#[test]
fn sound_file_faults_have_messages() {
    assert_eq!(
        WavError::UnsupportedFormatTag(3).message(),
        "unsupported wav format tag 3 (only PCM = 1 is supported in M1)"
    );
    assert_eq!(
        WavError::InvalidSampleRate(0).message(),
        "invalid sample rate 0 Hz (must be > 0)"
    );
    assert_eq!(WavError::NotRiff.message(), "not a RIFF file (missing 'RIFF' magic)");
    assert_eq!(
        WavError::Resample(ResampleError::Processing("x".into())).message(),
        "resampling failed: x"
    );
}

#[test]
fn a_plain_sound_file_is_read_back() {
    let bytes = make_pcm16_wav(44_100, 2, &[1, -2, 3, -4]);
    let (format, data) = wav::parse(&bytes).unwrap();
    assert_eq!(
        format,
        WavFormat { format_tag: 1, channels: 2, sample_rate: 44_100, bits_per_sample: 16 }
    );
    assert_eq!(data, &[1, 0, 254, 255, 3, 0, 252, 255]);
}

#[test]
fn an_incomplete_frame_at_the_end_of_a_sound_file_is_dropped() {
    let bytes = make_pcm16_wav(48_000, 2, &[100, 200, 300]);
    let decoded = wav::decode(&F32Math, &bytes, 48_000).unwrap();
    assert_eq!(decoded.sound.frames, 1);
    assert_eq!(decoded.sound.interleaved.len(), 2);
    assert!(!decoded.needs_resampling);
}

#[test]
fn a_failed_conversion_of_a_sound_is_reported() {
    let err = wav::finish_resampled(48_000, Err(ResampleError::Construction("no".into())));
    assert_eq!(
        err.unwrap_err(),
        WavError::Resample(ResampleError::Construction("no".into()))
    );
}

fn track(id: u32) -> TrackInfo {
    TrackInfo {
        id,
        codec_is_null: false,
        codec_is_registered: true,
        sample_rate: Some(44_100),
        channels: Some(2),
        n_frames: Some(44_100),
    }
}

#[test]
fn a_track_is_planned_at_the_rate_of_the_output() {
    let plan = plan_track(&track(5), 48_000).unwrap();
    assert_eq!(
        plan,
        TrackPlan { track_id: 5, source_sample_rate: 44_100, total_frames: Some(48_000) }
    );
    let endless = TrackInfo { n_frames: None, ..track(5) };
    assert_eq!(plan_track(&endless, 48_000).unwrap().total_frames, None);
}

#[test]
fn every_fault_of_a_track_is_told() {
    let no_rate = TrackInfo { sample_rate: None, ..track(1) };
    assert!(matches!(plan_track(&no_rate, 48_000), Err(DecodeError::NoAudioTrack)));
    let zero_rate = TrackInfo { sample_rate: Some(0), channels: None, ..track(1) };
    assert!(matches!(plan_track(&zero_rate, 48_000), Err(DecodeError::InvalidSampleRate(0))));
    let no_channels = TrackInfo { channels: None, ..track(1) };
    assert!(matches!(plan_track(&no_channels, 48_000), Err(DecodeError::NoAudioTrack)));
    let surround = TrackInfo { channels: Some(6), ..track(1) };
    assert!(matches!(
        plan_track(&surround, 48_000),
        Err(DecodeError::UnsupportedChannelCount(6))
    ));
}

#[test]
fn the_first_playable_track_is_chosen() {
    let unnamed = TrackInfo { codec_is_null: true, ..track(1) };
    let unknown = TrackInfo { codec_is_registered: false, ..track(2) };
    let tracks = vec![unnamed, unknown, track(3), track(4)];
    let (index, plan) = plan_tracks(&tracks, 48_000).unwrap();
    assert_eq!(index, 2);
    assert_eq!(plan.track_id, 3);
    assert!(matches!(
        plan_tracks(&vec![unnamed, unknown], 48_000),
        Err(DecodeError::NoAudioTrack)
    ));
    assert!(matches!(plan_tracks(&vec![], 48_000), Err(DecodeError::NoAudioTrack)));
}

#[test]
fn a_file_that_holds_no_music_is_refused() {
    let err = match SymphoniaDecoder::open(vec![0u8; 64], 48_000) {
        Ok(_) => panic!("there is no music in here"),
        Err(e) => e,
    };
    assert!(matches!(err, DecodeError::Symphonia(_)));
    assert!(err.message().starts_with("symphonia decode error: "));
}

#[test]
fn opening_a_file_finds_its_track() {
    let bytes = make_pcm16_wav(44_100, 1, &[1, 2, 3, 4]);
    let decoder = SymphoniaDecoder::open(bytes, 88_200).unwrap();
    assert_eq!(decoder.source_sample_rate, 44_100);
    assert_eq!(decoder.total_frames(), Some(8));
    assert!(decoder.needs_resampler());
    assert_eq!(decoder.position_frames, 0);
    let refused = decoder.with_resampler(Err(ResampleError::Construction("no".into())));
    assert!(matches!(
        refused.err(),
        Some(DecodeError::Resample(ResampleError::Construction(_)))
    ));
}

#[test]
fn a_track_without_a_decoder_is_refused() {
    let bytes = make_pcm16_wav(44_100, 2, &[1, 2, 3, 4]);
    let plan = TrackPlan { track_id: 0, source_sample_rate: 44_100, total_frames: Some(2) };
    let file = SymphoniaDecoder::open(bytes.clone(), 44_100).unwrap().container;
    let refusal = Some(CodecFailure::Other("no such codec".into()));
    match SymphoniaDecoder::start(file, plan, refusal, 44_100) {
        Err(DecodeError::Symphonia(text)) => assert_eq!(text, "no such codec"),
        _ => panic!("there is no decoder"),
    }
    let file = SymphoniaDecoder::open(bytes, 44_100).unwrap().container;
    let decoder = SymphoniaDecoder::start(file, plan, None, 44_100).unwrap();
    assert_eq!(decoder.total_frames(), Some(2));
}

#[test]
fn packets_come_out_of_the_file_until_it_ends() {
    let samples: Vec<i16> = (0..4_000).collect();
    let mut decoder = SymphoniaDecoder::open(make_pcm16_wav(44_100, 2, &samples), 44_100).unwrap();
    let mut bytes = Vec::new();
    while let Fetched::Packet(packet) = decoder.fetch_packet().unwrap() {
        assert_eq!(packet.track_id(), decoder.native.track_id);
        bytes.extend_from_slice(&packet.data);
    }
    assert!(decoder.native.eof);
    let expected: Vec<u8> = samples.iter().flat_map(|x| x.to_le_bytes()).collect();
    assert_eq!(bytes, expected);
}

#[test]
fn packets_of_other_tracks_are_passed_over() {
    let bytes = make_pcm16_wav(44_100, 2, &[1, 2, 3, 4]);
    let mut decoder = SymphoniaDecoder::open(bytes, 44_100).unwrap();
    decoder.native.track_id += 1;
    assert!(matches!(decoder.fetch_packet(), Ok(Fetched::Foreign)));
    assert!(matches!(decoder.fetch_packet(), Ok(Fetched::End)));
}

#[test]
fn a_seek_lands_at_or_before_its_target() {
    let samples: Vec<i16> = (0..8_000).collect();
    let mut decoder = SymphoniaDecoder::open(make_pcm16_wav(24_000, 2, &samples), 48_000).unwrap();
    let left = decoder.begin_seek(6_000).unwrap();
    assert!(left <= 3_000);
    let first = match decoder.fetch_packet() {
        Ok(Fetched::Packet(packet)) => i16::from_le_bytes([packet.data[0], packet.data[1]]),
        _ => panic!("the file goes on"),
    };
    assert_eq!(first as u64 / 2 + left, 3_000);
    assert!(matches!(decoder.begin_seek(1_000_000), Err(DecodeError::Symphonia(_))));
}

#[test]
fn failures_of_the_decoding_library_are_told_apart() {
    let end = std::io::Error::new(std::io::ErrorKind::UnexpectedEof, "gone");
    let broken = std::io::Error::new(std::io::ErrorKind::InvalidData, "broken");
    assert!(matches!(
        CodecFailure::from(symphonia::core::errors::Error::IoError(end)),
        CodecFailure::UnexpectedEnd(_)
    ));
    assert!(matches!(
        CodecFailure::from(symphonia::core::errors::Error::IoError(broken)),
        CodecFailure::Io(_)
    ));
    assert!(matches!(
        CodecFailure::from(symphonia::core::errors::Error::DecodeError("bad")),
        CodecFailure::Malformed(_)
    ));
    assert!(matches!(
        CodecFailure::from(symphonia::core::errors::Error::ResetRequired),
        CodecFailure::ResetRequired
    ));
    match CodecFailure::from(symphonia::core::errors::Error::Unsupported("codec")) {
        CodecFailure::Other(text) => assert!(text.contains("codec")),
        other => panic!("unexpected {other:?}"),
    }
}

#[test]
fn a_missing_packet_ends_the_music_or_fails() {
    let mut reader = NativeReader::new(1);
    assert!(reader.wants(1) && !reader.wants(2));
    let failed = reader.packet_missing(CodecFailure::Malformed("bad".into()));
    assert!(matches!(failed, Err(DecodeError::Symphonia(text)) if text == "bad"));
    assert!(!reader.eof);
    assert!(reader.packet_missing(CodecFailure::UnexpectedEnd("end".into())).is_ok());
    assert!(reader.eof);
}

#[test]
fn packets_that_cannot_be_decoded_are_skipped_unless_the_decoder_is_lost() {
    let reader = NativeReader::new(1);
    assert!(reader.packet_undecodable(CodecFailure::Malformed("bad".into())).is_ok());
    assert!(reader.packet_undecodable(CodecFailure::Io("bad".into())).is_ok());
    assert!(reader.packet_undecodable(CodecFailure::UnexpectedEnd("bad".into())).is_ok());
    assert!(matches!(
        reader.packet_undecodable(CodecFailure::ResetRequired),
        Err(DecodeError::ResetRequired)
    ));
    assert!(matches!(
        reader.packet_undecodable(CodecFailure::Other("odd".into())),
        Err(DecodeError::Symphonia(text)) if text == "odd"
    ));
}

#[test]
fn packets_are_spread_to_stereo() {
    let mut reader = NativeReader::new(1);
    assert!(!reader.packet_decoded(&F32Math, 0, 1, &[]).unwrap());
    assert!(reader.packet_decoded(&F32Math, 2, 1, &[w(1.0), w(-1.0)]).unwrap());
    let gain = std::f32::consts::FRAC_1_SQRT_2;
    assert_eq!(reader.pending, vec![w(gain), w(gain), w(-gain), w(-gain)]);
    assert!(reader.packet_decoded(&F32Math, 1, 2, &[w(0.25), w(0.5)]).unwrap());
    assert_eq!(reader.pending, vec![w(0.25), w(0.5)]);
    assert!(matches!(
        reader.packet_decoded(&F32Math, 1, 3, &[0, 0, 0]),
        Err(DecodeError::UnsupportedChannelCount(3))
    ));
    assert_eq!(reader.pending_frames(), 0);
}

#[test]
fn frames_keep_their_order_over_several_reads() {
    let mut reader = NativeReader::new(1);
    let samples: Vec<u32> = (0..6).collect();
    reader.packet_decoded(&F32Math, 3, 2, &samples).unwrap();
    let mut first = [9; 2];
    let mut second = [9; 6];
    assert_eq!(reader.read_available(&mut first, 0), 1);
    assert_eq!(reader.read_available(&mut second, 0), 2);
    assert_eq!(first, [0, 1]);
    assert_eq!(second, [2, 3, 4, 5, 9, 9]);
    assert_eq!(reader.pending_frames(), 0);
}

#[test]
fn frames_before_a_seek_target_are_dropped_across_packets() {
    let mut reader = NativeReader::new(1);
    let left = reader.restart(1_005, 1_000);
    assert_eq!(left, 5);
    reader.packet_decoded(&F32Math, 3, 2, &[0, 0, 1, 1, 2, 2]).unwrap();
    assert_eq!(reader.discard_step(left), DiscardStep::Packet(2));
    reader.packet_decoded(&F32Math, 3, 2, &[3, 3, 4, 4, 5, 5]).unwrap();
    assert_eq!(reader.discard_step(2), DiscardStep::Done);
    let mut out = [9; 2];
    assert_eq!(reader.read_available(&mut out, 0), 1);
    assert_eq!(out, [5, 5]);
    assert_eq!(reader.restart(7, 9), 0);
    reader.packet_missing(CodecFailure::UnexpectedEnd("end".into())).unwrap();
    assert_eq!(reader.discard_step(1), DiscardStep::Done);
}

#[test]
fn shared_bytes_are_the_bytes() {
    let bytes = Arc::new(vec![1u8, 2, 3]);
    assert_eq!(SharedBytes::new(Arc::clone(&bytes)).as_ref(), &[1, 2, 3]);
    assert_eq!(SharedBytes::from(Arc::clone(&bytes)).as_ref(), &[1, 2, 3]);
    assert_eq!(SharedBytes::from(vec![4u8]).as_ref(), &[4]);
    assert_eq!(Arc::strong_count(&bytes), 1);
}
