//! The mixer.

use std::sync::Arc;

use audioware::command::ScheduledSe;
use audioware::event::{Event, EventQueue};
use audioware::mixer::{self, BgmHandles};
use audioware::{
    ms_to_samples, BusId, Command, CommandSender, Config, DecodeError, Mixer, MusicDecoder,
    MusicState, MusicStreamProducer, ReclaimReceiver, SampleMath, SoundData,
    StreamingMusicSource, CHANNELS,
};

/// Single-precision arithmetic of the machine.
struct F32Math;

impl SampleMath for F32Math {
    fn plus(&self, a: u32, b: u32) -> u32 {
        w(f(a) + f(b))
    }

    fn minus(&self, a: u32, b: u32) -> u32 {
        w(f(a) - f(b))
    }

    fn times(&self, a: u32, b: u32) -> u32 {
        w(f(a) * f(b))
    }

    fn over(&self, a: u32, b: u32) -> u32 {
        w(f(a) / f(b))
    }

    fn magnitude(&self, a: u32) -> u32 {
        w(f(a).abs())
    }

    fn sign(&self, a: u32) -> u32 {
        w(f(a).signum())
    }

    fn at_most(&self, a: u32, b: u32) -> bool {
        f(a) <= f(b)
    }

    fn of_count(&self, n: u32) -> u32 {
        w(n as f32)
    }

    fn of_pcm16(&self, n: i16) -> u32 {
        w(n as f32)
    }

    fn to_count(&self, a: u32) -> u32 {
        f(a).round() as u32
    }
}

/// The word of a number.
fn w(x: f32) -> u32 {
    x.to_bits()
}

/// The number of a word.
fn f(x: u32) -> f32 {
    f32::from_bits(x)
}

/// The parts of a mixer at a sample rate.
fn build(
    config: Config,
    sample_rate: u32,
) -> (
    Mixer<StreamingMusicSource>,
    CommandSender,
    ReclaimReceiver,
    MusicStreamProducer,
    BgmHandles,
) {
    mixer::build(&F32Math, config, sample_rate, true)
}

/// Renders to a buffer of numbers.
fn render(mixer: &mut Mixer<StreamingMusicSource>, out: &mut [f32], start_ns: u64) {
    let mut words: Vec<u32> = out.iter().map(|x| w(*x)).collect();
    mixer.render(&F32Math, &mut words, start_ns);
    for (x, word) in out.iter_mut().zip(&words) {
        *x = f(*word);
    }
}

fn constant_sound(frames: usize, value: f32) -> Arc<SoundData> {
    Arc::new(SoundData {
        sample_rate: 48_000,
        frames,
        interleaved: vec![w(value); frames * CHANNELS],
    })
}

#[test]
fn silence_by_default() {
    let (mut mixer, mut _sender, _reclaim, _music_producer, _bgm) =
        build(Config::default(), 48_000);
    let mut buf = vec![1.0; 32 * CHANNELS];
    render(&mut mixer, &mut buf, 0);
    assert!(buf.iter().all(|&s| s == 0.0));
}

#[test]
fn play_command_produces_sound_on_the_very_next_render_call() {
    let (mut mixer, mut sender, _reclaim, _music_producer, _bgm) =
        build(Config::default(), 48_000);
    assert!(sender.send(Command::PlaySe {
        voice_serial: 1,
        sound_id: 1,
        sound: constant_sound(100, 0.25),
        bus: BusId::Se,
        volume: w(1.0),
    }));

    let mut buf = vec![0.0; 4 * CHANNELS];
    render(&mut mixer, &mut buf, 0);

    assert_eq!(buf[0], 0.25);
    assert_eq!(buf[1], 0.25);
}

#[test]
fn bus_volume_scales_voice_output_exactly() {
    let (mut mixer, mut sender, _reclaim, _music_producer, _bgm) =
        build(Config::default(), 48_000);
    sender.send(Command::PlaySe {
        voice_serial: 1,
        sound_id: 1,
        sound: constant_sound(1_000, 1.0),
        bus: BusId::Se,
        volume: w(1.0),
    });

    sender.send(Command::SetBusVolume {
        bus: BusId::Se,
        volume: w(0.5),
    });

    let mut buf = vec![0.0; 300 * CHANNELS];
    render(&mut mixer, &mut buf, 0);

    let last_frame_l = buf[(299) * CHANNELS];
    assert!((last_frame_l - 0.5).abs() < 1e-6);
}

#[test]
fn master_bus_applies_once_not_double_counted_for_direct_master_voices() {
    let (mut mixer, mut sender, _reclaim, _music_producer, _bgm) =
        build(Config::default(), 48_000);
    sender.send(Command::PlaySe {
        voice_serial: 1,
        sound_id: 1,
        sound: constant_sound(1_000, 1.0),
        bus: BusId::Master,
        volume: w(1.0),
    });
    sender.send(Command::SetBusVolume {
        bus: BusId::Master,
        volume: w(0.5),
    });
    let mut buf = vec![0.0; 300 * CHANNELS];
    render(&mut mixer, &mut buf, 0);
    let last_l = buf[299 * CHANNELS];

    assert!((last_l - 0.5).abs() < 1e-6);
}

#[test]
fn exhaustion_steals_and_reclaims_via_reclaim_queue_not_in_place_drop() {
    let config = Config {
        max_voices: 1,
        steal_tail_capacity: 1,
        ..Config::default()
    };
    let (mut mixer, mut sender, mut reclaim, _music_producer, _bgm) =
        build(config, 48_000);

    sender.send(Command::PlaySe {
        voice_serial: 1,
        sound_id: 1,
        sound: constant_sound(10_000, 1.0),
        bus: BusId::Se,
        volume: w(1.0),
    });
    let mut buf = vec![0.0; 8 * CHANNELS];
    render(&mut mixer, &mut buf, 0);

    sender.send(Command::PlaySe {
        voice_serial: 2,
        sound_id: 1,
        sound: constant_sound(10_000, 1.0),
        bus: BusId::Se,
        volume: w(1.0),
    });

    let mut buf2 = vec![0.0; 300 * CHANNELS];
    render(&mut mixer, &mut buf2, 0);

    reclaim.drain();
    assert_eq!(
        mixer.active_voice_count(),
        1,
        "the stealer must occupy the single primary slot"
    );
}

#[test]
fn soft_clipper_engages_when_voices_sum_above_threshold() {
    let (mut mixer, mut sender, _reclaim, _music_producer, _bgm) =
        build(Config::default(), 48_000);
    for i in 0..4u64 {
        sender.send(Command::PlaySe {
            voice_serial: i + 1,
            sound_id: 1,
            sound: constant_sound(10, 0.9),
            bus: BusId::Se,
            volume: w(1.0),
        });
    }
    assert_eq!(mixer.clipper_engaged_count(), 0);
    let mut buf = vec![0.0; CHANNELS];
    render(&mut mixer, &mut buf, 0);

    assert!(mixer.clipper_engaged_count() > 0);
    assert!(buf[0] < 3.6);
}

const TEST_SAMPLE_RATE: u32 = 1_000;
const NS_PER_SAMPLE: u64 = 1_000_000_000 / TEST_SAMPLE_RATE as u64;

fn se_entry(voice_serial: u64, value: f32) -> ScheduledSe {
    ScheduledSe {
        voice_serial,
        sound_id: voice_serial,
        sound: constant_sound(1_000, value),
        bus: BusId::Se,
        volume: w(1.0),
    }
}

struct ConstantDecoder {
    cursor: u64,
    value: f32,
}

impl MusicDecoder for ConstantDecoder {
    fn read(&mut self, out: &mut [u32]) -> Result<usize, DecodeError> {
        let n = out.len() / CHANNELS;
        for i in 0..n {
            out[i * CHANNELS] = w(self.value);
            out[i * CHANNELS + 1] = w(self.value);
        }
        self.cursor += n as u64;
        Ok(n)
    }

    fn seek(&mut self, frame: u64) -> Result<(), DecodeError> {
        self.cursor = frame;
        Ok(())
    }

    fn total_frames(&self) -> Option<u64> {
        None
    }
}

struct FiniteDecoder {
    cursor: u64,
    total: u64,
}

impl MusicDecoder for FiniteDecoder {
    fn read(&mut self, out: &mut [u32]) -> Result<usize, DecodeError> {
        let want = out.len() / CHANNELS;
        let remaining = (self.total.saturating_sub(self.cursor)) as usize;
        let n = want.min(remaining);
        for i in 0..n {
            out[i * CHANNELS] = w(1.0);
            out[i * CHANNELS + 1] = w(1.0);
        }
        self.cursor += n as u64;
        Ok(n)
    }

    fn seek(&mut self, frame: u64) -> Result<(), DecodeError> {
        self.cursor = frame;
        Ok(())
    }

    fn total_frames(&self) -> Option<u64> {
        Some(self.total)
    }
}

fn make_music_ready(
    mixer: &mut Mixer<StreamingMusicSource>,
    producer: &mut MusicStreamProducer,
    value: f32,
) {
    let mut decoder = ConstantDecoder { cursor: 0, value };
    producer.pump(&mut mixer.music_source.shared, &mut decoder).expect("pump must succeed");
    let mut warmup = vec![0.0; 4 * CHANNELS];
    render(mixer, &mut warmup, 0);
    assert_eq!(mixer.music_state(), MusicState::Ready);
}

#[test]
fn se_schedule_fires_at_exact_sample_offset_within_buffer() {
    let (mut mixer, mut sender, _reclaim, _music_producer, _bgm) =
        build(Config::default(), TEST_SAMPLE_RATE);
    let offset = 7u64;
    assert!(sender.send(Command::SeSchedule {
        host_time_ns: offset * NS_PER_SAMPLE,
        entry: se_entry(1, 1.0),
    }));

    let frames = 16usize;
    let mut buf = vec![-1.0; frames * CHANNELS];
    render(&mut mixer, &mut buf, 0);

    for frame in 0..frames {
        let expected = if (frame as u64) < offset { 0.0 } else { 1.0 };
        assert!(
            (buf[frame * CHANNELS] - expected).abs() < 1e-6,
            "frame {frame}: expected {expected}, got {}",
            buf[frame * CHANNELS]
        );
    }
}

#[test]
fn se_schedule_offset_boundary_values() {
    {
        let (mut mixer, mut sender, _reclaim, _mp, _bgm) =
            build(Config::default(), TEST_SAMPLE_RATE);
        sender.send(Command::SeSchedule {
            host_time_ns: 0,
            entry: se_entry(1, 1.0),
        });
        let mut buf = vec![0.0; 8 * CHANNELS];
        render(&mut mixer, &mut buf, 0);
        assert!(
            (buf[0] - 1.0).abs() < 1e-6,
            "must fire exactly at frame 0 of the buffer"
        );
    }

    {
        let (mut mixer, mut sender, _reclaim, _mp, _bgm) =
            build(Config::default(), TEST_SAMPLE_RATE);
        let frames = 8usize;
        sender.send(Command::SeSchedule {
            host_time_ns: (frames as u64 - 1) * NS_PER_SAMPLE,
            entry: se_entry(1, 1.0),
        });
        let mut buf = vec![0.0; frames * CHANNELS];
        render(&mut mixer, &mut buf, 0);
        for frame in 0..frames - 1 {
            assert_eq!(
                buf[frame * CHANNELS],
                0.0,
                "frame {frame} must still be silent"
            );
        }
        assert!((buf[(frames - 1) * CHANNELS] - 1.0).abs() < 1e-6);
    }

    {
        let (mut mixer, mut sender, _reclaim, _mp, _bgm) =
            build(Config::default(), TEST_SAMPLE_RATE);
        let frames = 8usize;
        let buffer1_duration_ns = frames as u64 * NS_PER_SAMPLE;
        let target_ns = buffer1_duration_ns + 3 * NS_PER_SAMPLE;
        sender.send(Command::SeSchedule {
            host_time_ns: target_ns,
            entry: se_entry(1, 1.0),
        });

        let mut buf1 = vec![0.0; frames * CHANNELS];
        render(&mut mixer, &mut buf1, 0);
        assert!(
            buf1.iter().all(|&s| s == 0.0),
            "must not fire while still in the first buffer's window"
        );

        let mut buf2 = vec![0.0; frames * CHANNELS];
        render(&mut mixer, &mut buf2, buffer1_duration_ns);
        for frame in 0..3 {
            assert_eq!(buf2[frame * CHANNELS], 0.0);
        }
        assert!((buf2[3 * CHANNELS] - 1.0).abs() < 1e-6);
    }
}

#[test]
fn se_schedule_offset_advances_by_exactly_one_sample_per_sample_shift() {
    let frames = 40usize;
    for n in 0..frames as u64 {
        let (mut mixer, mut sender, _reclaim, _mp, _bgm) =
            build(Config::default(), TEST_SAMPLE_RATE);
        sender.send(Command::SeSchedule {
            host_time_ns: n * NS_PER_SAMPLE,
            entry: se_entry(1, 1.0),
        });
        let mut buf = vec![0.0; frames * CHANNELS];
        render(&mut mixer, &mut buf, 0);
        for frame in 0..frames as u64 {
            let expected = if frame < n { 0.0 } else { 1.0 };
            assert!(
                (buf[frame as usize * CHANNELS] - expected).abs() < 1e-6,
                "n={n}, frame={frame}: expected {expected}"
            );
        }
    }
}

#[test]
fn se_schedule_in_the_past_fires_immediately_at_offset_zero() {
    let (mut mixer, mut sender, _reclaim, _mp, _bgm) =
        build(Config::default(), TEST_SAMPLE_RATE);

    sender.send(Command::SeSchedule {
        host_time_ns: 0,
        entry: se_entry(1, 1.0),
    });
    let mut buf = vec![0.0; 8 * CHANNELS];
    render(&mut mixer, &mut buf, 10 * NS_PER_SAMPLE);
    assert!(
        (buf[0] - 1.0).abs() < 1e-6,
        "an overdue schedule must fire at the very first frame, not be dropped"
    );
}

#[test]
fn se_schedule_overflow_is_counted_not_silently_dropped() {
    let config = Config {
        schedule_queue_capacity: 2,
        ..Config::default()
    };
    let (mut mixer, mut sender, _reclaim, _mp, _bgm) =
        build(config, TEST_SAMPLE_RATE);

    for i in 0..2u64 {
        assert!(sender.send(Command::SeSchedule {
            host_time_ns: 1_000 * NS_PER_SAMPLE + i,
            entry: se_entry(i + 1, 1.0),
        }));
    }
    assert!(sender.send(Command::SeSchedule {
        host_time_ns: 1_000 * NS_PER_SAMPLE + 2,
        entry: se_entry(3, 1.0),
    }));

    assert_eq!(mixer.se_schedule_overflow_count(), 0);
    let mut buf = vec![0.0; 4 * CHANNELS];
    render(&mut mixer, &mut buf, 0);

    assert_eq!(
        mixer.se_schedule_overflow_count(),
        1,
        "the third schedule must be dropped-but-counted, not silently accepted"
    );
    assert_eq!(mixer.se_schedule_len(), 2);
}

#[test]
fn stop_voice_cancels_an_unfired_scheduled_se() {
    let (mut mixer, mut sender, _reclaim, _mp, _bgm) =
        build(Config::default(), TEST_SAMPLE_RATE);
    assert!(sender.send(Command::SeSchedule {
        host_time_ns: 5 * NS_PER_SAMPLE,
        entry: se_entry(1, 1.0),
    }));
    assert!(sender.send(Command::StopVoice { voice_serial: 1 }));

    let mut buf = vec![-1.0; 16 * CHANNELS];
    render(&mut mixer, &mut buf, 0);

    assert!(
        buf.iter().all(|&s| s == 0.0),
        "a scheduled voice cancelled before it fired must never make sound"
    );
    assert_eq!(
        mixer.se_schedule_len(),
        0,
        "the cancelled entry must actually be removed from the queue, not just skipped"
    );
}

#[test]
fn stop_voice_does_not_cancel_a_different_voices_unfired_schedule() {
    let (mut mixer, mut sender, _reclaim, _mp, _bgm) =
        build(Config::default(), TEST_SAMPLE_RATE);
    assert!(sender.send(Command::SeSchedule {
        host_time_ns: 5 * NS_PER_SAMPLE,
        entry: se_entry(1, 0.4),
    }));
    assert!(sender.send(Command::SeSchedule {
        host_time_ns: 5 * NS_PER_SAMPLE,
        entry: se_entry(2, 0.7),
    }));
    assert!(sender.send(Command::StopVoice { voice_serial: 1 }));

    let mut buf = vec![0.0; 16 * CHANNELS];
    render(&mut mixer, &mut buf, 0);

    assert!(
        (buf[5 * CHANNELS] - 0.7).abs() < 1e-6,
        "the untouched voice's schedule must still fire at its exact offset"
    );
}

#[test]
fn stop_voice_on_an_already_fired_voice_still_stops_it_via_the_ramp() {
    let (mut mixer, mut sender, _reclaim, _mp, _bgm) =
        build(Config::default(), TEST_SAMPLE_RATE);

    assert!(sender.send(Command::SeSchedule {
        host_time_ns: 0,
        entry: se_entry(7, 1.0),
    }));
    let mut buf1 = vec![0.0; 4 * CHANNELS];
    render(&mut mixer, &mut buf1, 0);
    assert!((buf1[0] - 1.0).abs() < 1e-6, "must have already fired");
    assert_eq!(mixer.se_schedule_len(), 0, "queue must be empty once fired");

    assert!(sender.send(Command::StopVoice { voice_serial: 7 }));
    let ramp_len = ms_to_samples(&F32Math, Config::DEFAULT_RAMP_MS, TEST_SAMPLE_RATE) as usize;
    let mut buf2 = vec![-1.0; ramp_len * CHANNELS];
    render(&mut mixer, &mut buf2, 4 * NS_PER_SAMPLE);

    let last_l = buf2[(ramp_len - 1) * CHANNELS];
    assert!(
        last_l.abs() < 1e-6,
        "an already-active voice must still ramp down to silence on StopVoice, got {last_l}"
    );
}

#[test]
fn stop_voices_using_sound_cancels_unfired_schedules_referencing_that_sound() {
    let (mut mixer, mut sender, _reclaim, _mp, _bgm) =
        build(Config::default(), TEST_SAMPLE_RATE);
    let released_sound_id = 100u64;
    let other_sound_id = 200u64;
    assert!(sender.send(Command::SeSchedule {
        host_time_ns: 5 * NS_PER_SAMPLE,
        entry: ScheduledSe {
            voice_serial: 1,
            sound_id: released_sound_id,
            sound: constant_sound(1_000, 0.9),
            bus: BusId::Se,
            volume: w(1.0),
        },
    }));
    assert!(sender.send(Command::SeSchedule {
        host_time_ns: 5 * NS_PER_SAMPLE,
        entry: ScheduledSe {
            voice_serial: 2,
            sound_id: other_sound_id,
            sound: constant_sound(1_000, 0.5),
            bus: BusId::Se,
            volume: w(1.0),
        },
    }));
    assert!(sender.send(Command::StopVoicesUsingSound {
        sound_id: released_sound_id,
    }));

    let mut buf = vec![0.0; 16 * CHANNELS];
    render(&mut mixer, &mut buf, 0);

    assert!(
        (buf[5 * CHANNELS] - 0.5).abs() < 1e-6,
        "only the schedule referencing the still-alive sound must fire"
    );
    assert_eq!(mixer.se_schedule_len(), 0);
}

#[test]
fn removal_preserves_ascending_order_so_remaining_schedules_still_fire_correctly() {
    let (mut mixer, mut sender, _reclaim, _mp, _bgm) =
        build(Config::default(), TEST_SAMPLE_RATE);

    let short_entry = |voice_serial: u64, value: f32| ScheduledSe {
        voice_serial,
        sound_id: voice_serial,
        sound: constant_sound(1, value),
        bus: BusId::Se,
        volume: w(1.0),
    };

    assert!(sender.send(Command::SeSchedule {
        host_time_ns: 3 * NS_PER_SAMPLE,
        entry: short_entry(1, 0.1),
    }));
    assert!(sender.send(Command::SeSchedule {
        host_time_ns: 6 * NS_PER_SAMPLE,
        entry: short_entry(2, 0.2),
    }));
    assert!(sender.send(Command::SeSchedule {
        host_time_ns: 9 * NS_PER_SAMPLE,
        entry: short_entry(3, 0.3),
    }));
    assert!(sender.send(Command::StopVoice { voice_serial: 2 }));

    let mut buf = vec![0.0; 16 * CHANNELS];
    render(&mut mixer, &mut buf, 0);

    assert!(
        (buf[3 * CHANNELS] - 0.1).abs() < 1e-6,
        "the earlier survivor must still fire at its own offset"
    );
    assert_eq!(
        buf[6 * CHANNELS],
        0.0,
        "the cancelled middle entry must not fire"
    );
    assert!(
        (buf[9 * CHANNELS] - 0.3).abs() < 1e-6,
        "the later survivor must still fire at its own offset, proving ordering was not corrupted"
    );
    assert_eq!(
        mixer.se_schedule_len(),
        0,
        "all three must have been consumed (2 fired, 1 cancelled)"
    );
}

#[test]
fn stop_voice_routes_the_cancelled_arc_through_the_reclaim_queue_not_an_inline_drop() {
    let (mut mixer, mut sender, mut reclaim, _mp, _bgm) =
        build(Config::default(), TEST_SAMPLE_RATE);
    assert!(sender.send(Command::SeSchedule {
        host_time_ns: 5 * NS_PER_SAMPLE,
        entry: se_entry(1, 1.0),
    }));
    assert!(sender.send(Command::StopVoice { voice_serial: 1 }));

    assert_eq!(reclaim.pending_len(), 0);
    let mut buf = vec![0.0; 8 * CHANNELS];
    render(&mut mixer, &mut buf, 0);

    assert_eq!(
        reclaim.pending_len(),
        1,
        "the cancelled schedule's Arc<SoundData> must be handed to the reclaim queue"
    );
    reclaim.drain();
    assert_eq!(reclaim.pending_len(), 0);
}

#[test]
fn music_play_scheduled_starts_exactly_at_sample_offset_with_fade_in() {
    let (mut mixer, mut sender, _reclaim, mut producer, _bgm) =
        build(Config::default(), TEST_SAMPLE_RATE);
    make_music_ready(&mut mixer, &mut producer, 1.0);

    let offset = 6u64;
    sender.send(Command::MusicPlayScheduled {
        host_time_ns: offset * NS_PER_SAMPLE,
    });

    let frames = 20usize;
    let mut buf = vec![-1.0; frames * CHANNELS];
    render(&mut mixer, &mut buf, 0);

    let ramp_len = ms_to_samples(&F32Math, Config::DEFAULT_RAMP_MS, TEST_SAMPLE_RATE) as u64;
    for frame in 0..frames as u64 {
        let l = buf[frame as usize * CHANNELS];
        if frame < offset {
            assert_eq!(
                l, 0.0,
                "frame {frame} must be silent before the scheduled start"
            );
            continue;
        }
        let k = frame - offset;
        let expected = if k < ramp_len {
            (k + 1) as f32 / ramp_len as f32
        } else {
            1.0
        };
        assert!(
            (l - expected).abs() < 1e-4,
            "frame {frame}: expected {expected}, got {l}"
        );
    }
    assert_eq!(mixer.music_state(), MusicState::Playing);
}

#[test]
fn music_play_scheduled_before_preroll_completion_is_deferred_then_fires_once_ready() {
    let (mut mixer, mut sender, _reclaim, mut producer, _bgm) =
        build(Config::default(), TEST_SAMPLE_RATE);

    assert_eq!(mixer.music_state(), MusicState::Loading);
    sender.send(Command::MusicPlayScheduled { host_time_ns: 0 });

    let mut buf = vec![0.0; 10 * CHANNELS];
    render(&mut mixer, &mut buf, 0);
    assert_eq!(mixer.music_state(), MusicState::Loading);
    assert!(
        mixer.music_schedule_deferred(),
        "must be flagged as deferred while preroll is incomplete"
    );
    assert!(buf.iter().all(|&s| s == 0.0));

    let mut decoder = ConstantDecoder {
        cursor: 0,
        value: 1.0,
    };
    producer.pump(&mut mixer.music_source.shared, &mut decoder).expect("pump must succeed");

    let mut buf2 = vec![-1.0; 10 * CHANNELS];
    render(&mut mixer, &mut buf2, 10_000 * NS_PER_SAMPLE);

    assert_eq!(
        mixer.music_state(),
        MusicState::Playing,
        "must fire on the very first render call where the voice becomes Ready"
    );
    assert!(
        !mixer.music_schedule_deferred(),
        "deferred flag must clear once it actually fires"
    );
    let ramp_len = ms_to_samples(&F32Math, Config::DEFAULT_RAMP_MS, TEST_SAMPLE_RATE) as f32;
    assert!(
        (buf2[0] - 1.0 / ramp_len).abs() < 1e-4,
        "must start immediately at offset 0 of this buffer once ready"
    );
}

#[test]
fn music_play_scheduled_in_the_past_when_already_ready_fires_immediately() {
    let (mut mixer, mut sender, _reclaim, mut producer, _bgm) =
        build(Config::default(), TEST_SAMPLE_RATE);
    make_music_ready(&mut mixer, &mut producer, 1.0);

    sender.send(Command::MusicPlayScheduled { host_time_ns: 0 });

    let mut buf = vec![-1.0; 10 * CHANNELS];
    render(&mut mixer, &mut buf, 2_000 * NS_PER_SAMPLE);

    assert_eq!(mixer.music_state(), MusicState::Playing);
    assert!(!mixer.music_schedule_deferred());
    assert!(
        buf[0] > 0.0,
        "an overdue music schedule must start at the very first frame, not be dropped"
    );
}

#[test]
fn render_publishes_music_clock_snapshot_after_every_call() {
    let (mut mixer, mut sender, _reclaim, mut producer, _bgm) =
        build(Config::default(), TEST_SAMPLE_RATE);
    make_music_ready(&mut mixer, &mut producer, 1.0);

    let snap_ready = mixer.music_clock.snapshot();
    assert_eq!(snap_ready.song_frames, 0);
    assert_eq!(snap_ready.sample_rate, TEST_SAMPLE_RATE);
    assert!(!snap_ready.is_playing);
    assert_eq!(snap_ready.generation, 0);

    let buffer_frames = 10u64;
    let buffer1_end_ns = buffer_frames * NS_PER_SAMPLE;
    sender.send(Command::MusicPlayScheduled {
        host_time_ns: buffer1_end_ns,
    });

    let mut buf = vec![0.0; buffer_frames as usize * CHANNELS];
    render(&mut mixer, &mut buf, buffer1_end_ns);

    let snap_playing = mixer.music_clock.snapshot();
    assert_eq!(
        snap_playing.song_frames, buffer_frames,
        "must reflect the position after this buffer's rendering, not before it"
    );
    assert_eq!(
        snap_playing.host_time_ns,
        buffer1_end_ns + buffer_frames * NS_PER_SAMPLE
    );
    assert!(snap_playing.is_playing);
    assert_eq!(
        snap_playing.generation, 0,
        "starting playback alone is not a discontinuity"
    );
}

#[test]
fn render_bumps_generation_exactly_once_on_seek_discontinuity() {
    let (mut mixer, mut sender, _reclaim, mut producer, _bgm) =
        build(Config::default(), TEST_SAMPLE_RATE);
    make_music_ready(&mut mixer, &mut producer, 1.0);

    sender.send(Command::MusicPlayScheduled { host_time_ns: 0 });
    let mut buf = vec![0.0; 20 * CHANNELS];
    render(&mut mixer, &mut buf, 0);
    assert_eq!(mixer.music_clock.snapshot().generation, 0);

    sender.send(Command::MusicSeek { frames: 500 });
    let mut buf2 = vec![0.0; 4 * CHANNELS];
    render(&mut mixer, &mut buf2, 100_000 * NS_PER_SAMPLE);

    let snap = mixer.music_clock.snapshot();
    assert_eq!(
        snap.generation, 1,
        "seek must bump the generation exactly once"
    );
    assert_eq!(
        snap.song_frames, 500,
        "the post-seek position must be reflected immediately, not the stale pre-seek one"
    );

    let mut buf3 = vec![0.0; 4 * CHANNELS];
    render(&mut mixer, &mut buf3, 200_000 * NS_PER_SAMPLE);
    assert_eq!(mixer.music_clock.snapshot().generation, 1);
}

fn drain_events(events: &mut EventQueue, max: usize) -> (Vec<Event>, u32) {
    let mut out = Vec::new();
    let (_, dropped) = events.drain(max, &mut out);
    (out, dropped)
}

#[test]
fn music_ended_event_is_pushed_on_natural_end() {
    let (mut mixer, mut sender, _reclaim, mut producer, _bgm) =
        build(Config::default(), TEST_SAMPLE_RATE);

    let mut decoder = FiniteDecoder {
        cursor: 0,
        total: 5,
    };
    producer.pump(&mut mixer.music_source.shared, &mut decoder).expect("pump must succeed");
    let mut warmup = vec![0.0; 4 * CHANNELS];
    render(&mut mixer, &mut warmup, 0);
    assert_eq!(mixer.music_state(), MusicState::Ready);

    sender.send(Command::MusicPlayScheduled { host_time_ns: 0 });

    let mut buf = vec![0.0; 20 * CHANNELS];
    render(&mut mixer, &mut buf, 0);
    assert_eq!(
        mixer.music_state(),
        MusicState::Ready,
        "must have returned to Ready via natural end"
    );

    let (out, dropped) = drain_events(&mut mixer.events, 10);
    assert_eq!(dropped, 0);
    assert!(
        out.contains(&Event::MusicEnded),
        "natural end must push a MusicEnded event, got {out:?}"
    );
}

#[test]
fn music_looped_event_is_pushed_with_the_restart_frame() {
    let (mut mixer, mut sender, _reclaim, mut producer, _bgm) =
        build(Config::default(), TEST_SAMPLE_RATE);
    make_music_ready(&mut mixer, &mut producer, 1.0);

    mixer.music_voice.set_loop(Some((0, 8)));

    sender.send(Command::MusicPlayScheduled { host_time_ns: 0 });
    let mut buf = vec![0.0; 64 * CHANNELS];
    render(&mut mixer, &mut buf, 0);

    let (out, dropped) = drain_events(&mut mixer.events, 10);
    assert_eq!(dropped, 0);
    let restart_frame = out.iter().find_map(|e| match e {
        Event::MusicLooped { restart_frame } => Some(*restart_frame),
        _ => None,
    });
    assert_eq!(
        restart_frame,
        Some(0),
        "must report the loop region's start frame, got {out:?}"
    );
}

#[test]
fn underrun_is_coalesced_across_callbacks_not_pushed_every_time() {
    let config = Config {
        preroll_ms: w(1.0),
        underrun_report_threshold_frames: 10,
        ..Config::default()
    };
    let (mut mixer, mut sender, _reclaim, mut producer, _bgm) =
        build(config, TEST_SAMPLE_RATE);
    make_music_ready(&mut mixer, &mut producer, 1.0);
    sender.send(Command::MusicPlayScheduled { host_time_ns: 0 });

    let mut buf = vec![0.0; 4 * CHANNELS];
    render(&mut mixer, &mut buf, 0);
    assert!(drain_events(&mut mixer.events, 10).0.is_empty());

    for _ in 0..2 {
        let mut buf = vec![0.0; 4 * CHANNELS];
        render(&mut mixer, &mut buf, 0);
        assert!(
            drain_events(&mut mixer.events, 10).0.is_empty(),
            "must not push an event before the coalescing threshold is reached"
        );
    }

    let mut buf = vec![0.0; 4 * CHANNELS];
    render(&mut mixer, &mut buf, 0);
    let (out, dropped) = drain_events(&mut mixer.events, 10);
    assert_eq!(dropped, 0);
    assert_eq!(
        out,
        vec![Event::Underrun { frames: 12 }],
        "consecutive underrunning callbacks must be coalesced into a single event"
    );
}

#[test]
fn clipper_engaged_event_is_pushed_when_the_clipper_activates() {
    let (mut mixer, mut sender, _reclaim, _mp, _bgm) =
        build(Config::default(), TEST_SAMPLE_RATE);
    for i in 0..4u64 {
        sender.send(Command::PlaySe {
            voice_serial: i + 1,
            sound_id: i + 1,
            sound: constant_sound(10, 0.9),
            bus: BusId::Se,
            volume: w(1.0),
        });
    }
    let mut buf = vec![0.0; CHANNELS];
    render(&mut mixer, &mut buf, 0);
    assert!(
        mixer.clipper_engaged_count() > 0,
        "test setup must actually clip"
    );

    let (out, dropped) = drain_events(&mut mixer.events, 10);
    assert_eq!(dropped, 0);

    assert!(out.contains(&Event::ClipperEngaged), "got {out:?}");

    mixer.report_clipping = false;
    let mut buf = vec![0.0; CHANNELS];
    render(&mut mixer, &mut buf, 0);
    let (out, _) = drain_events(&mut mixer.events, 10);
    assert!(!out.contains(&Event::ClipperEngaged));
}

#[test]
fn music_pause_command_freezes_position_then_resume_at_command_restarts_from_given_frame() {
    let (mut mixer, mut sender, _reclaim, mut producer, _bgm) =
        build(Config::default(), TEST_SAMPLE_RATE);
    make_music_ready(&mut mixer, &mut producer, 1.0);

    sender.send(Command::MusicPlayScheduled { host_time_ns: 0 });
    let mut buf = vec![0.0; 50 * CHANNELS];
    render(&mut mixer, &mut buf, 0);
    assert_eq!(mixer.music_state(), MusicState::Playing);

    sender.send(Command::MusicPause);

    let ramp_len = ms_to_samples(&F32Math, Config::DEFAULT_RAMP_MS, TEST_SAMPLE_RATE) as usize;
    let mut settle = vec![0.0; (ramp_len + 10) * CHANNELS];
    render(&mut mixer, &mut settle, 0);
    assert_eq!(mixer.music_state(), MusicState::Paused);

    let frozen = mixer.music_voice.position_frames();
    let mut idle = vec![0.0; 20 * CHANNELS];
    render(&mut mixer, &mut idle, 0);
    assert_eq!(
        mixer.music_voice.position_frames(),
        frozen,
        "a paused voice must not advance while no command arrives"
    );

    sender.send(Command::MusicResumeAt { frames: 3 });
    let mut resumed = vec![0.0; CHANNELS];
    render(&mut mixer, &mut resumed, 0);
    assert_eq!(mixer.music_state(), MusicState::Playing);
    assert_eq!(
        mixer.music_voice.position_frames(),
        3,
        "resume_at must reposition immediately, not after the fade-in settles"
    );
}

#[test]
fn music_stop_command_returns_to_ready_and_resets_position_to_zero() {
    let (mut mixer, mut sender, _reclaim, mut producer, _bgm) =
        build(Config::default(), TEST_SAMPLE_RATE);
    make_music_ready(&mut mixer, &mut producer, 1.0);

    sender.send(Command::MusicPlayScheduled { host_time_ns: 0 });
    let mut buf = vec![0.0; 50 * CHANNELS];
    render(&mut mixer, &mut buf, 0);
    assert!(
        mixer.music_voice.position_frames() > 0,
        "test setup must actually have advanced before stopping"
    );

    sender.send(Command::MusicStop);

    let ramp_len = ms_to_samples(&F32Math, Config::DEFAULT_RAMP_MS, TEST_SAMPLE_RATE) as usize;
    let mut settle = vec![0.0; (ramp_len + 10) * CHANNELS];
    render(&mut mixer, &mut settle, 0);

    assert_eq!(mixer.music_state(), MusicState::Ready);
    assert_eq!(mixer.music_voice.position_frames(), 0);
}

#[test]
fn music_set_loop_command_wraps_at_region_end_then_none_clears_it() {
    let (mut mixer, mut sender, _reclaim, mut producer, _bgm) =
        build(Config::default(), TEST_SAMPLE_RATE);
    make_music_ready(&mut mixer, &mut producer, 1.0);

    sender.send(Command::MusicSetLoop {
        region: Some((0, 8)),
    });
    sender.send(Command::MusicPlayScheduled { host_time_ns: 0 });
    let mut buf = vec![0.0; 64 * CHANNELS];
    render(&mut mixer, &mut buf, 0);
    assert_eq!(mixer.music_voice.loop_region(), Some((0, 8)));

    let (out, dropped) = drain_events(&mut mixer.events, 10);
    assert_eq!(dropped, 0);
    assert!(
        out.contains(&Event::MusicLooped { restart_frame: 0 }),
        "the loop region must actually wrap and report restart_frame=0, got {out:?}"
    );

    sender.send(Command::MusicSetLoop { region: None });
    let mut after = vec![0.0; CHANNELS];
    render(&mut mixer, &mut after, 0);
    assert_eq!(
        mixer.music_voice.loop_region(),
        None,
        "MusicSetLoop{{ region: None }} must clear the loop"
    );
}

#[test]
fn music_clock_snapshot_reflects_all_four_states_through_the_playback_lifecycle() {
    let (mut mixer, mut sender, _reclaim, mut producer, _bgm) =
        build(Config::default(), TEST_SAMPLE_RATE);

    let mut loading_buf = vec![0.0; 4 * CHANNELS];
    render(&mut mixer, &mut loading_buf, 0);
    let snap_loading = mixer.music_clock.snapshot();
    assert_eq!(snap_loading.state, MusicState::Loading);
    assert!(!snap_loading.is_playing);

    let mut decoder = ConstantDecoder {
        cursor: 0,
        value: 1.0,
    };
    producer.pump(&mut mixer.music_source.shared, &mut decoder).expect("pump must succeed");
    let mut warmup = vec![0.0; 4 * CHANNELS];
    render(&mut mixer, &mut warmup, 0);
    assert_eq!(mixer.music_state(), MusicState::Ready);
    let snap_ready = mixer.music_clock.snapshot();
    assert_eq!(snap_ready.state, MusicState::Ready);
    assert!(!snap_ready.is_playing);

    sender.send(Command::MusicPlayScheduled { host_time_ns: 0 });
    let mut playing_buf = vec![0.0; 20 * CHANNELS];
    render(&mut mixer, &mut playing_buf, 0);
    assert_eq!(mixer.music_state(), MusicState::Playing);
    let snap_playing = mixer.music_clock.snapshot();
    assert_eq!(snap_playing.state, MusicState::Playing);
    assert!(snap_playing.is_playing);

    sender.send(Command::MusicPause);
    let ramp_len = ms_to_samples(&F32Math, Config::DEFAULT_RAMP_MS, TEST_SAMPLE_RATE) as usize;
    let mut settle = vec![0.0; (ramp_len + 10) * CHANNELS];
    render(&mut mixer, &mut settle, 0);
    assert_eq!(mixer.music_state(), MusicState::Paused);
    let snap_paused = mixer.music_clock.snapshot();
    assert_eq!(snap_paused.state, MusicState::Paused);
    assert!(!snap_paused.is_playing);
}

#[test]
fn render_bumps_generation_on_resume_at_discontinuity() {
    let (mut mixer, mut sender, _reclaim, mut producer, _bgm) =
        build(Config::default(), TEST_SAMPLE_RATE);
    make_music_ready(&mut mixer, &mut producer, 1.0);

    sender.send(Command::MusicPlayScheduled { host_time_ns: 0 });
    let mut buf = vec![0.0; 20 * CHANNELS];
    render(&mut mixer, &mut buf, 0);
    assert_eq!(mixer.music_clock.snapshot().generation, 0);

    sender.send(Command::MusicResumeAt { frames: 500 });
    let mut buf2 = vec![0.0; 4 * CHANNELS];
    render(&mut mixer, &mut buf2, 100_000 * NS_PER_SAMPLE);

    let snap = mixer.music_clock.snapshot();
    assert_eq!(
        snap.generation, 1,
        "resume_at must bump the generation exactly once"
    );
    assert_eq!(
        snap.song_frames, 500,
        "the post-resume position must be reflected immediately"
    );

    let mut buf3 = vec![0.0; 4 * CHANNELS];
    render(&mut mixer, &mut buf3, 200_000 * NS_PER_SAMPLE);
    assert_eq!(mixer.music_clock.snapshot().generation, 1);
}

#[test]
fn music_prepare_command_resets_to_loading_and_clears_loop_region_even_while_playing() {
    let (mut mixer, mut sender, _reclaim, mut producer, _bgm) =
        build(Config::default(), TEST_SAMPLE_RATE);
    make_music_ready(&mut mixer, &mut producer, 1.0);

    sender.send(Command::MusicSetLoop {
        region: Some((0, 1_000)),
    });
    sender.send(Command::MusicPlayScheduled { host_time_ns: 0 });
    let mut buf = vec![0.0; 50 * CHANNELS];
    render(&mut mixer, &mut buf, 0);
    assert_eq!(mixer.music_state(), MusicState::Playing);
    assert!(mixer.music_voice.position_frames() > 0);

    sender.send(Command::MusicPrepare);
    let mut after = vec![0.0; CHANNELS];
    render(&mut mixer, &mut after, 0);

    assert_ne!(
        mixer.music_state(),
        MusicState::Playing,
        "prepare must never leave the voice stuck in Playing with a frozen gain"
    );
    assert_eq!(mixer.music_voice.position_frames(), 0);
    assert_eq!(mixer.music_voice.loop_region(), None);
}

#[test]
fn music_set_command_sequence_recovers_cleanly_from_a_song_still_playing() {
    let (mut mixer, mut sender, _reclaim, mut producer, _bgm) =
        build(Config::default(), TEST_SAMPLE_RATE);
    make_music_ready(&mut mixer, &mut producer, 1.0);

    sender.send(Command::MusicPlayScheduled { host_time_ns: 0 });
    let mut buf = vec![0.0; 50 * CHANNELS];
    render(&mut mixer, &mut buf, 0);
    assert_eq!(mixer.music_state(), MusicState::Playing);

    sender.send(Command::MusicPrepare);
    sender.send(Command::MusicStop);
    sender.send(Command::MusicSeek { frames: 0 });
    let mut after = vec![0.0; CHANNELS];
    render(&mut mixer, &mut after, 0);

    assert_eq!(mixer.music_state(), MusicState::Loading);
    assert_eq!(mixer.music_voice.position_frames(), 0);

    let mut decoder2 = ConstantDecoder {
        cursor: 0,
        value: 1.0,
    };
    producer.pump(&mut mixer.music_source.shared, &mut decoder2).expect("pump must succeed");
    let mut warmup = vec![0.0; 4 * CHANNELS];
    render(&mut mixer, &mut warmup, 0);
    assert_eq!(mixer.music_state(), MusicState::Ready);

    sender.send(Command::MusicPlayScheduled { host_time_ns: 0 });
    let ramp_len = ms_to_samples(&F32Math, Config::DEFAULT_RAMP_MS, TEST_SAMPLE_RATE) as usize;
    let mut settle = vec![0.0; (ramp_len + 10) * CHANNELS];
    render(&mut mixer, &mut settle, 0);
    assert_eq!(mixer.music_state(), MusicState::Playing);
    let last = settle[(ramp_len + 9) * CHANNELS];
    assert!(
        (last - 1.0).abs() < 1e-4,
        "must fade in to full volume, not stay stuck silent forever; got {last}"
    );
}

#[test]
fn preview_style_rapid_track_switch_never_leaks_previous_audio_and_settles_on_latest_track() {
    let (mut mixer, mut sender, _reclaim, mut producer, _bgm) =
        build(Config::default(), TEST_SAMPLE_RATE);

    make_music_ready(&mut mixer, &mut producer, 0.3);
    sender.send(Command::MusicPlayScheduled { host_time_ns: 0 });
    let mut buf = vec![0.0; 20 * CHANNELS];
    render(&mut mixer, &mut buf, 0);
    assert_eq!(mixer.music_state(), MusicState::Playing);

    sender.send(Command::MusicPrepare);
    sender.send(Command::MusicSeek { frames: 0 });
    let mut after_switch_to_b = vec![-1.0; 8 * CHANNELS];
    render(&mut mixer, &mut after_switch_to_b, 0);
    assert_eq!(mixer.music_state(), MusicState::Loading);
    assert!(
        after_switch_to_b.iter().all(|&s| s == 0.0),
        "switching must be silent immediately, not leak track A's PCM while B loads"
    );

    sender.send(Command::MusicPrepare);
    sender.send(Command::MusicSeek { frames: 0 });
    let mut after_switch_to_c = vec![-1.0; 8 * CHANNELS];
    render(&mut mixer, &mut after_switch_to_c, 0);
    assert_eq!(
        mixer.music_state(),
        MusicState::Loading,
        "a second switch before the first one finished loading must not get stuck"
    );
    assert!(after_switch_to_c.iter().all(|&s| s == 0.0));

    let mut decoder_c = ConstantDecoder {
        cursor: 0,
        value: 0.9,
    };
    producer.pump(&mut mixer.music_source.shared, &mut decoder_c).expect("pump must succeed");
    let mut warmup = vec![0.0; 4 * CHANNELS];
    render(&mut mixer, &mut warmup, 0);
    assert_eq!(
        mixer.music_state(),
        MusicState::Ready,
        "must reach Ready for the *last* requested track (C), not remain stuck in Loading"
    );

    sender.send(Command::MusicPlayScheduled { host_time_ns: 0 });
    let ramp_len = ms_to_samples(&F32Math, Config::DEFAULT_RAMP_MS, TEST_SAMPLE_RATE) as usize;
    let mut settle = vec![0.0; (ramp_len + 20) * CHANNELS];
    render(&mut mixer, &mut settle, 0);
    assert_eq!(mixer.music_state(), MusicState::Playing);
    let last = settle[(ramp_len + 19) * CHANNELS];
    assert!(
        (last - 0.9).abs() < 1e-4,
        "must fade in to track C's value (0.9), got {last}"
    );
    for &sample in settle.iter() {
        assert!(
            (sample - 0.3).abs() > 1e-3,
            "track A's PCM value (0.3) must never leak into the output after switching \
             tracks twice; got a sample of {sample}"
        );
    }
}

fn make_bgm_ready(
    mixer: &mut Mixer<StreamingMusicSource>,
    producer: &mut MusicStreamProducer,
    value: f32,
) {
    let mut decoder = ConstantDecoder { cursor: 0, value };
    producer.pump(&mut mixer.bgm_source.shared, &mut decoder).expect("pump must succeed");
    let mut warmup = vec![0.0; 4 * CHANNELS];
    render(mixer, &mut warmup, 0);
    assert_eq!(mixer.bgm_state(), MusicState::Ready);
}

#[test]
fn bgm_ready_then_play_fades_in_and_is_scaled_by_the_bgm_bus() {
    let (mut mixer, mut sender, _reclaim, _mp, mut bgm) =
        build(Config::default(), TEST_SAMPLE_RATE);
    make_bgm_ready(&mut mixer, &mut bgm.stream_producer, 1.0);

    assert_eq!(mixer.bgm_state.read(), MusicState::Ready);

    sender.send(Command::SetBusVolume {
        bus: BusId::Bgm,
        volume: w(0.5),
    });
    assert!(sender.send(Command::BgmPlay));

    let ramp_len = ms_to_samples(&F32Math, Config::DEFAULT_RAMP_MS, TEST_SAMPLE_RATE) as usize;
    let mut buf = vec![-1.0; (ramp_len + 20) * CHANNELS];
    render(&mut mixer, &mut buf, 0);

    assert_eq!(mixer.bgm_state(), MusicState::Playing);
    assert_eq!(mixer.bgm_state.read(), MusicState::Playing);

    let settled = buf[(ramp_len + 19) * CHANNELS];
    assert!(
        (settled - 0.5).abs() < 1e-3,
        "expected ~0.5 (full BGM gain x 0.5 bus volume), got {settled}"
    );

    assert!(buf[0] > 0.0 && buf[0] < settled);
}

#[test]
fn bgm_stop_fades_out_then_returns_to_ready_and_resets_position() {
    let (mut mixer, mut sender, _reclaim, _mp, mut bgm) =
        build(Config::default(), TEST_SAMPLE_RATE);
    make_bgm_ready(&mut mixer, &mut bgm.stream_producer, 1.0);
    sender.send(Command::BgmPlay);

    let mut warmup = vec![0.0; 50 * CHANNELS];
    render(&mut mixer, &mut warmup, 0);
    assert_eq!(mixer.bgm_state(), MusicState::Playing);
    assert!(mixer.bgm_voice.position_frames() > 0);

    assert!(sender.send(Command::BgmStop));
    let ramp_len = ms_to_samples(&F32Math, Config::DEFAULT_RAMP_MS, TEST_SAMPLE_RATE) as usize;
    let mut settle = vec![0.0; (ramp_len + 10) * CHANNELS];
    render(&mut mixer, &mut settle, 0);

    assert_eq!(mixer.bgm_state(), MusicState::Ready);
    assert_eq!(mixer.bgm_voice.position_frames(), 0);
    assert_eq!(mixer.bgm_state.read(), MusicState::Ready);
}

#[test]
fn bgm_and_music_voices_sum_together_on_the_shared_bgm_bus() {
    let (mut mixer, mut sender, _reclaim, mut producer, mut bgm) =
        build(Config::default(), TEST_SAMPLE_RATE);
    make_music_ready(&mut mixer, &mut producer, 0.3);
    make_bgm_ready(&mut mixer, &mut bgm.stream_producer, 0.4);

    sender.send(Command::MusicPlayScheduled { host_time_ns: 0 });
    sender.send(Command::BgmPlay);

    let ramp_len = ms_to_samples(&F32Math, Config::DEFAULT_RAMP_MS, TEST_SAMPLE_RATE) as usize;
    let mut buf = vec![0.0; (ramp_len + 20) * CHANNELS];
    render(&mut mixer, &mut buf, 0);

    assert_eq!(mixer.music_state(), MusicState::Playing);
    assert_eq!(mixer.bgm_state(), MusicState::Playing);

    let settled = buf[(ramp_len + 19) * CHANNELS];
    assert!(
        (settled - 0.7).abs() < 1e-3,
        "expected the two voices to sum to ~0.7 on the shared Bgm bus, got {settled}"
    );
}

#[test]
fn bgm_commands_never_touch_the_music_clock_or_the_song_voice() {
    let (mut mixer, mut sender, _reclaim, _mp, mut bgm) =
        build(Config::default(), TEST_SAMPLE_RATE);
    make_bgm_ready(&mut mixer, &mut bgm.stream_producer, 1.0);

    sender.send(Command::BgmPlay);
    let mut buf = vec![0.0; 100 * CHANNELS];
    render(&mut mixer, &mut buf, 0);
    sender.send(Command::BgmSetLoop {
        region: Some((0, 40)),
    });
    sender.send(Command::BgmStop);
    render(&mut mixer, &mut buf, 100 * NS_PER_SAMPLE);

    assert_eq!(mixer.music_state(), MusicState::Loading);

    let snapshot = mixer.music_clock.snapshot();
    assert_eq!(snapshot.song_frames, 0);
    assert_eq!(snapshot.generation, 0);
    assert!(!snapshot.is_playing);
}

#[test]
fn bgm_prepare_and_seek_reset_the_bgm_voice_not_the_song_voice() {
    let (mut mixer, mut sender, _reclaim, mut producer, mut bgm) =
        build(Config::default(), TEST_SAMPLE_RATE);
    make_music_ready(&mut mixer, &mut producer, 1.0);
    make_bgm_ready(&mut mixer, &mut bgm.stream_producer, 1.0);
    sender.send(Command::MusicPlayScheduled { host_time_ns: 0 });
    sender.send(Command::BgmPlay);

    let mut buf = vec![0.0; 50 * CHANNELS];
    render(&mut mixer, &mut buf, 0);
    assert_eq!(mixer.music_state(), MusicState::Playing);
    assert_eq!(mixer.bgm_state(), MusicState::Playing);

    sender.send(Command::BgmPrepare);
    sender.send(Command::BgmSeek { frames: 0 });
    let mut after = vec![0.0; CHANNELS];
    render(&mut mixer, &mut after, 0);

    assert_eq!(
        mixer.bgm_state(),
        MusicState::Loading,
        "BgmPrepare must reset only the BGM voice"
    );
    assert_eq!(mixer.bgm_voice.position_frames(), 0);
    assert_eq!(
        mixer.music_state(),
        MusicState::Playing,
        "the song voice must be completely unaffected by BGM commands"
    );
}

#[test]
fn bgm_loop_region_wraps_repeatedly_like_the_song_preview_loop() {
    let (mut mixer, mut sender, _reclaim, _mp, mut bgm) =
        build(Config::default(), TEST_SAMPLE_RATE);
    make_bgm_ready(&mut mixer, &mut bgm.stream_producer, 1.0);
    sender.send(Command::BgmPlay);
    sender.send(Command::BgmSetLoop {
        region: Some((0, 12)),
    });

    let mut warmup = vec![0.0; CHANNELS];
    render(&mut mixer, &mut warmup, 0);
    assert_eq!(mixer.bgm_loop_region(), Some((0, 12)));

    let mut loop_events_seen = 0;
    for _ in 0..20 {
        let mut buf = vec![0.0; 4 * CHANNELS];
        render(&mut mixer, &mut buf, 0);
        if mixer.bgm_voice.position_frames() < 12 {
            loop_events_seen += 1;
        }
    }
    assert!(
        loop_events_seen > 0,
        "the BGM voice must keep wrapping within its loop region"
    );
    assert!(mixer.bgm_voice.position_frames() < 12);

    sender.send(Command::BgmSetLoop { region: None });
    let mut after_clear = vec![0.0; 4 * CHANNELS];
    render(&mut mixer, &mut after_clear, 0);
    assert_eq!(mixer.bgm_loop_region(), None);
}
