//! What goes through the rings between the threads.

use std::sync::Arc;

use audioware::command::ScheduledSe;
use audioware::event::Event;
use audioware::mixer;
use audioware::stream::channel;
use audioware::{
    BusId, Command, Config, DecodeError, MusicDecoder, MusicFrameSource, MusicState, SampleMath,
    SoundData, CHANNELS,
};

/// Single-precision arithmetic of the machine.
struct F32Math;

impl SampleMath for F32Math {
    fn plus(&self, a: u32, b: u32) -> u32 {
        w(f(a) + f(b))
    }

    fn minus(&self, a: u32, b: u32) -> u32 {
        w(f(a) - f(b))
    }

    fn times(&self, a: u32, b: u32) -> u32 {
        w(f(a) * f(b))
    }

    fn over(&self, a: u32, b: u32) -> u32 {
        w(f(a) / f(b))
    }

    fn magnitude(&self, a: u32) -> u32 {
        w(f(a).abs())
    }

    fn sign(&self, a: u32) -> u32 {
        w(f(a).signum())
    }

    fn at_most(&self, a: u32, b: u32) -> bool {
        f(a) <= f(b)
    }

    fn of_count(&self, n: u32) -> u32 {
        w(n as f32)
    }

    fn of_pcm16(&self, n: i16) -> u32 {
        w(n as f32)
    }

    fn to_count(&self, a: u32) -> u32 {
        f(a).round() as u32
    }
}

/// The word of a number.
fn w(x: f32) -> u32 {
    x.to_bits()
}

/// The number of a word.
fn f(x: u32) -> f32 {
    f32::from_bits(x)
}

/// Counts up, one number per frame.
struct Counter {
    next: u32,
    end: Option<u32>,
}

impl MusicDecoder for Counter {
    fn read(&mut self, out: &mut [u32]) -> Result<usize, DecodeError> {
        let mut n = 0;
        while n < out.len() / CHANNELS && self.end.map_or(true, |end| self.next < end) {
            out[n * CHANNELS] = self.next;
            out[n * CHANNELS + 1] = self.next;
            self.next += 1;
            n += 1;
        }
        Ok(n)
    }

    fn seek(&mut self, frame: u64) -> Result<(), DecodeError> {
        self.next = frame as u32;
        Ok(())
    }

    fn total_frames(&self) -> Option<u64> {
        self.end.map(u64::from)
    }
}

fn preroll(ms: f32) -> Config {
    Config { preroll_ms: w(ms), ..Config::default() }
}

fn sound(frames: usize) -> Arc<SoundData> {
    Arc::new(SoundData {
        sample_rate: 1_000,
        frames,
        interleaved: vec![w(0.5); frames * CHANNELS],
    })
}

fn play(serial: u64, sound: &Arc<SoundData>) -> Command {
    Command::PlaySe {
        voice_serial: serial,
        sound_id: serial,
        sound: Arc::clone(sound),
        bus: BusId::Se,
        volume: w(1.0),
    }
}

#[test]
fn the_ring_of_a_stream_holds_four_times_the_preroll() {
    let (mut producer, mut source) = channel(&F32Math, preroll(5.0), 1_000);
    let mut decoder = Counter { next: 0, end: None };
    let outcome = producer.pump(&mut source.shared, &mut decoder).unwrap();
    assert_eq!(outcome.pushed_frames, 20);
    assert!(!outcome.reached_eof);
    assert_eq!(source.buffered_frames(), 20);
    let full = producer.pump(&mut source.shared, &mut decoder).unwrap();
    assert_eq!(full.pushed_frames, 0);
}

#[test]
fn a_stream_keeps_its_order_around_the_end_of_the_ring() {
    let (mut producer, mut source) = channel(&F32Math, preroll(5.0), 1_000);
    let mut decoder = Counter { next: 0, end: None };
    let mut heard = Vec::new();
    for step in 0..30 {
        producer.pump(&mut source.shared, &mut decoder).unwrap();
        let mut out = vec![77; (3 + step % 5) * CHANNELS];
        let n = source.read(&mut out);
        for frame in out.chunks(CHANNELS).take(n) {
            assert_eq!(frame[0], frame[1]);
            heard.push(frame[0]);
        }
    }
    let expected: Vec<u32> = (0..heard.len() as u32).collect();
    assert_eq!(heard, expected);
    assert!(heard.len() > 100);
}

/// Writes down how much it is asked for.
struct Asked {
    lens: Vec<usize>,
}

impl MusicDecoder for Asked {
    fn read(&mut self, out: &mut [u32]) -> Result<usize, DecodeError> {
        self.lens.push(out.len());
        Ok(out.len() / CHANNELS)
    }

    fn seek(&mut self, _frame: u64) -> Result<(), DecodeError> {
        Ok(())
    }

    fn total_frames(&self) -> Option<u64> {
        None
    }
}

#[test]
fn a_decoder_is_asked_to_fill_the_ring_up_to_its_last_slot_first() {
    let (mut producer, mut source) = channel(&F32Math, preroll(5.0), 1_000);
    let mut decoder = Asked { lens: Vec::new() };
    let mut out = vec![0; 15 * CHANNELS];
    for _ in 0..3 {
        producer.pump(&mut source.shared, &mut decoder).unwrap();
        assert_eq!(source.read(&mut out), 15);
    }
    assert_eq!(decoder.lens, [40, 30, 10, 20]);
}

#[test]
fn a_read_leaves_what_it_cannot_fill() {
    let (mut producer, mut source) = channel(&F32Math, preroll(5.0), 1_000);
    let mut decoder = Counter { next: 3, end: Some(5) };
    let outcome = producer.pump(&mut source.shared, &mut decoder).unwrap();
    assert_eq!(outcome.pushed_frames, 2);
    assert!(outcome.reached_eof);
    let mut out = vec![9; 4 * CHANNELS];
    assert_eq!(source.read(&mut out), 2);
    assert_eq!(out, vec![3, 3, 4, 4, 9, 9, 9, 9]);
    assert_eq!(source.total_frames(), Some(5));
    assert!(source.is_ready());
}

#[test]
fn a_seek_after_the_end_makes_the_stream_go_on() {
    let (mut producer, mut source) = channel(&F32Math, preroll(5.0), 1_000);
    let mut decoder = Counter { next: 0, end: Some(4) };
    assert!(producer.pump(&mut source.shared, &mut decoder).unwrap().reached_eof);
    source.request_seek(2);
    assert!(!source.is_ready());
    let outcome = producer.pump(&mut source.shared, &mut decoder).unwrap();
    assert_eq!(outcome.pushed_frames, 2);
    let mut out = vec![9; 2 * CHANNELS];
    assert_eq!(source.read(&mut out), 2);
    assert_eq!(out, vec![2, 2, 3, 3]);
}

#[test]
fn what_the_writing_side_tells_is_observed() {
    let (_, mut source) = channel(&F32Math, preroll(5.0), 1_000);
    source.observe(0, 123, true, true);
    assert_eq!(source.total_frames(), Some(123));
    assert!(source.has_stream_error());
    assert!(source.is_ready());
}

#[test]
fn a_full_queue_refuses_commands() {
    let config = Config { command_queue_capacity: 2, ..Config::default() };
    let (mut mixer, mut sender, _reclaim, _music, _bgm) = mixer::build(&F32Math, config, 1_000, true);
    assert!(sender.send(Command::MusicStop));
    assert!(sender.send(Command::MusicPause));
    assert!(!sender.send(Command::MusicStop));
    mixer.drain_commands(&F32Math);
    assert!(sender.send(Command::MusicStop));
}

#[test]
fn commands_are_carried_out_in_the_order_in_which_they_are_sent() {
    let config = Config::default();
    let (mut mixer, mut sender, _reclaim, _music, _bgm) = mixer::build(&F32Math, config, 1_000, true);
    sender.send(Command::MusicSetLoop { region: Some((1, 2)) });
    sender.send(Command::MusicSetLoop { region: Some((3, 4)) });
    sender.send(Command::MusicSetLoop { region: Some((9, 9)) });
    sender.send(Command::MusicSetLoop { region: Some((5, 6)) });
    mixer.drain_commands(&F32Math);
    assert_eq!(mixer.music_voice.loop_region(), Some((5, 6)));
}

#[test]
fn a_sound_comes_back_once_it_has_been_played() {
    let config = Config::default();
    let (mut mixer, mut sender, mut reclaim, _music, _bgm) =
        mixer::build(&F32Math, config, 1_000, true);
    let sound = sound(4);
    sender.send(play(1, &sound));
    let mut out = vec![0; 3 * CHANNELS];
    mixer.render(&F32Math, &mut out, 0);
    assert_eq!(reclaim.pending_len(), 0);
    mixer.render(&F32Math, &mut out, 3_000_000);
    assert_eq!(reclaim.pending_len(), 1);
    assert_eq!(Arc::strong_count(&sound), 2);
    reclaim.drain();
    assert_eq!(Arc::strong_count(&sound), 1);
}

#[test]
fn a_sound_that_cannot_be_given_back_is_leaked() {
    let config = Config { reclaim_queue_capacity: 1, ..Config::default() };
    let (mut mixer, mut sender, mut reclaim, _music, _bgm) =
        mixer::build(&F32Math, config, 1_000, true);
    let sound = sound(2);
    sender.send(play(1, &sound));
    sender.send(play(2, &sound));
    let mut out = vec![0; 4 * CHANNELS];
    mixer.render(&F32Math, &mut out, 0);
    assert_eq!(reclaim.pending_len(), 1);
    reclaim.drain();
    assert_eq!(Arc::strong_count(&sound), 2);
}

#[test]
fn a_sound_that_no_voice_can_be_had_for_comes_back() {
    let config = Config { max_voices: 1, steal_tail_capacity: 0, ..Config::default() };
    let (mut mixer, mut sender, mut reclaim, _music, _bgm) =
        mixer::build(&F32Math, config, 1_000, true);
    let (first, second, third) = (sound(100), sound(100), sound(100));
    sender.send(play(1, &first));
    sender.send(play(2, &second));
    sender.send(Command::SeSchedule {
        host_time_ns: 1_000_000,
        entry: ScheduledSe {
            voice_serial: 3,
            sound_id: 3,
            sound: Arc::clone(&third),
            bus: BusId::Se,
            volume: w(1.0),
        },
    });
    mixer.drain_commands(&F32Math);
    assert_eq!(reclaim.pending_len(), 1);
    let mut out = vec![0; 4 * CHANNELS];
    mixer.render(&F32Math, &mut out, 0);
    assert_eq!(reclaim.pending_len(), 2);
    assert_eq!(Arc::strong_count(&second), 2);
    assert_eq!(Arc::strong_count(&third), 2);
    reclaim.drain();
    assert_eq!(Arc::strong_count(&first), 2);
    assert_eq!(Arc::strong_count(&second), 1);
    assert_eq!(Arc::strong_count(&third), 1);
}

#[test]
fn the_generation_of_the_clock_counts_buffers_with_a_jump() {
    let config = Config::default();
    let (mut mixer, mut sender, _reclaim, _music, _bgm) =
        mixer::build(&F32Math, config, 1_000, true);
    let mut out = vec![0; 4 * CHANNELS];
    mixer.render(&F32Math, &mut out, 7);
    let clock = mixer.music_clock.snapshot();
    assert_eq!((clock.generation, clock.host_time_ns, clock.sample_rate), (0, 4_000_007, 1_000));
    sender.send(Command::MusicSeek { frames: 30 });
    sender.send(Command::MusicSeek { frames: 60 });
    mixer.render(&F32Math, &mut out, u64::MAX - 1);
    let clock = mixer.music_clock.snapshot();
    assert_eq!((clock.generation, clock.host_time_ns), (1, u64::MAX));
    assert_eq!((clock.song_frames, clock.state), (60, MusicState::Loading));
    mixer.render(&F32Math, &mut out, 0);
    assert_eq!(mixer.music_clock.snapshot().generation, 1);
}

#[test]
fn clipping_is_reported_where_that_is_asked_for() {
    for report in [true, false] {
        let (mixer, _sender, _reclaim, _music, _bgm) =
            mixer::build(&F32Math, Config::default(), 1_000, report);
        assert_eq!(mixer.report_clipping, report);
    }
}

#[test]
fn called_off_effects_come_back_in_order() {
    let config = Config::default();
    let (mut mixer, mut sender, mut reclaim, _music, _bgm) =
        mixer::build(&F32Math, config, 1_000, true);
    for serial in [1, 2, 1] {
        sender.send(Command::SeSchedule {
            host_time_ns: 900_000_000,
            entry: ScheduledSe {
                voice_serial: serial,
                sound_id: serial,
                sound: sound(1),
                bus: BusId::Se,
                volume: w(1.0),
            },
        });
    }
    sender.send(Command::StopVoice { voice_serial: 1 });
    mixer.drain_commands(&F32Math);
    assert_eq!(reclaim.pending_len(), 2);
    assert_eq!(mixer.se_schedule_len(), 1);
}

#[test]
fn an_effect_that_does_not_fit_the_schedule_comes_back() {
    let config = Config { schedule_queue_capacity: 1, ..Config::default() };
    let (mut mixer, mut sender, mut reclaim, _music, _bgm) =
        mixer::build(&F32Math, config, 1_000, true);
    let sound = sound(1);
    for serial in [1, 2] {
        sender.send(Command::SeSchedule {
            host_time_ns: 900_000_000,
            entry: ScheduledSe {
                voice_serial: serial,
                sound_id: serial,
                sound: Arc::clone(&sound),
                bus: BusId::Se,
                volume: w(1.0),
            },
        });
    }
    mixer.drain_commands(&F32Math);
    assert_eq!(mixer.se_schedule_len(), 1);
    assert_eq!(mixer.se_schedule_overflow_count(), 1);
    assert_eq!(Arc::strong_count(&sound), 3);
    assert_eq!(reclaim.pending_len(), 1);
    reclaim.drain();
    assert_eq!(Arc::strong_count(&sound), 2);
}

#[test]
fn events_of_the_mixer_are_queued_in_order() {
    let config = Config { underrun_report_threshold_frames: 4, ..Config::default() };
    let (mut mixer, _sender, _reclaim, _music, _bgm) = mixer::build(&F32Math, config, 1_000, true);
    mixer.report_underrun(3);
    mixer.report_underrun(0);
    mixer.report_underrun(0);
    mixer.report_underrun(4);
    mixer.report_underrun(u32::MAX);
    let mut out = Vec::new();
    assert_eq!(mixer.events.drain(10, &mut out), (3, 0));
    assert_eq!(
        out,
        vec![
            Event::Underrun { frames: 3 },
            Event::Underrun { frames: 4 },
            Event::Underrun { frames: u32::MAX },
        ]
    );
}
