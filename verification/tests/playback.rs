//! What holds of playing sounds and songs, on concrete values.

use std::sync::Arc;

use audioware::music::MusicRenderOutcome;
use audioware::voice::{StealOutcome, VoicePool};
use audioware::{
    Bus, BusId, BusSet, MusicFrameSource, MusicState, MusicVoice, Ramp, SampleMath, SoftClipper,
    SoundData, CHANNELS,
};

/// Single-precision arithmetic of the machine.
struct F32Math;

impl SampleMath for F32Math {
    fn plus(&self, a: u32, b: u32) -> u32 {
        w(f(a) + f(b))
    }

    fn minus(&self, a: u32, b: u32) -> u32 {
        w(f(a) - f(b))
    }

    fn times(&self, a: u32, b: u32) -> u32 {
        w(f(a) * f(b))
    }

    fn over(&self, a: u32, b: u32) -> u32 {
        w(f(a) / f(b))
    }

    fn magnitude(&self, a: u32) -> u32 {
        w(f(a).abs())
    }

    fn sign(&self, a: u32) -> u32 {
        w(f(a).signum())
    }

    fn at_most(&self, a: u32, b: u32) -> bool {
        f(a) <= f(b)
    }

    fn of_count(&self, n: u32) -> u32 {
        w(n as f32)
    }

    fn of_pcm16(&self, n: i16) -> u32 {
        w(n as f32)
    }

    fn to_count(&self, a: u32) -> u32 {
        f(a).round() as u32
    }
}

/// The word of a number.
fn w(x: f32) -> u32 {
    x.to_bits()
}

/// The number of a word.
fn f(x: u32) -> f32 {
    f32::from_bits(x)
}

/// Delivers ones for ever and remembers where it was sent.
struct Ones {
    seeks: Vec<u64>,
    total: Option<u64>,
}

impl MusicFrameSource for Ones {
    fn read(&mut self, out: &mut [u32]) -> usize {
        out.fill(w(1.0));
        out.len() / CHANNELS
    }

    fn total_frames(&mut self) -> Option<u64> {
        self.total
    }

    fn is_ready(&mut self) -> bool {
        true
    }

    fn request_seek(&mut self, frame: u64) {
        self.seeks.push(frame);
    }
}

fn ones() -> Ones {
    Ones { seeks: Vec::new(), total: None }
}

/// A song that plays, at one thousand frames per second, so that a ramp takes five frames.
fn playing(source: &mut Ones) -> MusicVoice {
    let mut voice = MusicVoice::new(1_000);
    voice.render(&F32Math, &mut [], source);
    voice.play(&F32Math);
    voice
}

fn render(
    voice: &mut MusicVoice,
    frames: usize,
    source: &mut Ones,
) -> (MusicRenderOutcome, Vec<f32>) {
    let mut out = vec![w(9.0); frames * CHANNELS];
    let outcome = voice.render(&F32Math, &mut out, source);
    (outcome, out.iter().step_by(CHANNELS).map(|x| f(*x)).collect())
}

fn sound(frames: usize) -> Arc<SoundData> {
    Arc::new(SoundData {
        sample_rate: 1_000,
        frames,
        interleaved: (0..frames * CHANNELS).map(|i| w((i / 2 + 1) as f32)).collect(),
    })
}

#[test]
fn a_song_fades_in_from_silence() {
    let mut source = ones();
    let mut voice = playing(&mut source);
    let (_, out) = render(&mut voice, 7, &mut source);
    assert_eq!(out[4..], [1.0, 1.0, 1.0]);
    assert_eq!(out[0], 0.2);
}

#[test]
fn a_loop_goes_back_exactly_at_its_end() {
    let mut source = ones();
    let mut voice = playing(&mut source);
    voice.set_loop(Some((3, 12)));
    let (before, _) = render(&mut voice, 11, &mut source);
    assert!(!before.looped);
    assert_eq!(voice.position_frames(), 11);
    let (wrapped, out) = render(&mut voice, 1, &mut source);
    assert!(wrapped.looped && wrapped.discontinuity);
    assert_eq!(out, vec![0.0]);
    assert_eq!(voice.position_frames(), 3);
    assert_eq!(voice.loop_restart_frame(), 3);
    assert_eq!(source.seeks, vec![3]);
    let (_, again) = render(&mut voice, 4, &mut source);
    assert_eq!(again[3], 0.8);
}

#[test]
fn a_pause_settles_with_the_last_frame_of_the_ramp() {
    let mut source = ones();
    let mut voice = playing(&mut source);
    render(&mut voice, 10, &mut source);
    voice.pause(&F32Math);
    render(&mut voice, 4, &mut source);
    assert_eq!(voice.state(), MusicState::Playing);
    let (outcome, out) = render(&mut voice, 3, &mut source);
    assert_eq!(voice.state(), MusicState::Paused);
    assert_eq!(outcome.rendered_frames, 1);
    assert_eq!(out, vec![0.0, 0.0, 0.0]);
    assert_eq!(voice.position_frames(), 15);
}

#[test]
fn a_stopped_song_returns_to_its_start() {
    let mut source = ones();
    let mut voice = playing(&mut source);
    render(&mut voice, 10, &mut source);
    voice.stop(&F32Math);
    let (outcome, _) = render(&mut voice, 5, &mut source);
    assert_eq!(voice.state(), MusicState::Ready);
    assert_eq!(voice.position_frames(), 0);
    assert!(outcome.discontinuity);
}

#[test]
fn a_paused_song_stops_at_once() {
    let mut source = ones();
    let mut voice = playing(&mut source);
    voice.pause(&F32Math);
    render(&mut voice, 5, &mut source);
    voice.stop(&F32Math);
    assert_eq!(voice.state(), MusicState::Ready);
    let (outcome, _) = render(&mut voice, 1, &mut source);
    assert!(outcome.discontinuity);
    assert_eq!(outcome.rendered_frames, 0);
}

#[test]
fn a_song_that_is_loading_does_not_react() {
    let mut source = ones();
    let mut voice = MusicVoice::new(1_000);
    voice.play(&F32Math);
    voice.pause(&F32Math);
    voice.stop(&F32Math);
    voice.resume_at(&F32Math, 9, &mut source);
    assert_eq!(voice.state(), MusicState::Loading);
    assert_eq!(voice.position_frames(), 0);
    assert!(source.seeks.is_empty());
}

#[test]
fn a_song_is_not_read_past_its_end() {
    let mut source = Ones { seeks: Vec::new(), total: Some(6) };
    let mut voice = playing(&mut source);
    let (outcome, out) = render(&mut voice, 8, &mut source);
    assert!(outcome.ended);
    assert_eq!(outcome.rendered_frames, 6);
    assert_eq!(out[5..], [1.0, 0.0, 0.0]);
    assert_eq!(voice.state(), MusicState::Ready);
}

#[test]
fn outcomes_join_in_any_grouping() {
    let outcome = |rendered_frames, looped| MusicRenderOutcome {
        rendered_frames,
        looped,
        ..MusicRenderOutcome::default()
    };
    let (a, b, c) = (outcome(1, false), outcome(2, true), outcome(3, false));
    assert_eq!(a.merge(b).merge(c), a.merge(b.merge(c)));
    assert_eq!(a.merge(MusicRenderOutcome::default()), a);
}

#[test]
fn the_states_of_a_song_have_numbers() {
    for (n, state) in [
        (0, MusicState::Loading),
        (1, MusicState::Ready),
        (2, MusicState::Playing),
        (3, MusicState::Paused),
    ] {
        assert_eq!(state.to_u8(), n);
        assert_eq!(MusicState::from_u8(n), state);
    }
}

#[test]
fn the_oldest_voice_makes_room() {
    let mut pool = VoicePool::new(2, 1);
    let play = |pool: &mut VoicePool, serial: u64| {
        pool.play(&F32Math, serial, serial, sound(100), BusId::Se, w(1.0), 4)
    };
    assert_eq!(play(&mut pool, 1), StealOutcome::Assigned);
    assert_eq!(play(&mut pool, 2), StealOutcome::Assigned);
    assert_eq!(play(&mut pool, 3), StealOutcome::Stolen);
    assert_eq!(pool.tails[0].serial, 1);
    assert!(pool.tails[0].stopping);
    assert_eq!(play(&mut pool, 4), StealOutcome::TailPoolExhausted);
    let serials: Vec<u64> = pool.primary.iter().map(|v| v.serial).collect();
    assert_eq!(serials, vec![3, 2]);
    assert_eq!(pool.active_primary_count(), 2);
    assert_eq!(pool.active_tail_count(), 1);
}

#[test]
fn a_song_moves_by_the_frames_that_were_not_missing() {
    struct Slow;
    impl MusicFrameSource for Slow {
        fn read(&mut self, out: &mut [u32]) -> usize {
            out.len() / CHANNELS - 2
        }

        fn total_frames(&mut self) -> Option<u64> {
            None
        }

        fn is_ready(&mut self) -> bool {
            true
        }

        fn request_seek(&mut self, _: u64) {}
    }
    let mut voice = MusicVoice::new(1_000);
    voice.render(&F32Math, &mut [], &mut Slow);
    voice.play(&F32Math);
    let outcome = voice.render(&F32Math, &mut [0; 10 * CHANNELS], &mut Slow);
    assert_eq!((outcome.rendered_frames, outcome.underrun_frames), (10, 2));
    assert!(!outcome.discontinuity);
    assert_eq!(voice.position_frames(), 8);
    voice.seek(100, &mut Slow);
    let outcome = voice.render(&F32Math, &mut [0; 4 * CHANNELS], &mut Slow);
    assert!(outcome.discontinuity && !outcome.looped && !outcome.ended);
    assert_eq!(voice.position_frames(), 102);
}

#[test]
fn a_refused_sound_is_returned() {
    let mut pool = VoicePool::new(0, 2);
    let sound = sound(3);
    let (outcome, refused) =
        pool.play_or_return(&F32Math, 1, 1, Arc::clone(&sound), BusId::Se, w(1.0), 4);
    assert!(matches!(outcome, StealOutcome::TailPoolExhausted));
    assert!(refused.is_some_and(|s| Arc::ptr_eq(&s, &sound)));
}

#[test]
fn a_pool_without_voices_plays_nothing() {
    let mut pool = VoicePool::new(0, 4);
    let outcome = pool.play(&F32Math, 1, 1, sound(1), BusId::Se, w(1.0), 4);
    assert_eq!(outcome, StealOutcome::TailPoolExhausted);
}

#[test]
fn a_sound_is_played_once_frame_by_frame() {
    let mut pool = VoicePool::new(1, 1);
    pool.play(&F32Math, 1, 1, sound(3), BusId::Se, w(1.0), 4);
    let unity = [w(1.0); 4];
    let heard: Vec<f32> = (0..5).map(|_| f(pool.mix_frame(&F32Math, &unity).0)).collect();
    assert_eq!(heard, vec![1.0, 2.0, 3.0, 0.0, 0.0]);
    let mut freed = Vec::new();
    pool.reap(&mut freed);
    assert_eq!(freed.len(), 1);
    pool.reap(&mut freed);
    assert_eq!(freed.len(), 1);
}

#[test]
fn a_voice_is_ramped_to_its_new_volume() {
    let mut pool = VoicePool::new(1, 1);
    let sound = Arc::new(SoundData {
        sample_rate: 1_000,
        frames: 10,
        interleaved: vec![w(1.0); 20],
    });
    pool.play(&F32Math, 1, 1, sound, BusId::Voice, w(1.0), 4);
    pool.set_volume(&F32Math, 1, w(0.5), 2);
    pool.set_volume(&F32Math, 2, w(0.0), 2);
    let buses = [w(1.0), w(1.0), w(1.0), w(0.5)];
    let heard: Vec<f32> = (0..3).map(|_| f(pool.mix_frame(&F32Math, &buses).0)).collect();
    assert_eq!(heard, vec![0.375, 0.25, 0.25]);
}

#[test]
fn a_ramp_holds_its_target() {
    let mut ramp = Ramp::new(w(0.0));
    ramp.set_target(&F32Math, w(3.0), 3);
    assert_eq!(f(ramp.target()), 3.0);
    let steps: Vec<f32> = (0..5).map(|_| f(ramp.advance(&F32Math))).collect();
    assert_eq!(steps, vec![1.0, 2.0, 3.0, 3.0, 3.0]);
    ramp.set_immediate(w(0.5));
    assert!(ramp.is_settled());
    assert_eq!(f(ramp.value()), 0.5);
}

#[test]
fn buses_are_independent() {
    let mut set = BusSet::new();
    set.get_mut(BusId::Se).volume.set_immediate(w(0.25));
    assert_eq!(f(set.get(BusId::Se).volume.value()), 0.25);
    assert_eq!(f(set.get(BusId::Bgm).volume.value()), 1.0);
    assert_eq!(f(Bus::default().volume.value()), 1.0);
}

#[test]
fn both_channels_of_a_frame_are_clipped() {
    let mut clipper = SoftClipper::new(w(1.0));
    let (l, r) = clipper.process_stereo(&F32Math, w(2.0), w(-2.0));
    assert_eq!((f(l), f(r)), (1.5, -1.5));
    assert_eq!(clipper.engaged_count(), 2);
}
