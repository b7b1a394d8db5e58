//! Sound effects: a fixed pool of voices with stealing.

use std::sync::Arc;

use vstd::prelude::*;

use crate::bus::BusId;
#[allow(unused_imports)]
use crate::math;
use crate::math::{SampleMath, SILENCE, UNITY};
#[allow(unused_imports)]
use crate::music;
use crate::ramp::Ramp;
#[allow(unused_imports)]
use crate::sound;
use crate::sound::SoundData;

verus! {

/// One voice: a sound on its way, or nothing.
#[derive(Debug)]
pub struct Voice {
    /// The number by which the game thread knows the sound that is played.
    pub serial: u64,
    /// The identifier of the sound.
    pub sound_id: u64,
    /// The sound; none if the voice is idle.
    pub sound: Option<Arc<SoundData>>,
    /// The frame of the sound that is rendered next.
    pub position_frames: usize,
    /// The bus the voice is sent to.
    pub bus: BusId,
    /// The volume of the voice.
    pub volume: Ramp,
    /// The first frame of the loop and the frame after its last, if the sound loops.
    pub loop_region: Option<(u64, u64)>,
    /// Whether the voice fades out for good.
    pub stopping: bool,
    /// A number that grows with every sound that is started.
    pub age: u64,
}

/// What became of a request to play a sound.
#[derive(Debug, Clone, Copy, PartialEq, Eq, Structural)]
pub enum StealOutcome {
    /// An idle voice took the sound.
    Assigned,
    /// The oldest voice was moved aside to fade out, and its place was taken.
    Stolen,
    /// No voice could be moved aside; the sound is not played.
    TailPoolExhausted,
}

/// What is known of a sound that is to be played.
pub struct SoundRequest {
    /// The number by which the game thread knows the sound that is played.
    pub serial: u64,
    /// The identifier of the sound.
    pub sound_id: u64,
    /// The sound.
    pub sound: Arc<SoundData>,
    /// The bus it is sent to.
    pub bus: BusId,
    /// Its volume.
    pub volume: u32,
}

impl Voice {
    /// An idle voice.
    pub open spec fn idle() -> Voice {
        Voice {
            serial: 0,
            sound_id: 0,
            sound: None,
            position_frames: 0,
            bus: BusId::Se,
            volume: Ramp::resting_at(SILENCE),
            loop_region: None,
            stopping: false,
            age: 0,
        }
    }

    /// A voice at the start of the requested sound.
    pub open spec fn starting(request: SoundRequest, age: u64) -> Voice {
        Voice {
            serial: request.serial,
            sound_id: request.sound_id,
            sound: Some(request.sound),
            position_frames: 0,
            bus: request.bus,
            volume: Ramp::resting_at(request.volume),
            loop_region: None,
            stopping: false,
            age,
        }
    }

    /// Whether the voice holds a sound.
    pub open spec fn active(self) -> bool {
        self.sound is Some
    }

    /// Whether the voice plays the sound that the game thread knows as `serial`.
    pub open spec fn plays(self, serial: u64) -> bool {
        self.active() && self.serial == serial
    }

    /// This voice, fading out for good over `samples` samples.
    pub open spec fn fading<M: SampleMath>(self, m: &M, samples: u32) -> Voice {
        Voice { stopping: true, volume: self.volume.aimed_at(m, SILENCE, samples), ..self }
    }

    /// The frame that is rendered next: at the end of the loop, its start.
    pub open spec fn read_position(self) -> usize {
        match self.loop_region {
            Some(region) => if self.position_frames >= region.1 {
                if region.0 <= usize::MAX {
                    region.0 as usize
                } else {
                    usize::MAX
                }
            } else {
                self.position_frames
            },
            None => self.position_frames,
        }
    }

    /// The samples that are rendered next.
    pub open spec fn samples(self) -> (u32, u32) {
        match self.sound {
            Some(sound) => match sound.frame_at(self.read_position() as int) {
                Some(frame) => frame,
                None => (SILENCE, SILENCE),
            },
            None => (SILENCE, SILENCE),
        }
    }

    /// This voice after the next frame has been taken from its sound.
    pub open spec fn moved(self) -> Voice {
        match self.sound {
            Some(sound) => Voice {
                position_frames: if sound.frame_at(self.read_position() as int) is Some {
                    (self.read_position() + 1) as usize
                } else {
                    self.read_position()
                },
                ..self
            },
            None => self,
        }
    }

    /// This voice one frame later.
    pub open spec fn advanced<M: SampleMath>(self, m: &M) -> Voice {
        if self.active() {
            let v = self.moved();
            Voice { volume: v.volume.advanced(m), ..v }
        } else {
            self
        }
    }

    /// Whether the sound has been played to its end. A loop has none.
    pub open spec fn finished(self) -> bool {
        match self.sound {
            Some(sound) => self.loop_region is None && self.position_frames >= sound.frames,
            None => true,
        }
    }

    /// Whether the voice can be made idle: its sound has ended or has been faded out.
    pub open spec fn reapable(self) -> bool {
        self.active() && (self.finished() || (self.stopping && self.volume.remaining_samples == 0))
    }

    /// This voice without its sound.
    pub open spec fn reaped(self) -> Voice {
        Voice {
            serial: 0,
            sound_id: 0,
            sound: None,
            position_frames: 0,
            stopping: false,
            ..self
        }
    }

    /// An idle voice.
    fn empty() -> (v: Voice)
        ensures
            v == Voice::idle(),
    {
        Voice {
            serial: 0,
            sound_id: 0,
            sound: None,
            position_frames: 0,
            bus: BusId::Se,
            volume: Ramp::new(SILENCE),
            loop_region: None,
            stopping: false,
            age: 0,
        }
    }

    /// Whether the voice holds a sound.
    pub fn is_active(&self) -> (yes: bool)
        ensures
            yes == self.active(),
    {
        self.sound.is_some()
    }

    /// Takes the next frame from the sound: silence past its end.
    pub fn next_frame(&mut self) -> (frame: (u32, u32))
        ensures
            frame == old(self).samples(),
            *final(self) == old(self).moved(),
    {
        let position: usize = match self.loop_region {
            Some((loop_start, loop_end)) => if self.position_frames as u64 >= loop_end {
                if loop_start <= usize::MAX as u64 {
                    loop_start as usize
                } else {
                    usize::MAX
                }
            } else {
                self.position_frames
            },
            None => self.position_frames,
        };
        let frame: Option<(u32, u32)> = match &self.sound {
            Some(sound) => sound.frame(position),
            None => {
                return (SILENCE, SILENCE);
            },
        };
        match frame {
            Some((l, r)) => {
                self.position_frames = position + 1;
                (l, r)
            },
            None => {
                self.position_frames = position;
                (SILENCE, SILENCE)
            },
        }
    }

    /// Whether the sound has been played to its end.
    pub fn finished_naturally(&self) -> (yes: bool)
        ensures
            yes == self.finished(),
    {
        match &self.sound {
            Some(sound) => self.loop_region.is_none() && self.position_frames >= sound.frames,
            None => true,
        }
    }

    /// Whether the voice can be made idle.
    pub fn ready_to_reap(&self) -> (yes: bool)
        ensures
            yes == self.reapable(),
    {
        self.is_active() && (self.finished_naturally() || (self.stopping
            && self.volume.is_settled()))
    }
}

/// The first position from `from` on of a voice with the property `p`; the length if there is
/// none.
pub open spec fn position_of(voices: Seq<Voice>, p: spec_fn(Voice) -> bool, from: int) -> int
    decreases voices.len() - from,
{
    if from >= voices.len() {
        voices.len() as int
    } else if p(voices[from]) {
        from
    } else {
        position_of(voices, p, from + 1)
    }
}

/// The position of the oldest of the first `n` voices, the first one if several are equally old.
pub open spec fn oldest(voices: Seq<Voice>, n: nat) -> int
    decreases n,
{
    if n <= 1 {
        0
    } else {
        let best = oldest(voices, (n - 1) as nat);
        if voices[n - 1].age < voices[best].age {
            n - 1
        } else {
            best
        }
    }
}

/// `voices` with the first one that has the property `p` replaced by what `f` makes of it.
pub open spec fn with_first(
    voices: Seq<Voice>,
    p: spec_fn(Voice) -> bool,
    f: spec_fn(Voice) -> Voice,
) -> Seq<Voice> {
    let i = position_of(voices, p, 0);
    if i < voices.len() {
        voices.update(i, f(voices[i]))
    } else {
        voices
    }
}

/// The gain that the bus of a voice adds: none for a voice that is sent to the master bus, which
/// is applied to the whole mix.
pub open spec fn bus_gain(bus: BusId, bus_volume: Seq<u32>) -> u32 {
    if bus == BusId::Master {
        UNITY
    } else {
        bus_volume[bus.number() as int]
    }
}

/// `sum` with the next frame of `voice` added.
pub open spec fn with_voice<M: SampleMath>(
    m: &M,
    sum: (u32, u32),
    voice: Voice,
    bus_volume: Seq<u32>,
) -> (u32, u32) {
    if voice.active() {
        let gain = voice.volume.advanced(m).current;
        let bus = bus_gain(voice.bus, bus_volume);
        (
            math::sum_of(
                m,
                sum.0,
                math::product_of(m, math::product_of(m, voice.samples().0, gain), bus),
            ),
            math::sum_of(
                m,
                sum.1,
                math::product_of(m, math::product_of(m, voice.samples().1, gain), bus),
            ),
        )
    } else {
        sum
    }
}

/// `sum` with the next frames of the first `n` voices added, in their order.
pub open spec fn with_voices<M: SampleMath>(
    m: &M,
    sum: (u32, u32),
    voices: Seq<Voice>,
    bus_volume: Seq<u32>,
    n: nat,
) -> (u32, u32)
    decreases n,
{
    if n == 0 {
        sum
    } else {
        with_voice(
            m,
            with_voices(m, sum, voices, bus_volume, (n - 1) as nat),
            voices[n - 1],
            bus_volume,
        )
    }
}

/// The sounds of those of the first `n` voices that can be made idle, in their order.
pub open spec fn reaped_sounds(voices: Seq<Voice>, n: nat) -> Seq<Arc<SoundData>>
    decreases n,
{
    if n == 0 {
        Seq::empty()
    } else {
        let before = reaped_sounds(voices, (n - 1) as nat);
        if voices[n - 1].reapable() {
            before.push(voices[n - 1].sound->0)
        } else {
            before
        }
    }
}

/// How many of the first `n` voices hold a sound.
pub open spec fn active_count(voices: Seq<Voice>, n: nat) -> nat
    decreases n,
{
    if n == 0 {
        0
    } else {
        active_count(voices, (n - 1) as nat) + if voices[n - 1].active() {
            1nat
        } else {
            0
        }
    }
}

/// A pool of voices.
#[verifier::ext_equal]
pub struct Pool {
    /// The voices that sounds are assigned to.
    pub primary: Seq<Voice>,
    /// The voices that were moved aside and fade out.
    pub tails: Seq<Voice>,
    /// The age of the next sound.
    pub next_age: u64,
}

impl Pool {
    /// A pool of idle voices.
    pub open spec fn idle(max_voices: nat, steal_tail_capacity: nat) -> Pool {
        Pool {
            primary: Seq::new(max_voices, |i: int| Voice::idle()),
            tails: Seq::new(steal_tail_capacity, |i: int| Voice::idle()),
            next_age: 1,
        }
    }

    /// The position of the first idle voice.
    pub open spec fn free_voice(self) -> int {
        position_of(self.primary, |v: Voice| !v.active(), 0)
    }

    /// The position of the first idle voice among those that fade out.
    pub open spec fn free_tail(self) -> int {
        position_of(self.tails, |v: Voice| !v.active(), 0)
    }

    /// What becomes of a request to play a sound.
    pub open spec fn outcome(self) -> StealOutcome {
        if self.free_voice() < self.primary.len() {
            StealOutcome::Assigned
        } else if self.primary.len() > 0 && self.free_tail() < self.tails.len() {
            StealOutcome::Stolen
        } else {
            StealOutcome::TailPoolExhausted
        }
    }

    /// The sounds that are refused when `sound` is to be played: none, or that one.
    pub open spec fn refused(self, sound: Arc<SoundData>) -> Seq<Arc<SoundData>> {
        if self.outcome() == StealOutcome::TailPoolExhausted {
            seq![sound]
        } else {
            Seq::empty()
        }
    }

    /// This pool after a request to play a sound. An idle voice takes it; if there is none, the
    /// oldest voice fades out among the tails and makes room; if that is impossible too, only the
    /// count of ages goes on.
    pub open spec fn playing<M: SampleMath>(
        self,
        m: &M,
        request: SoundRequest,
        ramp_samples: u32,
    ) -> Pool {
        let voice = Voice::starting(request, self.next_age);
        let next = Pool { next_age: sound::next_nonzero(self.next_age), ..self };
        match self.outcome() {
            StealOutcome::Assigned => Pool {
                primary: self.primary.update(self.free_voice(), voice),
                ..next
            },
            StealOutcome::Stolen => {
                let victim = oldest(self.primary, self.primary.len());
                Pool {
                    primary: self.primary.update(victim, voice),
                    tails: self.tails.update(
                        self.free_tail(),
                        self.primary[victim].fading(m, ramp_samples),
                    ),
                    ..next
                }
            },
            StealOutcome::TailPoolExhausted => next,
        }
    }

    /// This pool after [`VoicePool::stop`].
    pub open spec fn stopping<M: SampleMath>(self, m: &M, serial: u64, ramp_samples: u32) -> Pool {
        Pool {
            primary: with_first(
                self.primary,
                |v: Voice| v.plays(serial),
                |v: Voice| v.fading(m, ramp_samples),
            ),
            ..self
        }
    }

    /// This pool after [`VoicePool::set_volume`].
    pub open spec fn at_volume<M: SampleMath>(
        self,
        m: &M,
        serial: u64,
        volume: u32,
        ramp_samples: u32,
    ) -> Pool {
        Pool {
            primary: with_first(
                self.primary,
                |v: Voice| v.plays(serial) && !v.stopping,
                |v: Voice| Voice { volume: v.volume.aimed_at(m, volume, ramp_samples), ..v },
            ),
            ..self
        }
    }

    /// This pool after [`VoicePool::set_loop`].
    pub open spec fn looping(self, serial: u64, region: Option<(u64, u64)>) -> Pool {
        Pool {
            primary: with_first(
                self.primary,
                |v: Voice| v.plays(serial) && !v.stopping,
                |v: Voice| Voice { loop_region: music::valid_region(region), ..v },
            ),
            ..self
        }
    }

    /// This pool after [`VoicePool::stop_all_using_sound`].
    pub open spec fn without_sound<M: SampleMath>(
        self,
        m: &M,
        sound_id: u64,
        ramp_samples: u32,
    ) -> Pool {
        Pool {
            primary: self.primary.map_values(|v: Voice| faded_if(m, v, sound_id, ramp_samples)),
            tails: self.tails.map_values(|v: Voice| faded_if(m, v, sound_id, ramp_samples)),
            ..self
        }
    }

    /// This pool one frame later.
    pub open spec fn advanced<M: SampleMath>(self, m: &M) -> Pool {
        Pool {
            primary: self.primary.map_values(|v: Voice| v.advanced(m)),
            tails: self.tails.map_values(|v: Voice| v.advanced(m)),
            ..self
        }
    }

    /// The sum of the next frames of all voices, those that fade out last.
    pub open spec fn mixed<M: SampleMath>(self, m: &M, bus_volume: Seq<u32>) -> (u32, u32) {
        with_voices(
            m,
            with_voices(m, (SILENCE, SILENCE), self.primary, bus_volume, self.primary.len()),
            self.tails,
            bus_volume,
            self.tails.len(),
        )
    }

    /// The loop of the sound that the game thread knows as `serial`; none if it is not played.
    pub open spec fn loop_of(self, serial: u64) -> Option<(u64, u64)> {
        let i = position_of(self.primary, |v: Voice| v.plays(serial), 0);
        if i < self.primary.len() {
            self.primary[i].loop_region
        } else {
            None
        }
    }

    /// This pool with every voice made idle that can be.
    pub open spec fn reaped(self) -> Pool {
        Pool {
            primary: self.primary.map_values(|v: Voice| if v.reapable() { v.reaped() } else { v }),
            tails: self.tails.map_values(|v: Voice| if v.reapable() { v.reaped() } else { v }),
            ..self
        }
    }

    /// The sounds of the voices that can be made idle.
    pub open spec fn reclaimed(self) -> Seq<Arc<SoundData>> {
        reaped_sounds(self.primary, self.primary.len()) + reaped_sounds(
            self.tails,
            self.tails.len(),
        )
    }
}

/// `v`, fading out for good if it plays the sound `sound_id` and does not fade out yet.
pub open spec fn faded_if<M: SampleMath>(
    m: &M,
    v: Voice,
    sound_id: u64,
    ramp_samples: u32,
) -> Voice {
    if v.active() && !v.stopping && v.sound_id == sound_id {
        v.fading(m, ramp_samples)
    } else {
        v
    }
}

/// The voices of all sound effects.
#[derive(Debug)]
pub struct VoicePool {
    /// The voices that sounds are assigned to.
    pub primary: Vec<Voice>,
    /// The voices that were moved aside and fade out.
    pub tails: Vec<Voice>,
    /// The age of the next sound.
    pub next_age: u64,
}

impl View for VoicePool {
    type V = Pool;

    open spec fn view(&self) -> Pool {
        Pool { primary: self.primary@, tails: self.tails@, next_age: self.next_age }
    }
}

fn idle_voices(n: usize) -> (voices: Vec<Voice>)
    ensures
        voices@ == Seq::new(n as nat, |i: int| Voice::idle()),
{
    let mut voices: Vec<Voice> = Vec::with_capacity(n);
    let mut i: usize = 0;
    while i < n
        invariant
            i <= n,
            voices@ == Seq::new(i as nat, |j: int| Voice::idle()),
        decreases n - i,
    {
        voices.push(Voice::empty());
        i = i + 1;
        assert(voices@ =~= Seq::new(i as nat, |j: int| Voice::idle()));
    }
    voices
}

fn first_idle(voices: &Vec<Voice>) -> (position: usize)
    ensures
        position == position_of(voices@, |v: Voice| !v.active(), 0),
        position <= voices@.len(),
{
    let mut i: usize = 0;
    while i < voices.len()
        invariant
            i <= voices@.len(),
            position_of(voices@, |v: Voice| !v.active(), 0) == position_of(
                voices@,
                |v: Voice| !v.active(),
                i as int,
            ),
        decreases voices@.len() - i,
    {
        if !voices[i].is_active() {
            return i;
        }
        i = i + 1;
    }
    i
}

fn first_playing(voices: &Vec<Voice>, serial: u64) -> (position: usize)
    ensures
        position == position_of(voices@, |v: Voice| v.plays(serial), 0),
        position <= voices@.len(),
{
    let mut i: usize = 0;
    while i < voices.len()
        invariant
            i <= voices@.len(),
            position_of(voices@, |v: Voice| v.plays(serial), 0) == position_of(
                voices@,
                |v: Voice| v.plays(serial),
                i as int,
            ),
        decreases voices@.len() - i,
    {
        if voices[i].is_active() && voices[i].serial == serial {
            return i;
        }
        i = i + 1;
    }
    i
}

fn first_staying(voices: &Vec<Voice>, serial: u64) -> (position: usize)
    ensures
        position == position_of(voices@, |v: Voice| v.plays(serial) && !v.stopping, 0),
        position <= voices@.len(),
{
    let mut i: usize = 0;
    while i < voices.len()
        invariant
            i <= voices@.len(),
            position_of(voices@, |v: Voice| v.plays(serial) && !v.stopping, 0) == position_of(
                voices@,
                |v: Voice| v.plays(serial) && !v.stopping,
                i as int,
            ),
        decreases voices@.len() - i,
    {
        if voices[i].is_active() && voices[i].serial == serial && !voices[i].stopping {
            return i;
        }
        i = i + 1;
    }
    i
}

impl VoicePool {
    /// A pool of idle voices.
    pub fn new(max_voices: usize, steal_tail_capacity: usize) -> (pool: VoicePool)
        ensures
            pool@ == Pool::idle(max_voices as nat, steal_tail_capacity as nat),
    {
        VoicePool {
            primary: idle_voices(max_voices),
            tails: idle_voices(steal_tail_capacity),
            next_age: 1,
        }
    }

    /// Plays a sound, if a voice can be had for it, and lets go of it otherwise.
    pub fn play<M: SampleMath>(
        &mut self,
        m: &M,
        voice_serial: u64,
        sound_id: u64,
        sound: Arc<SoundData>,
        bus: BusId,
        volume: u32,
        default_ramp_samples: u32,
    ) -> (outcome: StealOutcome)
        requires
            math::is_pure(m),
        ensures
            final(self)@ == old(self)@.playing(
                m,
                SoundRequest { serial: voice_serial, sound_id, sound, bus, volume },
                default_ramp_samples,
            ),
            outcome == old(self)@.outcome(),
    {
        let (outcome, _) = self.play_or_return(
            m,
            voice_serial,
            sound_id,
            sound,
            bus,
            volume,
            default_ramp_samples,
        );
        outcome
    }

    /// Plays a sound, if a voice can be had for it, and returns it otherwise, so that it is not
    /// freed here.
    pub fn play_or_return<M: SampleMath>(
        &mut self,
        m: &M,
        voice_serial: u64,
        sound_id: u64,
        sound: Arc<SoundData>,
        bus: BusId,
        volume: u32,
        default_ramp_samples: u32,
    ) -> (r: (StealOutcome, Option<Arc<SoundData>>))
        requires
            math::is_pure(m),
        ensures
            final(self)@ == old(self)@.playing(
                m,
                SoundRequest { serial: voice_serial, sound_id, sound, bus, volume },
                default_ramp_samples,
            ),
            r.0 == old(self)@.outcome(),
            r.1 == if r.0 == StealOutcome::TailPoolExhausted {
                Some(sound)
            } else {
                None
            },
    {
        let age: u64 = self.next_age;
        self.next_age = if age == u64::MAX {
            1
        } else {
            age + 1
        };
        let mut voice: Voice = Voice {
            serial: voice_serial,
            sound_id,
            sound: Some(sound),
            position_frames: 0,
            bus,
            volume: Ramp::new(volume),
            loop_region: None,
            stopping: false,
            age,
        };
        let free: usize = first_idle(&self.primary);
        if free < self.primary.len() {
            self.primary[free] = voice;
            return (StealOutcome::Assigned, None);
        }
        if self.primary.len() == 0 {
            return (StealOutcome::TailPoolExhausted, voice.sound);
        }
        let mut victim: usize = 0;
        let mut i: usize = 1;
        while i < self.primary.len()
            invariant
                1 <= i <= self.primary@.len(),
                victim == oldest(self.primary@, i as nat),
                victim < i,
            decreases self.primary@.len() - i,
        {
            if self.primary[i].age < self.primary[victim].age {
                victim = i;
            }
            i = i + 1;
        }
        let tail: usize = first_idle(&self.tails);
        if tail < self.tails.len() {
            core::mem::swap(&mut self.primary[victim], &mut voice);
            voice.stopping = true;
            voice.volume.set_target(m, SILENCE, default_ramp_samples);
            self.tails[tail] = voice;
            (StealOutcome::Stolen, None)
        } else {
            (StealOutcome::TailPoolExhausted, voice.sound)
        }
    }

    /// Fades out the sound that the game thread knows as `voice_serial`.
    pub fn stop<M: SampleMath>(&mut self, m: &M, voice_serial: u64, ramp_samples: u32)
        requires
            math::is_pure(m),
        ensures
            final(self)@ == old(self)@.stopping(m, voice_serial, ramp_samples),
    {
        let i: usize = first_playing(&self.primary, voice_serial);
        if i < self.primary.len() {
            let v: &mut Voice = &mut self.primary[i];
            v.stopping = true;
            v.volume.set_target(m, SILENCE, ramp_samples);
        }
        assert(self@ =~= old(self)@.stopping(m, voice_serial, ramp_samples));
    }

    /// Changes the volume of a sound that does not fade out.
    pub fn set_volume<M: SampleMath>(
        &mut self,
        m: &M,
        voice_serial: u64,
        volume: u32,
        ramp_samples: u32,
    )
        requires
            math::is_pure(m),
        ensures
            final(self)@ == old(self)@.at_volume(m, voice_serial, volume, ramp_samples),
    {
        let i: usize = first_staying(&self.primary, voice_serial);
        if i < self.primary.len() {
            let v: &mut Voice = &mut self.primary[i];
            v.volume.set_target(m, volume, ramp_samples);
        }
        assert(self@ =~= old(self)@.at_volume(m, voice_serial, volume, ramp_samples));
    }

    /// Sets the loop of a sound that does not fade out; none if its start does not lie before its
    /// end.
    pub fn set_loop(&mut self, voice_serial: u64, region: Option<(u64, u64)>)
        ensures
            final(self)@ == old(self)@.looping(voice_serial, region),
    {
        let region: Option<(u64, u64)> = match region {
            Some((start, end)) => if start < end {
                Some((start, end))
            } else {
                None
            },
            None => None,
        };
        let i: usize = first_staying(&self.primary, voice_serial);
        if i < self.primary.len() {
            let v: &mut Voice = &mut self.primary[i];
            v.loop_region = region;
        }
        assert(self@ =~= old(self)@.looping(voice_serial, region));
    }

    /// The loop of a sound.
    pub fn loop_region(&self, voice_serial: u64) -> (region: Option<(u64, u64)>)
        ensures
            region == self@.loop_of(voice_serial),
            ({
                let i = position_of(self@.primary, |v: Voice| v.plays(voice_serial), 0);
                region == if i < self@.primary.len() {
                    self@.primary[i].loop_region
                } else {
                    None
                }
            }),
    {
        let i: usize = first_playing(&self.primary, voice_serial);
        if i < self.primary.len() {
            self.primary[i].loop_region
        } else {
            None
        }
    }

    /// Fades out every voice that plays the sound `sound_id`.
    pub fn stop_all_using_sound<M: SampleMath>(&mut self, m: &M, sound_id: u64, ramp_samples: u32)
        requires
            math::is_pure(m),
        ensures
            final(self)@ == old(self)@.without_sound(m, sound_id, ramp_samples),
    {
        fade_all(m, &mut self.primary, sound_id, ramp_samples);
        fade_all(m, &mut self.tails, sound_id, ramp_samples);
    }

    /// Renders one frame of all voices, each with its own volume and that of its bus.
    pub fn mix_frame<M: SampleMath>(&mut self, m: &M, bus_volume: &[u32; 4]) -> (frame: (u32, u32))
        requires
            math::is_pure(m),
        ensures
            final(self)@ == old(self)@.advanced(m),
            frame == old(self)@.mixed(m, bus_volume@),
    {
        let sum: (u32, u32) = mix_all(m, &mut self.primary, bus_volume, (SILENCE, SILENCE));
        mix_all(m, &mut self.tails, bus_volume, sum)
    }

    /// Makes every voice idle that can be, and appends the sounds that this sets free to
    /// `reclaimed`.
    pub fn reap(&mut self, reclaimed: &mut Vec<Arc<SoundData>>)
        ensures
            final(self)@ == old(self)@.reaped(),
            final(reclaimed)@ == old(reclaimed)@ + old(self)@.reclaimed(),
    {
        reap_all(&mut self.primary, reclaimed);
        reap_all(&mut self.tails, reclaimed);
        assert(reclaimed@ =~= old(reclaimed)@ + old(self)@.reclaimed());
    }

    /// How many voices hold a sound, those that fade out after stealing left aside.
    pub fn active_primary_count(&self) -> (n: usize)
        ensures
            n == active_count(self@.primary, self@.primary.len()),
    {
        count_active(&self.primary)
    }

    /// How many voices fade out after stealing.
    pub fn active_tail_count(&self) -> (n: usize)
        ensures
            n == active_count(self@.tails, self@.tails.len()),
    {
        count_active(&self.tails)
    }
}

fn fade_all<M: SampleMath>(m: &M, voices: &mut Vec<Voice>, sound_id: u64, ramp_samples: u32)
    requires
        math::is_pure(m),
    ensures
        final(voices)@ == old(voices)@.map_values(
            |v: Voice| faded_if(m, v, sound_id, ramp_samples),
        ),
{
    let mut i: usize = 0;
    while i < voices.len()
        invariant
            math::is_pure(m),
            i <= voices@.len(),
            voices@.len() == old(voices)@.len(),
            forall|j: int|
                0 <= j < i ==> voices@[j] == faded_if(m, old(voices)@[j], sound_id, ramp_samples),
            forall|j: int| i <= j < voices@.len() ==> voices@[j] == old(voices)@[j],
        decreases voices@.len() - i,
    {
        if voices[i].is_active() && !voices[i].stopping && voices[i].sound_id == sound_id {
            let v: &mut Voice = &mut voices[i];
            v.stopping = true;
            v.volume.set_target(m, SILENCE, ramp_samples);
        }
        i = i + 1;
    }
}

fn mix_all<M: SampleMath>(
    m: &M,
    voices: &mut Vec<Voice>,
    bus_volume: &[u32; 4],
    sum: (u32, u32),
) -> (total: (u32, u32))
    requires
        math::is_pure(m),
    ensures
        final(voices)@ == old(voices)@.map_values(|v: Voice| v.advanced(m)),
        total == with_voices(m, sum, old(voices)@, bus_volume@, old(voices)@.len()),
{
    let mut total: (u32, u32) = sum;
    let mut i: usize = 0;
    while i < voices.len()
        invariant
            math::is_pure(m),
            i <= voices@.len(),
            voices@.len() == old(voices)@.len(),
            forall|j: int| 0 <= j < i ==> voices@[j] == old(voices)@[j].advanced(m),
            forall|j: int| i <= j < voices@.len() ==> voices@[j] == old(voices)@[j],
            total == with_voices(m, sum, old(voices)@, bus_volume@, i as nat),
        decreases voices@.len() - i,
    {
        if voices[i].is_active() {
            let bus: BusId = voices[i].bus;
            let v: &mut Voice = &mut voices[i];
            let (l, r) = v.next_frame();
            let gain: u32 = v.volume.advance(m);
            let through: u32 = if bus == BusId::Master {
                UNITY
            } else {
                bus_volume[bus.index()]
            };
            let own_l: u32 = m.times(l, gain);
            let own_r: u32 = m.times(r, gain);
            let added_l: u32 = m.times(own_l, through);
            let added_r: u32 = m.times(own_r, through);
            total = (m.plus(total.0, added_l), m.plus(total.1, added_r));
        }
        i = i + 1;
    }
    total
}

fn reap_all(voices: &mut Vec<Voice>, reclaimed: &mut Vec<Arc<SoundData>>)
    ensures
        final(voices)@ == old(voices)@.map_values(
            |v: Voice| if v.reapable() { v.reaped() } else { v },
        ),
        final(reclaimed)@ == old(reclaimed)@ + reaped_sounds(old(voices)@, old(voices)@.len()),
{
    let mut i: usize = 0;
    assert(reclaimed@ =~= old(reclaimed)@ + reaped_sounds(old(voices)@, 0));
    while i < voices.len()
        invariant
            i <= voices@.len(),
            voices@.len() == old(voices)@.len(),
            forall|j: int|
                0 <= j < i ==> voices@[j] == (if old(voices)@[j].reapable() {
                    old(voices)@[j].reaped()
                } else {
                    old(voices)@[j]
                }),
            forall|j: int| i <= j < voices@.len() ==> voices@[j] == old(voices)@[j],
            reclaimed@ == old(reclaimed)@ + reaped_sounds(old(voices)@, i as nat),
        decreases voices@.len() - i,
    {
        if voices[i].ready_to_reap() {
            let v: &mut Voice = &mut voices[i];
            let sound: Option<Arc<SoundData>> = v.sound.take();
            v.serial = 0;
            v.sound_id = 0;
            v.position_frames = 0;
            v.stopping = false;
            if let Some(sound) = sound {
                reclaimed.push(sound);
            }
        }
        i = i + 1;
        assert(reclaimed@ =~= old(reclaimed)@ + reaped_sounds(old(voices)@, i as nat));
    }
}

fn count_active(voices: &Vec<Voice>) -> (n: usize)
    ensures
        n == active_count(voices@, voices@.len()),
{
    let mut n: usize = 0;
    let mut i: usize = 0;
    while i < voices.len()
        invariant
            n <= i <= voices@.len(),
            n == active_count(voices@, i as nat),
        decreases voices@.len() - i,
    {
        if voices[i].is_active() {
            n = n + 1;
        }
        i = i + 1;
    }
    n
}

proof fn lemma_position(voices: Seq<Voice>, p: spec_fn(Voice) -> bool, from: int)
    requires
        0 <= from <= voices.len(),
    ensures
        from <= position_of(voices, p, from) <= voices.len(),
        position_of(voices, p, from) < voices.len() ==> p(voices[position_of(voices, p, from)]),
        forall|i: int| from <= i < position_of(voices, p, from) ==> !p(#[trigger] voices[i]),
    decreases voices.len() - from,
{
    if from < voices.len() && !p(voices[from]) {
        lemma_position(voices, p, from + 1);
    }
}

proof fn lemma_oldest(voices: Seq<Voice>, n: nat)
    requires
        0 < n <= voices.len(),
    ensures
        0 <= oldest(voices, n) < n,
        forall|i: int| 0 <= i < n ==> voices[oldest(voices, n)].age <= #[trigger] voices[i].age,
    decreases n,
{
    if n > 1 {
        lemma_oldest(voices, (n - 1) as nat);
    }
}

/// A sound takes an idle voice where there is one. Otherwise it takes the place of the oldest
/// voice, whose sound goes on from where it was and fades out among the tails. Where neither is
/// possible the sound is not played, and every voice stays as it was.
pub proof fn law_the_oldest_voice_is_stolen<M: SampleMath>(
    pool: Pool,
    m: &M,
    request: SoundRequest,
    ramp_samples: u32,
)
    ensures
        ({
            let next = pool.playing(m, request, ramp_samples);
            match pool.outcome() {
                StealOutcome::Assigned => exists|i: int|
                    {
                        &&& 0 <= i < pool.primary.len()
                        &&& !(#[trigger] pool.primary[i]).active()
                        &&& next.primary == pool.primary.update(
                            i,
                            Voice::starting(request, pool.next_age),
                        )
                        &&& next.tails == pool.tails
                    },
                StealOutcome::Stolen => exists|i: int, j: int|
                    {
                        &&& 0 <= i < pool.primary.len()
                        &&& 0 <= j < pool.tails.len()
                        &&& forall|k: int|
                            0 <= k < pool.primary.len() ==> (#[trigger] pool.primary[k]).active()
                                && pool.primary[i].age <= pool.primary[k].age
                        &&& !(#[trigger] pool.tails[j]).active()
                        &&& next.primary == pool.primary.update(
                            i,
                            Voice::starting(request, pool.next_age),
                        )
                        &&& next.tails == pool.tails.update(
                            j,
                            (#[trigger] pool.primary[i]).fading(m, ramp_samples),
                        )
                    },
                StealOutcome::TailPoolExhausted => next.primary == pool.primary && next.tails
                    == pool.tails,
            }
        }),
{
    let idle = |v: Voice| !v.active();
    lemma_position(pool.primary, idle, 0);
    lemma_position(pool.tails, idle, 0);
    match pool.outcome() {
        StealOutcome::Assigned => {
            assert(!pool.primary[pool.free_voice()].active());
        },
        StealOutcome::Stolen => {
            let i = oldest(pool.primary, pool.primary.len());
            let j = pool.free_tail();
            lemma_oldest(pool.primary, pool.primary.len());
            assert(!pool.tails[j].active());
            assert(forall|k: int|
                0 <= k < pool.primary.len() ==> !idle(#[trigger] pool.primary[k]));
            assert(pool.primary[i].active());
        },
        StealOutcome::TailPoolExhausted => {},
    }
}

/// No more voices hold a sound than there are.
pub proof fn law_active_voices_are_bounded(voices: Seq<Voice>, n: nat)
    ensures
        active_count(voices, n) <= n,
    decreases n,
{
    if n > 0 {
        law_active_voices_are_bounded(voices, (n - 1) as nat);
    }
}

/// The sounds that the first `n` voices hold, in their order.
pub open spec fn held_sounds(voices: Seq<Voice>, n: nat) -> Seq<Arc<SoundData>>
    decreases n,
{
    if n == 0 {
        Seq::empty()
    } else {
        let before = held_sounds(voices, (n - 1) as nat);
        if voices[n - 1].active() {
            before.push(voices[n - 1].sound->0)
        } else {
            before
        }
    }
}

impl Pool {
    /// The sounds that the voices of this pool hold.
    pub open spec fn sounds(self) -> vstd::multiset::Multiset<Arc<SoundData>> {
        held_sounds(self.primary, self.primary.len()).to_multiset().add(
            held_sounds(self.tails, self.tails.len()).to_multiset(),
        )
    }
}

proof fn lemma_reaping_keeps_sounds(voices: Seq<Voice>, n: nat)
    requires
        n <= voices.len(),
    ensures
        ({
            let after = voices.map_values(|v: Voice| if v.reapable() { v.reaped() } else { v });
            held_sounds(voices, n).to_multiset() == held_sounds(after, n).to_multiset().add(
                reaped_sounds(voices, n).to_multiset(),
            )
        }),
    decreases n,
{
    broadcast use vstd::seq_lib::group_to_multiset_ensures;

    let after = voices.map_values(|v: Voice| if v.reapable() { v.reaped() } else { v });
    if n > 0 {
        lemma_reaping_keeps_sounds(voices, (n - 1) as nat);
        assert(held_sounds(voices, n).to_multiset() =~= held_sounds(after, n).to_multiset().add(
            reaped_sounds(voices, n).to_multiset(),
        ));
    } else {
        assert(held_sounds(voices, n).to_multiset() =~= held_sounds(after, n).to_multiset().add(
            reaped_sounds(voices, n).to_multiset(),
        ));
    }
}

/// Every sound that leaves the pool is given back, and no other: the sounds that the voices held
/// are those that they still hold together with those that are given back.
pub proof fn law_reaped_sounds_are_given_back(pool: Pool)
    ensures
        pool.sounds() == pool.reaped().sounds().add(pool.reclaimed().to_multiset()),
{
    broadcast use vstd::seq_lib::group_to_multiset_ensures;

    lemma_reaping_keeps_sounds(pool.primary, pool.primary.len());
    lemma_reaping_keeps_sounds(pool.tails, pool.tails.len());
    vstd::seq_lib::lemma_multiset_commutative(
        reaped_sounds(pool.primary, pool.primary.len()),
        reaped_sounds(pool.tails, pool.tails.len()),
    );
    assert(pool.sounds() =~= pool.reaped().sounds().add(pool.reclaimed().to_multiset()));
}

proof fn lemma_held_after_update(voices: Seq<Voice>, i: int, v: Voice, n: nat)
    requires
        0 <= i < voices.len(),
        n <= voices.len(),
        v.active(),
    ensures
        n <= i ==> held_sounds(voices.update(i, v), n) == held_sounds(voices, n),
        n > i && !voices[i].active() ==> held_sounds(voices.update(i, v), n).to_multiset()
            == held_sounds(voices, n).to_multiset().insert(v.sound->0),
        n > i && voices[i].active() ==> held_sounds(voices.update(i, v), n).to_multiset().insert(
            voices[i].sound->0,
        ) == held_sounds(voices, n).to_multiset().insert(v.sound->0),
    decreases n,
{
    broadcast use vstd::seq_lib::group_to_multiset_ensures;

    if n > 0 {
        lemma_held_after_update(voices, i, v, (n - 1) as nat);
        let after = voices.update(i, v);
        if n > i && !voices[i].active() {
            assert(held_sounds(after, n).to_multiset() =~= held_sounds(
                voices,
                n,
            ).to_multiset().insert(v.sound->0));
        } else if n > i {
            let x = held_sounds(after, n).to_multiset();
            let y = held_sounds(voices, n).to_multiset();
            let x1 = held_sounds(after, (n - 1) as nat).to_multiset();
            let y1 = held_sounds(voices, (n - 1) as nat).to_multiset();
            if n - 1 == i {
                assert(x == x1.insert(v.sound->0));
                assert(y == y1.insert(voices[i].sound->0));
                assert(x.insert(voices[i].sound->0) =~= y.insert(v.sound->0));
            } else if voices[n - 1].active() {
                let s = voices[n - 1].sound->0;
                assert(x == x1.insert(s));
                assert(y == y1.insert(s));
                assert(x.insert(voices[i].sound->0) =~= x1.insert(voices[i].sound->0).insert(s));
                assert(y.insert(v.sound->0) =~= y1.insert(v.sound->0).insert(s));
            }
        }
    }
}

/// Playing a sound loses none: the voices then hold, together with what is refused, the sounds that
/// they held and the new one.
pub proof fn law_playing_loses_no_sound<M: SampleMath>(
    pool: Pool,
    m: &M,
    request: SoundRequest,
    ramp_samples: u32,
)
    ensures
        pool.playing(m, request, ramp_samples).sounds().add(
            pool.refused(request.sound).to_multiset(),
        ) == pool.sounds().insert(request.sound),
{
    broadcast use vstd::seq_lib::group_to_multiset_ensures;

    let idle = |v: Voice| !v.active();
    let voice = Voice::starting(request, pool.next_age);
    let next = pool.playing(m, request, ramp_samples);
    lemma_position(pool.primary, idle, 0);
    lemma_position(pool.tails, idle, 0);
    match pool.outcome() {
        StealOutcome::Assigned => {
            lemma_held_after_update(pool.primary, pool.free_voice(), voice, pool.primary.len());
            assert(next.sounds() =~= pool.sounds().insert(request.sound));
        },
        StealOutcome::Stolen => {
            let i = oldest(pool.primary, pool.primary.len());
            lemma_oldest(pool.primary, pool.primary.len());
            assert(!idle(pool.primary[i]));
            let victim = pool.primary[i];
            lemma_held_after_update(pool.primary, i, voice, pool.primary.len());
            lemma_held_after_update(
                pool.tails,
                pool.free_tail(),
                victim.fading(m, ramp_samples),
                pool.tails.len(),
            );
            let x = held_sounds(next.primary, next.primary.len()).to_multiset();
            let y = held_sounds(pool.primary, pool.primary.len()).to_multiset();
            assert(x.insert(victim.sound->0) == y.insert(request.sound));
            assert(next.sounds() =~= pool.sounds().insert(request.sound)) by {
                assert forall|s: Arc<SoundData>|
                    next.sounds().count(s) == pool.sounds().insert(request.sound).count(s) by {
                    assert(x.insert(victim.sound->0).count(s) == y.insert(request.sound).count(s));
                }
            }
        },
        StealOutcome::TailPoolExhausted => {},
    }
}

proof fn lemma_held_by_sounds(a: Seq<Voice>, b: Seq<Voice>, n: nat)
    requires
        forall|i: int| 0 <= i < n ==> (#[trigger] a[i]).sound == b[i].sound,
    ensures
        held_sounds(a, n) == held_sounds(b, n),
    decreases n,
{
    if n > 0 {
        lemma_held_by_sounds(a, b, (n - 1) as nat);
        assert(a[n - 1].sound == b[n - 1].sound);
    }
}

/// Voices that fade out or change their volume keep their sounds.
pub proof fn law_fading_keeps_the_sounds<M: SampleMath>(
    pool: Pool,
    m: &M,
    id: u64,
    volume: u32,
    ramp_samples: u32,
)
    ensures
        pool.stopping(m, id, ramp_samples).sounds() == pool.sounds(),
        pool.at_volume(m, id, volume, ramp_samples).sounds() == pool.sounds(),
        pool.without_sound(m, id, ramp_samples).sounds() == pool.sounds(),
{
    let n = pool.primary.len();
    lemma_position(pool.primary, |v: Voice| v.plays(id), 0);
    lemma_position(pool.primary, |v: Voice| v.plays(id) && !v.stopping, 0);
    lemma_held_by_sounds(pool.stopping(m, id, ramp_samples).primary, pool.primary, n);
    lemma_held_by_sounds(pool.at_volume(m, id, volume, ramp_samples).primary, pool.primary, n);
    lemma_held_by_sounds(pool.without_sound(m, id, ramp_samples).primary, pool.primary, n);
    lemma_held_by_sounds(
        pool.without_sound(m, id, ramp_samples).tails,
        pool.tails,
        pool.tails.len(),
    );
}

/// A looping voice never comes to an end by itself, whatever its position, and keeps looping as it
/// is rendered; it is only made idle once it has been faded out.
pub proof fn law_looping_voices_play_on<M: SampleMath>(voice: Voice, m: &M)
    requires
        voice.active(),
        voice.loop_region is Some,
    ensures
        !voice.finished(),
        voice.reapable() ==> voice.stopping && voice.volume.remaining_samples == 0,
        voice.advanced(m).active(),
        voice.advanced(m).loop_region == voice.loop_region,
{
}

/// A looping voice never renders a frame at or behind the end of its loop, and goes back to the
/// start exactly there.
pub proof fn law_loops_stay_in_their_region(voice: Voice, region: (u64, u64))
    requires
        voice.loop_region == Some(region),
        region.0 < region.1,
        region.1 <= usize::MAX,
    ensures
        voice.read_position() < region.1,
        voice.position_frames < region.1 ==> voice.read_position() == voice.position_frames,
        voice.position_frames >= region.1 ==> voice.read_position() == region.0,
        voice.active() ==> voice.moved().position_frames <= region.1,
{
}

/// A voice that does not loop renders every frame of its sound once, in order, and is made idle
/// after the last.
pub proof fn law_sounds_are_played_once<M: SampleMath>(
    m: &M,
    request: SoundRequest,
    age: u64,
    n: nat,
)
    requires
        request.sound.interleaved@.len() >= 2 * request.sound.frames,
        n <= request.sound.frames,
    ensures
        ({
            let voice = voice_after(m, Voice::starting(request, age), n);
            &&& voice.position_frames == n
            &&& voice.sound == Some(request.sound)
            &&& n < request.sound.frames ==> request.sound.frame_at(n as int) == Some(
                voice.samples(),
            )
            &&& voice.finished() <==> n == request.sound.frames
        }),
    decreases n,
{
    if n > 0 {
        law_sounds_are_played_once(m, request, age, (n - 1) as nat);
    }
    lemma_loop_is_kept(m, Voice::starting(request, age), n);
}

/// `voice` after `n` frames.
pub open spec fn voice_after<M: SampleMath>(m: &M, voice: Voice, n: nat) -> Voice
    decreases n,
{
    if n == 0 {
        voice
    } else {
        voice_after(m, voice, (n - 1) as nat).advanced(m)
    }
}

proof fn lemma_loop_is_kept<M: SampleMath>(m: &M, voice: Voice, n: nat)
    ensures
        voice_after(m, voice, n).loop_region == voice.loop_region,
        voice_after(m, voice, n).sound == voice.sound,
    decreases n,
{
    if n > 0 {
        lemma_loop_is_kept(m, voice, (n - 1) as nat);
    }
}

/// A loop that does not start before its end is no loop.
pub proof fn law_invalid_regions_are_no_loops(pool: Pool, serial: u64, start: u64, end: u64)
    requires
        start >= end,
    ensures
        pool.looping(serial, Some((start, end))) == pool.looping(serial, None),
{
}

/// The sample that `sound` holds for one channel of a frame, `0` for left and `1` for right;
/// silence where it has no such frame.
pub open spec fn sample_in(sound: SoundData, frame: int, channel: int) -> u32 {
    if 0 <= frame < sound.frames && 2 * frame + 1 < sound.interleaved@.len() {
        sound.interleaved@[2 * frame + channel]
    } else {
        SILENCE
    }
}

/// The frame that is due in a voice: the one it stands at, or the start of its loop once it has
/// come to the end of that.
pub open spec fn due_frame(voice: Voice) -> int {
    match voice.loop_region {
        Some(region) => if voice.position_frames < region.1 {
            voice.position_frames as int
        } else {
            region.0 as int
        },
        None => voice.position_frames as int,
    }
}

/// What is heard next of a voice that holds a sound in one channel: the sample of that channel, at
/// the volume of the voice and then at that of its bus. The master bus is not applied to single
/// voices.
pub open spec fn heard<M: SampleMath>(
    m: &M,
    voice: Voice,
    bus_volume: Seq<u32>,
    channel: int,
) -> u32 {
    let own = math::product_of(
        m,
        sample_in(*voice.sound->0, due_frame(voice), channel),
        voice.volume.advanced(m).current,
    );
    match voice.bus {
        BusId::Master => math::product_of(m, own, UNITY),
        BusId::Bgm => math::product_of(m, own, bus_volume[1]),
        BusId::Se => math::product_of(m, own, bus_volume[2]),
        BusId::Voice => math::product_of(m, own, bus_volume[3]),
    }
}

proof fn lemma_with_voices_before<M: SampleMath>(
    m: &M,
    sum: (u32, u32),
    a: Seq<Voice>,
    b: Seq<Voice>,
    bus_volume: Seq<u32>,
    n: nat,
)
    requires
        forall|i: int| 0 <= i < n ==> a[i] == b[i],
    ensures
        with_voices(m, sum, a, bus_volume, n) == with_voices(m, sum, b, bus_volume, n),
    decreases n,
{
    if n > 0 {
        lemma_with_voices_before(m, sum, a, b, bus_volume, (n - 1) as nat);
    }
}

/// A mix starts from silence, and each voice adds to either channel what is heard of it there. A
/// voice without a sound adds nothing. Those that fade out after stealing are added after the
/// others.
pub proof fn law_voices_are_added_up<M: SampleMath>(
    pool: Pool,
    m: &M,
    voice: Voice,
    bus_volume: Seq<u32>,
)
    ensures
        pool.primary.len() == 0 && pool.tails.len() == 0 ==> pool.mixed(m, bus_volume) == (
            SILENCE,
            SILENCE,
        ),
        ({
            let before = pool.mixed(m, bus_volume);
            let as_tail = Pool { tails: pool.tails.push(voice), ..pool };
            let as_primary = Pool { primary: pool.primary.push(voice), ..pool };
            let after = if voice.sound is Some {
                (
                    math::sum_of(m, before.0, heard(m, voice, bus_volume, 0)),
                    math::sum_of(m, before.1, heard(m, voice, bus_volume, 1)),
                )
            } else {
                before
            };
            &&& as_tail.mixed(m, bus_volume) == after
            &&& pool.tails.len() == 0 ==> as_primary.mixed(m, bus_volume) == after
        }),
{
    let n = pool.primary.len();
    let sum = with_voices(m, (SILENCE, SILENCE), pool.primary, bus_volume, n);
    lemma_with_voices_before(
        m,
        sum,
        pool.tails,
        pool.tails.push(voice),
        bus_volume,
        pool.tails.len(),
    );
    lemma_with_voices_before(
        m,
        (SILENCE, SILENCE),
        pool.primary,
        pool.primary.push(voice),
        bus_volume,
        n,
    );
}

proof fn lemma_idle_voices_add_nothing<M: SampleMath>(
    m: &M,
    sum: (u32, u32),
    voices: Seq<Voice>,
    bus_volume: Seq<u32>,
    from: nat,
    n: nat,
)
    requires
        from <= n,
        forall|i: int| from <= i < n ==> (#[trigger] voices[i]).sound is None,
    ensures
        with_voices(m, sum, voices, bus_volume, n) == with_voices(m, sum, voices, bus_volume, from),
    decreases n,
{
    if from < n {
        lemma_idle_voices_add_nothing(m, sum, voices, bus_volume, from, (n - 1) as nat);
        assert(voices[n - 1].sound is None);
    }
}

/// A voice that plays alone is heard alone: the left channel is made of the even samples of its
/// sound and the right one of the odd samples, each at the volume of the voice and of its bus.
pub proof fn law_a_single_voice_is_heard_alone<M: SampleMath>(
    pool: Pool,
    m: &M,
    i: int,
    bus_volume: Seq<u32>,
)
    requires
        0 <= i < pool.primary.len(),
        pool.primary[i].sound is Some,
        forall|k: int|
            0 <= k < pool.primary.len() && k != i ==> (#[trigger] pool.primary[k]).sound is None,
        forall|k: int| 0 <= k < pool.tails.len() ==> (#[trigger] pool.tails[k]).sound is None,
    ensures
        pool.mixed(m, bus_volume) == (
            math::sum_of(m, SILENCE, heard(m, pool.primary[i], bus_volume, 0)),
            math::sum_of(m, SILENCE, heard(m, pool.primary[i], bus_volume, 1)),
        ),
{
    let silent = (SILENCE, SILENCE);
    let n = pool.primary.len();
    lemma_idle_voices_add_nothing(m, silent, pool.primary, bus_volume, 0, i as nat);
    lemma_idle_voices_add_nothing(m, silent, pool.primary, bus_volume, (i + 1) as nat, n);
    lemma_idle_voices_add_nothing(
        m,
        with_voices(m, silent, pool.primary, bus_volume, n),
        pool.tails,
        bus_volume,
        0,
        pool.tails.len(),
    );
}

/// Whether two sounds are alike but for their channels, which are exchanged.
pub open spec fn channels_exchanged(a: SoundData, b: SoundData) -> bool {
    &&& a.frames == b.frames
    &&& a.interleaved@.len() == b.interleaved@.len()
    &&& forall|i: int|
        #![trigger a.interleaved@[2 * i]]
        #![trigger b.interleaved@[2 * i]]
        0 <= i && 2 * i + 1 < a.interleaved@.len() ==> a.interleaved@[2 * i]
            == b.interleaved@[2 * i + 1] && a.interleaved@[2 * i + 1] == b.interleaved@[2 * i]
}

/// Whether these are the same voices but for the channels of their sounds, which are exchanged.
pub open spec fn play_exchanged(a: Seq<Voice>, b: Seq<Voice>) -> bool {
    &&& a.len() == b.len()
    &&& forall|i: int|
        #![trigger a[i]]
        #![trigger b[i]]
        0 <= i < a.len() ==> {
            &&& b[i] == Voice { sound: b[i].sound, ..a[i] }
            &&& a[i].sound is Some == b[i].sound is Some
            &&& a[i].sound is Some ==> channels_exchanged(*a[i].sound->0, *b[i].sound->0)
        }
}

proof fn lemma_exchanged_voices<M: SampleMath>(
    m: &M,
    sum: (u32, u32),
    a: Seq<Voice>,
    b: Seq<Voice>,
    bus_volume: Seq<u32>,
    n: nat,
)
    requires
        play_exchanged(a, b),
        n <= a.len(),
    ensures
        ({
            let x = with_voices(m, sum, a, bus_volume, n);
            with_voices(m, (sum.1, sum.0), b, bus_volume, n) == (x.1, x.0)
        }),
    decreases n,
{
    if n > 0 {
        lemma_exchanged_voices(m, sum, a, b, bus_volume, (n - 1) as nat);
        let v = a[n - 1];
        let w = b[n - 1];
        if v.sound is Some {
            let s = *v.sound->0;
            let t = *w.sound->0;
            let p = v.read_position() as int;
            if 0 <= p && 2 * p + 1 < s.interleaved@.len() {
                assert(s.interleaved@[2 * p] == t.interleaved@[2 * p + 1]);
            }
        }
    }
}

/// Exchanging the channels of every sound exchanges the channels of the mix, and changes nothing
/// else of it.
pub proof fn law_channels_are_mixed_apart<M: SampleMath>(
    a: Pool,
    b: Pool,
    m: &M,
    bus_volume: Seq<u32>,
)
    requires
        play_exchanged(a.primary, b.primary),
        play_exchanged(a.tails, b.tails),
    ensures
        b.mixed(m, bus_volume).0 == a.mixed(m, bus_volume).1,
        b.mixed(m, bus_volume).1 == a.mixed(m, bus_volume).0,
{
    let silent = (SILENCE, SILENCE);
    lemma_exchanged_voices(m, silent, a.primary, b.primary, bus_volume, a.primary.len());
    lemma_exchanged_voices(
        m,
        with_voices(m, silent, a.primary, bus_volume, a.primary.len()),
        a.tails,
        b.tails,
        bus_volume,
        a.tails.len(),
    );
}

/// With every frame of the mix, each voice that holds a sound moves on by one frame of it, as long
/// as there is one, and by one sample of its volume ramp, and is otherwise left alone; a voice
/// without a sound does not change at all.
pub proof fn law_voices_move_by_one_frame<M: SampleMath>(pool: Pool, m: &M)
    ensures
        ({
            let next = pool.advanced(m);
            &&& next.primary.len() == pool.primary.len()
            &&& next.tails.len() == pool.tails.len()
            &&& next.next_age == pool.next_age
            &&& forall|i: int|
                0 <= i < pool.primary.len() ==> moved_on(
                    m,
                    #[trigger] pool.primary[i],
                    next.primary[i],
                )
            &&& forall|i: int|
                0 <= i < pool.tails.len() ==> moved_on(m, #[trigger] pool.tails[i], next.tails[i])
        }),
{
}

/// Whether `after` is what `before` is one frame later.
pub open spec fn moved_on<M: SampleMath>(m: &M, before: Voice, after: Voice) -> bool {
    match before.sound {
        None => after == before,
        Some(sound) => {
            let frame = due_frame(before);
            &&& after == Voice {
                position_frames: after.position_frames,
                volume: before.volume.advanced(m),
                ..before
            }
            &&& frame < sound.frames && 2 * frame + 1 < sound.interleaved@.len()
                ==> after.position_frames == frame + 1
            &&& frame >= sound.frames || 2 * frame + 1 >= sound.interleaved@.len()
                ==> after.position_frames == frame || after.position_frames == usize::MAX < frame
        },
    }
}

/// Whether `voice` has just been given the requested sound: it stands at its first frame, at the
/// requested volume, on the requested bus, without a loop, and has the age `age`.
pub open spec fn has_started(voice: Voice, request: SoundRequest, age: u64) -> bool {
    &&& voice.sound == Some(request.sound)
    &&& voice.serial == request.serial
    &&& voice.sound_id == request.sound_id
    &&& voice.bus == request.bus
    &&& voice.position_frames == 0
    &&& voice.loop_region is None
    &&& !voice.stopping
    &&& voice.age == age
    &&& voice.volume.current == request.volume
    &&& voice.volume.target == request.volume
    &&& voice.volume.remaining_samples == 0
}

/// Whether `after` is `before` on its way out: the same sound at the same place, with its volume
/// sent to silence.
pub open spec fn fades_out<M: SampleMath>(
    m: &M,
    before: Voice,
    after: Voice,
    samples: u32,
) -> bool {
    &&& after.stopping
    &&& after.volume == before.volume.aimed_at(m, SILENCE, samples)
    &&& after == Voice { stopping: after.stopping, volume: after.volume, ..before }
}

/// The ages of sounds grow by one with every request, whatever becomes of it, and skip zero.
pub proof fn law_every_request_is_younger<M: SampleMath>(
    pool: Pool,
    m: &M,
    request: SoundRequest,
    ramp_samples: u32,
)
    ensures
        pool.next_age < u64::MAX ==> pool.playing(m, request, ramp_samples).next_age
            == pool.next_age + 1,
        pool.next_age == u64::MAX ==> pool.playing(m, request, ramp_samples).next_age == 1,
{
}

/// Where there is an idle voice, the first one takes the sound, and no other voice notices.
pub proof fn law_the_first_idle_voice_is_taken<M: SampleMath>(
    pool: Pool,
    m: &M,
    request: SoundRequest,
    ramp_samples: u32,
    i: int,
)
    requires
        0 <= i < pool.primary.len(),
        pool.primary[i].sound is None,
        forall|k: int| 0 <= k < i ==> (#[trigger] pool.primary[k]).sound is Some,
    ensures
        ({
            let next = pool.playing(m, request, ramp_samples);
            &&& pool.outcome() == StealOutcome::Assigned
            &&& has_started(next.primary[i], request, pool.next_age)
            &&& next.primary == pool.primary.update(i, next.primary[i])
            &&& next.tails == pool.tails
            &&& pool.refused(request.sound).len() == 0
        }),
{
    lemma_position(pool.primary, |v: Voice| !v.active(), 0);
}

/// Where every voice is taken, the oldest one, and of equally old ones the first, is moved to the
/// first idle tail to fade out there, and the sound takes its place; no other voice notices.
pub proof fn law_a_full_pool_gives_up_its_oldest_voice<M: SampleMath>(
    pool: Pool,
    m: &M,
    request: SoundRequest,
    ramp_samples: u32,
    i: int,
    j: int,
)
    requires
        forall|k: int| 0 <= k < pool.primary.len() ==> (#[trigger] pool.primary[k]).sound is Some,
        0 <= i < pool.primary.len(),
        forall|k: int|
            0 <= k < pool.primary.len() ==> pool.primary[i].age <= (#[trigger] pool.primary[k]).age,
        forall|k: int| 0 <= k < i ==> pool.primary[i].age < (#[trigger] pool.primary[k]).age,
        0 <= j < pool.tails.len(),
        pool.tails[j].sound is None,
        forall|k: int| 0 <= k < j ==> (#[trigger] pool.tails[k]).sound is Some,
    ensures
        ({
            let next = pool.playing(m, request, ramp_samples);
            &&& pool.outcome() == StealOutcome::Stolen
            &&& has_started(next.primary[i], request, pool.next_age)
            &&& next.primary == pool.primary.update(i, next.primary[i])
            &&& fades_out(m, pool.primary[i], next.tails[j], ramp_samples)
            &&& next.tails == pool.tails.update(j, next.tails[j])
            &&& pool.refused(request.sound).len() == 0
        }),
{
    lemma_position(pool.primary, |v: Voice| !v.active(), 0);
    lemma_position(pool.tails, |v: Voice| !v.active(), 0);
    lemma_oldest_is_first(pool.primary, pool.primary.len(), i);
}

proof fn lemma_oldest_is_first(voices: Seq<Voice>, n: nat, i: int)
    requires
        0 <= i < n <= voices.len(),
        forall|k: int| 0 <= k < n ==> voices[i].age <= (#[trigger] voices[k]).age,
        forall|k: int| 0 <= k < i ==> voices[i].age < (#[trigger] voices[k]).age,
    ensures
        oldest(voices, n) == i,
    decreases n,
{
    if n > 1 {
        lemma_oldest(voices, n);
        lemma_oldest(voices, (n - 1) as nat);
        if i < n - 1 {
            lemma_oldest_is_first(voices, (n - 1) as nat, i);
        }
    }
}

/// Where no voice is idle and none can be moved aside, the sound is refused and no voice notices.
pub proof fn law_sounds_without_room_are_refused<M: SampleMath>(
    pool: Pool,
    m: &M,
    request: SoundRequest,
    ramp_samples: u32,
)
    requires
        forall|k: int| 0 <= k < pool.primary.len() ==> (#[trigger] pool.primary[k]).sound is Some,
        pool.primary.len() == 0 || forall|k: int|
            0 <= k < pool.tails.len() ==> (#[trigger] pool.tails[k]).sound is Some,
    ensures
        pool.outcome() == StealOutcome::TailPoolExhausted,
        pool.refused(request.sound) == seq![request.sound],
        pool.playing(m, request, ramp_samples).primary == pool.primary,
        pool.playing(m, request, ramp_samples).tails == pool.tails,
{
    lemma_position(pool.primary, |v: Voice| !v.active(), 0);
    lemma_position(pool.tails, |v: Voice| !v.active(), 0);
}

/// Stopping a sound fades out the first voice that plays it and no other, whether or not it was
/// fading out already; voices that were moved aside are out of reach.
pub proof fn law_stopping_fades_one_voice<M: SampleMath>(
    pool: Pool,
    m: &M,
    serial: u64,
    ramp_samples: u32,
    i: int,
)
    requires
        0 <= i <= pool.primary.len(),
        forall|k: int|
            0 <= k < i ==> (#[trigger] pool.primary[k]).sound is None || pool.primary[k].serial
                != serial,
        i < pool.primary.len() ==> pool.primary[i].sound is Some && pool.primary[i].serial
            == serial,
    ensures
        ({
            let next = pool.stopping(m, serial, ramp_samples);
            &&& next.tails == pool.tails
            &&& next.next_age == pool.next_age
            &&& i == pool.primary.len() ==> next.primary == pool.primary
            &&& i < pool.primary.len() ==> {
                &&& fades_out(m, pool.primary[i], next.primary[i], ramp_samples)
                &&& next.primary == pool.primary.update(i, next.primary[i])
            }
        }),
{
    lemma_position(pool.primary, |v: Voice| v.plays(serial), 0);
}

/// Changing the volume or the loop of a sound reaches the first voice that plays it and does not
/// fade out, and no other. The volume moves from where it is, and nothing else of the voice
/// changes; a loop is set only if its start lies before its end, and the voice goes on from where
/// it is.
pub proof fn law_controls_reach_one_voice<M: SampleMath>(
    pool: Pool,
    m: &M,
    serial: u64,
    volume: u32,
    ramp_samples: u32,
    region: Option<(u64, u64)>,
    i: int,
)
    requires
        0 <= i <= pool.primary.len(),
        forall|k: int|
            0 <= k < i ==> (#[trigger] pool.primary[k]).sound is None || pool.primary[k].serial
                != serial || pool.primary[k].stopping,
        i < pool.primary.len() ==> pool.primary[i].sound is Some && pool.primary[i].serial == serial
            && !pool.primary[i].stopping,
    ensures
        ({
            let louder = pool.at_volume(m, serial, volume, ramp_samples);
            let looped = pool.looping(serial, region);
            &&& louder.tails == pool.tails
            &&& louder.next_age == pool.next_age
            &&& looped.tails == pool.tails
            &&& looped.next_age == pool.next_age
            &&& i == pool.primary.len() ==> louder.primary == pool.primary && looped.primary
                == pool.primary
            &&& i < pool.primary.len() ==> {
                let v = pool.primary[i];
                let set = match region {
                    Some(r) => if r.0 < r.1 {
                        Some(r)
                    } else {
                        None
                    },
                    None => None,
                };
                &&& louder.primary == pool.primary.update(
                    i,
                    Voice { volume: v.volume.aimed_at(m, volume, ramp_samples), ..v },
                )
                &&& looped.primary == pool.primary.update(i, Voice { loop_region: set, ..v })
            }
        }),
{
    lemma_position(pool.primary, |v: Voice| v.plays(serial) && !v.stopping, 0);
}

/// Letting go of a loaded sound fades out every voice that plays it, those that were moved aside
/// too, except those that fade out already; no other voice notices.
pub proof fn law_released_sounds_fade_out_everywhere<M: SampleMath>(
    pool: Pool,
    m: &M,
    sound_id: u64,
    ramp_samples: u32,
)
    ensures
        ({
            let next = pool.without_sound(m, sound_id, ramp_samples);
            &&& next.primary.len() == pool.primary.len()
            &&& next.tails.len() == pool.tails.len()
            &&& next.next_age == pool.next_age
            &&& forall|i: int|
                0 <= i < pool.primary.len() ==> if (#[trigger] pool.primary[i]).sound is Some
                    && pool.primary[i].sound_id == sound_id && !pool.primary[i].stopping {
                    fades_out(m, pool.primary[i], next.primary[i], ramp_samples)
                } else {
                    next.primary[i] == pool.primary[i]
                }
            &&& forall|i: int|
                0 <= i < pool.tails.len() ==> if (#[trigger] pool.tails[i]).sound is Some
                    && pool.tails[i].sound_id == sound_id && !pool.tails[i].stopping {
                    fades_out(m, pool.tails[i], next.tails[i], ramp_samples)
                } else {
                    next.tails[i] == pool.tails[i]
                }
        }),
{
}

/// Whether `voice` is done with its sound: it has come to the end of one that does not loop, or has
/// been faded out.
pub open spec fn is_done(voice: Voice) -> bool {
    match voice.sound {
        None => false,
        Some(sound) => {
            ||| voice.loop_region is None && voice.position_frames >= sound.frames
            ||| voice.stopping && voice.volume.remaining_samples == 0
        },
    }
}

/// Reaping takes the sound from exactly those voices that are done with it, and such a voice
/// answers to no sound any more; the others do not change.
pub proof fn law_only_finished_voices_are_reaped(pool: Pool)
    ensures
        ({
            let next = pool.reaped();
            &&& next.primary.len() == pool.primary.len()
            &&& next.tails.len() == pool.tails.len()
            &&& next.next_age == pool.next_age
            &&& forall|i: int|
                0 <= i < pool.primary.len() ==> if is_done(#[trigger] pool.primary[i]) {
                    was_freed(next.primary[i])
                } else {
                    next.primary[i] == pool.primary[i]
                }
            &&& forall|i: int|
                0 <= i < pool.tails.len() ==> if is_done(#[trigger] pool.tails[i]) {
                    was_freed(next.tails[i])
                } else {
                    next.tails[i] == pool.tails[i]
                }
        }),
{
}

/// Whether `voice` holds nothing of the sound it played.
pub open spec fn was_freed(voice: Voice) -> bool {
    &&& voice.sound is None
    &&& voice.serial == 0
    &&& voice.sound_id == 0
    &&& voice.position_frames == 0
    &&& !voice.stopping
}

/// The sounds that reaping gives back come in the order of their voices, each once, those of the
/// voices that were moved aside last.
pub proof fn law_sounds_are_given_back_in_order(pool: Pool, voice: Voice)
    ensures
        ({
            let as_tail = Pool { tails: pool.tails.push(voice), ..pool };
            let as_primary = Pool { primary: pool.primary.push(voice), ..pool };
            let after = if is_done(voice) {
                pool.reclaimed().push(voice.sound->0)
            } else {
                pool.reclaimed()
            };
            &&& pool.primary.len() == 0 && pool.tails.len() == 0 ==> pool.reclaimed().len() == 0
            &&& as_tail.reclaimed() == after
            &&& pool.tails.len() == 0 ==> as_primary.reclaimed() == after
        }),
{
    lemma_reaped_before(pool.tails, pool.tails.push(voice), pool.tails.len());
    lemma_reaped_before(pool.primary, pool.primary.push(voice), pool.primary.len());
    let as_tail = Pool { tails: pool.tails.push(voice), ..pool };
    let as_primary = Pool { primary: pool.primary.push(voice), ..pool };
    let after = if is_done(voice) {
        pool.reclaimed().push(voice.sound->0)
    } else {
        pool.reclaimed()
    };
    assert(as_tail.reclaimed() =~= after);
    if pool.tails.len() == 0 {
        assert(as_primary.reclaimed() =~= after);
    }
}

proof fn lemma_reaped_before(a: Seq<Voice>, b: Seq<Voice>, n: nat)
    requires
        forall|i: int| 0 <= i < n ==> a[i] == b[i],
    ensures
        reaped_sounds(a, n) == reaped_sounds(b, n),
    decreases n,
{
    if n > 0 {
        lemma_reaped_before(a, b, (n - 1) as nat);
    }
}

/// The voices that hold a sound are counted one by one: one more voice counts if it holds a sound.
pub proof fn law_active_voices_are_counted(voices: Seq<Voice>, voice: Voice)
    ensures
        active_count(voices, 0) == 0,
        active_count(voices.push(voice), voices.len() + 1) == active_count(voices, voices.len())
            + if voice.sound is Some {
            1int
        } else {
            0
        },
{
    lemma_counted_before(voices, voices.push(voice), voices.len());
}

proof fn lemma_counted_before(a: Seq<Voice>, b: Seq<Voice>, n: nat)
    requires
        forall|i: int| 0 <= i < n ==> a[i] == b[i],
    ensures
        active_count(a, n) == active_count(b, n),
    decreases n,
{
    if n > 0 {
        lemma_counted_before(a, b, (n - 1) as nat);
    }
}

proof fn lemma_first_position(voices: Seq<Voice>, p: spec_fn(Voice) -> bool, at: int)
    requires
        0 <= at <= voices.len(),
        forall|k: int| 0 <= k < at ==> !p(#[trigger] voices[k]),
        at < voices.len() ==> p(voices[at]),
    ensures
        position_of(voices, p, 0) == at,
{
    lemma_position(voices, p, 0);
}

/// The loop that is set for a sound is the loop that it is then said to have, where its first voice
/// does not fade out; a sound that no voice plays has none.
pub proof fn law_loops_that_are_set_are_told(
    pool: Pool,
    serial: u64,
    region: (u64, u64),
    i: int,
)
    requires
        0 <= i <= pool.primary.len(),
        forall|k: int|
            0 <= k < i ==> (#[trigger] pool.primary[k]).sound is None || pool.primary[k].serial
                != serial,
        i < pool.primary.len() ==> pool.primary[i].sound is Some && pool.primary[i].serial == serial
            && !pool.primary[i].stopping,
        region.0 < region.1,
    ensures
        i < pool.primary.len() ==> pool.loop_of(serial) == pool.primary[i].loop_region,
        i < pool.primary.len() ==> pool.looping(serial, Some(region)).loop_of(serial) == Some(
            region,
        ),
        pool.looping(serial, None).loop_of(serial) is None,
        i == pool.primary.len() ==> pool.loop_of(serial) is None,
{
    let plays = |v: Voice| v.plays(serial);
    let stays = |v: Voice| v.plays(serial) && !v.stopping;
    lemma_first_position(pool.primary, plays, i);
    lemma_first_position(pool.primary, stays, i);
    lemma_first_position(pool.looping(serial, Some(region)).primary, plays, i);
    lemma_first_position(pool.looping(serial, None).primary, plays, i);
}

} // verus!
