//! The music voice: one streamed song with pause, seek and loop, free of clicks.

use vstd::prelude::*;

use crate::config::Config;
use crate::format::CHANNELS;
#[allow(unused_imports)]
use crate::math;
use crate::math::{SampleMath, SILENCE, UNITY};
#[allow(unused_imports)]
use crate::ramp;
use crate::ramp::{ms_to_samples, Ramp};

verus! {

/// What the music voice is doing.
#[derive(Debug, Clone, Copy, PartialEq, Eq, Structural)]
pub enum MusicState {
    /// The song is still being loaded.
    Loading,
    /// The song can be started.
    Ready,
    /// The song is playing.
    Playing,
    /// The song is halted and keeps its position.
    Paused,
}

impl MusicState {
    /// The number under which this state is published.
    pub open spec fn number(self) -> nat {
        match self {
            MusicState::Loading => 0,
            MusicState::Ready => 1,
            MusicState::Playing => 2,
            MusicState::Paused => 3,
        }
    }

    /// The number under which this state is published.
    pub fn to_u8(self) -> (n: u8)
        ensures
            n == self.number(),
    {
        match self {
            MusicState::Loading => 0,
            MusicState::Ready => 1,
            MusicState::Playing => 2,
            MusicState::Paused => 3,
        }
    }

    /// The state with the number `value`; [`MusicState::Loading`] for a number that no state has.
    pub fn from_u8(value: u8) -> (state: MusicState)
        ensures
            value <= 3 ==> state.number() == value,
            value > 3 ==> state == MusicState::Loading,
    {
        match value {
            1 => MusicState::Ready,
            2 => MusicState::Playing,
            3 => MusicState::Paused,
            _ => MusicState::Loading,
        }
    }
}

/// One call of a [`MusicFrameSource`], with what it answered.
pub enum SourceEvent {
    /// [`MusicFrameSource::is_ready`] answered this.
    Ready(bool),
    /// [`MusicFrameSource::total_frames`] answered this.
    Total(Option<u64>),
    /// [`MusicFrameSource::read`] was given a buffer that held `before`, left `after` in it and
    /// returned `count`.
    Read {
        /// The buffer before the call.
        before: Seq<u32>,
        /// The buffer after the call.
        after: Seq<u32>,
        /// How many frames the source says it has delivered.
        count: usize,
    },
    /// [`MusicFrameSource::request_seek`] was called with this frame.
    Seek(u64),
}

/// Where a music voice gets its frames from.
///
/// What a source answers may change between two calls, since it is filled from elsewhere. Its
/// calls are therefore recorded in the order in which they are made, each with its answer.
pub trait MusicFrameSource {
    /// The calls that this source has answered so far. A verified source says what the record is.
    /// One that takes this default has an empty record for good, which no answer can be added to:
    /// it cannot be shown to keep the contract of this trait. The default is for sources outside
    /// the verified code.
    closed spec fn events(&self) -> Seq<SourceEvent> {
        Seq::empty()
    }

    /// Fills `out` with interleaved frames and returns how many were delivered.
    fn read(&mut self, out: &mut [u32]) -> (count: usize)
        ensures
            final(out)@.len() == old(out)@.len(),
            final(self).events() == old(self).events().push(
                SourceEvent::Read { before: old(out)@, after: final(out)@, count },
            ),
    ;

    /// The length of the song, if it is known.
    fn total_frames(&mut self) -> (total: Option<u64>)
        ensures
            final(self).events() == old(self).events().push(SourceEvent::Total(total)),
    ;

    /// Whether enough has been decoded for the song to start.
    fn is_ready(&mut self) -> (ready: bool)
        ensures
            final(self).events() == old(self).events().push(SourceEvent::Ready(ready)),
    ;

    /// Asks for the frames from `frame` on.
    fn request_seek(&mut self, frame: u64)
        ensures
            final(self).events() == old(self).events().push(SourceEvent::Seek(frame)),
    ;
}

/// What one call of [`MusicVoice::render`] did.
#[derive(Debug, Clone, Copy, PartialEq, Eq, Structural)]
pub struct MusicRenderOutcome {
    /// Frames that were rendered while the song was playing.
    pub rendered_frames: usize,
    /// Rendered frames for which the source had nothing.
    pub underrun_frames: usize,
    /// Whether the end of the song was reached.
    pub ended: bool,
    /// Whether the song went back to the start of its loop.
    pub looped: bool,
    /// Whether the position jumped.
    pub discontinuity: bool,
}

impl MusicRenderOutcome {
    /// Nothing rendered and nothing happened.
    pub open spec fn nothing() -> MusicRenderOutcome {
        MusicRenderOutcome {
            rendered_frames: 0,
            underrun_frames: 0,
            ended: false,
            looped: false,
            discontinuity: false,
        }
    }

    /// This outcome followed by `other`.
    pub open spec fn merged(self, other: MusicRenderOutcome) -> MusicRenderOutcome {
        MusicRenderOutcome {
            rendered_frames: (self.rendered_frames + other.rendered_frames) as usize,
            underrun_frames: (self.underrun_frames + other.underrun_frames) as usize,
            ended: self.ended || other.ended,
            looped: self.looped || other.looped,
            discontinuity: self.discontinuity || other.discontinuity,
        }
    }

    /// Joins the outcomes of two calls that rendered one buffer in two parts.
    pub fn merge(self, other: MusicRenderOutcome) -> (both: MusicRenderOutcome)
        requires
            self.rendered_frames + other.rendered_frames <= usize::MAX,
            self.underrun_frames + other.underrun_frames <= usize::MAX,
        ensures
            both == self.merged(other),
    {
        MusicRenderOutcome {
            rendered_frames: self.rendered_frames + other.rendered_frames,
            underrun_frames: self.underrun_frames + other.underrun_frames,
            ended: self.ended || other.ended,
            looped: self.looped || other.looped,
            discontinuity: self.discontinuity || other.discontinuity,
        }
    }
}

impl Default for MusicRenderOutcome {
    fn default() -> (outcome: MusicRenderOutcome)
        ensures
            outcome == MusicRenderOutcome::nothing(),
    {
        MusicRenderOutcome {
            rendered_frames: 0,
            underrun_frames: 0,
            ended: false,
            looped: false,
            discontinuity: false,
        }
    }
}

/// What happens once the gain has settled.
#[derive(Debug, Clone, Copy, PartialEq, Eq, Structural)]
pub enum PendingTransition {
    /// Nothing.
    Nothing,
    /// The voice pauses.
    Pause,
    /// The voice stops.
    Stop,
    /// The voice goes on from this frame.
    LoopWrap(u64),
}

/// One streamed song.
#[derive(Debug, Clone, Copy)]
pub struct MusicVoice {
    /// What the voice is doing.
    pub state: MusicState,
    /// The frame of the song that is rendered next.
    pub position_frames: u64,
    /// The first frame of the loop and the frame after its last, if the song loops.
    pub loop_region: Option<(u64, u64)>,
    /// The gain, which is ramped so that no transition clicks.
    pub gain: Ramp,
    /// The gain of the undisturbed song.
    pub target_volume: u32,
    /// Frames per second.
    pub sample_rate: u32,
    /// What happens once the gain has settled.
    pub pending_settle: PendingTransition,
    /// Whether the position jumped since the last call of [`MusicVoice::render`].
    pub pending_discontinuity: bool,
    /// The frame from which the song went on after its latest loop.
    pub loop_restart_frame: u64,
}

/// `n` silent frames.
pub open spec fn silent_frames(n: nat) -> Seq<u32> {
    Seq::new(n * CHANNELS as nat, |i: int| SILENCE)
}

/// A chunk of frames that a source has delivered, on its way through a voice.
#[verifier::ext_equal]
pub struct ChunkRun {
    /// The voice after the frames so far.
    pub voice: MusicVoice,
    /// What has happened so far.
    pub outcome: MusicRenderOutcome,
    /// The samples rendered so far.
    pub out: Seq<u32>,
    /// The frame to seek to, if the song went back to the start of its loop.
    pub restart: Option<u64>,
    /// Whether the rest of the chunk is dropped.
    pub stopped: bool,
}

/// What a call of [`MusicVoice::render`] waits for.
pub enum RenderPhase {
    /// Whether the source is ready.
    Waiting,
    /// The length of the song.
    Asking,
    /// This many frames.
    Reading(nat),
    /// The seek to this frame.
    Seeking(u64),
    /// Nothing: the buffer is complete.
    Done,
    /// A call was made that does not belong there.
    Astray,
}

/// A call of [`MusicVoice::render`] under way.
#[verifier::ext_equal]
pub struct RenderRun {
    /// The voice at this point.
    pub voice: MusicVoice,
    /// What has happened so far.
    pub outcome: MusicRenderOutcome,
    /// The samples rendered so far.
    pub out: Seq<u32>,
    /// What comes next.
    pub phase: RenderPhase,
}

impl ChunkRun {
    /// This chunk after one more frame `(l, r)`, which the source has delivered (`got`) or for
    /// which it had nothing.
    ///
    /// Close to the end of the loop the gain starts towards silence, so that it arrives there with
    /// the loop's last frame. Once the gain has settled, what was pending happens.
    #[verifier::opaque]
    pub open spec fn after_frame<M: SampleMath>(
        self,
        m: &M,
        l: u32,
        r: u32,
        got: bool,
    ) -> ChunkRun {
        let v = self.voice.led_to_loop_end(m);
        let v = MusicVoice {
            position_frames: if got {
                v.position_frames.wrapping_add(1)
            } else {
                v.position_frames
            },
            gain: v.gain.advanced(m),
            ..v
        };
        let outcome = MusicRenderOutcome {
            rendered_frames: (self.outcome.rendered_frames + 1) as usize,
            underrun_frames: if got {
                self.outcome.underrun_frames
            } else {
                (self.outcome.underrun_frames + 1) as usize
            },
            ..self.outcome
        };
        let out = self.out.push(math::product_of(m, l, v.gain.current)).push(
            math::product_of(m, r, v.gain.current),
        );
        let settled = v.gain.remaining_samples == 0;
        match v.pending_settle {
            PendingTransition::Pause if settled => ChunkRun {
                voice: MusicVoice {
                    state: MusicState::Paused,
                    pending_settle: PendingTransition::Nothing,
                    ..v
                },
                outcome,
                out,
                restart: None,
                stopped: true,
            },
            PendingTransition::Stop if settled => ChunkRun {
                voice: MusicVoice {
                    state: MusicState::Ready,
                    position_frames: 0,
                    pending_settle: PendingTransition::Nothing,
                    ..v
                },
                outcome: MusicRenderOutcome { discontinuity: true, ..outcome },
                out,
                restart: None,
                stopped: true,
            },
            PendingTransition::LoopWrap(frame) if settled => ChunkRun {
                voice: MusicVoice {
                    position_frames: frame,
                    gain: v.gain.aimed_at(m, v.target_volume, v.ramp_length(m)),
                    pending_settle: PendingTransition::Nothing,
                    loop_restart_frame: frame,
                    ..v
                },
                outcome: MusicRenderOutcome { looped: true, discontinuity: true, ..outcome },
                out,
                restart: Some(frame),
                stopped: true,
            },
            _ => ChunkRun { voice: v, outcome, out, restart: None, stopped: false },
        }
    }

    /// This chunk after the first `n` frames of `raw`, of which the source has delivered `count`.
    pub open spec fn after_frames<M: SampleMath>(
        self,
        m: &M,
        raw: Seq<u32>,
        count: usize,
        n: nat,
    ) -> ChunkRun
        decreases n,
    {
        if n == 0 {
            self
        } else {
            let before = self.after_frames(m, raw, count, (n - 1) as nat);
            if before.stopped {
                before
            } else {
                before.after_frame(m, raw[2 * (n - 1)], raw[2 * (n - 1) + 1], n - 1 < count)
            }
        }
    }
}

impl RenderRun {
    /// The chunk that starts here.
    pub open spec fn chunk(self) -> ChunkRun {
        ChunkRun {
            voice: self.voice,
            outcome: self.outcome,
            out: Seq::empty(),
            restart: None,
            stopped: false,
        }
    }

    /// This run once it is known whether more is to be rendered of `frames` frames.
    pub open spec fn resumed(self, frames: nat) -> RenderRun {
        RenderRun {
            phase: if self.voice.state == MusicState::Playing && self.out.len() < frames * 2 {
                RenderPhase::Asking
            } else {
                RenderPhase::Done
            },
            ..self
        }
    }

    /// This run of `frames` frames after the source has answered `e`.
    #[verifier::opaque]
    pub open spec fn after<M: SampleMath>(self, m: &M, frames: nat, e: SourceEvent) -> RenderRun {
        match (self.phase, e) {
            (RenderPhase::Waiting, SourceEvent::Ready(ready)) => {
                let voice = if ready {
                    MusicVoice { state: MusicState::Ready, ..self.voice }
                } else {
                    self.voice
                };
                (RenderRun { voice, ..self }).resumed(frames)
            },
            (RenderPhase::Asking, SourceEvent::Total(total)) => {
                if total matches Some(t) && self.voice.position_frames >= t {
                    RenderRun {
                        voice: MusicVoice {
                            state: MusicState::Ready,
                            gain: Ramp::resting_at(SILENCE),
                            pending_settle: PendingTransition::Nothing,
                            ..self.voice
                        },
                        outcome: MusicRenderOutcome { ended: true, ..self.outcome },
                        phase: RenderPhase::Done,
                        ..self
                    }
                } else {
                    let left = frames - self.out.len() as int / 2;
                    RenderRun {
                        phase: RenderPhase::Reading(self.voice.chunk_length(left, total)),
                        ..self
                    }
                }
            },
            (RenderPhase::Reading(n), SourceEvent::Read { before, after, count }) => {
                let c = self.chunk().after_frames(m, after, count, n);
                let next = RenderRun {
                    voice: c.voice,
                    outcome: c.outcome,
                    out: self.out + c.out,
                    phase: self.phase,
                };
                if before != silent_frames(n) {
                    RenderRun { phase: RenderPhase::Astray, ..self }
                } else if let Some(frame) = c.restart {
                    RenderRun { phase: RenderPhase::Seeking(frame), ..next }
                } else {
                    next.resumed(frames)
                }
            },
            (RenderPhase::Seeking(frame), SourceEvent::Seek(asked)) => {
                if frame == asked {
                    self.resumed(frames)
                } else {
                    RenderRun { phase: RenderPhase::Astray, ..self }
                }
            },
            _ => RenderRun { phase: RenderPhase::Astray, ..self },
        }
    }

    /// This run of `frames` frames after the source has answered all of `log`.
    pub open spec fn after_all<M: SampleMath>(
        self,
        m: &M,
        frames: nat,
        log: Seq<SourceEvent>,
    ) -> RenderRun
        decreases log.len(),
    {
        if log.len() == 0 {
            self
        } else {
            self.after_all(m, frames, log.drop_last()).after(m, frames, log.last())
        }
    }
}

impl MusicVoice {
    /// The length of this voice's ramps in frames.
    pub open spec fn ramp_length<M: SampleMath>(self, m: &M) -> u32 {
        ramp::samples_in_ms(m, Config::DEFAULT_RAMP_MS, self.sample_rate)
    }

    /// Whether the end of the loop is so near that the gain has to start towards silence.
    pub open spec fn nears_loop_end<M: SampleMath>(self, m: &M) -> bool {
        &&& self.pending_settle == PendingTransition::Nothing
        &&& self.loop_region matches Some(region)
        &&& self.position_frames < region.1
        &&& region.1 - self.position_frames <= self.ramp_length(m)
    }

    /// This voice, on its way back to the start of the loop if the end is near.
    pub open spec fn led_to_loop_end<M: SampleMath>(self, m: &M) -> MusicVoice {
        if self.nears_loop_end(m) {
            let region = self.loop_region->0;
            MusicVoice {
                pending_settle: PendingTransition::LoopWrap(region.0),
                gain: self.gain.aimed_at(m, SILENCE, (region.1 - self.position_frames) as u32),
                ..self
            }
        } else {
            self
        }
    }

    /// How many frames are read at once when `left` frames are to be rendered: no more than are
    /// left of the song and of the loop.
    pub open spec fn chunk_length(self, left: int, total: Option<u64>) -> nat {
        let of_song = match total {
            Some(t) => if t - self.position_frames < left {
                t - self.position_frames
            } else {
                left
            },
            None => left,
        };
        let of_loop = match self.loop_region {
            Some(region) => if self.position_frames < region.1 && region.1 - self.position_frames
                < of_song {
                region.1 - self.position_frames
            } else {
                of_song
            },
            None => of_song,
        };
        of_loop as nat
    }

    /// A call of [`MusicVoice::render`] on `frames` frames, before the source is asked anything.
    pub open spec fn render_begun(self, frames: nat) -> RenderRun {
        let run = RenderRun {
            voice: MusicVoice { pending_discontinuity: false, ..self },
            outcome: MusicRenderOutcome {
                discontinuity: self.pending_discontinuity,
                ..MusicRenderOutcome::nothing()
            },
            out: Seq::empty(),
            phase: RenderPhase::Waiting,
        };
        if self.state == MusicState::Loading {
            run
        } else {
            run.resumed(frames)
        }
    }

    /// A call of [`MusicVoice::render`] on `frames` frames, after the source has answered `log`.
    pub open spec fn rendered<M: SampleMath>(
        self,
        m: &M,
        frames: nat,
        log: Seq<SourceEvent>,
    ) -> RenderRun {
        self.render_begun(frames).after_all(m, frames, log)
    }

    /// A voice whose song is still being loaded.
    pub open spec fn loading(sample_rate: u32) -> MusicVoice {
        MusicVoice {
            state: MusicState::Loading,
            position_frames: 0,
            loop_region: None,
            gain: Ramp::resting_at(SILENCE),
            target_volume: UNITY,
            sample_rate,
            pending_settle: PendingTransition::Nothing,
            pending_discontinuity: false,
            loop_restart_frame: 0,
        }
    }

    /// This voice, started from silence.
    pub open spec fn started<M: SampleMath>(self, m: &M) -> MusicVoice {
        MusicVoice {
            state: MusicState::Playing,
            pending_settle: PendingTransition::Nothing,
            gain: Ramp::resting_at(SILENCE).aimed_at(m, self.target_volume, self.ramp_length(m)),
            ..self
        }
    }

    /// This voice, fading out towards `transition`.
    pub open spec fn fading_to<M: SampleMath>(
        self,
        m: &M,
        transition: PendingTransition,
    ) -> MusicVoice {
        MusicVoice {
            pending_settle: transition,
            gain: self.gain.aimed_at(m, SILENCE, self.ramp_length(m)),
            ..self
        }
    }

    /// This voice after [`MusicVoice::prepare`].
    pub open spec fn prepared(self) -> MusicVoice {
        MusicVoice {
            target_volume: self.target_volume,
            loop_restart_frame: self.loop_restart_frame,
            ..MusicVoice::loading(self.sample_rate)
        }
    }

    /// This voice after [`MusicVoice::play`].
    pub open spec fn played<M: SampleMath>(self, m: &M) -> MusicVoice {
        if self.state == MusicState::Ready {
            self.started(m)
        } else {
            self
        }
    }

    /// This voice after [`MusicVoice::pause`].
    pub open spec fn paused<M: SampleMath>(self, m: &M) -> MusicVoice {
        if self.state == MusicState::Playing {
            self.fading_to(m, PendingTransition::Pause)
        } else {
            self
        }
    }

    /// This voice after [`MusicVoice::stop`].
    pub open spec fn stopped<M: SampleMath>(self, m: &M) -> MusicVoice {
        match self.state {
            MusicState::Playing => self.fading_to(m, PendingTransition::Stop),
            MusicState::Paused => MusicVoice {
                position_frames: 0,
                state: MusicState::Ready,
                gain: Ramp::resting_at(SILENCE),
                pending_discontinuity: true,
                ..self
            },
            _ => self,
        }
    }

    /// This voice after [`MusicVoice::resume_at`].
    pub open spec fn resumed_at<M: SampleMath>(self, m: &M, frames: u64) -> MusicVoice {
        if self.state == MusicState::Loading {
            self
        } else {
            (MusicVoice { position_frames: frames, pending_discontinuity: true, ..self }).started(m)
        }
    }

    /// This voice after [`MusicVoice::seek`].
    pub open spec fn sought(self, frames: u64) -> MusicVoice {
        MusicVoice {
            position_frames: frames,
            pending_settle: PendingTransition::Nothing,
            pending_discontinuity: true,
            ..self
        }
    }

    /// This voice after [`MusicVoice::set_loop`].
    pub open spec fn looping(self, region: Option<(u64, u64)>) -> MusicVoice {
        MusicVoice { loop_region: valid_region(region), ..self }
    }

    /// This voice after [`MusicVoice::set_volume`].
    pub open spec fn at_volume<M: SampleMath>(self, m: &M, volume: u32) -> MusicVoice {
        MusicVoice {
            target_volume: volume,
            gain: if self.state == MusicState::Playing && self.pending_settle
                == PendingTransition::Nothing {
                self.gain.aimed_at(m, volume, self.ramp_length(m))
            } else {
                self.gain
            },
            ..self
        }
    }

    /// A voice whose song is still being loaded.
    pub fn new(sample_rate: u32) -> (voice: MusicVoice)
        ensures
            voice == MusicVoice::loading(sample_rate),
    {
        MusicVoice {
            state: MusicState::Loading,
            position_frames: 0,
            loop_region: None,
            gain: Ramp::new(SILENCE),
            target_volume: UNITY,
            sample_rate,
            pending_settle: PendingTransition::Nothing,
            pending_discontinuity: false,
            loop_restart_frame: 0,
        }
    }

    /// Follows a change of the device's sample rate.
    pub fn set_sample_rate(&mut self, sample_rate: u32)
        ensures
            *final(self) == (MusicVoice { sample_rate, ..*old(self) }),
    {
        self.sample_rate = sample_rate;
    }

    /// What the voice is doing.
    pub fn state(&self) -> (state: MusicState)
        ensures
            state == self.state,
    {
        self.state
    }

    /// The frame of the song that is rendered next.
    pub fn position_frames(&self) -> (frames: u64)
        ensures
            frames == self.position_frames,
    {
        self.position_frames
    }

    /// The loop, if the song loops.
    pub fn loop_region(&self) -> (region: Option<(u64, u64)>)
        ensures
            region == self.loop_region,
    {
        self.loop_region
    }

    /// The frame from which the song went on after its latest loop.
    pub fn loop_restart_frame(&self) -> (frame: u64)
        ensures
            frame == self.loop_restart_frame,
    {
        self.loop_restart_frame
    }

    /// The gain of the undisturbed song.
    pub fn volume(&self) -> (volume: u32)
        ensures
            volume == self.target_volume,
    {
        self.target_volume
    }

    /// The length of this voice's ramps in frames.
    fn ramp_samples<M: SampleMath>(&self, m: &M) -> (samples: u32)
        requires
            math::is_pure(m),
        ensures
            samples == self.ramp_length(m),
    {
        ms_to_samples(m, Config::DEFAULT_RAMP_MS, self.sample_rate)
    }

    /// Goes back to the state before loading, for the next song. The volume is kept.
    pub fn prepare(&mut self)
        ensures
            *final(self) == old(self).prepared(),
    {
        self.state = MusicState::Loading;
        self.position_frames = 0;
        self.loop_region = None;
        self.pending_settle = PendingTransition::Nothing;
        self.pending_discontinuity = false;
        self.gain.set_immediate(SILENCE);
    }

    /// Starts a song that is ready. Ignored in every other state.
    pub fn play<M: SampleMath>(&mut self, m: &M)
        requires
            math::is_pure(m),
        ensures
            *final(self) == old(self).played(m),
    {
        if self.state != MusicState::Ready {
            return;
        }
        self.state = MusicState::Playing;
        self.pending_settle = PendingTransition::Nothing;
        self.gain.set_immediate(SILENCE);
        let samples: u32 = self.ramp_samples(m);
        self.gain.set_target(m, self.target_volume, samples);
    }

    /// Fades out and then pauses. Ignored unless the song is playing.
    pub fn pause<M: SampleMath>(&mut self, m: &M)
        requires
            math::is_pure(m),
        ensures
            *final(self) == old(self).paused(m),
    {
        if self.state != MusicState::Playing {
            return;
        }
        self.pending_settle = PendingTransition::Pause;
        let samples: u32 = self.ramp_samples(m);
        self.gain.set_target(m, SILENCE, samples);
    }

    /// Goes back to the start: after a fade if the song is playing, at once if it is paused.
    pub fn stop<M: SampleMath>(&mut self, m: &M)
        requires
            math::is_pure(m),
        ensures
            *final(self) == old(self).stopped(m),
    {
        match self.state {
            MusicState::Playing => {
                self.pending_settle = PendingTransition::Stop;
                let samples: u32 = self.ramp_samples(m);
                self.gain.set_target(m, SILENCE, samples);
            },
            MusicState::Paused => {
                self.position_frames = 0;
                self.state = MusicState::Ready;
                self.gain.set_immediate(SILENCE);
                self.pending_discontinuity = true;
            },
            MusicState::Ready | MusicState::Loading => {},
        }
    }

    /// Plays from `frames` on. Ignored while the song is being loaded.
    pub fn resume_at<M: SampleMath, S: MusicFrameSource>(
        &mut self,
        m: &M,
        frames: u64,
        source: &mut S,
    )
        requires
            math::is_pure(m),
        ensures
            *final(self) == old(self).resumed_at(m, frames),
            final(source).events() == if old(self).state == MusicState::Loading {
                old(source).events()
            } else {
                old(source).events().push(SourceEvent::Seek(frames))
            },
    {
        if self.state == MusicState::Loading {
            return;
        }
        self.position_frames = frames;
        source.request_seek(frames);
        self.pending_settle = PendingTransition::Nothing;
        self.pending_discontinuity = true;
        self.state = MusicState::Playing;
        self.gain.set_immediate(SILENCE);
        let samples: u32 = self.ramp_samples(m);
        self.gain.set_target(m, self.target_volume, samples);
    }

    /// Moves to `frames` in whatever state the voice is.
    pub fn seek<S: MusicFrameSource>(&mut self, frames: u64, source: &mut S)
        ensures
            *final(self) == old(self).sought(frames),
            final(source).events() == old(source).events().push(SourceEvent::Seek(frames)),
    {
        self.position_frames = frames;
        source.request_seek(frames);
        self.pending_settle = PendingTransition::Nothing;
        self.pending_discontinuity = true;
    }

    /// Sets the loop; none if its start does not lie before its end.
    pub fn set_loop(&mut self, region: Option<(u64, u64)>)
        ensures
            *final(self) == old(self).looping(region),
    {
        self.loop_region =
        match region {
            Some((start, end)) => if start < end {
                Some((start, end))
            } else {
                None
            },
            None => None,
        };
    }

    /// Sets the gain of the undisturbed song. A fade that is under way is not disturbed.
    pub fn set_volume<M: SampleMath>(&mut self, m: &M, volume: u32)
        requires
            math::is_pure(m),
        ensures
            *final(self) == old(self).at_volume(m, volume),
    {
        self.target_volume = volume;
        if self.state == MusicState::Playing && self.pending_settle == PendingTransition::Nothing {
            let samples: u32 = self.ramp_samples(m);
            self.gain.set_target(m, volume, samples);
        }
    }
}

/// How far a chunk got.
#[derive(Debug, Clone, Copy)]
pub struct ChunkEnd {
    /// How many frames of the chunk were rendered; the rest was silenced.
    pub frames: usize,
    /// The frame to seek to, if the song went back to the start of its loop.
    pub restart: Option<u64>,
}

/// What became of a frame.
#[derive(Debug, Clone, Copy)]
pub struct FrameEnd {
    /// The frame with the gain applied.
    pub samples: (u32, u32),
    /// The frame to seek to, if the song went back to the start of its loop.
    pub restart: Option<u64>,
    /// Whether the rest of the chunk is dropped.
    pub stopped: bool,
}

proof fn lemma_frame_is_appended<M: SampleMath>(c: ChunkRun, m: &M, l: u32, r: u32, got: bool)
    ensures
        ({
            let alone = ChunkRun { out: Seq::empty(), restart: None, stopped: false, ..c };
            c.after_frame(m, l, r, got) == ChunkRun {
                out: c.out + alone.after_frame(m, l, r, got).out,
                ..alone.after_frame(m, l, r, got)
            }
        }),
{
    reveal(ChunkRun::after_frame);
    let alone = ChunkRun { out: Seq::empty(), restart: None, stopped: false, ..c };
    assert(c.after_frame(m, l, r, got).out =~= c.out + alone.after_frame(m, l, r, got).out);
}

/// Whether the chunk `begun` is `ended`, apart from the flag that it has stopped, once its `n`
/// frames `raw`, of which the source has delivered `count`, have been rendered.
pub open spec fn chunk_was_read<M: SampleMath>(
    m: &M,
    begun: ChunkRun,
    ended: ChunkRun,
    n: nat,
    raw: Seq<u32>,
    count: usize,
) -> bool {
    let c = begun.after_frames(m, raw, count, n);
    ended == ChunkRun { stopped: ended.stopped, ..c }
}

proof fn lemma_stopped_chunk_stays<M: SampleMath>(
    c: ChunkRun,
    m: &M,
    raw: Seq<u32>,
    count: usize,
    i: nat,
    n: nat,
)
    requires
        i <= n,
        c.after_frames(m, raw, count, i).stopped,
    ensures
        c.after_frames(m, raw, count, n) == c.after_frames(m, raw, count, i),
    decreases n,
{
    if i < n {
        lemma_stopped_chunk_stays(c, m, raw, count, i, (n - 1) as nat);
    }
}

impl MusicVoice {
    /// Renders one frame, which the source has delivered (`got`) or for which it had nothing.
    pub fn play_frame<M: SampleMath>(
        &mut self,
        m: &M,
        frame: (u32, u32),
        got: bool,
        outcome: &mut MusicRenderOutcome,
    ) -> (end: FrameEnd)
        requires
            math::is_pure(m),
            old(outcome).rendered_frames < usize::MAX,
            old(outcome).underrun_frames < usize::MAX,
        ensures
            ({
                let begun = ChunkRun {
                    voice: *old(self),
                    outcome: *old(outcome),
                    out: Seq::empty(),
                    restart: None,
                    stopped: false,
                };
                let c = begun.after_frame(m, frame.0, frame.1, got);
                &&& *final(self) == c.voice
                &&& *final(outcome) == c.outcome
                &&& c.out == seq![end.samples.0, end.samples.1]
                &&& end.restart == c.restart
                &&& end.stopped == c.stopped
            }),
            final(outcome).rendered_frames == old(outcome).rendered_frames + 1,
            final(outcome).underrun_frames <= old(outcome).underrun_frames + 1,
            !end.stopped ==> end.restart is None,
    {
        if self.pending_settle == PendingTransition::Nothing {
            if let Some((loop_start, loop_end)) = self.loop_region {
                let samples: u32 = self.ramp_samples(m);
                if self.position_frames < loop_end && loop_end - self.position_frames
                    <= samples as u64 {
                    let left: u32 = (loop_end - self.position_frames) as u32;
                    self.pending_settle = PendingTransition::LoopWrap(loop_start);
                    self.gain.set_target(m, SILENCE, left);
                }
            }
        }
        if got {
            self.position_frames = self.position_frames.wrapping_add(1);
        } else {
            outcome.underrun_frames = outcome.underrun_frames + 1;
        }
        let gain: u32 = self.gain.advance(m);
        let samples: (u32, u32) = (m.times(frame.0, gain), m.times(frame.1, gain));
        outcome.rendered_frames = outcome.rendered_frames + 1;

        let mut restart: Option<u64> = None;
        let mut stopped: bool = false;
        if self.gain.is_settled() {
            match self.pending_settle {
                PendingTransition::Nothing => {},
                PendingTransition::Pause => {
                    self.state = MusicState::Paused;
                    self.pending_settle = PendingTransition::Nothing;
                    stopped = true;
                },
                PendingTransition::Stop => {
                    self.state = MusicState::Ready;
                    self.position_frames = 0;
                    outcome.discontinuity = true;
                    self.pending_settle = PendingTransition::Nothing;
                    stopped = true;
                },
                PendingTransition::LoopWrap(frame) => {
                    self.position_frames = frame;
                    self.loop_restart_frame = frame;
                    let samples: u32 = self.ramp_samples(m);
                    self.gain.set_target(m, self.target_volume, samples);
                    outcome.looped = true;
                    outcome.discontinuity = true;
                    self.pending_settle = PendingTransition::Nothing;
                    restart = Some(frame);
                    stopped = true;
                },
            }
        }
        reveal(ChunkRun::after_frame);
        FrameEnd { samples, restart, stopped }
    }

    /// Renders one chunk in place, of which the source has delivered the first `read_count`
    /// frames. Where the song pauses, stops or goes back to the start of its loop, the rest of the
    /// chunk is silenced.
    pub fn play_chunk<M: SampleMath>(
        &mut self,
        m: &M,
        chunk: &mut [u32],
        read_count: usize,
        outcome: &mut MusicRenderOutcome,
    ) -> (end: ChunkEnd)
        requires
            math::is_pure(m),
            old(chunk)@.len() % 2 == 0,
            old(outcome).rendered_frames + old(chunk)@.len() / 2 <= usize::MAX,
            old(outcome).underrun_frames + old(chunk)@.len() / 2 <= usize::MAX,
        ensures
            ({
                let begun = ChunkRun {
                    voice: *old(self),
                    outcome: *old(outcome),
                    out: Seq::empty(),
                    restart: None,
                    stopped: false,
                };
                let c = begun.after_frames(m, old(chunk)@, read_count, old(chunk)@.len() / 2);
                &&& *final(self) == c.voice
                &&& *final(outcome) == c.outcome
                &&& end.restart == c.restart
                &&& end.frames * 2 == c.out.len()
                &&& final(chunk)@ == c.out + silent_frames(
                    (old(chunk)@.len() / 2 - end.frames) as nat,
                )
            }),
    {
        let ghost raw = chunk@;
        let ghost begun = ChunkRun {
            voice: *self,
            outcome: *outcome,
            out: Seq::empty(),
            restart: None,
            stopped: false,
        };
        let n: usize = chunk.len() / CHANNELS;
        let mut i: usize = 0;
        while i < n
            invariant
                math::is_pure(m),
                i <= n,
                n * 2 == raw.len(),
                raw == old(chunk)@,
                raw.len() <= usize::MAX,
                begun == (ChunkRun {
                    voice: *old(self),
                    outcome: *old(outcome),
                    out: Seq::empty(),
                    restart: None,
                    stopped: false,
                }),
                chunk@.len() == raw.len(),
                begun.outcome.rendered_frames + n <= usize::MAX,
                begun.outcome.underrun_frames + n <= usize::MAX,
                outcome.rendered_frames == begun.outcome.rendered_frames + i,
                outcome.underrun_frames <= begun.outcome.underrun_frames + i,
                ({
                    let c = begun.after_frames(m, raw, read_count, i as nat);
                    &&& !c.stopped
                    &&& c.restart is None
                    &&& *self == c.voice
                    &&& *outcome == c.outcome
                    &&& c.out.len() == 2 * i
                    &&& chunk@ == c.out + raw.skip(2 * i as int)
                }),
            decreases n - i,
        {
            let ghost before = begun.after_frames(m, raw, read_count, i as nat);
            let base: usize = i * CHANNELS;
            let got: bool = i < read_count;
            let end: FrameEnd = self.play_frame(m, (chunk[base], chunk[base + 1]), got, outcome);
            chunk[base] = end.samples.0;
            chunk[base + 1] = end.samples.1;
            i = i + 1;
            let ghost after = begun.after_frames(m, raw, read_count, i as nat);
            proof {
                assert(after == before.after_frame(
                    m,
                    raw[2 * (i - 1)],
                    raw[2 * (i - 1) + 1],
                    got,
                ));
                lemma_frame_is_appended(
                    before,
                    m,
                    raw[2 * (i - 1)],
                    raw[2 * (i - 1) + 1],
                    got,
                );
            }
            assert(chunk@ =~= after.out + raw.skip(2 * i as int));
            if end.stopped {
                proof {
                    lemma_stopped_chunk_stays(begun, m, raw, read_count, i as nat, n as nat);
                }
                let mut j: usize = i * CHANNELS;
                while j < chunk.len()
                    invariant
                        i <= n,
                        n * 2 == raw.len(),
                        chunk@.len() == raw.len(),
                        2 * i <= j <= raw.len(),
                        after.out.len() == 2 * i,
                        forall|k: int| 0 <= k < 2 * i ==> chunk@[k] == after.out[k],
                        forall|k: int| 2 * i <= k < j ==> chunk@[k] == SILENCE,
                    decreases raw.len() - j,
                {
                    chunk[j] = SILENCE;
                    j = j + 1;
                }
                assert(chunk@ =~= after.out + silent_frames((n - i) as nat));
                return ChunkEnd { frames: i, restart: end.restart };
            }
        }
        assert(chunk@ =~= begun.after_frames(m, raw, read_count, n as nat).out + silent_frames(0));
        ChunkEnd { frames: n, restart: None }
    }
}

proof fn lemma_chunk_length<M: SampleMath>(
    c: ChunkRun,
    m: &M,
    raw: Seq<u32>,
    count: usize,
    n: nat,
)
    requires
        c.out.len() == 0,
        !c.stopped,
        c.outcome.rendered_frames + n <= usize::MAX,
        c.outcome.underrun_frames + n <= usize::MAX,
    ensures
        ({
            let d = c.after_frames(m, raw, count, n);
            &&& d.out.len() % 2 == 0
            &&& d.out.len() <= 2 * n
            &&& n > 0 ==> d.out.len() > 0
            &&& !d.stopped ==> d.out.len() == 2 * n
            &&& d.outcome.rendered_frames == c.outcome.rendered_frames + d.out.len() / 2
            &&& c.outcome.underrun_frames <= d.outcome.underrun_frames
                <= c.outcome.underrun_frames + d.out.len() / 2
        }),
    decreases n,
{
    reveal(ChunkRun::after_frame);
    if n > 0 {
        lemma_chunk_length(c, m, raw, count, (n - 1) as nat);
    }
}

proof fn lemma_length_asked<M: SampleMath>(
    run: RenderRun,
    m: &M,
    frames: nat,
    total: Option<u64>,
)
    requires
        run.phase is Asking,
    ensures
        ({
            let next = run.after(m, frames, SourceEvent::Total(total));
            if total matches Some(t) && run.voice.position_frames >= t {
                &&& next.voice == (MusicVoice {
                    state: MusicState::Ready,
                    gain: Ramp::resting_at(SILENCE),
                    pending_settle: PendingTransition::Nothing,
                    ..run.voice
                })
                &&& next.outcome == (MusicRenderOutcome { ended: true, ..run.outcome })
                &&& next.out == run.out
                &&& next.phase is Done
            } else {
                &&& next.voice == run.voice
                &&& next.outcome == run.outcome
                &&& next.out == run.out
                &&& next.phase == RenderPhase::Reading(
                    run.voice.chunk_length(frames - run.out.len() as int / 2, total),
                )
            }
        }),
{
    reveal(RenderRun::after);
}

proof fn lemma_chunk_read<M: SampleMath>(
    run: RenderRun,
    m: &M,
    frames: nat,
    n: nat,
    raw: Seq<u32>,
    count: usize,
)
    requires
        run.phase == RenderPhase::Reading(n),
    ensures
        ({
            let c = run.chunk().after_frames(m, raw, count, n);
            let e = SourceEvent::Read { before: silent_frames(n), after: raw, count };
            let next = run.after(m, frames, e);
            &&& next.voice == c.voice
            &&& next.outcome == c.outcome
            &&& next.out == run.out + c.out
            &&& c.restart is None ==> next == next.resumed(frames)
            &&& c.restart matches Some(frame) ==> next.phase == RenderPhase::Seeking(frame)
        }),
{
    reveal(RenderRun::after);
}

proof fn lemma_seek_made<M: SampleMath>(run: RenderRun, m: &M, frames: nat, frame: u64)
    requires
        run.phase == RenderPhase::Seeking(frame),
    ensures
        run.after(m, frames, SourceEvent::Seek(frame)) == run.resumed(frames),
{
    reveal(RenderRun::after);
}

proof fn lemma_one_more_answer<M: SampleMath>(
    run: RenderRun,
    m: &M,
    frames: nat,
    log: Seq<SourceEvent>,
    e: SourceEvent,
)
    ensures
        run.after_all(m, frames, log.push(e)) == run.after_all(m, frames, log).after(m, frames, e),
{
    assert(log.push(e).drop_last() =~= log);
}

proof fn lemma_more_answers<M: SampleMath>(
    run: RenderRun,
    m: &M,
    frames: nat,
    log: Seq<SourceEvent>,
    more: Seq<SourceEvent>,
)
    ensures
        run.after_all(m, frames, log + more) == run.after_all(m, frames, log).after_all(
            m,
            frames,
            more,
        ),
    decreases more.len(),
{
    if more.len() == 0 {
        assert(log + more =~= log);
    } else {
        lemma_more_answers(run, m, frames, log, more.drop_last());
        assert((log + more).drop_last() =~= log + more.drop_last());
        assert((log + more).last() == more.last());
    }
}

impl MusicVoice {
    /// How many frames to read next when `left` frames are to be rendered, now that the length of
    /// the song is known to be `total`; none if the end of the song has been reached, where the
    /// voice goes back to being ready.
    pub fn next_chunk(&mut self, left: usize, total: Option<u64>) -> (n: Option<usize>)
        ensures
            n is None <==> (total matches Some(t) && old(self).position_frames >= t),
            n is None ==> *final(self) == (MusicVoice {
                state: MusicState::Ready,
                gain: Ramp::resting_at(SILENCE),
                pending_settle: PendingTransition::Nothing,
                ..*old(self)
            }),
            n matches Some(k) ==> *final(self) == *old(self) && k == old(self).chunk_length(
                left as int,
                total,
            ),
    {
        let mut n: usize = left;
        if let Some(t) = total {
            if self.position_frames >= t {
                self.state = MusicState::Ready;
                self.gain.set_immediate(SILENCE);
                self.pending_settle = PendingTransition::Nothing;
                return None;
            }
            if t - self.position_frames < n as u64 {
                n = (t - self.position_frames) as usize;
            }
        }
        if let Some((_, loop_end)) = self.loop_region {
            if self.position_frames < loop_end && loop_end - self.position_frames < n as u64 {
                n = (loop_end - self.position_frames) as usize;
            }
        }
        Some(n)
    }

    /// Reads `n` frames into `out` behind the first `done` frames and renders them there.
    fn read_chunk<M: SampleMath, S: MusicFrameSource>(
        &mut self,
        m: &M,
        out: &mut [u32],
        done: usize,
        n: usize,
        source: &mut S,
        outcome: &mut MusicRenderOutcome,
    ) -> (end: ChunkEnd)
        requires
            math::is_pure(m),
            2 * (done + n) <= old(out)@.len(),
            old(outcome).rendered_frames + n <= usize::MAX,
            old(outcome).underrun_frames + n <= usize::MAX,
        ensures
            final(out)@.len() == old(out)@.len(),
            exists|raw: Seq<u32>, count: usize| #[trigger]
                chunk_was_read(
                    m,
                    ChunkRun {
                        voice: *old(self),
                        outcome: *old(outcome),
                        out: Seq::empty(),
                        restart: None,
                        stopped: false,
                    },
                    ChunkRun {
                        voice: *final(self),
                        outcome: *final(outcome),
                        out: final(out)@.subrange(2 * done as int, 2 * (done + end.frames)),
                        restart: end.restart,
                        stopped: false,
                    },
                    n as nat,
                    raw,
                    count,
                ) && final(source).events() == old(source).events().push(
                    SourceEvent::Read {
                        before: old(out)@.subrange(2 * done as int, 2 * (done + n)),
                        after: raw,
                        count,
                    },
                ),
            end.frames <= n,
            final(out)@.take(2 * done as int) == old(out)@.take(2 * done as int),
            final(out)@.skip(2 * (done + n)) == old(out)@.skip(2 * (done + n)),
            forall|i: int|
                2 * (done + end.frames) <= i < 2 * (done + n) ==> final(out)@[i] == SILENCE,
    {
        let ghost begun = ChunkRun {
            voice: *self,
            outcome: *outcome,
            out: Seq::empty(),
            restart: None,
            stopped: false,
        };
        let len: usize = out.len();
        assert(2 * (done + n) <= len);
        let (head, rest) = out.split_at_mut(done * CHANNELS);
        let (chunk, tail) = rest.split_at_mut(n * CHANNELS);
        assert(chunk@ =~= old(out)@.subrange(2 * done as int, 2 * (done + n)));
        let count: usize = source.read(chunk);
        let ghost raw = chunk@;
        let end: ChunkEnd = self.play_chunk(m, chunk, count, outcome);
        let ghost played = begun.after_frames(m, raw, count, n as nat);
        proof {
            lemma_chunk_length(begun, m, raw, count, n as nat);
        }
        assert(out@ =~= old(out)@.take(2 * done as int) + (played.out + silent_frames(
            (n - end.frames) as nat,
        )) + old(out)@.skip(2 * (done + n)));
        assert(out@.len() == len);
        assert forall|i: int| 2 * (done + n) <= i < len implies out@[i] == old(out)@[i] by {}
        assert(out@.subrange(2 * done as int, 2 * (done + end.frames)) =~= played.out);
        assert(out@.take(2 * done as int) =~= old(out)@.take(2 * done as int));
        assert(out@.skip(2 * (done + n)) =~= old(out)@.skip(2 * (done + n)));
        assert(chunk_was_read(
            m,
            begun,
            ChunkRun {
                voice: *self,
                outcome: *outcome,
                out: out@.subrange(2 * done as int, 2 * (done + end.frames)),
                restart: end.restart,
                stopped: false,
            },
            n as nat,
            raw,
            count,
        ));
        end
    }

    /// Renders the next chunk of `out`, of which the first `done` frames are complete, and returns
    /// how many frames that has added: none if the end of the song was reached.
    fn render_chunk<M: SampleMath, S: MusicFrameSource>(
        &mut self,
        m: &M,
        out: &mut [u32],
        done: usize,
        source: &mut S,
        outcome: &mut MusicRenderOutcome,
    ) -> (added: usize)
        requires
            math::is_pure(m),
            done < old(out)@.len() / 2,
            old(self).state == MusicState::Playing,
            old(outcome).rendered_frames == done,
            old(outcome).underrun_frames <= done,
            forall|i: int| 2 * done <= i < old(out)@.len() ==> old(out)@[i] == SILENCE,
        ensures
            final(out)@.len() == old(out)@.len(),
            old(source).events().is_prefix_of(final(source).events()),
            ({
                let frames = old(out)@.len() / 2;
                let begun = RenderRun {
                    voice: *old(self),
                    outcome: *old(outcome),
                    out: old(out)@.take(2 * done as int),
                    phase: RenderPhase::Asking,
                };
                let log = final(source).events().skip(old(source).events().len() as int);
                let run = begun.after_all(m, frames, log);
                &&& run == run.resumed(frames)
                &&& *final(self) == run.voice
                &&& *final(outcome) == run.outcome
                &&& done + added <= frames
                &&& run.out == final(out)@.take(2 * (done + added))
                &&& added > 0 || final(self).state != MusicState::Playing
                &&& final(outcome).rendered_frames == done + added
                &&& final(outcome).underrun_frames <= done + added
            }),
            forall|i: int| 2 * (done + added) <= i < old(out)@.len() ==> final(out)@[i] == SILENCE,
    {
        let frames: usize = out.len() / CHANNELS;
        let ghost past = source.events();
        let ghost begun = RenderRun {
            voice: *self,
            outcome: *outcome,
            out: out@.take(2 * done as int),
            phase: RenderPhase::Asking,
        };
        let total: Option<u64> = source.total_frames();
        let ghost log = Seq::empty().push(SourceEvent::Total(total));
        let ghost asked = begun.after(m, frames as nat, SourceEvent::Total(total));
        proof {
            lemma_one_more_answer(
                begun,
                m,
                frames as nat,
                Seq::empty(),
                SourceEvent::Total(total),
            );
            assert(source.events().skip(past.len() as int) =~= log);
            lemma_length_asked(begun, m, frames as nat, total);
        }
        match self.next_chunk(frames - done, total) {
            None => {
                outcome.ended = true;
                0
            },
            Some(n) => {
                assert(asked.phase == RenderPhase::Reading(n as nat));
                assert(out@.subrange(2 * done as int, 2 * (done + n)) =~= silent_frames(n as nat));
                let ghost filled = out@;
                let end: ChunkEnd = self.read_chunk(m, out, done, n, source, outcome);
                let ghost now = ChunkRun {
                    voice: *self,
                    outcome: *outcome,
                    out: out@.subrange(2 * done as int, 2 * (done + end.frames)),
                    restart: end.restart,
                    stopped: false,
                };
                let ghost (raw, count) = choose|raw: Seq<u32>, count: usize| #[trigger]
                    chunk_was_read(m, asked.chunk(), now, n as nat, raw, count)
                        && source.events() == past.push(SourceEvent::Total(total)).push(
                        SourceEvent::Read { before: silent_frames(n as nat), after: raw, count },
                    );
                let ghost e = SourceEvent::Read {
                    before: silent_frames(n as nat),
                    after: raw,
                    count,
                };
                let ghost read = asked.after(m, frames as nat, e);
                proof {
                    lemma_chunk_length(asked.chunk(), m, raw, count, n as nat);
                    lemma_one_more_answer(begun, m, frames as nat, log, e);
                    lemma_chunk_read(asked, m, frames as nat, n as nat, raw, count);
                    assert(source.events().skip(past.len() as int) =~= log.push(e));
                    assert(read.out == asked.out + now.out);
                    assert(out@.take(2 * (done + end.frames)) =~= out@.take(2 * done as int)
                        + now.out);
                    assert forall|i: int| 2 * (done + end.frames) <= i < out@.len() implies out@[i]
                        == SILENCE by {
                        if i >= 2 * (done + n) {
                            assert(out@[i] == out@.skip(2 * (done + n))[i - 2 * (done + n)]);
                            assert(filled[i] == filled.skip(2 * (done + n))[i - 2 * (done + n)]);
                        }
                    }
                }
                if let Some(frame) = end.restart {
                    source.request_seek(frame);
                    proof {
                        lemma_one_more_answer(
                            begun,
                            m,
                            frames as nat,
                            log.push(e),
                            SourceEvent::Seek(frame),
                        );
                        lemma_seek_made(read, m, frames as nat, frame);
                        assert(source.events().skip(past.len() as int) =~= log.push(e).push(
                            SourceEvent::Seek(frame),
                        ));
                    }
                }
                end.frames
            },
        }
    }

    /// Fills `out`, a buffer of interleaved frames, with the next frames of the song.
    ///
    /// The buffer is silent where the song is not playing. The call does what
    /// [`MusicVoice::rendered`] says for the answers that the source gives to the calls that are
    /// made of it, in their order, and it makes no other calls.
    pub fn render<M: SampleMath, S: MusicFrameSource>(
        &mut self,
        m: &M,
        out: &mut [u32],
        source: &mut S,
    ) -> (outcome: MusicRenderOutcome)
        requires
            math::is_pure(m),
        ensures
            final(out)@.len() == old(out)@.len(),
            old(source).events().is_prefix_of(final(source).events()),
            outcome.underrun_frames <= outcome.rendered_frames <= old(out)@.len() / 2,
            ({
                let log = final(source).events().skip(old(source).events().len() as int);
                let run = old(self).rendered(m, old(out)@.len() / 2, log);
                &&& run.phase is Done
                &&& *final(self) == run.voice
                &&& outcome == run.outcome
                &&& run.out == final(out)@.take(2 * outcome.rendered_frames)
            }),
            forall|i: int|
                2 * outcome.rendered_frames <= i < final(out)@.len() ==> final(out)@[i] == SILENCE,
    {
        let ghost past = source.events();
        let ghost mut log: Seq<SourceEvent> = Seq::empty();
        let frames: usize = out.len() / CHANNELS;
        let ghost begun = self.render_begun(frames as nat);
        silence(out);

        let mut outcome: MusicRenderOutcome = MusicRenderOutcome::default();
        let ghost mut run = begun;
        if self.state == MusicState::Loading {
            let ready: bool = source.is_ready();
            if ready {
                self.state = MusicState::Ready;
            }
            proof {
                reveal(RenderRun::after);
                lemma_one_more_answer(begun, m, frames as nat, log, SourceEvent::Ready(ready));
                log = log.push(SourceEvent::Ready(ready));
                run = run.after(m, frames as nat, SourceEvent::Ready(ready));
            }
        }
        outcome.discontinuity = self.pending_discontinuity;
        self.pending_discontinuity = false;

        assert(source.events() =~= past + log);
        assert(run.out =~= out@.take(0));
        let mut done: usize = 0;
        while done < frames && self.state == MusicState::Playing
            invariant
                math::is_pure(m),
                frames == out@.len() / 2,
                out@.len() == old(out)@.len(),
                done <= frames,
                past == old(source).events(),
                source.events() == past + log,
                begun == old(self).render_begun(frames as nat),
                run == begun.after_all(m, frames as nat, log),
                run == run.resumed(frames as nat),
                run.voice == *self,
                run.outcome == outcome,
                run.out == out@.take(2 * done as int),
                outcome.rendered_frames == done,
                outcome.underrun_frames <= done,
                forall|i: int| 2 * done <= i < out@.len() ==> out@[i] == SILENCE,
            decreases
                    frames - done + if self.state == MusicState::Playing {
                        1int
                    } else {
                        0
                    },
        {
            let ghost before = source.events();
            let added: usize = self.render_chunk(m, out, done, source, &mut outcome);
            proof {
                let more = source.events().skip(before.len() as int);
                assert(source.events() =~= before + more);
                lemma_more_answers(begun, m, frames as nat, log, more);
                run = run.after_all(m, frames as nat, more);
                log = log + more;
                assert(source.events() =~= past + log);
            }
            done = done + added;
        }
        assert(log =~= source.events().skip(past.len() as int));
        assert(past.is_prefix_of(source.events()));
        outcome
    }
}

/// Silences a buffer.
pub fn silence(out: &mut [u32])
    ensures
        final(out)@ == Seq::new(old(out)@.len(), |i: int| SILENCE),
{
    let mut k: usize = 0;
    while k < out.len()
        invariant
            k <= out@.len(),
            out@.len() == old(out)@.len(),
            forall|i: int| 0 <= i < k ==> out@[i] == SILENCE,
        decreases out@.len() - k,
    {
        out[k] = SILENCE;
        k = k + 1;
    }
    assert(out@ =~= Seq::new(old(out)@.len(), |i: int| SILENCE));
}

/// `region` if its start lies before its end.
pub open spec fn valid_region(region: Option<(u64, u64)>) -> Option<(u64, u64)> {
    match region {
        Some(r) => if r.0 < r.1 {
            region
        } else {
            None
        },
        None => None,
    }
}

/// Joining outcomes does not depend on how the parts of a buffer are grouped, and an empty part
/// adds nothing.
pub proof fn law_outcomes_join_in_any_grouping(
    a: MusicRenderOutcome,
    b: MusicRenderOutcome,
    c: MusicRenderOutcome,
)
    requires
        a.rendered_frames + b.rendered_frames + c.rendered_frames <= usize::MAX,
        a.underrun_frames + b.underrun_frames + c.underrun_frames <= usize::MAX,
    ensures
        a.merged(b).merged(c) == a.merged(b.merged(c)),
        a.merged(MusicRenderOutcome::nothing()) == a,
        MusicRenderOutcome::nothing().merged(a) == a,
{
}

/// A loop that does not start before its end is no loop.
pub proof fn law_invalid_loops_are_rejected(voice: MusicVoice, start: u64, end: u64)
    requires
        start >= end,
    ensures
        voice.looping(Some((start, end))) == voice.looping(None),
        voice.looping(None).loop_region is None,
{
}

/// A song that is still being loaded cannot be started, paused, stopped or resumed: it stays as it
/// is.
pub proof fn law_loading_songs_wait<M: SampleMath>(voice: MusicVoice, m: &M, frames: u64)
    requires
        voice.state == MusicState::Loading,
    ensures
        voice.played(m) == voice,
        voice.paused(m) == voice,
        voice.stopped(m) == voice,
        voice.resumed_at(m, frames) == voice,
{
}

/// A song that is ready or paused is silent and stands still: rendering it asks the source for
/// nothing, renders nothing and does not move the position.
pub proof fn law_only_playing_songs_move<M: SampleMath>(voice: MusicVoice, m: &M, frames: nat)
    requires
        voice.state == MusicState::Ready || voice.state == MusicState::Paused,
    ensures
        ({
            let run = voice.rendered(m, frames, Seq::empty());
            &&& run.phase is Done
            &&& run.out == Seq::<u32>::empty()
            &&& run.voice == (MusicVoice { pending_discontinuity: false, ..voice })
            &&& run.outcome.rendered_frames == 0
            &&& run.outcome.discontinuity == voice.pending_discontinuity
        }),
{
}

/// What is known of a chunk on its way to the end of a loop, `left` frames before that end.
spec fn nears_wrap(c: ChunkRun, region: (u64, u64), left: int) -> bool {
    &&& !c.stopped
    &&& c.voice.loop_region == Some(region)
    &&& c.voice.position_frames == region.1 - left
    &&& c.voice.pending_settle == PendingTransition::LoopWrap(region.0)
    &&& c.voice.gain.remaining_samples == left
    &&& c.voice.gain.target == SILENCE
}

proof fn lemma_one_frame_nearer<M: SampleMath>(
    c: ChunkRun,
    m: &M,
    region: (u64, u64),
    left: int,
    l: u32,
    r: u32,
)
    requires
        0 < left <= region.1,
        !c.stopped,
        nears_wrap(c, region, left) || {
            &&& c.voice.loop_region == Some(region)
            &&& c.voice.position_frames == region.1 - left
            &&& c.voice.pending_settle == PendingTransition::Nothing
            &&& left <= c.voice.ramp_length(m)
        },
    ensures
        left > 1 ==> nears_wrap(c.after_frame(m, l, r, true), region, left - 1),
        left == 1 ==> {
            let end = c.after_frame(m, l, r, true);
            &&& end.stopped
            &&& end.restart == Some(region.0)
            &&& end.voice.position_frames == region.0
            &&& end.voice.loop_restart_frame == region.0
            &&& end.voice.pending_settle == PendingTransition::Nothing
            &&& end.outcome.looped
            &&& end.outcome.discontinuity
        },
{
    reveal(ChunkRun::after_frame);
}

/// A loop is exact to the frame. A song that comes so near to the end of its loop that the gain
/// starts towards silence plays every frame up to that end, and with the last of them goes back
/// to the start of the loop: not earlier and not later.
pub proof fn law_loops_wrap_on_the_frame<M: SampleMath>(
    c: ChunkRun,
    m: &M,
    region: (u64, u64),
    raw: Seq<u32>,
    k: nat,
)
    requires
        !c.stopped,
        c.voice.loop_region == Some(region),
        c.voice.pending_settle == PendingTransition::Nothing,
        c.voice.position_frames < region.1,
        region.1 - c.voice.position_frames <= c.voice.ramp_length(m),
        0 < k <= region.1 - c.voice.position_frames,
        region.1 - c.voice.position_frames <= usize::MAX,
    ensures
        ({
            let left = region.1 - c.voice.position_frames;
            let run = c.after_frames(m, raw, left as usize, k);
            &&& k < left ==> {
                &&& !run.stopped
                &&& run.voice.position_frames == c.voice.position_frames + k
            }
            &&& k == left ==> {
                &&& run.restart == Some(region.0)
                &&& run.voice.position_frames == region.0
                &&& run.voice.loop_restart_frame == region.0
                &&& run.outcome.looped
            }
        }),
{
    lemma_wrap_is_near(c, m, region, raw, k);
}

proof fn lemma_wrap_is_near<M: SampleMath>(
    c: ChunkRun,
    m: &M,
    region: (u64, u64),
    raw: Seq<u32>,
    k: nat,
)
    requires
        !c.stopped,
        c.voice.loop_region == Some(region),
        c.voice.pending_settle == PendingTransition::Nothing,
        c.voice.position_frames < region.1,
        region.1 - c.voice.position_frames <= c.voice.ramp_length(m),
        0 < k <= region.1 - c.voice.position_frames,
        region.1 - c.voice.position_frames <= usize::MAX,
    ensures
        ({
            let left = region.1 - c.voice.position_frames;
            let run = c.after_frames(m, raw, left as usize, k);
            &&& k < left ==> nears_wrap(run, region, left - k)
            &&& k == left ==> {
                &&& run.restart == Some(region.0)
                &&& run.voice.position_frames == region.0
                &&& run.voice.loop_restart_frame == region.0
                &&& run.outcome.looped
            }
        }),
    decreases k,
{
    let left = region.1 - c.voice.position_frames;
    let before = c.after_frames(m, raw, left as usize, (k - 1) as nat);
    if k > 1 {
        lemma_wrap_is_near(c, m, region, raw, (k - 1) as nat);
    }
    lemma_one_frame_nearer(
        before,
        m,
        region,
        left - (k - 1),
        raw[2 * (k - 1)],
        raw[2 * (k - 1) + 1],
    );
}

/// What is read of a song at once is no more than is asked for, and neither passes the end of the
/// song nor, before it, the end of the loop.
pub proof fn law_reads_stop_at_every_end(voice: MusicVoice, left: nat, total: Option<u64>)
    requires
        total matches Some(t) ==> voice.position_frames < t,
    ensures
        ({
            let n = voice.chunk_length(left as int, total);
            &&& n <= left
            &&& total matches Some(t) ==> voice.position_frames + n <= t
            &&& voice.loop_region matches Some(region) ==> voice.position_frames < region.1
                ==> voice.position_frames + n <= region.1
        }),
{
}

/// The counts of an outcome agree with the samples that were rendered.
spec fn counts_agree(run: RenderRun, frames: nat) -> bool {
    &&& run.out.len() == 2 * run.outcome.rendered_frames
    &&& run.out.len() <= 2 * frames
    &&& run.outcome.underrun_frames <= run.outcome.rendered_frames
    &&& run.phase matches RenderPhase::Reading(n) ==> run.out.len() + 2 * n <= 2 * frames
}

proof fn lemma_chunk_counts<M: SampleMath>(
    c: ChunkRun,
    m: &M,
    raw: Seq<u32>,
    count: usize,
    n: nat,
) -> (k: nat)
    requires
        c.outcome.rendered_frames + n <= usize::MAX,
        c.outcome.underrun_frames <= c.outcome.rendered_frames,
    ensures
        k <= n,
        c.after_frames(m, raw, count, n).out.len() == c.out.len() + 2 * k,
        c.after_frames(m, raw, count, n).outcome.rendered_frames == c.outcome.rendered_frames + k,
        c.after_frames(m, raw, count, n).outcome.underrun_frames <= c.outcome.rendered_frames + k,
    decreases n,
{
    if n == 0 {
        0
    } else {
        let k = lemma_chunk_counts(c, m, raw, count, (n - 1) as nat);
        reveal(ChunkRun::after_frame);
        if c.after_frames(m, raw, count, (n - 1) as nat).stopped {
            k
        } else {
            k + 1
        }
    }
}

proof fn lemma_counts_stay_right<M: SampleMath>(
    run: RenderRun,
    m: &M,
    frames: nat,
    e: SourceEvent,
)
    requires
        frames <= usize::MAX,
        counts_agree(run, frames),
    ensures
        counts_agree(run.after(m, frames, e), frames),
{
    reveal(RenderRun::after);
    match (run.phase, e) {
        (RenderPhase::Reading(n), SourceEvent::Read { before, after, count }) => {
            let k = lemma_chunk_counts(run.chunk(), m, after, count, n);
            let c = run.chunk().after_frames(m, after, count, n);
            assert((run.out + c.out).len() == run.out.len() + 2 * k);
        },
        (RenderPhase::Asking, SourceEvent::Total(total)) => {
            let left = frames - run.out.len() as int / 2;
            if total matches Some(t) && run.voice.position_frames >= t {
            } else {
                law_reads_stop_at_every_end(run.voice, left as nat, total);
            }
        },
        _ => {},
    }
}

/// Whatever the source answers, a voice renders whole frames and no more than fit the buffer, and
/// the outcome counts them: as many as were rendered, and of these no more as missing.
pub proof fn law_outcomes_count_the_frames<M: SampleMath>(
    voice: MusicVoice,
    m: &M,
    frames: nat,
    log: Seq<SourceEvent>,
)
    requires
        frames <= usize::MAX,
    ensures
        ({
            let run = voice.rendered(m, frames, log);
            &&& run.out.len() == 2 * run.outcome.rendered_frames
            &&& run.outcome.rendered_frames <= frames
            &&& run.outcome.underrun_frames <= run.outcome.rendered_frames
        }),
{
    lemma_counts_are_right(voice, m, frames, log);
}

proof fn lemma_counts_are_right<M: SampleMath>(
    voice: MusicVoice,
    m: &M,
    frames: nat,
    log: Seq<SourceEvent>,
)
    requires
        frames <= usize::MAX,
    ensures
        counts_agree(voice.rendered(m, frames, log), frames),
    decreases log.len(),
{
    if log.len() > 0 {
        lemma_counts_are_right(voice, m, frames, log.drop_last());
        lemma_counts_stay_right(
            voice.rendered(m, frames, log.drop_last()),
            m,
            frames,
            log.last(),
        );
    }
}

/// Whether a song that was asked to stop came to its stop while it was rendered: it played, is
/// ready now, and that is not because it has ended.
pub open spec fn came_to_stop(voice: MusicVoice, run: RenderRun) -> bool {
    &&& voice.state == MusicState::Playing
    &&& voice.pending_settle == PendingTransition::Stop
    &&& run.voice.state == MusicState::Ready
    &&& !run.outcome.ended
}

/// Whether `position` is where a song that was at `start` is after an outcome without a jump.
spec fn moved_by(start: u64, outcome: MusicRenderOutcome, position: u64) -> bool {
    position == (start + outcome.rendered_frames - outcome.underrun_frames)
        % 0x1_0000_0000_0000_0000
}

/// What is known of a chunk of a song that is rendered from the voice `voice` on.
spec fn chunk_moves(voice: MusicVoice, c: ChunkRun) -> bool {
    let stopped = voice.pending_settle == PendingTransition::Stop && c.voice.state
        == MusicState::Ready;
    &&& voice.state == MusicState::Playing
    &&& !c.outcome.ended
    &&& c.outcome.underrun_frames <= c.outcome.rendered_frames
    &&& c.outcome.discontinuity == (voice.pending_discontinuity || c.outcome.looped || stopped)
    &&& c.outcome.discontinuity || moved_by(
        voice.position_frames,
        c.outcome,
        c.voice.position_frames,
    )
    &&& c.voice.state == MusicState::Ready ==> stopped
    &&& !c.stopped ==> c.voice.state == MusicState::Playing
    &&& c.voice.pending_settle == PendingTransition::Stop ==> voice.pending_settle
        == PendingTransition::Stop
    &&& c.restart is Some ==> c.voice.state == MusicState::Playing
    &&& !c.voice.pending_discontinuity
}

proof fn lemma_chunk_moves<M: SampleMath>(
    voice: MusicVoice,
    c: ChunkRun,
    m: &M,
    raw: Seq<u32>,
    count: usize,
    n: nat,
)
    requires
        chunk_moves(voice, c),
        c.voice.state == MusicState::Playing,
        c.outcome.rendered_frames + n <= usize::MAX,
    ensures
        chunk_moves(voice, c.after_frames(m, raw, count, n)),
        c.after_frames(m, raw, count, n).outcome.rendered_frames <= c.outcome.rendered_frames + n,
    decreases n,
{
    if n > 0 {
        lemma_chunk_moves(voice, c, m, raw, count, (n - 1) as nat);
        reveal(ChunkRun::after_frame);
    }
}

/// What is known of a song that is rendered from the voice `voice` on.
spec fn song_moves(voice: MusicVoice, run: RenderRun) -> bool {
    let o = run.outcome;
    &&& o.discontinuity == (voice.pending_discontinuity || o.looped || came_to_stop(voice, run))
    &&& o.discontinuity || moved_by(voice.position_frames, o, run.voice.position_frames)
    &&& o.ended ==> run.voice.state == MusicState::Ready && (run.phase is Done
        || run.phase is Astray)
    &&& run.phase is Asking || run.phase is Reading || run.phase is Seeking ==> {
        &&& voice.state == MusicState::Playing
        &&& run.voice.state == MusicState::Playing
        &&& !o.ended
    }
    &&& run.phase is Waiting ==> voice.state == MusicState::Loading && !o.ended
    &&& run.voice.state == MusicState::Playing ==> voice.state == MusicState::Playing
    &&& !run.voice.pending_discontinuity
    &&& run.voice.pending_settle == PendingTransition::Stop ==> voice.pending_settle
        == PendingTransition::Stop
}

proof fn lemma_song_moves<M: SampleMath>(
    voice: MusicVoice,
    m: &M,
    frames: nat,
    log: Seq<SourceEvent>,
)
    requires
        frames <= usize::MAX,
    ensures
        song_moves(voice, voice.rendered(m, frames, log)),
    decreases log.len(),
{
    if log.len() > 0 {
        let run = voice.rendered(m, frames, log.drop_last());
        let e = log.last();
        lemma_song_moves(voice, m, frames, log.drop_last());
        lemma_counts_are_right(voice, m, frames, log.drop_last());
        reveal(RenderRun::after);
        match (run.phase, e) {
            (RenderPhase::Reading(n), SourceEvent::Read { before, after, count }) => {
                lemma_chunk_moves(voice, run.chunk(), m, after, count, n);
            },
            _ => {},
        }
    }
}

/// Whatever the source answers, the position of a song moves by the frames that were rendered
/// without those that were missing, unless the song has jumped. It has jumped exactly if a jump was
/// pending, if it has gone back to the start of its loop, or if it has come to the stop that it was
/// asked for; then no jump is pending any more. A song that has ended is ready, and one that does
/// not play does not start to.
pub proof fn law_songs_move_by_what_is_rendered<M: SampleMath>(
    voice: MusicVoice,
    m: &M,
    frames: nat,
    log: Seq<SourceEvent>,
)
    requires
        frames <= usize::MAX,
    ensures
        ({
            let run = voice.rendered(m, frames, log);
            let o = run.outcome;
            &&& o.underrun_frames <= o.rendered_frames <= frames
            &&& !o.discontinuity ==> run.voice.position_frames == (voice.position_frames
                + o.rendered_frames - o.underrun_frames) % 0x1_0000_0000_0000_0000
            &&& o.discontinuity <==> voice.pending_discontinuity || o.looped || came_to_stop(
                voice,
                run,
            )
            &&& o.looped ==> o.discontinuity
            &&& !run.voice.pending_discontinuity
            &&& o.ended ==> run.voice.state == MusicState::Ready
            &&& run.voice.state == MusicState::Playing ==> voice.state == MusicState::Playing
        }),
{
    lemma_song_moves(voice, m, frames, log);
    lemma_counts_are_right(voice, m, frames, log);
}

/// A song that is paused or stopped while it plays fades out over the length of a ramp: until then
/// it plays on, and with the last frame of the ramp the gain is silence and the song is paused, or
/// ready at its start.
pub proof fn law_fades_settle_on_the_frame<M: SampleMath>(
    c: ChunkRun,
    m: &M,
    voice: MusicVoice,
    stop: bool,
    raw: Seq<u32>,
    count: usize,
    k: nat,
)
    requires
        !c.stopped,
        voice.state == MusicState::Playing,
        c.voice == if stop {
            voice.stopped(m)
        } else {
            voice.paused(m)
        },
        0 < k <= voice.ramp_length(m),
    ensures
        ({
            let run = c.after_frames(m, raw, count, k);
            &&& k < voice.ramp_length(m) ==> {
                &&& !run.stopped
                &&& run.voice.state == MusicState::Playing
            }
            &&& k == voice.ramp_length(m) ==> {
                &&& run.stopped
                &&& run.voice.gain.current == SILENCE
                &&& run.voice.state == if stop {
                    MusicState::Ready
                } else {
                    MusicState::Paused
                }
                &&& stop ==> run.voice.position_frames == 0
            }
        }),
{
    lemma_fade_goes_on(c, m, voice, stop, raw, count, k);
}

proof fn lemma_fade_goes_on<M: SampleMath>(
    c: ChunkRun,
    m: &M,
    voice: MusicVoice,
    stop: bool,
    raw: Seq<u32>,
    count: usize,
    k: nat,
)
    requires
        !c.stopped,
        voice.state == MusicState::Playing,
        c.voice == if stop {
            voice.stopped(m)
        } else {
            voice.paused(m)
        },
        0 < k <= voice.ramp_length(m),
    ensures
        ({
            let run = c.after_frames(m, raw, count, k);
            &&& k < voice.ramp_length(m) ==> {
                &&& !run.stopped
                &&& run.voice.state == MusicState::Playing
                &&& run.voice.pending_settle == c.voice.pending_settle
                &&& run.voice.gain.target == SILENCE
                &&& run.voice.gain.remaining_samples == voice.ramp_length(m) - k
            }
            &&& k == voice.ramp_length(m) ==> {
                &&& run.stopped
                &&& run.voice.gain.current == SILENCE
                &&& run.voice.state == if stop {
                    MusicState::Ready
                } else {
                    MusicState::Paused
                }
                &&& stop ==> run.voice.position_frames == 0
            }
        }),
    decreases k,
{
    reveal(ChunkRun::after_frame);
    if k > 1 {
        lemma_fade_goes_on(c, m, voice, stop, raw, count, (k - 1) as nat);
    } else {
        assert(c.after_frames(m, raw, count, 0) == c);
    }
}

} // verus!
