//! The mixer: everything that happens in one call of the audio callback.

use std::sync::Arc;

use vstd::prelude::*;

use crate::bus::{Bus, BusId, BusSet};
#[allow(unused_imports)]
use crate::clipper;
use crate::clipper::SoftClipper;
use crate::clock::{BgmStatePublisher, MusicClockPublisher, MusicClockSnapshot};
use crate::command::{Command, ScheduledSe};
use crate::config::Config;
use crate::event::{Event, EventQueue, EventState};
use crate::format::CHANNELS;
#[allow(unused_imports)]
use crate::math;
use crate::math::{SampleMath, SILENCE, UNITY};
#[allow(unused_imports)]
use crate::music;
use crate::music::{
    MusicFrameSource, MusicRenderOutcome, MusicState, MusicVoice, PendingTransition, SourceEvent,
};
#[allow(unused_imports)]
use crate::ramp;
use crate::ramp::{ms_to_samples, Ramp};
#[allow(unused_imports)]
use crate::ring;
use crate::ring::{
    leak_sound, measure_sounds_ready, new_command_ring, new_sound_ring, put_command, put_sound,
    take_command, take_sound,
};
#[allow(unused_imports)]
use crate::schedule;
use crate::schedule::{buffer_duration_ns, offset_within_buffer, ScheduleQueue};
use crate::sound::SoundData;
use crate::stream;
use crate::stream::{MusicStreamProducer, StreamingMusicSource};
#[allow(unused_imports)]
use crate::voice;
use crate::voice::{Pool, SoundRequest, StealOutcome, VoicePool};

verus! {

/// How many frames of the background music are rendered at once.
pub const BGM_CHUNK_FRAMES: usize = 256;

/// The game thread's end of the queue of commands.
pub struct CommandSender {
    /// The writing end of the ring.
    pub producer: rtrb::Producer<Command>,
}

impl CommandSender {
    /// Sends a command, unless the queue is full. Commands arrive in the order in which they are
    /// sent.
    pub fn send(&mut self, command: Command) -> (sent: bool)
        ensures
            ring::command_line_in(final(self).producer) == ring::command_line_in(
                old(self).producer,
            ),
            ring::command_room(old(self).producer) > 0 ==> sent,
            sent ==> {
                let n = ring::commands_put(old(self).producer);
                &&& ring::commands_put(final(self).producer) == n + 1
                &&& n < ring::command_line_in(final(self).producer).len()
                &&& ring::command_line_in(final(self).producer)[n as int] == command
                &&& ring::command_room(final(self).producer) >= ring::command_room(
                    old(self).producer,
                ) - 1
            },
            !sent ==> {
                &&& ring::commands_put(final(self).producer) == ring::commands_put(
                    old(self).producer,
                )
                &&& ring::command_room(final(self).producer) == 0
            },
    {
        put_command(&mut self.producer, command)
    }
}

/// The game thread's end of the queue of sounds that are given back.
pub struct ReclaimReceiver {
    /// The reading end of the ring.
    pub consumer: rtrb::Consumer<Arc<SoundData>>,
}

impl ReclaimReceiver {
    /// Takes out every sound that has been given back, and lets go of it.
    pub fn drain(&mut self)
        ensures
            ring::sound_line_out(final(self).consumer) == ring::sound_line_out(
                old(self).consumer,
            ),
            ring::sounds_taken(final(self).consumer) >= ring::sounds_taken(old(self).consumer)
                + ring::sounds_ready(old(self).consumer),
            ring::sounds_ready(final(self).consumer) == 0,
    {
        let ghost line = ring::sound_line_out(self.consumer);
        let ghost goal = ring::sounds_taken(self.consumer) + ring::sounds_ready(self.consumer);
        let mut more: bool = true;
        while more
            invariant
                line == ring::sound_line_out(old(self).consumer),
                ring::sound_line_out(self.consumer) == line,
                ring::sounds_taken(self.consumer) + ring::sounds_ready(self.consumer) >= goal
                    || !more,
                !more ==> ring::sounds_taken(self.consumer) >= goal && ring::sounds_ready(
                    self.consumer,
                ) == 0,
            decreases
                    (if ring::sounds_taken(self.consumer) <= line.len() {
                        line.len() - ring::sounds_taken(self.consumer)
                    } else {
                        line.len() as int + 1
                    }),
                    (if more {
                        1int
                    } else {
                        0
                    }),
        {
            more = take_sound(&mut self.consumer).is_some();
        }
    }

    /// How many sounds wait at this moment.
    pub fn pending_len(&mut self) -> (n: usize)
        ensures
            n == ring::sounds_ready(final(self).consumer),
            n >= ring::sounds_ready(old(self).consumer),
            ring::sounds_taken(final(self).consumer) == ring::sounds_taken(old(self).consumer),
            ring::sound_line_out(final(self).consumer) == ring::sound_line_out(
                old(self).consumer,
            ),
    {
        measure_sounds_ready(&mut self.consumer)
    }
}

/// The sounds among the first `n` of `sounds` that are marked as sent.
pub open spec fn sent_of(sounds: Seq<Arc<SoundData>>, sent: Seq<bool>, n: nat) -> Seq<
    Arc<SoundData>,
>
    decreases n,
{
    if n == 0 {
        Seq::empty()
    } else if sent[n - 1] {
        sent_of(sounds, sent, (n - 1) as nat).push(sounds[n - 1])
    } else {
        sent_of(sounds, sent, (n - 1) as nat)
    }
}

/// Whether `sounds` were given back between two moments of the writing end, in order, those that
/// are marked as sent through the ring and the others by leaking them. None is leaked as long as
/// a slot is known to be free, and each takes up one slot at most.
pub open spec fn given_back_as(
    before: rtrb::Producer<Arc<SoundData>>,
    after: rtrb::Producer<Arc<SoundData>>,
    sounds: Seq<Arc<SoundData>>,
    sent: Seq<bool>,
) -> bool {
    let start = ring::sounds_put(before);
    let arrived = sent_of(sounds, sent, sent.len());
    &&& sent.len() == sounds.len()
    &&& ring::sound_line_in(after) == ring::sound_line_in(before)
    &&& ring::sounds_put(after) == start + arrived.len()
    &&& arrived.len() > 0 ==> start + arrived.len() <= ring::sound_line_in(after).len()
    &&& forall|i: int|
        0 <= i < arrived.len() ==> #[trigger] arrived[i] == ring::sound_line_in(after)[start + i]
    &&& forall|i: int| 0 <= i < sent.len() && i < ring::sound_room(before) ==> #[trigger] sent[i]
    &&& ring::sound_room(after) + sounds.len() >= ring::sound_room(before)
}

/// Whether `sounds` were given back between two moments of the writing end.
pub open spec fn given_back(
    before: rtrb::Producer<Arc<SoundData>>,
    after: rtrb::Producer<Arc<SoundData>>,
    sounds: Seq<Arc<SoundData>>,
) -> bool {
    exists|sent: Seq<bool>| given_back_as(before, after, sounds, sent)
}

/// The audio thread's end of the queue of sounds that are given back.
pub struct ReclaimSender {
    /// The writing end of the ring.
    pub producer: rtrb::Producer<Arc<SoundData>>,
}

impl ReclaimSender {
    /// Gives a sound back, so that it is freed on the game thread. If the queue is full the sound
    /// is leaked, since it must not be freed here.
    pub fn send_or_leak(&mut self, sound: Arc<SoundData>)
        ensures
            given_back(old(self).producer, final(self).producer, seq![sound]),
    {
        let refused: Option<Arc<SoundData>> = put_sound(&mut self.producer, sound);
        proof {
            let sent = seq![refused is None];
            reveal_with_fuel(sent_of, 2);
            assert(sent_of(seq![sound], sent, 1) =~= if refused is None {
                seq![sound]
            } else {
                Seq::empty()
            });
            assert(given_back_as(old(self).producer, self.producer, seq![sound], sent));
        }
        if let Some(sound) = refused {
            leak_sound(sound);
        }
    }

    /// Gives back all of `sounds`, in order.
    pub fn send_or_leak_all(&mut self, sounds: &mut Vec<Arc<SoundData>>)
        ensures
            final(sounds)@ == Seq::<Arc<SoundData>>::empty(),
            given_back(old(self).producer, final(self).producer, old(sounds)@),
    {
        let ghost all = sounds@;
        let ghost first = self.producer;
        proof {
            lemma_nothing_given_back(first);
            assert(all.take(0) =~= Seq::empty());
        }
        let ghost mut done: int = 0;
        while sounds.len() > 0
            invariant
                all == old(sounds)@,
                first == old(self).producer,
                0 <= done <= all.len(),
                sounds@ == all.skip(done),
                given_back(first, self.producer, all.take(done)),
            decreases all.len() - done,
        {
            let sound: Arc<SoundData> = sounds.remove(0);
            let ghost before = self.producer;
            self.send_or_leak(sound);
            proof {
                assert(sound == all[done]);
                lemma_given_back_joined(
                    first,
                    before,
                    self.producer,
                    all.take(done),
                    seq![sound],
                );
                assert(all.take(done) + seq![sound] =~= all.take(done + 1));
                done = done + 1;
                assert(sounds@ =~= all.skip(done));
            }
        }
        assert(all.take(done) =~= all);
    }
}

pub(crate) proof fn lemma_nothing_given_back(p: rtrb::Producer<Arc<SoundData>>)
    ensures
        given_back(p, p, Seq::empty()),
{
    assert(given_back_as(p, p, Seq::empty(), Seq::empty()));
}

proof fn lemma_sent_prefix(
    xs: Seq<Arc<SoundData>>,
    xs_sent: Seq<bool>,
    ys: Seq<Arc<SoundData>>,
    ys_sent: Seq<bool>,
    n: nat,
)
    requires
        xs.len() == xs_sent.len(),
        n <= xs.len(),
    ensures
        sent_of(xs + ys, xs_sent + ys_sent, n) == sent_of(xs, xs_sent, n),
    decreases n,
{
    if n > 0 {
        lemma_sent_prefix(xs, xs_sent, ys, ys_sent, (n - 1) as nat);
    }
}

proof fn lemma_sent_joined(
    xs: Seq<Arc<SoundData>>,
    xs_sent: Seq<bool>,
    ys: Seq<Arc<SoundData>>,
    ys_sent: Seq<bool>,
    n: nat,
)
    requires
        xs.len() == xs_sent.len(),
        ys.len() == ys_sent.len(),
        n <= ys.len(),
    ensures
        sent_of(xs + ys, xs_sent + ys_sent, xs.len() + n) == sent_of(xs, xs_sent, xs.len())
            + sent_of(ys, ys_sent, n),
    decreases n,
{
    if n == 0 {
        lemma_sent_prefix(xs, xs_sent, ys, ys_sent, xs.len());
        assert(sent_of(xs, xs_sent, xs.len()) + Seq::empty() =~= sent_of(xs, xs_sent, xs.len()));
    } else {
        lemma_sent_joined(xs, xs_sent, ys, ys_sent, (n - 1) as nat);
        assert((xs + ys)[xs.len() + n - 1] == ys[n - 1]);
        assert((xs_sent + ys_sent)[xs.len() + n - 1] == ys_sent[n - 1]);
        assert(sent_of(xs + ys, xs_sent + ys_sent, xs.len() + n) =~= sent_of(
            xs,
            xs_sent,
            xs.len(),
        ) + sent_of(ys, ys_sent, n));
    }
}

proof fn lemma_given_back_joined(
    a: rtrb::Producer<Arc<SoundData>>,
    b: rtrb::Producer<Arc<SoundData>>,
    c: rtrb::Producer<Arc<SoundData>>,
    xs: Seq<Arc<SoundData>>,
    ys: Seq<Arc<SoundData>>,
)
    requires
        given_back(a, b, xs),
        given_back(b, c, ys),
    ensures
        given_back(a, c, xs + ys),
{
    let xs_sent = choose|sent: Seq<bool>| given_back_as(a, b, xs, sent);
    let ys_sent = choose|sent: Seq<bool>| given_back_as(b, c, ys, sent);
    let sent = xs_sent + ys_sent;
    lemma_sent_joined(xs, xs_sent, ys, ys_sent, ys.len());
    let first = sent_of(xs, xs_sent, xs.len());
    let second = sent_of(ys, ys_sent, ys.len());
    let arrived = sent_of(xs + ys, sent, sent.len());
    assert(arrived == first + second);
    let start = ring::sounds_put(a);
    let line = ring::sound_line_in(c);
    assert forall|i: int| 0 <= i < arrived.len() implies #[trigger] arrived[i] == line[start
        + i] by {
        if i < first.len() {
            assert(first[i] == line[start + i]);
        } else {
            assert(second[i - first.len()] == line[ring::sounds_put(b) + (i - first.len())]);
        }
    }
    assert forall|i: int| 0 <= i < sent.len() && i < ring::sound_room(a) implies
        #[trigger] sent[i] by {
        if i < xs.len() {
            assert(xs_sent[i]);
        } else {
            assert(ys_sent[i - xs.len()]);
        }
    }
    assert(given_back_as(a, c, xs + ys, sent));
}

/// A start of the song that is planned for some host time.
#[derive(Debug)]
pub struct MusicSchedule {
    /// When the song is to start, if it is.
    pub pending_host_time_ns: Option<u64>,
    /// Whether that time has come while the song was still being loaded.
    pub deferred: bool,
}

/// The frame of a buffer at `start` in which something due at `target` happens: the first one if
/// it is overdue.
pub open spec fn due_frame(target: u64, start: u64, sample_rate: u32) -> int {
    if target <= start {
        0
    } else {
        schedule::frames_in(schedule::elapsed(target, start), sample_rate as nat) as int
            % (usize::MAX + 1)
    }
}

impl MusicSchedule {
    /// The frame of a buffer from `start` to `end` at which the song has to be started, if it has
    /// to be: the time has come and the song is ready.
    pub open spec fn due(self, start: u64, end: u64, sample_rate: u32, state: MusicState) -> Option<
        int,
    > {
        match self.pending_host_time_ns {
            Some(target) => if target < end && state == MusicState::Ready {
                Some(due_frame(target, start, sample_rate))
            } else {
                None
            },
            None => None,
        }
    }

    /// This plan after that: carried out or dropped once the time has come, unless the song is
    /// still being loaded.
    pub open spec fn after(self, end: u64, state: MusicState) -> MusicSchedule {
        match self.pending_host_time_ns {
            Some(target) => if target >= end {
                self
            } else if state == MusicState::Loading {
                MusicSchedule { deferred: true, ..self }
            } else {
                MusicSchedule { pending_host_time_ns: None, deferred: false }
            },
            None => self,
        }
    }

    /// Nothing planned.
    pub fn new() -> (s: MusicSchedule)
        ensures
            s == (MusicSchedule { pending_host_time_ns: None, deferred: false }),
    {
        MusicSchedule { pending_host_time_ns: None, deferred: false }
    }

    /// Plans a start, in place of any other.
    pub fn schedule(&mut self, host_time_ns: u64)
        ensures
            *final(self) == (MusicSchedule {
                pending_host_time_ns: Some(host_time_ns),
                deferred: false,
            }),
    {
        self.pending_host_time_ns = Some(host_time_ns);
        self.deferred = false;
    }

    /// The frame of the buffer at which the song has to be started, if it has to be.
    pub fn take_due_offset(
        &mut self,
        buffer_start_ns: u64,
        buffer_end_ns: u64,
        sample_rate: u32,
        voice_state: MusicState,
    ) -> (offset: Option<usize>)
        ensures
            *final(self) == old(self).after(buffer_end_ns, voice_state),
            match old(self).due(buffer_start_ns, buffer_end_ns, sample_rate, voice_state) {
                Some(frame) => offset is Some && offset->0 == frame,
                None => offset is None,
            },
    {
        let target_ns: u64 = match self.pending_host_time_ns {
            Some(target_ns) => target_ns,
            None => {
                return None;
            },
        };
        if target_ns >= buffer_end_ns {
            return None;
        }
        if voice_state == MusicState::Loading {
            self.deferred = true;
            return None;
        }
        self.pending_host_time_ns = None;
        self.deferred = false;
        if voice_state != MusicState::Ready {
            return None;
        }
        if target_ns <= buffer_start_ns {
            Some(0)
        } else {
            Some(offset_within_buffer(target_ns, buffer_start_ns, sample_rate))
        }
    }
}

impl Default for MusicSchedule {
    fn default() -> (s: MusicSchedule)
        ensures
            s == (MusicSchedule { pending_host_time_ns: None, deferred: false }),
    {
        MusicSchedule::new()
    }
}

/// The mixer. The songs come from sources of the type `S`.
pub struct Mixer<S: MusicFrameSource> {
    /// The volumes of the buses.
    pub buses: BusSet,
    /// The sound effects.
    pub voices: VoicePool,
    /// The clipper at the end of the mix.
    pub clipper: SoftClipper,
    /// The reading end of the queue of commands.
    pub command_consumer: rtrb::Consumer<Command>,
    /// Where sounds that are done with go.
    pub reclaim: ReclaimSender,
    /// Frames per second.
    pub sample_rate: u32,
    /// The length of an ordinary ramp, in milliseconds.
    pub default_ramp_ms: u32,
    /// The song.
    pub music_voice: MusicVoice,
    /// Where the song comes from.
    pub music_source: S,
    /// When the song is to start.
    pub music_schedule: MusicSchedule,
    /// The background music.
    pub bgm_voice: MusicVoice,
    /// Where the background music comes from.
    pub bgm_source: S,
    /// The state of the background music, for the game thread.
    pub bgm_state: BgmStatePublisher,
    /// The sound effects that are scheduled.
    pub se_schedule: ScheduleQueue<ScheduledSe>,
    /// How many sound effects did not fit on the schedule, modulo `2^64`.
    pub se_schedule_overflow_count: u64,
    /// The song clock, for the game thread.
    pub music_clock: MusicClockPublisher,
    /// The events, for the game thread.
    pub events: EventQueue,
    /// How many missing frames of the song have not been reported yet.
    pub underrun_accumulator: u32,
    /// How many of them are reported at the latest.
    pub underrun_report_threshold_frames: u32,
    /// Whether clipping is reported.
    pub report_clipping: bool,
    /// Room for sounds on their way back.
    pub freed_sounds: Vec<Arc<SoundData>>,
    /// Room for scheduled sound effects that are called off.
    pub called_off: Vec<ScheduledSe>,
    /// Room for a chunk of background music.
    pub bgm_chunk: Vec<u32>,
}

/// Which of `entries` have the property `p`.
pub open spec fn marks_of(
    entries: Seq<(u64, ScheduledSe)>,
    p: spec_fn(ScheduledSe) -> bool,
) -> Seq<bool> {
    Seq::new(entries.len(), |i: int| p(entries[i].1))
}

/// The entries that do not have the property `p`.
pub open spec fn entries_without(
    entries: Seq<(u64, ScheduledSe)>,
    p: spec_fn(ScheduledSe) -> bool,
) -> Seq<(u64, ScheduledSe)> {
    schedule::unmarked(entries, marks_of(entries, p), entries.len())
}

/// The sounds of the entries that have the property `p`.
pub open spec fn sounds_of(
    entries: Seq<(u64, ScheduledSe)>,
    p: spec_fn(ScheduledSe) -> bool,
) -> Seq<Arc<SoundData>> {
    schedule::marked(entries, marks_of(entries, p), entries.len()).map_values(
        |se: ScheduledSe| se.sound,
    )
}

/// What is asked for by a scheduled sound effect.
pub open spec fn request_of(se: ScheduledSe) -> SoundRequest {
    SoundRequest {
        serial: se.voice_serial,
        sound_id: se.sound_id,
        sound: se.sound,
        bus: se.bus,
        volume: se.volume,
    }
}

impl<S: MusicFrameSource> Mixer<S> {
    /// Whether the parts are valid and the spare rooms empty.
    pub open spec fn wf(self) -> bool {
        &&& self.se_schedule.wf()
        &&& self.events.wf()
        &&& self.music_clock.wf()
        &&& self.freed_sounds@.len() == 0
        &&& self.called_off@.len() == 0
        &&& self.bgm_chunk@.len() == BGM_CHUNK_FRAMES * CHANNELS
    }

    /// The length of an ordinary ramp in samples.
    pub open spec fn default_ramp<M: SampleMath>(self, m: &M) -> u32 {
        ramp::samples_in_ms(m, self.default_ramp_ms, self.sample_rate)
    }

    /// Whether `after` is this mixer after taking every sound effect with the property `p` off the
    /// schedule, apart from the voices.
    pub open spec fn called_off_to(
        self,
        after: Mixer<S>,
        p: spec_fn(ScheduledSe) -> bool,
    ) -> bool {
        &&& after == Mixer::<S> {
            voices: after.voices,
            se_schedule: after.se_schedule,
            reclaim: after.reclaim,
            called_off: after.called_off,
            ..self
        }
        &&& after.se_schedule.capacity == self.se_schedule.capacity
        &&& after.se_schedule.entries@ == entries_without(self.se_schedule.entries@, p)
        &&& given_back(
            self.reclaim.producer,
            after.reclaim.producer,
            sounds_of(self.se_schedule.entries@, p),
        )
    }

    /// Whether `after` is this mixer after `command`.
    pub open spec fn applied<M: SampleMath>(
        self,
        m: &M,
        command: Command,
        after: Mixer<S>,
    ) -> bool {
        let ramp = self.default_ramp(m);
        match command {
            Command::PlaySe { voice_serial, sound_id, sound, bus, volume } => {
                &&& after == Mixer::<S> {
                    voices: after.voices,
                    reclaim: after.reclaim,
                    ..self
                }
                &&& after.voices@ == self.voices@.playing(
                    m,
                    SoundRequest { serial: voice_serial, sound_id, sound, bus, volume },
                    ramp,
                )
                &&& given_back(
                    self.reclaim.producer,
                    after.reclaim.producer,
                    self.voices@.refused(sound),
                )
                &&& self.voices@.outcome() != StealOutcome::TailPoolExhausted ==> after.reclaim
                    == self.reclaim
            },
            Command::StopVoice { voice_serial } => {
                &&& after.voices@ == self.voices@.stopping(m, voice_serial, ramp)
                &&& self.called_off_to(after, |se: ScheduledSe| se.voice_serial == voice_serial)
            },
            Command::SetVoiceVolume { voice_serial, volume } => {
                &&& after == Mixer::<S> { voices: after.voices, ..self }
                &&& after.voices@ == self.voices@.at_volume(m, voice_serial, volume, ramp)
            },
            Command::StopVoicesUsingSound { sound_id } => {
                &&& after.voices@ == self.voices@.without_sound(m, sound_id, ramp)
                &&& self.called_off_to(after, |se: ScheduledSe| se.sound_id == sound_id)
            },
            Command::SetBusVolume { bus, volume } => {
                &&& after == Mixer::<S> { buses: after.buses, ..self }
                &&& after.buses.buses@ == with_bus(m, self.buses.buses@, bus, volume, ramp)
            },
            Command::BusFade { bus, target, ms } => {
                &&& after == Mixer::<S> { buses: after.buses, ..self }
                &&& after.buses.buses@ == with_bus(
                    m,
                    self.buses.buses@,
                    bus,
                    target,
                    ramp::samples_in_ms(m, ms, self.sample_rate),
                )
            },
            Command::SeSchedule { host_time_ns, entry } => {
                let entries = self.se_schedule.entries@;
                let fits = entries.len() < self.se_schedule.capacity;
                &&& after == Mixer::<S> {
                    se_schedule: after.se_schedule,
                    se_schedule_overflow_count: if fits {
                        self.se_schedule_overflow_count
                    } else {
                        self.se_schedule_overflow_count.wrapping_add(1)
                    },
                    reclaim: after.reclaim,
                    ..self
                }
                &&& given_back(
                    self.reclaim.producer,
                    after.reclaim.producer,
                    if fits {
                        Seq::empty()
                    } else {
                        seq![entry.sound]
                    },
                )
                &&& fits ==> after.reclaim == self.reclaim
                &&& after.se_schedule.capacity == self.se_schedule.capacity
                &&& after.se_schedule.entries@ == if fits {
                    entries.insert(
                        schedule::due_count(entries, host_time_ns, entries.len()) as int,
                        (host_time_ns, entry),
                    )
                } else {
                    entries
                }
            },
            Command::MusicPlayScheduled { host_time_ns } => after == Mixer::<S> {
                music_schedule: MusicSchedule {
                    pending_host_time_ns: Some(host_time_ns),
                    deferred: false,
                },
                ..self
            },
            Command::MusicPrepare => after == Mixer::<S> {
                music_voice: self.music_voice.prepared(),
                ..self
            },
            Command::MusicSeek { frames } => {
                &&& after == Mixer::<S> {
                    music_voice: self.music_voice.sought(frames),
                    music_source: after.music_source,
                    ..self
                }
                &&& after.music_source.events() == self.music_source.events().push(
                    SourceEvent::Seek(frames),
                )
            },
            Command::MusicPause => after == Mixer::<S> {
                music_voice: self.music_voice.paused(m),
                ..self
            },
            Command::MusicResumeAt { frames } => {
                &&& after == Mixer::<S> {
                    music_voice: self.music_voice.resumed_at(m, frames),
                    music_source: after.music_source,
                    ..self
                }
                &&& after.music_source.events() == if self.music_voice.state
                    == MusicState::Loading {
                    self.music_source.events()
                } else {
                    self.music_source.events().push(SourceEvent::Seek(frames))
                }
            },
            Command::MusicStop => after == Mixer::<S> {
                music_voice: self.music_voice.stopped(m),
                ..self
            },
            Command::MusicSetLoop { region } => after == Mixer::<S> {
                music_voice: self.music_voice.looping(region),
                ..self
            },
            Command::BgmPrepare => after == Mixer::<S> {
                bgm_voice: self.bgm_voice.prepared(),
                ..self
            },
            Command::BgmSeek { frames } => {
                &&& after == Mixer::<S> {
                    bgm_voice: self.bgm_voice.sought(frames),
                    bgm_source: after.bgm_source,
                    ..self
                }
                &&& after.bgm_source.events() == self.bgm_source.events().push(
                    SourceEvent::Seek(frames),
                )
            },
            Command::BgmPlay => after == Mixer::<S> {
                bgm_voice: self.bgm_voice.played(m),
                ..self
            },
            Command::BgmStop => after == Mixer::<S> {
                bgm_voice: self.bgm_voice.stopped(m),
                ..self
            },
            Command::BgmSetLoop { region } => after == Mixer::<S> {
                bgm_voice: self.bgm_voice.looping(region),
                ..self
            },
        }
    }

    /// The length of an ordinary ramp in samples.
    fn default_ramp_samples<M: SampleMath>(&self, m: &M) -> (samples: u32)
        requires
            math::is_pure(m),
        ensures
            samples == self.default_ramp(m),
    {
        ms_to_samples(m, self.default_ramp_ms, self.sample_rate)
    }

    /// Plays a sound, or gives it back if no voice can be had for it.
    fn play_se<M: SampleMath>(&mut self, m: &M, se: ScheduledSe, ramp_samples: u32)
        requires
            math::is_pure(m),
        ensures
            *final(self) == (Mixer::<S> {
                voices: final(self).voices,
                reclaim: final(self).reclaim,
                ..*old(self)
            }),
            final(self).voices@ == old(self).voices@.playing(m, request_of(se), ramp_samples),
            given_back(
                old(self).reclaim.producer,
                final(self).reclaim.producer,
                old(self).voices@.refused(se.sound),
            ),
            old(self).voices@.outcome() != StealOutcome::TailPoolExhausted ==> final(self).reclaim
                == old(self).reclaim,
    {
        let (_, refused) = self.voices.play_or_return(
            m,
            se.voice_serial,
            se.sound_id,
            se.sound,
            se.bus,
            se.volume,
            ramp_samples,
        );
        match refused {
            Some(sound) => self.reclaim.send_or_leak(sound),
            None => {
                proof {
                    lemma_nothing_given_back(self.reclaim.producer);
                }
            },
        }
    }

    /// Gives back the sounds of the sound effects that were called off.
    fn give_back_called_off(&mut self)
        ensures
            *final(self) == (Mixer::<S> {
                reclaim: final(self).reclaim,
                called_off: final(self).called_off,
                ..*old(self)
            }),
            final(self).called_off@.len() == 0,
            given_back(
                old(self).reclaim.producer,
                final(self).reclaim.producer,
                old(self).called_off@.map_values(|se: ScheduledSe| se.sound),
            ),
    {
        let ghost all = self.called_off@.map_values(|se: ScheduledSe| se.sound);
        let ghost first = self.reclaim.producer;
        let ghost mut done: int = 0;
        proof {
            lemma_nothing_given_back(first);
            assert(all.take(0) =~= Seq::empty());
        }
        while self.called_off.len() > 0
            invariant
                all == old(self).called_off@.map_values(|se: ScheduledSe| se.sound),
                first == old(self).reclaim.producer,
                *self == (Mixer::<S> {
                    reclaim: self.reclaim,
                    called_off: self.called_off,
                    ..*old(self)
                }),
                0 <= done <= all.len(),
                self.called_off@ == old(self).called_off@.skip(done),
                given_back(first, self.reclaim.producer, all.take(done)),
            decreases all.len() - done,
        {
            let se: ScheduledSe = self.called_off.remove(0);
            let ghost before = self.reclaim.producer;
            let ghost sound = se.sound;
            self.reclaim.send_or_leak(se.sound);
            proof {
                lemma_given_back_joined(
                    first,
                    before,
                    self.reclaim.producer,
                    all.take(done),
                    seq![sound],
                );
                assert(all.take(done) + seq![sound] =~= all.take(done + 1));
                done = done + 1;
                assert(self.called_off@ =~= old(self).called_off@.skip(done));
            }
        }
        assert(all.take(done) =~= all);
    }

    /// Takes every sound effect that matches off the schedule and gives its sound back. What
    /// matches is what has the property `p`.
    fn call_off<F: Fn(&ScheduledSe) -> bool>(
        &mut self,
        matches: F,
        Ghost(p): Ghost<spec_fn(ScheduledSe) -> bool>,
    )
        requires
            old(self).wf(),
            forall|se: &ScheduledSe| #[trigger] matches.requires((se,)),
            forall|se: &ScheduledSe, hit: bool| #[trigger]
                matches.ensures((se,), hit) ==> hit == p(*se),
        ensures
            final(self).wf(),
            final(self).voices == old(self).voices,
            old(self).called_off_to(*final(self), p),
    {
        let ghost entries = self.se_schedule.entries@;
        assert(self.called_off@ =~= Seq::empty());
        self.se_schedule.remove_where(matches, &mut self.called_off);
        proof {
            let marks = choose|marks: Seq<bool>| #[trigger]
                schedule::answers_of(matches, entries, marks) && self.se_schedule.entries@
                    == schedule::unmarked(entries, marks, marks.len()) && self.called_off@
                    == Seq::<ScheduledSe>::empty() + schedule::marked(
                    entries,
                    marks,
                    marks.len(),
                );
            assert forall|i: int| 0 <= i < entries.len() implies marks[i] == p(entries[i].1) by {
                assert(matches.ensures((&entries[i].1,), marks[i]));
            }
            assert(marks =~= marks_of(entries, p));
            assert(self.called_off@ =~= schedule::marked(entries, marks, marks.len()));
        }
        self.give_back_called_off();
    }
}

impl<S: MusicFrameSource> Mixer<S> {
    /// Carries out one command.
    pub fn apply_command<M: SampleMath>(&mut self, m: &M, command: Command)
        requires
            math::is_pure(m),
            old(self).wf(),
        ensures
            final(self).wf(),
            old(self).applied(m, command, *final(self)),
    {
        let default_ramp: u32 = self.default_ramp_samples(m);
        match command {
            Command::PlaySe { voice_serial, sound_id, sound, bus, volume } => {
                self.play_se(
                    m,
                    ScheduledSe { voice_serial, sound_id, sound, bus, volume },
                    default_ramp,
                );
            },
            Command::StopVoice { voice_serial } => {
                self.voices.stop(m, voice_serial, default_ramp);
                let matches = |se: &ScheduledSe| -> (hit: bool)
                    ensures
                        hit == (se.voice_serial == voice_serial),
                    { se.voice_serial == voice_serial };
                self.call_off(
                    matches,
                    Ghost(|se: ScheduledSe| se.voice_serial == voice_serial),
                );
            },
            Command::SetVoiceVolume { voice_serial, volume } => {
                self.voices.set_volume(m, voice_serial, volume, default_ramp);
            },
            Command::StopVoicesUsingSound { sound_id } => {
                self.voices.stop_all_using_sound(m, sound_id, default_ramp);
                let matches = |se: &ScheduledSe| -> (hit: bool)
                    ensures
                        hit == (se.sound_id == sound_id),
                    { se.sound_id == sound_id };
                self.call_off(matches, Ghost(|se: ScheduledSe| se.sound_id == sound_id));
            },
            Command::SetBusVolume { bus, volume } => {
                let b: &mut Bus = self.buses.get_mut(bus);
                b.volume.set_target(m, volume, default_ramp);
            },
            Command::BusFade { bus, target, ms } => {
                let samples: u32 = ms_to_samples(m, ms, self.sample_rate);
                let b: &mut Bus = self.buses.get_mut(bus);
                b.volume.set_target(m, target, samples);
            },
            Command::SeSchedule { host_time_ns, entry } => {
                if self.se_schedule.len() < self.se_schedule.capacity {
                    self.se_schedule.try_insert(host_time_ns, entry);
                    proof {
                        lemma_nothing_given_back(self.reclaim.producer);
                    }
                } else {
                    self.reclaim.send_or_leak(entry.sound);
                    self.se_schedule_overflow_count =
                    self.se_schedule_overflow_count.wrapping_add(1);
                }
            },
            Command::MusicPlayScheduled { host_time_ns } => {
                self.music_schedule.schedule(host_time_ns);
            },
            Command::MusicPrepare => {
                self.music_voice.prepare();
            },
            Command::MusicSeek { frames } => {
                self.music_voice.seek(frames, &mut self.music_source);
            },
            Command::MusicPause => {
                self.music_voice.pause(m);
            },
            Command::MusicResumeAt { frames } => {
                self.music_voice.resume_at(m, frames, &mut self.music_source);
            },
            Command::MusicStop => {
                self.music_voice.stop(m);
            },
            Command::MusicSetLoop { region } => {
                self.music_voice.set_loop(region);
            },
            Command::BgmPrepare => {
                self.bgm_voice.prepare();
            },
            Command::BgmSeek { frames } => {
                self.bgm_voice.seek(frames, &mut self.bgm_source);
            },
            Command::BgmPlay => {
                self.bgm_voice.play(m);
            },
            Command::BgmStop => {
                self.bgm_voice.stop(m);
            },
            Command::BgmSetLoop { region } => {
                self.bgm_voice.set_loop(region);
            },
        }
    }

    /// Whether `after` is this mixer after the next command in its queue.
    pub open spec fn took_command<M: SampleMath>(self, m: &M, after: Mixer<S>) -> bool {
        let n = ring::commands_taken(self.command_consumer);
        let line = ring::command_line_out(self.command_consumer);
        &&& ring::command_line_out(after.command_consumer) == line
        &&& ring::commands_taken(after.command_consumer) == n + 1
        &&& n < line.len()
        &&& (Mixer::<S> { command_consumer: after.command_consumer, ..self }).applied(
            m,
            line[n as int],
            after,
        )
    }

    /// Whether `after` is this mixer after some commands in its queue, with `chain` as the mixer
    /// before the first of them and after each.
    pub open spec fn drained_through<M: SampleMath>(
        self,
        m: &M,
        after: Mixer<S>,
        chain: Seq<Mixer<S>>,
    ) -> bool {
        &&& chain.len() > 0
        &&& chain[0] == self
        &&& forall|i: int|
            0 <= i < chain.len() - 1 ==> (#[trigger] chain[i]).took_command(m, chain[i + 1])
        &&& after == Mixer::<S> { command_consumer: after.command_consumer, ..chain.last() }
        &&& ring::commands_taken(after.command_consumer) == ring::commands_taken(
            chain.last().command_consumer,
        )
        &&& ring::command_line_out(after.command_consumer) == ring::command_line_out(
            chain.last().command_consumer,
        )
    }

    /// Whether no command that was known to have arrived is left in the queue of `after`.
    pub open spec fn drained_all(self, after: Mixer<S>) -> bool {
        &&& ring::commands_ready(after.command_consumer) == 0
        &&& ring::commands_taken(after.command_consumer) >= ring::commands_taken(
            self.command_consumer,
        ) + ring::commands_ready(self.command_consumer)
    }

    /// Carries out the commands that have arrived, in the order in which they were sent.
    #[verifier::rlimit(40)]
    pub fn drain_commands<M: SampleMath>(&mut self, m: &M)
        requires
            math::is_pure(m),
            old(self).wf(),
        ensures
            final(self).wf(),
            exists|chain: Seq<Mixer<S>>| old(self).drained_through(m, *final(self), chain),
            old(self).drained_all(*final(self)),
    {
        let ghost mut chain: Seq<Mixer<S>> = seq![*self];
        let ghost line = ring::command_line_out(self.command_consumer);
        let mut more: bool = true;
        while more
            invariant
                math::is_pure(m),
                self.wf(),
                ring::command_line_out(self.command_consumer) == line,
                old(self).drained_through(m, *self, chain),
                more ==> chain.last() == *self,
                more ==> ring::commands_taken(self.command_consumer) + ring::commands_ready(
                    self.command_consumer,
                ) >= ring::commands_taken(old(self).command_consumer) + ring::commands_ready(
                    old(self).command_consumer,
                ),
                !more ==> old(self).drained_all(*self),
            decreases
                    (if ring::commands_taken(self.command_consumer) <= line.len() {
                        line.len() - ring::commands_taken(self.command_consumer)
                    } else {
                        line.len() as int + 1
                    }),
                    (if more {
                        1int
                    } else {
                        0
                    }),
        {
            let ghost before = *self;
            let next: Option<Command> = take_command(&mut self.command_consumer);
            match next {
                Some(command) => {
                    self.apply_command(m, command);
                    proof {
                        assert(before.took_command(m, *self));
                        let longer = chain.push(*self);
                        assert forall|i: int| 0 <= i < longer.len() - 1 implies (
                        #[trigger] longer[i]).took_command(m, longer[i + 1]) by {
                            if i < chain.len() - 1 {
                                assert(chain[i].took_command(m, chain[i + 1]));
                            }
                        }
                        chain = longer;
                    }
                },
                None => {
                    more = false;
                },
            }
        }
    }
}

/// `buses` with one volume sent to `volume` over `samples` samples.
pub open spec fn with_bus<M: SampleMath>(
    m: &M,
    buses: Seq<Bus>,
    bus: BusId,
    volume: u32,
    samples: u32,
) -> Seq<Bus> {
    let i = bus.number() as int;
    buses.update(i, Bus { volume: buses[i].volume.aimed_at(m, volume, samples) })
}

/// Whether the first entry is due in the frame `frame_index` of a buffer from `start` to `end`, or
/// before.
pub open spec fn first_is_due(
    entries: Seq<(u64, ScheduledSe)>,
    frame_index: int,
    start: u64,
    end: u64,
    sample_rate: u32,
) -> bool {
    &&& entries.len() > 0
    &&& entries[0].0 < end
    &&& due_frame(entries[0].0, start, sample_rate) <= frame_index
}

/// A buffer that is being mixed: its times, and what stays the same throughout.
#[derive(Debug, Clone, Copy)]
pub struct MixSpan {
    /// The host time of the first frame.
    pub start_ns: u64,
    /// The host time at which the buffer ends.
    pub end_ns: u64,
    /// Frames per second.
    pub sample_rate: u32,
    /// The length of an ordinary ramp in samples.
    pub ramp_samples: u32,
    /// The threshold of the clipper.
    pub threshold: u32,
}

/// The voices and the schedule once every sound effect has been started that is due in the frame
/// `frame_index` or before.
pub open spec fn fired<M: SampleMath>(
    m: &M,
    pool: Pool,
    entries: Seq<(u64, ScheduledSe)>,
    frame_index: int,
    span: MixSpan,
) -> (Pool, Seq<(u64, ScheduledSe)>)
    decreases entries.len(),
{
    if first_is_due(entries, frame_index, span.start_ns, span.end_ns, span.sample_rate) {
        fired(
            m,
            pool.playing(m, request_of(entries[0].1), span.ramp_samples),
            entries.skip(1),
            frame_index,
            span,
        )
    } else {
        (pool, entries)
    }
}

/// The sounds that are refused as every sound effect is started that is due in the frame
/// `frame_index` or before, in the order in which they are due.
pub open spec fn refused_in<M: SampleMath>(
    m: &M,
    pool: Pool,
    entries: Seq<(u64, ScheduledSe)>,
    frame_index: int,
    span: MixSpan,
) -> Seq<Arc<SoundData>>
    decreases entries.len(),
{
    if first_is_due(entries, frame_index, span.start_ns, span.end_ns, span.sample_rate) {
        pool.refused(entries[0].1.sound) + refused_in(
            m,
            pool.playing(m, request_of(entries[0].1), span.ramp_samples),
            entries.skip(1),
            frame_index,
            span,
        )
    } else {
        Seq::empty()
    }
}

/// A mix under way.
#[verifier::ext_equal]
pub struct MixState {
    /// The voices.
    pub pool: Pool,
    /// The sound effects that are still to come.
    pub entries: Seq<(u64, ScheduledSe)>,
    /// The buses.
    pub buses: Seq<Bus>,
    /// How many samples have been clipped.
    pub clipped: u64,
    /// The sounds that no voice could be had for.
    pub refused: Seq<Arc<SoundData>>,
    /// The mix so far.
    pub out: Seq<u32>,
}

/// The volumes of the buses.
pub open spec fn bus_volumes(buses: Seq<Bus>) -> Seq<u32> {
    buses.map_values(|b: Bus| b.volume.current)
}

/// One channel of a mixed frame before clipping: the sound effects, plus song and background music
/// at the volume of their bus, all at the master volume.
pub open spec fn channel_mix<M: SampleMath>(
    m: &M,
    se: u32,
    music: u32,
    bgm: u32,
    volumes: Seq<u32>,
) -> u32 {
    math::product_of(
        m,
        math::sum_of(
            m,
            se,
            math::product_of(
                m,
                math::sum_of(m, music, bgm),
                volumes[BusId::Bgm.number() as int],
            ),
        ),
        volumes[BusId::Master.number() as int],
    )
}

impl MixState {
    /// This mix after the frame `i`, in which the song gives `music` and the background music
    /// `bgm`.
    #[verifier::opaque]
    pub open spec fn after_frame<M: SampleMath>(
        self,
        m: &M,
        span: MixSpan,
        i: int,
        music: (u32, u32),
        bgm: (u32, u32),
    ) -> MixState {
        let (pool, entries) = fired(m, self.pool, self.entries, i, span);
        let buses = self.buses.map_values(|b: Bus| Bus { volume: b.volume.advanced(m) });
        let volumes = bus_volumes(buses);
        let se = pool.mixed(m, volumes);
        let l = channel_mix(m, se.0, music.0, bgm.0, volumes);
        let r = channel_mix(m, se.1, music.1, bgm.1, volumes);
        MixState {
            pool: pool.advanced(m),
            entries,
            buses,
            clipped: clipper::counted(
                m,
                span.threshold,
                r,
                clipper::counted(m, span.threshold, l, self.clipped),
            ),
            refused: self.refused + refused_in(m, self.pool, self.entries, i, span),
            out: self.out.push(clipper::clipped(m, span.threshold, l)).push(
                clipper::clipped(m, span.threshold, r),
            ),
        }
    }

    /// This mix after `n` frames.
    pub open spec fn after_frames<M: SampleMath>(
        self,
        m: &M,
        span: MixSpan,
        music: Seq<u32>,
        bgm: Seq<u32>,
        n: nat,
    ) -> MixState
        decreases n,
    {
        if n == 0 {
            self
        } else {
            let i = n - 1;
            self.after_frames(m, span, music, bgm, i as nat).after_frame(
                m,
                span,
                i,
                (music[2 * i], music[2 * i + 1]),
                (bgm[2 * i], bgm[2 * i + 1]),
            )
        }
    }
}

proof fn lemma_bgm_prefix<M: SampleMath>(
    s: MixState,
    m: &M,
    span: MixSpan,
    music: Seq<u32>,
    a: Seq<u32>,
    b: Seq<u32>,
    n: nat,
)
    requires
        forall|i: int| 0 <= i < 2 * n ==> a[i] == b[i],
    ensures
        s.after_frames(m, span, music, a, n) == s.after_frames(m, span, music, b, n),
    decreases n,
{
    if n > 0 {
        lemma_bgm_prefix(s, m, span, music, a, b, (n - 1) as nat);
    }
}

/// Whether a voice turned into `after`, reported `outcome` and filled a buffer with `buf`, while
/// its source answered `log`.
#[verifier::opaque]
pub open spec fn voice_rendered<M: SampleMath>(
    m: &M,
    before: MusicVoice,
    log: Seq<SourceEvent>,
    buf: Seq<u32>,
    outcome: MusicRenderOutcome,
    after: MusicVoice,
) -> bool {
    let run = before.rendered(m, buf.len() / 2, log);
    &&& run.phase is Done
    &&& after == run.voice
    &&& outcome == run.outcome
    &&& outcome.underrun_frames <= outcome.rendered_frames <= buf.len() / 2
    &&& run.out == buf.take(2 * outcome.rendered_frames)
    &&& forall|i: int| 2 * outcome.rendered_frames <= i < buf.len() ==> buf[i] == SILENCE
}

/// Whether a voice was rendered to the first `split` samples of `buf`, then started, and then
/// rendered to the rest. The source answered `log`, of which the first `cut` belong to the first
/// part; `mid` is the voice and `one` the outcome after it, `two` the outcome of the second part.
pub open spec fn rendered_in_parts<M: SampleMath>(
    m: &M,
    before: MusicVoice,
    log: Seq<SourceEvent>,
    buf: Seq<u32>,
    split: int,
    outcome: MusicRenderOutcome,
    after: MusicVoice,
    cut: int,
    mid: MusicVoice,
    one: MusicRenderOutcome,
    two: MusicRenderOutcome,
) -> bool {
    &&& 0 <= cut <= log.len()
    &&& voice_rendered(m, before, log.take(cut), buf.take(split), one, mid)
    &&& voice_rendered(m, mid.played(m), log.skip(cut), buf.skip(split), two, after)
    &&& outcome == one.merged(two)
}

/// Whether a voice was rendered to the first `split` samples of `buf`, then started, and then
/// rendered to the rest, while its source answered `log`.
pub open spec fn rendered_around_start<M: SampleMath>(
    m: &M,
    before: MusicVoice,
    log: Seq<SourceEvent>,
    buf: Seq<u32>,
    split: int,
    outcome: MusicRenderOutcome,
    after: MusicVoice,
) -> bool {
    exists|cut: int, mid: MusicVoice, one: MusicRenderOutcome, two: MusicRenderOutcome|
        rendered_in_parts(m, before, log, buf, split, outcome, after, cut, mid, one, two)
}

proof fn lemma_prefix_chain(a: Seq<SourceEvent>, b: Seq<SourceEvent>, c: Seq<SourceEvent>)
    requires
        a.is_prefix_of(b),
        b.is_prefix_of(c),
    ensures
        a.is_prefix_of(c),
        c.skip(a.len() as int).skip(b.len() - a.len()) == c.skip(b.len() as int),
        c.skip(a.len() as int).take(b.len() - a.len()) == b.skip(a.len() as int),
{
    assert(a =~= c.take(a.len() as int)) by {
        assert(a =~= b.take(a.len() as int));
        assert(b =~= c.take(b.len() as int));
    }
    assert(c.skip(a.len() as int).skip(b.len() - a.len()) =~= c.skip(b.len() as int));
    assert(c.skip(a.len() as int).take(b.len() - a.len()) =~= b.skip(a.len() as int));
}

/// The count of missing frames and the events after `frames` more frames were missing: they are
/// gathered, and reported once no more are missing or there are too many of them.
pub open spec fn underrun_reported(
    accumulator: u32,
    threshold: u32,
    events: EventState,
    frames: u32,
) -> (u32, EventState) {
    let gathered = if accumulator + frames > u32::MAX {
        u32::MAX
    } else {
        (accumulator + frames) as u32
    };
    if gathered > 0 && (frames == 0 || gathered >= threshold) {
        (0, events.pushed(Event::Underrun { frames: gathered }))
    } else {
        (gathered, events)
    }
}

/// One chunk of background music.
pub struct BgmPart {
    /// The voice before.
    pub before: MusicVoice,
    /// The voice after.
    pub after: MusicVoice,
    /// What the source answered.
    pub log: Seq<SourceEvent>,
    /// The rendered samples.
    pub buf: Seq<u32>,
    /// What happened.
    pub outcome: MusicRenderOutcome,
}

/// All samples of the first `n` parts.
pub open spec fn samples_in(parts: Seq<BgmPart>, n: nat) -> Seq<u32>
    decreases n,
{
    if n == 0 {
        Seq::empty()
    } else {
        samples_in(parts, (n - 1) as nat) + parts[n - 1].buf
    }
}

/// All answers in the first `n` parts.
pub open spec fn answers_in(parts: Seq<BgmPart>, n: nat) -> Seq<SourceEvent>
    decreases n,
{
    if n == 0 {
        Seq::empty()
    } else {
        answers_in(parts, (n - 1) as nat) + parts[n - 1].log
    }
}

/// Whether the part `i` is the chunk of that number when a voice renders `frames` frames: it
/// continues where the last one ended, and it has the full length unless it is the last one.
pub open spec fn part_follows<M: SampleMath>(
    m: &M,
    first: MusicVoice,
    parts: Seq<BgmPart>,
    frames: nat,
    i: int,
) -> bool {
    let p = parts[i];
    let left = frames - i * BGM_CHUNK_FRAMES;
    &&& p.before == if i == 0 {
        first
    } else {
        parts[i - 1].after
    }
    &&& p.buf.len() == 2 * if left < BGM_CHUNK_FRAMES {
        left
    } else {
        BGM_CHUNK_FRAMES as int
    }
    &&& voice_rendered(m, p.before, p.log, p.buf, p.outcome, p.after)
}

/// Whether `parts` are the first chunks when a voice renders `frames` frames.
pub open spec fn parts_follow<M: SampleMath>(
    m: &M,
    first: MusicVoice,
    parts: Seq<BgmPart>,
    frames: nat,
) -> bool {
    forall|i: int|
        0 <= i < parts.len() ==> #[trigger] part_follows(m, first, parts, frames, i)
}

/// How many chunks `frames` frames take.
pub open spec fn chunk_count(frames: nat) -> nat {
    (frames + BGM_CHUNK_FRAMES as nat - 1) as nat / BGM_CHUNK_FRAMES as nat
}

impl<S: MusicFrameSource> Mixer<S> {
    /// The mix at the start of a buffer.
    pub open spec fn mix_begun(self) -> MixState {
        MixState {
            pool: self.voices@,
            entries: self.se_schedule.entries@,
            buses: self.buses.buses@,
            clipped: self.clipper.engaged_count,
            refused: Seq::empty(),
            out: Seq::empty(),
        }
    }

    /// Starts every sound effect that is due in the frame `frame_index` of the buffer or before. A
    /// sound that no voice can be had for is given back.
    pub fn fire_due_se<M: SampleMath>(&mut self, m: &M, frame_index: usize, span: MixSpan)
        requires
            math::is_pure(m),
            old(self).se_schedule.wf(),
        ensures
            final(self).se_schedule.wf(),
            final(self).se_schedule.capacity == old(self).se_schedule.capacity,
            *final(self) == (Mixer::<S> {
                voices: final(self).voices,
                se_schedule: final(self).se_schedule,
                reclaim: final(self).reclaim,
                ..*old(self)
            }),
            given_back(
                old(self).reclaim.producer,
                final(self).reclaim.producer,
                refused_in(
                    m,
                    old(self).voices@,
                    old(self).se_schedule.entries@,
                    frame_index as int,
                    span,
                ),
            ),
            (final(self).voices@, final(self).se_schedule.entries@) == fired(
                m,
                old(self).voices@,
                old(self).se_schedule.entries@,
                frame_index as int,
                span,
            ),
    {
        let ghost all = refused_in(
            m,
            self.voices@,
            self.se_schedule.entries@,
            frame_index as int,
            span,
        );
        let ghost mut done: Seq<Arc<SoundData>> = Seq::empty();
        proof {
            lemma_nothing_given_back(self.reclaim.producer);
            assert(done + all =~= all);
        }
        let mut waiting: bool = false;
        while !waiting
            invariant
                math::is_pure(m),
                self.se_schedule.wf(),
                self.se_schedule.capacity == old(self).se_schedule.capacity,
                *self == (Mixer::<S> {
                    voices: self.voices,
                    se_schedule: self.se_schedule,
                    reclaim: self.reclaim,
                    ..*old(self)
                }),
                given_back(old(self).reclaim.producer, self.reclaim.producer, done),
                all == refused_in(
                    m,
                    old(self).voices@,
                    old(self).se_schedule.entries@,
                    frame_index as int,
                    span,
                ),
                all == done + refused_in(
                    m,
                    self.voices@,
                    self.se_schedule.entries@,
                    frame_index as int,
                    span,
                ),
                fired(
                    m,
                    self.voices@,
                    self.se_schedule.entries@,
                    frame_index as int,
                    span,
                ) == fired(
                    m,
                    old(self).voices@,
                    old(self).se_schedule.entries@,
                    frame_index as int,
                    span,
                ),
                waiting ==> !first_is_due(
                    self.se_schedule.entries@,
                    frame_index as int,
                    span.start_ns,
                    span.end_ns,
                    span.sample_rate,
                ),
            decreases
                    self.se_schedule.entries@.len(),
                    (if waiting {
                        0int
                    } else {
                        1
                    }),
        {
            let due: bool = match self.se_schedule.front() {
                Some(first) => {
                    let target_ns: u64 = first.0;
                    if target_ns >= span.end_ns {
                        false
                    } else {
                        let offset: usize = if target_ns <= span.start_ns {
                            0
                        } else {
                            offset_within_buffer(target_ns, span.start_ns, span.sample_rate)
                        };
                        offset <= frame_index
                    }
                },
                None => false,
            };
            if !due {
                waiting = true;
            } else if let Some((_, se)) = self.se_schedule.pop_front() {
                let ghost before = self.reclaim.producer;
                let ghost refused = self.voices@.refused(se.sound);
                self.play_se(m, se, span.ramp_samples);
                proof {
                    lemma_given_back_joined(
                        old(self).reclaim.producer,
                        before,
                        self.reclaim.producer,
                        done,
                        refused,
                    );
                    let rest = refused_in(
                        m,
                        self.voices@,
                        self.se_schedule.entries@,
                        frame_index as int,
                        span,
                    );
                    assert(done + (refused + rest) =~= (done + refused) + rest);
                    done = done + refused;
                }
            }
        }
        assert(done + Seq::empty() =~= done);
    }

    /// Whether `after` is this mixer after the song has been rendered to `buf`, for a buffer from
    /// `start` to `end`.
    ///
    /// If the song is to start within the buffer, the part before that frame and the part from it
    /// on are rendered one after the other, and the voice is started in between.
    pub open spec fn music_rendered<M: SampleMath>(
        self,
        m: &M,
        start: u64,
        end: u64,
        after: Mixer<S>,
        buf: Seq<u32>,
        outcome: MusicRenderOutcome,
    ) -> bool {
        let voice = self.music_voice;
        let log = after.music_source.events().skip(self.music_source.events().len() as int);
        let asked = if voice.state == MusicState::Loading {
            1int
        } else {
            0
        };
        let state = if voice.state == MusicState::Loading && log[0] == SourceEvent::Ready(true) {
            MusicState::Ready
        } else {
            voice.state
        };
        &&& self.music_source.events().is_prefix_of(after.music_source.events())
        &&& log.len() >= asked
        &&& asked == 1 ==> log[0] is Ready
        &&& after == Mixer::<S> {
            music_voice: after.music_voice,
            music_source: after.music_source,
            music_schedule: self.music_schedule.after(end, state),
            ..self
        }
        &&& match self.music_schedule.due(start, end, self.sample_rate, state) {
            None => voice_rendered(m, voice, log.skip(asked), buf, outcome, after.music_voice),
            Some(frame) => rendered_around_start(
                m,
                voice,
                log.skip(asked),
                buf,
                if frame > buf.len() / 2 {
                    buf.len() as int
                } else {
                    2 * frame
                },
                outcome,
                after.music_voice,
            ),
        }
    }

    /// Renders the song, and starts it within the buffer if that is planned.
    pub fn render_music<M: SampleMath>(
        &mut self,
        m: &M,
        output: &mut [u32],
        start: u64,
        end: u64,
    ) -> (outcome: MusicRenderOutcome)
        requires
            math::is_pure(m),
        ensures
            final(output)@.len() == old(output)@.len(),
            outcome.underrun_frames <= outcome.rendered_frames <= old(output)@.len() / 2,
            old(self).music_rendered(m, start, end, *final(self), final(output)@, outcome),
    {
        let ghost past = self.music_source.events();
        let mut state: MusicState = self.music_voice.state();
        if state == MusicState::Loading {
            if self.music_source.is_ready() {
                state = MusicState::Ready;
            }
        }
        let ghost seen = self.music_source.events();
        let ghost asked = seen.len() - past.len();
        assert(past.is_prefix_of(seen));
        let offset: Option<usize> = self.music_schedule.take_due_offset(
            start,
            end,
            self.sample_rate,
            state,
        );
        match offset {
            None => {
                let outcome: MusicRenderOutcome = self.music_voice.render(
                    m,
                    output,
                    &mut self.music_source,
                );
                proof {
                    reveal(voice_rendered);
                    lemma_prefix_chain(past, seen, self.music_source.events());
                    if asked == 1 {
                        assert(self.music_source.events().skip(past.len() as int)[0] == seen[
                        past.len() as int]);
                    }
                }
                outcome
            },
            Some(frame) => {
                let len: usize = output.len();
                let split: usize = if frame > len / CHANNELS {
                    len
                } else {
                    frame * CHANNELS
                };
                let (head, tail) = output.split_at_mut(split);
                let one: MusicRenderOutcome = self.music_voice.render(
                    m,
                    head,
                    &mut self.music_source,
                );
                let ghost mid = self.music_voice;
                let ghost then = self.music_source.events();
                self.music_voice.play(m);
                let two: MusicRenderOutcome = self.music_voice.render(
                    m,
                    tail,
                    &mut self.music_source,
                );
                assert(one.rendered_frames + two.rendered_frames <= len / 2);
                let outcome: MusicRenderOutcome = one.merge(two);
                proof {
                    let now = self.music_source.events();
                    reveal(voice_rendered);
                    lemma_prefix_chain(past, seen, then);
                    lemma_prefix_chain(past, then, now);
                    lemma_prefix_chain(seen, then, now);
                    lemma_prefix_chain(past, seen, now);
                    if asked == 1 {
                        assert(now.skip(past.len() as int)[0] == seen[past.len() as int]);
                    }
                    assert(output@.take(split as int) =~= head@);
                    assert(output@.skip(split as int) =~= tail@);
                    assert(rendered_in_parts(
                        m,
                        old(self).music_voice,
                        now.skip(seen.len() as int),
                        output@,
                        split as int,
                        outcome,
                        self.music_voice,
                        then.len() - seen.len(),
                        mid,
                        one,
                        two,
                    ));
                }
                outcome
            },
        }
    }

    /// Takes note of missing frames of the song.
    pub fn report_underrun(&mut self, frames_this_callback: u32)
        requires
            old(self).wf(),
        ensures
            final(self).wf(),
            *final(self) == (Mixer::<S> {
                underrun_accumulator: final(self).underrun_accumulator,
                events: final(self).events,
                ..*old(self)
            }),
            (final(self).underrun_accumulator, final(self).events@) == underrun_reported(
                old(self).underrun_accumulator,
                old(self).underrun_report_threshold_frames,
                old(self).events@,
                frames_this_callback,
            ),
    {
        self.underrun_accumulator = self.underrun_accumulator.saturating_add(frames_this_callback);
        if self.underrun_accumulator == 0 {
            return;
        }
        let flush: bool = frames_this_callback == 0 || self.underrun_accumulator
            >= self.underrun_report_threshold_frames;
        if flush {
            self.events.push_realtime(Event::Underrun { frames: self.underrun_accumulator });
            self.underrun_accumulator = 0;
        }
    }

    /// The events after the end and the loop of the song have been reported.
    pub open spec fn music_events(self, outcome: MusicRenderOutcome) -> EventState {
        let ended = if outcome.ended {
            self.events@.pushed(Event::MusicEnded)
        } else {
            self.events@
        };
        if outcome.looped {
            ended.pushed(
                Event::MusicLooped { restart_frame: self.music_voice.loop_restart_frame },
            )
        } else {
            ended
        }
    }

    /// Whether `after` is this mixer after what happened to the song has been reported: a jump by a
    /// new generation of the clock, the end, a loop and missing frames by events.
    pub open spec fn music_reported(self, outcome: MusicRenderOutcome, after: Mixer<S>) -> bool {
        &&& after == Mixer::<S> {
            music_clock: after.music_clock,
            events: after.events,
            underrun_accumulator: after.underrun_accumulator,
            ..self
        }
        &&& after.music_clock.published() == if outcome.discontinuity {
            MusicClockSnapshot {
                generation: self.music_clock.published().generation.wrapping_add(1),
                ..self.music_clock.published()
            }
        } else {
            self.music_clock.published()
        }
        &&& (after.underrun_accumulator, after.events@) == underrun_reported(
            self.underrun_accumulator,
            self.underrun_report_threshold_frames,
            self.music_events(outcome),
            outcome.underrun_frames as u32,
        )
    }

    /// Reports what happened to the song.
    pub fn report_music(&mut self, outcome: MusicRenderOutcome)
        requires
            old(self).wf(),
        ensures
            final(self).wf(),
            old(self).music_reported(outcome, *final(self)),
    {
        if outcome.discontinuity {
            self.music_clock.bump_generation();
        }
        if outcome.ended {
            self.events.push_realtime(Event::MusicEnded);
        }
        if outcome.looped {
            self.events.push_realtime(
                Event::MusicLooped { restart_frame: self.music_voice.loop_restart_frame() },
            );
        }
        self.report_underrun(outcome.underrun_frames as u32);
    }

    /// Whether `after` is this mixer after a buffer of `frames` frames, in which the song gives
    /// `music`, has been mixed to `out`, with `parts` as the chunks of the background music.
    pub open spec fn mixed_with<M: SampleMath>(
        self,
        m: &M,
        span: MixSpan,
        music: Seq<u32>,
        out: Seq<u32>,
        parts: Seq<BgmPart>,
        after: Mixer<S>,
    ) -> bool {
        let frames = music.len() / 2;
        let s = self.mix_begun().after_frames(
            m,
            span,
            music,
            samples_in(parts, parts.len()),
            frames,
        );
        &&& parts.len() == chunk_count(frames)
        &&& parts_follow(m, self.bgm_voice, parts, frames)
        &&& after == Mixer::<S> {
            voices: after.voices,
            se_schedule: after.se_schedule,
            reclaim: after.reclaim,
            buses: after.buses,
            clipper: after.clipper,
            bgm_voice: after.bgm_voice,
            bgm_source: after.bgm_source,
            bgm_chunk: after.bgm_chunk,
            ..self
        }
        &&& after.bgm_voice == if parts.len() == 0 {
            self.bgm_voice
        } else {
            parts.last().after
        }
        &&& after.bgm_source.events() == self.bgm_source.events() + answers_in(parts, parts.len())
        &&& after.voices@ == s.pool
        &&& given_back(self.reclaim.producer, after.reclaim.producer, s.refused)
        &&& after.se_schedule.capacity == self.se_schedule.capacity
        &&& after.se_schedule.entries@ == s.entries
        &&& after.buses.buses@ == s.buses
        &&& after.clipper == SoftClipper { engaged_count: s.clipped, ..self.clipper }
        &&& out == s.out + music.skip(2 * frames as int)
    }

    /// Moves all buses on by one frame and returns their volumes.
    fn advance_buses<M: SampleMath>(&mut self, m: &M) -> (volumes: [u32; 4])
        requires
            math::is_pure(m),
        ensures
            *final(self) == (Mixer::<S> { buses: final(self).buses, ..*old(self) }),
            final(self).buses.buses@ == old(self).buses.buses@.map_values(
                |b: Bus| Bus { volume: b.volume.advanced(m) },
            ),
            volumes@ == bus_volumes(final(self).buses.buses@),
    {
        let a: u32 = self.buses.get_mut(BusId::Master).volume.advance(m);
        let b: u32 = self.buses.get_mut(BusId::Bgm).volume.advance(m);
        let c: u32 = self.buses.get_mut(BusId::Se).volume.advance(m);
        let d: u32 = self.buses.get_mut(BusId::Voice).volume.advance(m);
        let volumes: [u32; 4] = [a, b, c, d];
        assert(self.buses.buses@ =~= old(self).buses.buses@.map_values(
            |b: Bus| Bus { volume: b.volume.advanced(m) },
        ));
        assert(volumes@ =~= bus_volumes(self.buses.buses@));
        volumes
    }

    /// Renders the next chunk of the background music, of `n` frames.
    fn render_bgm_chunk<M: SampleMath>(&mut self, m: &M, n: usize) -> (outcome: MusicRenderOutcome)
        requires
            math::is_pure(m),
            n <= BGM_CHUNK_FRAMES,
            old(self).bgm_chunk@.len() == BGM_CHUNK_FRAMES * CHANNELS,
        ensures
            *final(self) == (Mixer::<S> {
                bgm_voice: final(self).bgm_voice,
                bgm_source: final(self).bgm_source,
                bgm_chunk: final(self).bgm_chunk,
                ..*old(self)
            }),
            final(self).bgm_chunk@.len() == BGM_CHUNK_FRAMES * CHANNELS,
            old(self).bgm_source.events().is_prefix_of(final(self).bgm_source.events()),
            voice_rendered(
                m,
                old(self).bgm_voice,
                final(self).bgm_source.events().skip(
                    old(self).bgm_source.events().len() as int,
                ),
                final(self).bgm_chunk@.take(2 * n),
                outcome,
                final(self).bgm_voice,
            ),
    {
        let (chunk, rest) = self.bgm_chunk.as_mut_slice().split_at_mut(n * CHANNELS);
        let outcome: MusicRenderOutcome = self.bgm_voice.render(m, chunk, &mut self.bgm_source);
        reveal(voice_rendered);
        assert(self.bgm_chunk@.take(2 * n) =~= chunk@);
        outcome
    }

    /// Mixes the frame `i` of a buffer, in which the song gives `music` and the background music
    /// `bgm`.
    pub fn mix_frame<M: SampleMath>(
        &mut self,
        m: &M,
        i: usize,
        music: (u32, u32),
        bgm: (u32, u32),
        span: MixSpan,
    ) -> (frame: (u32, u32))
        requires
            math::is_pure(m),
            old(self).se_schedule.wf(),
            span.threshold == old(self).clipper.threshold,
        ensures
            final(self).se_schedule.wf(),
            final(self).se_schedule.capacity == old(self).se_schedule.capacity,
            *final(self) == (Mixer::<S> {
                voices: final(self).voices,
                se_schedule: final(self).se_schedule,
                reclaim: final(self).reclaim,
                buses: final(self).buses,
                clipper: final(self).clipper,
                ..*old(self)
            }),
            final(self).clipper.threshold == old(self).clipper.threshold,
            ({
                let s = old(self).mix_begun().after_frame(m, span, i as int, music, bgm);
                &&& final(self).voices@ == s.pool
                &&& given_back(
                    old(self).reclaim.producer,
                    final(self).reclaim.producer,
                    s.refused,
                )
                &&& final(self).se_schedule.entries@ == s.entries
                &&& final(self).buses.buses@ == s.buses
                &&& final(self).clipper.engaged_count == s.clipped
                &&& s.out == seq![frame.0, frame.1]
            }),
    {
        self.fire_due_se(m, i, span);
        let volumes: [u32; 4] = self.advance_buses(m);
        let (se_l, se_r) = self.voices.mix_frame(m, &volumes);
        let bgm_gain: u32 = volumes[BusId::Bgm.index()];
        let master: u32 = volumes[BusId::Master.index()];
        let songs_l: u32 = m.plus(music.0, bgm.0);
        let songs_r: u32 = m.plus(music.1, bgm.1);
        let heard_l: u32 = m.times(songs_l, bgm_gain);
        let heard_r: u32 = m.times(songs_r, bgm_gain);
        let all_l: u32 = m.plus(se_l, heard_l);
        let all_r: u32 = m.plus(se_r, heard_r);
        let l: u32 = m.times(all_l, master);
        let r: u32 = m.times(all_r, master);
        let frame: (u32, u32) = self.clipper.process_stereo(m, l, r);
        reveal(MixState::after_frame);
        assert(old(self).mix_begun().after_frame(m, span, i as int, music, bgm).out =~= seq![
            frame.0,
            frame.1,
        ]);
        assert(old(self).mix_begun().after_frame(m, span, i as int, music, bgm).refused
            =~= refused_in(
            m,
            old(self).voices@,
            old(self).se_schedule.entries@,
            i as int,
            span,
        ));
        frame
    }

    /// Mixes a buffer that holds the song with everything else.
    pub fn mix_frames<M: SampleMath>(&mut self, m: &M, output: &mut [u32], span: MixSpan)
        requires
            math::is_pure(m),
            old(self).wf(),
            span.threshold == old(self).clipper.threshold,
        ensures
            final(self).wf(),
            final(output)@.len() == old(output)@.len(),
            exists|parts: Seq<BgmPart>|
                old(self).mixed_with(
                    m,
                    span,
                    old(output)@,
                    final(output)@,
                    parts,
                    *final(self),
                ),
    {
        let ghost music = output@;
        let frames: usize = output.len() / CHANNELS;
        let ghost begun = self.mix_begun();
        let ghost mut parts: Seq<BgmPart> = Seq::empty();
        let ghost mut s = begun;
        let mut i: usize = 0;
        proof {
            lemma_nothing_given_back(self.reclaim.producer);
        }
        assert(output@ =~= s.out + music.skip(0));
        assert(self.bgm_source.events() =~= self.bgm_source.events() + answers_in(parts, 0));
        while i < frames
            invariant
                math::is_pure(m),
                self.wf(),
                i <= frames,
                music == old(output)@,
                music.len() <= usize::MAX,
                frames == music.len() / 2,
                output@.len() == music.len(),
                span.threshold == self.clipper.threshold,
                begun == old(self).mix_begun(),
                self.se_schedule.capacity == old(self).se_schedule.capacity,
                *self == (Mixer::<S> {
                    voices: self.voices,
                    se_schedule: self.se_schedule,
                    reclaim: self.reclaim,
                    buses: self.buses,
                    clipper: self.clipper,
                    bgm_voice: self.bgm_voice,
                    bgm_source: self.bgm_source,
                    bgm_chunk: self.bgm_chunk,
                    ..*old(self)
                }),
                self.clipper.threshold == old(self).clipper.threshold,
                s == begun.after_frames(
                    m,
                    span,
                    music,
                    samples_in(parts, parts.len()),
                    i as nat,
                ),
                s == (MixState { refused: s.refused, out: s.out, ..self.mix_begun() }),
                given_back(old(self).reclaim.producer, self.reclaim.producer, s.refused),
                s.out.len() == 2 * i,
                output@ == s.out + music.skip(2 * i as int),
                parts.len() == chunk_count(i as nat),
                parts_follow(m, old(self).bgm_voice, parts, frames as nat),
                self.bgm_voice == if parts.len() == 0 {
                    old(self).bgm_voice
                } else {
                    parts.last().after
                },
                self.bgm_source.events() == old(self).bgm_source.events() + answers_in(
                    parts,
                    parts.len(),
                ),
                i % 256 != 0 ==> parts.last().buf == self.bgm_chunk@.take(
                    parts.last().buf.len() as int,
                ),
            decreases frames - i,
        {
            if i % BGM_CHUNK_FRAMES == 0 {
                let left: usize = frames - i;
                let n: usize = if left < BGM_CHUNK_FRAMES {
                    left
                } else {
                    BGM_CHUNK_FRAMES
                };
                let ghost past = self.bgm_source.events();
                let ghost before = self.bgm_voice;
                let outcome: MusicRenderOutcome = self.render_bgm_chunk(m, n);
                proof {
                    let part = BgmPart {
                        before,
                        after: self.bgm_voice,
                        log: self.bgm_source.events().skip(past.len() as int),
                        buf: self.bgm_chunk@.take(2 * n),
                        outcome,
                    };
                    lemma_part_added(
                        m,
                        old(self).bgm_voice,
                        parts,
                        part,
                        frames as nat,
                        i as nat,
                    );
                    lemma_bgm_prefix(
                        begun,
                        m,
                        span,
                        music,
                        samples_in(parts, parts.len()),
                        samples_in(parts.push(part), parts.len() + 1),
                        i as nat,
                    );
                    parts = parts.push(part);
                    assert(self.bgm_source.events() =~= past + part.log);
                    assert(self.bgm_source.events() =~= old(self).bgm_source.events() + answers_in(
                        parts,
                        parts.len(),
                    ));
                }
            }
            let base: usize = i * CHANNELS;
            let local: usize = (i % BGM_CHUNK_FRAMES) * CHANNELS;
            assert(parts.len() == chunk_count(i as nat + 1));
            assert(parts.last().buf == self.bgm_chunk@.take(parts.last().buf.len() as int));
            proof {
                lemma_sample_of_chunk(m, old(self).bgm_voice, parts, frames as nat, i as nat);
            }
            let from_music: (u32, u32) = (output[base], output[base + 1]);
            let from_bgm: (u32, u32) = (self.bgm_chunk[local], self.bgm_chunk[local + 1]);
            let ghost bgm = samples_in(parts, parts.len());
            let ghost last = parts.last().buf;
            assert(last[local as int] == self.bgm_chunk@[local as int]);
            assert(last[local + 1] == self.bgm_chunk@[local + 1]);
            assert(from_bgm == (bgm[2 * i as int], bgm[2 * i + 1]));
            let ghost reclaim = self.reclaim.producer;
            let ghost alone = self.mix_begun().after_frame(
                m,
                span,
                i as int,
                from_music,
                from_bgm,
            );
            let (l, r) = self.mix_frame(m, i, from_music, from_bgm, span);
            output[base] = l;
            output[base + 1] = r;
            proof {
                lemma_frame_added(s, m, span, i as int, from_music, from_bgm);
                lemma_given_back_joined(
                    old(self).reclaim.producer,
                    reclaim,
                    self.reclaim.producer,
                    s.refused,
                    alone.refused,
                );
                s = s.after_frame(m, span, i as int, from_music, from_bgm);
                assert(output@ =~= s.out + music.skip(2 * (i + 1)));
            }
            i = i + 1;
        }
        assert(output@ =~= s.out + music.skip(2 * frames as int));
        assert(old(self).mixed_with(m, span, music, output@, parts, *self));
    }
}

/// The mixer between the steps of a call of [`Mixer::render`].
pub struct RenderSteps<S: MusicFrameSource> {
    /// After the commands.
    pub drained: Mixer<S>,
    /// After the song has been rendered.
    pub sung: Mixer<S>,
    /// What the song gives.
    pub music: Seq<u32>,
    /// What happened to the song.
    pub outcome: MusicRenderOutcome,
    /// After that has been reported.
    pub reported: Mixer<S>,
    /// After the buffer has been mixed.
    pub mixed: Mixer<S>,
}

/// When a buffer of `frames` frames from `start` on ends.
pub open spec fn buffer_end(start: u64, frames: nat, sample_rate: u32) -> u64 {
    let duration = schedule::duration_of(frames, sample_rate as nat) as int
        % 0x1_0000_0000_0000_0000;
    if start + duration > u64::MAX {
        u64::MAX
    } else {
        (start + duration) as u64
    }
}

impl<S: MusicFrameSource> Mixer<S> {
    /// Whether `after` is this mixer at the end of a buffer that ends at `end`: clipping since
    /// `clipped_before` is reported, voices that are done are made idle and their sounds given
    /// back, and the song clock and the state of the background music are published.
    pub open spec fn finished(self, clipped_before: u64, end: u64, after: Mixer<S>) -> bool {
        &&& after == Mixer::<S> {
            events: after.events,
            voices: after.voices,
            reclaim: after.reclaim,
            freed_sounds: after.freed_sounds,
            music_clock: after.music_clock,
            bgm_state: after.bgm_state,
            ..self
        }
        &&& after.events@ == if self.report_clipping && self.clipper.engaged_count
            != clipped_before {
            self.events@.pushed(Event::ClipperEngaged)
        } else {
            self.events@
        }
        &&& after.voices@ == self.voices@.reaped()
        &&& given_back(
            self.reclaim.producer,
            after.reclaim.producer,
            self.voices@.reclaimed(),
        )
        &&& after.music_clock.published() == (MusicClockSnapshot {
            song_frames: self.music_voice.position_frames,
            host_time_ns: end,
            sample_rate: self.sample_rate,
            state: self.music_voice.state,
            is_playing: self.music_voice.state == MusicState::Playing,
            generation: self.music_clock.published().generation,
        })
        &&& after.bgm_state.published() == self.bgm_voice.state
    }

    /// Finishes a buffer.
    pub fn finish_buffer(&mut self, clipped_before: u64, end: u64)
        requires
            old(self).wf(),
        ensures
            final(self).wf(),
            old(self).finished(clipped_before, end, *final(self)),
    {
        if self.report_clipping && self.clipper.engaged_count() != clipped_before {
            self.events.push_realtime(Event::ClipperEngaged);
        }
        self.voices.reap(&mut self.freed_sounds);
        assert(self.freed_sounds@ =~= old(self).voices@.reclaimed());
        self.reclaim.send_or_leak_all(&mut self.freed_sounds);
        self.music_clock.publish(
            self.music_voice.position_frames(),
            end,
            self.sample_rate,
            self.music_voice.state(),
        );
        self.bgm_state.write(self.bgm_voice.state());
    }

    /// Whether a buffer from `start` on was rendered to `out` and left `after`, with `steps` in
    /// between.
    pub open spec fn rendered_through<M: SampleMath>(
        self,
        m: &M,
        start: u64,
        out: Seq<u32>,
        after: Mixer<S>,
        steps: RenderSteps<S>,
    ) -> bool {
        let rate = steps.drained.sample_rate;
        let end = buffer_end(start, out.len() / 2, rate);
        let span = MixSpan {
            start_ns: start,
            end_ns: end,
            sample_rate: rate,
            ramp_samples: steps.drained.default_ramp(m),
            threshold: steps.drained.clipper.threshold,
        };
        &&& exists|chain: Seq<Mixer<S>>| self.drained_through(m, steps.drained, chain)
        &&& self.drained_all(steps.drained)
        &&& steps.drained.music_rendered(m, start, end, steps.sung, steps.music, steps.outcome)
        &&& steps.sung.music_reported(steps.outcome, steps.reported)
        &&& steps.music.len() == out.len()
        &&& exists|parts: Seq<BgmPart>|
            steps.reported.mixed_with(m, span, steps.music, out, parts, steps.mixed)
        &&& steps.mixed.finished(steps.reported.clipper.engaged_count, end, after)
    }

    /// Renders one buffer of interleaved frames, the first of which is heard at
    /// `buffer_start_host_time_ns`: carries out the commands that have arrived, renders the song,
    /// mixes the sound effects and the background music in, and reports to the game thread.
    pub fn render<M: SampleMath>(
        &mut self,
        m: &M,
        output: &mut [u32],
        buffer_start_host_time_ns: u64,
    )
        requires
            math::is_pure(m),
            old(self).wf(),
        ensures
            final(self).wf(),
            final(output)@.len() == old(output)@.len(),
            exists|steps: RenderSteps<S>|
                old(self).rendered_through(
                    m,
                    buffer_start_host_time_ns,
                    final(output)@,
                    *final(self),
                    steps,
                ),
    {
        self.drain_commands(m);
        let ghost drained = *self;
        let frames: usize = output.len() / CHANNELS;
        let ramp_samples: u32 = self.default_ramp_samples(m);
        let duration_ns: u64 = buffer_duration_ns(frames, self.sample_rate);
        let end: u64 = buffer_start_host_time_ns.saturating_add(duration_ns);
        let span: MixSpan = MixSpan {
            start_ns: buffer_start_host_time_ns,
            end_ns: end,
            sample_rate: self.sample_rate,
            ramp_samples,
            threshold: self.clipper.threshold,
        };
        let outcome: MusicRenderOutcome = self.render_music(
            m,
            output,
            buffer_start_host_time_ns,
            end,
        );
        let ghost sung = *self;
        let ghost music = output@;
        self.report_music(outcome);
        let ghost reported = *self;
        let clipped_before: u64 = self.clipper.engaged_count();
        self.mix_frames(m, output, span);
        let ghost mixed = *self;
        self.finish_buffer(clipped_before, end);
        proof {
            let steps = RenderSteps { drained, sung, music, outcome, reported, mixed };
            assert(end == buffer_end(
                buffer_start_host_time_ns,
                output@.len() / 2,
                drained.sample_rate,
            ));
            let parts = choose|parts: Seq<BgmPart>|
                reported.mixed_with(m, span, music, output@, parts, mixed);
            assert(steps.reported.mixed_with(m, span, steps.music, output@, parts, steps.mixed));
            assert(old(self).rendered_through(
                m,
                buffer_start_host_time_ns,
                output@,
                *self,
                steps,
            ));
        }
    }

    /// How many samples have been clipped.
    pub fn clipper_engaged_count(&self) -> (n: u64)
        ensures
            n == self.clipper.engaged_count,
    {
        self.clipper.engaged_count()
    }

    /// What the song is doing.
    pub fn music_state(&self) -> (state: MusicState)
        ensures
            state == self.music_voice.state,
    {
        self.music_voice.state()
    }

    /// What the background music is doing.
    pub fn bgm_state(&self) -> (state: MusicState)
        ensures
            state == self.bgm_voice.state,
    {
        self.bgm_voice.state()
    }

    /// The loop of the background music.
    pub fn bgm_loop_region(&self) -> (region: Option<(u64, u64)>)
        ensures
            region == self.bgm_voice.loop_region,
    {
        self.bgm_voice.loop_region()
    }

    /// Whether the time to start the song has come while it was still being loaded.
    pub fn music_schedule_deferred(&self) -> (yes: bool)
        ensures
            yes == self.music_schedule.deferred,
    {
        self.music_schedule.deferred
    }

    /// How many sound effects did not fit on the schedule.
    pub fn se_schedule_overflow_count(&self) -> (n: u64)
        ensures
            n == self.se_schedule_overflow_count,
    {
        self.se_schedule_overflow_count
    }

    /// How many sound effects are scheduled.
    pub fn se_schedule_len(&self) -> (n: usize)
        ensures
            n == self.se_schedule.entries@.len(),
    {
        self.se_schedule.len()
    }

    /// Frames per second.
    pub fn sample_rate(&self) -> (rate: u32)
        ensures
            rate == self.sample_rate,
    {
        self.sample_rate
    }

    /// This mixer at another rate of the device.
    pub open spec fn at_rate(self, sample_rate: u32) -> Mixer<S> {
        Mixer::<S> {
            sample_rate,
            music_voice: MusicVoice { sample_rate, ..self.music_voice },
            bgm_voice: MusicVoice { sample_rate, ..self.bgm_voice },
            ..self
        }
    }

    /// Follows a change of the device's sample rate.
    pub fn set_sample_rate(&mut self, sample_rate: u32)
        ensures
            *final(self) == old(self).at_rate(sample_rate),
            *final(self) == (Mixer::<S> {
                sample_rate,
                music_voice: MusicVoice { sample_rate, ..old(self).music_voice },
                bgm_voice: MusicVoice { sample_rate, ..old(self).bgm_voice },
                ..*old(self)
            }),
    {
        self.sample_rate = sample_rate;
        self.music_voice.set_sample_rate(sample_rate);
        self.bgm_voice.set_sample_rate(sample_rate);
    }

    /// How many sound effects are heard, those that fade out after stealing left aside.
    pub fn active_voice_count(&self) -> (n: usize)
        ensures
            n == voice::active_count(self.voices@.primary, self.voices@.primary.len()),
    {
        self.voices.active_primary_count()
    }
}

/// What the game thread needs for the background music.
pub struct BgmHandles {
    /// The writing side of its stream.
    pub stream_producer: MusicStreamProducer,
}

/// Whether the queues of this configuration fit into memory.
pub open spec fn queues_fit(config: Config) -> bool {
    &&& config.command_queue_capacity <= usize::MAX / 256
    &&& config.reclaim_queue_capacity <= usize::MAX / 256
}

/// Whether `mixer` is new: nothing plays, nothing is scheduled, every volume is at unity, and
/// nothing has been published.
pub open spec fn is_new<S: MusicFrameSource>(
    mixer: Mixer<S>,
    config: Config,
    sample_rate: u32,
    report_clipping: bool,
) -> bool {
    &&& mixer.wf()
    &&& forall|id: BusId| #[trigger]
        mixer.buses.bus(id) == (Bus { volume: Ramp::resting_at(UNITY) })
    &&& mixer.voices@ == Pool::idle(
        config.max_voices as nat,
        config.steal_tail_capacity as nat,
    )
    &&& mixer.clipper == (SoftClipper { threshold: config.clipper_threshold, engaged_count: 0 })
    &&& mixer.sample_rate == sample_rate
    &&& mixer.default_ramp_ms == config.default_ramp_ms
    &&& mixer.music_voice == MusicVoice::loading(sample_rate)
    &&& mixer.bgm_voice == MusicVoice::loading(sample_rate)
    &&& mixer.music_schedule == (MusicSchedule { pending_host_time_ns: None, deferred: false })
    &&& mixer.bgm_state.published() == MusicState::Loading
    &&& mixer.se_schedule.entries@.len() == 0
    &&& mixer.se_schedule.capacity == config.schedule_queue_capacity
    &&& mixer.se_schedule_overflow_count == 0
    &&& mixer.music_clock.published() == MusicClockSnapshot::blank()
    &&& mixer.events.pending() == Seq::<Event>::empty()
    &&& mixer.events.read_index == 0
    &&& mixer.events.write_index == 0
    &&& mixer.events.side_channel@ == Seq::<Event>::empty()
    &&& mixer.events.side_channel_dropped == 0
    &&& mixer.events.capacity == if config.event_queue_capacity == 0 {
        1
    } else {
        config.event_queue_capacity
    }
    &&& mixer.underrun_accumulator == 0
    &&& mixer.underrun_report_threshold_frames == config.underrun_report_threshold_frames
    &&& mixer.report_clipping == report_clipping
}

/// Builds a mixer on two sources, with the game thread's ends of its queues. Clipping is reported
/// if `report_clipping` says so, which is meant for development.
pub fn assemble<S: MusicFrameSource>(
    config: Config,
    sample_rate: u32,
    music_source: S,
    bgm_source: S,
    report_clipping: bool,
) -> (parts: (Mixer<S>, CommandSender, ReclaimReceiver))
    requires
        queues_fit(config),
    ensures
        is_new(parts.0, config, sample_rate, report_clipping),
        parts.0.music_source == music_source,
        parts.0.bgm_source == bgm_source,
        ring::command_line_in(parts.1.producer) == ring::command_line_out(
            parts.0.command_consumer,
        ),
        ring::commands_put(parts.1.producer) == 0,
        ring::command_room(parts.1.producer) == config.command_queue_capacity,
        ring::commands_taken(parts.0.command_consumer) == 0,
        ring::sound_line_in(parts.0.reclaim.producer) == ring::sound_line_out(parts.2.consumer),
        ring::sounds_put(parts.0.reclaim.producer) == 0,
        ring::sound_room(parts.0.reclaim.producer) == config.reclaim_queue_capacity,
        ring::sounds_taken(parts.2.consumer) == 0,
{
    let (command_producer, command_consumer) = new_command_ring(config.command_queue_capacity);
    let (reclaim_producer, reclaim_consumer) = new_sound_ring(config.reclaim_queue_capacity);
    let mixer: Mixer<S> = Mixer {
        buses: BusSet::new(),
        voices: VoicePool::new(config.max_voices, config.steal_tail_capacity),
        clipper: SoftClipper::new(config.clipper_threshold),
        command_consumer,
        reclaim: ReclaimSender { producer: reclaim_producer },
        sample_rate,
        default_ramp_ms: config.default_ramp_ms,
        music_voice: MusicVoice::new(sample_rate),
        music_source,
        music_schedule: MusicSchedule::new(),
        bgm_voice: MusicVoice::new(sample_rate),
        bgm_source,
        bgm_state: BgmStatePublisher::new(),
        se_schedule: ScheduleQueue::with_capacity(config.schedule_queue_capacity),
        se_schedule_overflow_count: 0,
        music_clock: MusicClockPublisher::new(),
        events: EventQueue::new(config.event_queue_capacity),
        underrun_accumulator: 0,
        underrun_report_threshold_frames: config.underrun_report_threshold_frames,
        report_clipping,
        freed_sounds: Vec::with_capacity(
            config.max_voices.saturating_add(config.steal_tail_capacity),
        ),
        called_off: Vec::with_capacity(config.schedule_queue_capacity),
        bgm_chunk: vec![SILENCE; BGM_CHUNK_FRAMES * CHANNELS],
    };
    (
        mixer,
        CommandSender { producer: command_producer },
        ReclaimReceiver { consumer: reclaim_consumer },
    )
}

/// Builds a mixer on two streams, with the game thread's ends of its queues and the writing sides
/// of the streams. Clipping is reported if `report_clipping` says so, which is meant for
/// development.
pub fn build<M: SampleMath>(m: &M, config: Config, sample_rate: u32, report_clipping: bool) -> (
parts: (
    Mixer<StreamingMusicSource>,
    CommandSender,
    ReclaimReceiver,
    MusicStreamProducer,
    BgmHandles,
))
    requires
        math::is_pure(m),
        queues_fit(config),
        stream::ring_size(ramp::samples_in_ms(m, config.preroll_ms, sample_rate)) <= usize::MAX
            / 16,
    ensures
        is_new(parts.0, config, sample_rate, report_clipping),
        ring::command_line_in(parts.1.producer) == ring::command_line_out(
            parts.0.command_consumer,
        ),
        ring::commands_put(parts.1.producer) == 0,
        ring::command_room(parts.1.producer) == config.command_queue_capacity,
        ring::commands_taken(parts.0.command_consumer) == 0,
        ring::sound_line_in(parts.0.reclaim.producer) == ring::sound_line_out(parts.2.consumer),
        ring::sounds_put(parts.0.reclaim.producer) == 0,
        ring::sound_room(parts.0.reclaim.producer) == config.reclaim_queue_capacity,
        ring::sounds_taken(parts.2.consumer) == 0,
        stream::is_new_stream(
            parts.3,
            parts.0.music_source,
            ramp::samples_in_ms(m, config.preroll_ms, sample_rate),
        ),
        stream::is_new_stream(
            parts.4.stream_producer,
            parts.0.bgm_source,
            ramp::samples_in_ms(m, config.preroll_ms, sample_rate),
        ),
{
    let (music_producer, music_source) = stream::channel(m, config, sample_rate);
    let (bgm_producer, bgm_source) = stream::channel(m, config, sample_rate);
    let (mixer, sender, receiver) = assemble(
        config,
        sample_rate,
        music_source,
        bgm_source,
        report_clipping,
    );
    (mixer, sender, receiver, music_producer, BgmHandles { stream_producer: bgm_producer })
}

proof fn lemma_frame_added<M: SampleMath>(
    s: MixState,
    m: &M,
    span: MixSpan,
    i: int,
    music: (u32, u32),
    bgm: (u32, u32),
)
    ensures
        ({
            let alone = MixState { refused: Seq::empty(), out: Seq::empty(), ..s };
            s.after_frame(m, span, i, music, bgm) == MixState {
                refused: s.refused + alone.after_frame(m, span, i, music, bgm).refused,
                out: s.out + alone.after_frame(m, span, i, music, bgm).out,
                ..alone.after_frame(m, span, i, music, bgm)
            }
        }),
{
    reveal(MixState::after_frame);
    let alone = MixState { refused: Seq::empty(), out: Seq::empty(), ..s };
    assert(s.after_frame(m, span, i, music, bgm).refused =~= s.refused + alone.after_frame(
        m,
        span,
        i,
        music,
        bgm,
    ).refused);
    assert(s.after_frame(m, span, i, music, bgm).out =~= s.out + alone.after_frame(
        m,
        span,
        i,
        music,
        bgm,
    ).out);
}

proof fn lemma_parts_prefix(parts: Seq<BgmPart>, part: BgmPart, n: nat)
    requires
        n <= parts.len(),
    ensures
        samples_in(parts.push(part), n) == samples_in(parts, n),
        answers_in(parts.push(part), n) == answers_in(parts, n),
    decreases n,
{
    if n > 0 {
        lemma_parts_prefix(parts, part, (n - 1) as nat);
    }
}

proof fn lemma_parts_length<M: SampleMath>(
    m: &M,
    first: MusicVoice,
    parts: Seq<BgmPart>,
    frames: nat,
    n: nat,
)
    requires
        parts_follow(m, first, parts, frames),
        n <= parts.len(),
        n > 0 ==> (n - 1) * BGM_CHUNK_FRAMES < frames,
    ensures
        samples_in(parts, n).len() == 2 * if n * BGM_CHUNK_FRAMES < frames {
            n * BGM_CHUNK_FRAMES
        } else {
            frames as int
        },
    decreases n,
{
    if n > 0 {
        lemma_parts_length(m, first, parts, frames, (n - 1) as nat);
        assert(part_follows(m, first, parts, frames, n - 1));
    }
}

proof fn lemma_part_added<M: SampleMath>(
    m: &M,
    first: MusicVoice,
    parts: Seq<BgmPart>,
    part: BgmPart,
    frames: nat,
    i: nat,
)
    requires
        parts_follow(m, first, parts, frames),
        parts.len() == chunk_count(i),
        i % 256 == 0,
        i < frames,
        part.before == if parts.len() == 0 {
            first
        } else {
            parts.last().after
        },
        part.buf.len() == 2 * if frames - i < BGM_CHUNK_FRAMES {
            frames - i
        } else {
            BGM_CHUNK_FRAMES as int
        },
        voice_rendered(m, part.before, part.log, part.buf, part.outcome, part.after),
    ensures
        parts_follow(m, first, parts.push(part), frames),
        parts.len() + 1 == chunk_count(i + 1),
        samples_in(parts.push(part), parts.len() + 1) == samples_in(parts, parts.len()) + part.buf,
        answers_in(parts.push(part), parts.len() + 1) == answers_in(parts, parts.len()) + part.log,
        samples_in(parts, parts.len()).len() == 2 * i,
{
    lemma_parts_prefix(parts, part, parts.len());
    lemma_parts_length(m, first, parts, frames, parts.len());
    let longer = parts.push(part);
    assert forall|k: int| 0 <= k < longer.len() implies #[trigger] part_follows(
        m,
        first,
        longer,
        frames,
        k,
    ) by {
        if k < parts.len() {
            assert(part_follows(m, first, parts, frames, k));
        }
    }
}

proof fn lemma_sample_of_chunk<M: SampleMath>(
    m: &M,
    first: MusicVoice,
    parts: Seq<BgmPart>,
    frames: nat,
    i: nat,
)
    requires
        parts_follow(m, first, parts, frames),
        parts.len() == chunk_count(i + 1),
        i < frames,
    ensures
        ({
            let all = samples_in(parts, parts.len());
            let local = i % 256;
            &&& parts.len() > 0
            &&& 2 * local + 2 <= parts.last().buf.len() <= BGM_CHUNK_FRAMES * CHANNELS
            &&& all[2 * i as int] == parts.last().buf[2 * local as int]
            &&& all[2 * i as int + 1] == parts.last().buf[2 * local as int + 1]
        }),
{
    let n = (parts.len() - 1) as nat;
    assert(n * 256 + i % 256 == i);
    lemma_parts_length(m, first, parts, frames, n);
    assert(part_follows(m, first, parts, frames, n as int));
    assert(samples_in(parts, parts.len()) == samples_in(parts, n) + parts[n as int].buf);
}

/// What is overdue happens in the first frame of the buffer, and what is due later happens no
/// earlier than what is due before.
pub proof fn law_due_frames_are_in_order(a: u64, b: u64, span: MixSpan)
    requires
        a <= b < span.end_ns,
        schedule::frames_in(
            schedule::elapsed(span.end_ns, span.start_ns),
            span.sample_rate as nat,
        ) <= usize::MAX,
    ensures
        a <= span.start_ns ==> due_frame(a, span.start_ns, span.sample_rate) == 0,
        0 <= due_frame(a, span.start_ns, span.sample_rate) <= due_frame(
            b,
            span.start_ns,
            span.sample_rate,
        ),
{
    let rate = span.sample_rate as nat;
    let (x, y, z) = (
        schedule::elapsed(a, span.start_ns),
        schedule::elapsed(b, span.start_ns),
        schedule::elapsed(span.end_ns, span.start_ns),
    );
    schedule::law_offsets_are_monotonic(x, y, rate);
    schedule::law_offsets_are_monotonic(y, z, rate);
    let limit = (usize::MAX + 1) as nat;
    vstd::arithmetic::div_mod::lemma_small_mod(schedule::frames_in(x, rate), limit);
    vstd::arithmetic::div_mod::lemma_small_mod(schedule::frames_in(y, rate), limit);
}

/// The effects at the front of `entries` that are started in the frame `frame_index`.
pub open spec fn started_in(
    entries: Seq<(u64, ScheduledSe)>,
    frame_index: int,
    span: MixSpan,
) -> nat
    decreases entries.len(),
{
    if first_is_due(entries, frame_index, span.start_ns, span.end_ns, span.sample_rate) {
        1 + started_in(entries.skip(1), frame_index, span)
    } else {
        0
    }
}

proof fn lemma_fired<M: SampleMath>(
    m: &M,
    pool: Pool,
    entries: Seq<(u64, ScheduledSe)>,
    frame_index: int,
    span: MixSpan,
)
    ensures
        ({
            let k = started_in(entries, frame_index, span) as int;
            let rest = fired(m, pool, entries, frame_index, span).1;
            &&& k <= entries.len()
            &&& rest == entries.skip(k)
            &&& forall|j: int|
                0 <= j < k ==> (#[trigger] entries[j]).0 < span.end_ns && due_frame(
                    entries[j].0,
                    span.start_ns,
                    span.sample_rate,
                ) <= frame_index
            &&& !first_is_due(
                rest,
                frame_index,
                span.start_ns,
                span.end_ns,
                span.sample_rate,
            )
        }),
    decreases entries.len(),
{
    if first_is_due(entries, frame_index, span.start_ns, span.end_ns, span.sample_rate) {
        let next = pool.playing(m, request_of(entries[0].1), span.ramp_samples);
        lemma_fired(m, next, entries.skip(1), frame_index, span);
        let k = started_in(entries, frame_index, span) as int;
        assert(entries.skip(1).skip(k - 1) =~= entries.skip(k));
        assert forall|j: int| 0 <= j < k implies (#[trigger] entries[j]).0 < span.end_ns
            && due_frame(entries[j].0, span.start_ns, span.sample_rate) <= frame_index by {
            if j > 0 {
                assert(entries[j] == entries.skip(1)[j - 1]);
            }
        }
    } else {
        assert(entries.skip(0) =~= entries);
    }
}

/// A scheduled effect starts exactly in the frame it belongs to. When the effects that are due
/// before the frame `frame_index` have been started, those that are started in it are due in it;
/// and of those that then still wait none is due in it or before.
pub proof fn law_effects_start_on_their_frame<M: SampleMath>(
    m: &M,
    pool: Pool,
    entries: Seq<(u64, ScheduledSe)>,
    frame_index: int,
    span: MixSpan,
)
    requires
        schedule::in_order(entries),
        !first_is_due(
            entries,
            frame_index - 1,
            span.start_ns,
            span.end_ns,
            span.sample_rate,
        ),
        schedule::frames_in(
            schedule::elapsed(span.end_ns, span.start_ns),
            span.sample_rate as nat,
        ) <= usize::MAX,
    ensures
        ({
            let k = started_in(entries, frame_index, span) as int;
            &&& fired(m, pool, entries, frame_index, span).1 == entries.skip(k)
            &&& forall|j: int|
                0 <= j < k ==> due_frame(
                    (#[trigger] entries[j]).0,
                    span.start_ns,
                    span.sample_rate,
                ) == frame_index
            &&& forall|j: int|
                k <= j < entries.len() && (#[trigger] entries[j]).0 < span.end_ns ==> due_frame(
                    entries[j].0,
                    span.start_ns,
                    span.sample_rate,
                ) > frame_index
        }),
{
    lemma_fired(m, pool, entries, frame_index, span);
    let k = started_in(entries, frame_index, span) as int;
    assert forall|j: int| 0 <= j < k implies due_frame(
        (#[trigger] entries[j]).0,
        span.start_ns,
        span.sample_rate,
    ) == frame_index by {
        law_due_frames_are_in_order(entries[0].0, entries[j].0, span);
    }
    assert forall|j: int|
        k <= j < entries.len() && (#[trigger] entries[j]).0 < span.end_ns implies due_frame(
        entries[j].0,
        span.start_ns,
        span.sample_rate,
    ) > frame_index by {
        assert(entries.skip(k)[0] == entries[k]);
        assert(entries[k].0 <= entries[j].0);
        law_due_frames_are_in_order(entries[k].0, entries[j].0, span);
    }
}

/// Missing frames are reported once: what has been gathered and what is missing now is either
/// still gathered, or reported in one event that leaves nothing gathered. Without missing frames
/// nothing is reported.
pub proof fn law_missing_frames_are_reported_once(
    accumulator: u32,
    threshold: u32,
    events: EventState,
    frames: u32,
)
    requires
        accumulator + frames <= u32::MAX,
    ensures
        ({
            let (left, after) = underrun_reported(accumulator, threshold, events, frames);
            let all = (accumulator + frames) as u32;
            ||| left == all && after == events && (frames > 0 || all == 0)
            ||| left == 0 && all > 0 && after == events.pushed(Event::Underrun { frames: all })
        }),
{
}

/// Commands are carried out in the order in which they are sent: the command that the mixer takes
/// as number `n` is the one that was sent as number `n`. `before_send` and `after_send` are the
/// writing end around a call that has sent `command`, and the mixer has gone from `before` to
/// `after` by carrying out one command.
pub proof fn law_commands_are_carried_out_in_order<S: MusicFrameSource, M: SampleMath>(
    m: &M,
    before_send: rtrb::Producer<Command>,
    after_send: rtrb::Producer<Command>,
    command: Command,
    before: Mixer<S>,
    after: Mixer<S>,
)
    requires
        ring::command_line_in(after_send) == ring::command_line_out(before.command_consumer),
        ring::command_line_in(after_send)[ring::commands_put(before_send) as int] == command,
        before.took_command(m, after),
        ring::commands_put(before_send) == ring::commands_taken(before.command_consumer),
    ensures
        (Mixer::<S> { command_consumer: after.command_consumer, ..before }).applied(
            m,
            command,
            after,
        ),
{
}

/// Whether `command` makes a song jump whose voice is `voice`: a seek, a start at some frame, or a
/// stop of a paused song.
pub open spec fn makes_jump(voice: MusicVoice, command: Command) -> bool {
    match command {
        Command::MusicSeek { .. } => true,
        Command::MusicResumeAt { .. } => voice.state != MusicState::Loading,
        Command::MusicStop => voice.state == MusicState::Paused,
        _ => false,
    }
}

impl<S: MusicFrameSource> Mixer<S> {
    /// The command that this mixer takes next.
    pub open spec fn next_command(self) -> Command {
        ring::command_line_out(self.command_consumer)[ring::commands_taken(
            self.command_consumer,
        ) as int]
    }
}

/// Whether a command that leads from `before` to `after` leaves the clock alone, and leaves a jump
/// pending exactly if one was or it makes one.
spec fn keeps_jumps<S: MusicFrameSource>(before: Mixer<S>, after: Mixer<S>) -> bool {
    &&& after.music_clock == before.music_clock
    &&& after.sample_rate == before.sample_rate
    &&& after.music_voice.pending_discontinuity == (before.music_voice.pending_discontinuity
        || makes_jump(before.music_voice, before.next_command()))
}

proof fn lemma_commands_keep_jumps<S: MusicFrameSource, M: SampleMath>(
    m: &M,
    before: Mixer<S>,
    after: Mixer<S>,
)
    requires
        before.took_command(m, after),
        !(before.next_command() is MusicPrepare),
    ensures
        keeps_jumps(before, after),
{
}

proof fn lemma_jumps_are_kept<S: MusicFrameSource>(chain: Seq<Mixer<S>>, n: int)
    requires
        0 <= n < chain.len(),
        forall|i: int| 0 <= i < chain.len() - 1 ==> keeps_jumps(#[trigger] chain[i], chain[i + 1]),
    ensures
        chain[n].music_clock == chain[0].music_clock,
        chain[n].sample_rate == chain[0].sample_rate,
        chain[n].music_voice.pending_discontinuity <==> chain[0].music_voice.pending_discontinuity
            || exists|i: int|
            0 <= i < n && #[trigger] makes_jump(chain[i].music_voice, chain[i].next_command()),
    decreases n,
{
    if n > 0 {
        lemma_jumps_are_kept(chain, n - 1);
        assert(keeps_jumps(chain[n - 1], chain[n - 1 + 1]));
        if makes_jump(chain[n - 1].music_voice, chain[n - 1].next_command()) {
            assert(exists|i: int|
                0 <= i < n && #[trigger] makes_jump(
                    chain[i].music_voice,
                    chain[i].next_command(),
                ));
        }
    }
}

/// Whether the song jumped in a buffer that went through `steps`, the commands of which led over
/// `chain`: a jump was pending or made by a command, or the song went back to the start of its loop
/// or came to a stop while it was rendered.
pub open spec fn song_jumped<S: MusicFrameSource>(
    chain: Seq<Mixer<S>>,
    steps: RenderSteps<S>,
) -> bool {
    ||| chain[0].music_voice.pending_discontinuity
    ||| exists|i: int|
        0 <= i < chain.len() - 1 && #[trigger] makes_jump(
            chain[i].music_voice,
            chain[i].next_command(),
        )
    ||| steps.outcome.looped
    ||| steps.drained.music_voice.state == MusicState::Playing
        && steps.drained.music_voice.pending_settle == PendingTransition::Stop
        && steps.sung.music_voice.state == MusicState::Ready && !steps.outcome.ended
}

proof fn lemma_song_outcome<S: MusicFrameSource, M: SampleMath>(
    m: &M,
    start: u64,
    end: u64,
    before: Mixer<S>,
    after: Mixer<S>,
    buf: Seq<u32>,
    outcome: MusicRenderOutcome,
)
    requires
        before.music_rendered(m, start, end, after, buf, outcome),
        buf.len() <= usize::MAX,
    ensures
        outcome.discontinuity <==> before.music_voice.pending_discontinuity || outcome.looped
            || before.music_voice.state == MusicState::Playing && before.music_voice.pending_settle
            == PendingTransition::Stop && after.music_voice.state == MusicState::Ready
            && !outcome.ended,
{
    reveal(voice_rendered);
    let voice = before.music_voice;
    let log = after.music_source.events().skip(before.music_source.events().len() as int);
    let asked = if voice.state == MusicState::Loading {
        1int
    } else {
        0
    };
    let state = if voice.state == MusicState::Loading && log[0] == SourceEvent::Ready(true) {
        MusicState::Ready
    } else {
        voice.state
    };
    match before.music_schedule.due(start, end, before.sample_rate, state) {
        None => {
            music::law_songs_move_by_what_is_rendered(voice, m, buf.len() / 2, log.skip(asked));
        },
        Some(frame) => {
            let split = if frame > buf.len() / 2 {
                buf.len() as int
            } else {
                2 * frame
            };
            let (cut, mid, one, two) = choose|
                cut: int,
                mid: MusicVoice,
                one: MusicRenderOutcome,
                two: MusicRenderOutcome,
            |
                rendered_in_parts(
                    m,
                    voice,
                    log.skip(asked),
                    buf,
                    split,
                    outcome,
                    after.music_voice,
                    cut,
                    mid,
                    one,
                    two,
                );
            music::law_songs_move_by_what_is_rendered(
                voice,
                m,
                buf.take(split).len() / 2,
                log.skip(asked).take(cut),
            );
            music::law_songs_move_by_what_is_rendered(
                mid.played(m),
                m,
                buf.skip(split).len() / 2,
                log.skip(asked).skip(cut),
            );
        },
    }
}

/// After every buffer the song clock tells where the song is at the end of the buffer, and when
/// that is. Its generation is the next one exactly if the song has jumped in the buffer, however
/// often, and otherwise the same. No command of the buffer prepares the next song.
pub proof fn law_the_clock_tells_of_every_jump<S: MusicFrameSource, M: SampleMath>(
    m: &M,
    before: Mixer<S>,
    start: u64,
    out: Seq<u32>,
    after: Mixer<S>,
    steps: RenderSteps<S>,
    chain: Seq<Mixer<S>>,
)
    requires
        before.rendered_through(m, start, out, after, steps),
        before.drained_through(m, steps.drained, chain),
        forall|i: int|
            0 <= i < chain.len() - 1 ==> !((#[trigger] chain[i]).next_command() is MusicPrepare),
        out.len() <= usize::MAX,
    ensures
        ({
            let clock = after.music_clock.published();
            let generation = before.music_clock.published().generation;
            let duration = schedule::duration_of(out.len() / 2, before.sample_rate as nat);
            &&& clock.song_frames == after.music_voice.position_frames
            &&& clock.state == after.music_voice.state
            &&& clock.is_playing == (after.music_voice.state == MusicState::Playing)
            &&& clock.sample_rate == before.sample_rate
            &&& duration <= u64::MAX ==> clock.host_time_ns == if start + duration <= u64::MAX {
                start + duration
            } else {
                u64::MAX as int
            }
            &&& clock.generation == if song_jumped(chain, steps) {
                generation.wrapping_add(1)
            } else {
                generation
            }
        }),
{
    assert forall|i: int| 0 <= i < chain.len() - 1 implies keeps_jumps(
        #[trigger] chain[i],
        chain[i + 1],
    ) by {
        assert(chain[i].took_command(m, chain[i + 1]));
        assert(!(chain[i].next_command() is MusicPrepare));
        lemma_commands_keep_jumps(m, chain[i], chain[i + 1]);
    }
    lemma_jumps_are_kept(chain, chain.len() - 1);
    let end = buffer_end(start, out.len() / 2, steps.drained.sample_rate);
    lemma_song_outcome(m, start, end, steps.drained, steps.sung, steps.music, steps.outcome);
}

} // verus!
