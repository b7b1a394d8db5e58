//! What is heard of a mix: how the commands of the application act on the mixer, and what becomes
//! of the voices and the songs in a frame.

#[allow(unused_imports)]
use std::sync::Arc;

use vstd::prelude::*;

#[allow(unused_imports)]
use crate::bus::{Bus, BusId};
#[allow(unused_imports)]
use crate::clipper;
#[allow(unused_imports)]
use crate::command::{Command, ScheduledSe};
#[allow(unused_imports)]
use crate::config::Config;
#[allow(unused_imports)]
use crate::event::{Event, EventState};
#[allow(unused_imports)]
use crate::math;
#[allow(unused_imports)]
use crate::math::{SampleMath, SILENCE, UNITY};
#[allow(unused_imports)]
use crate::mixer;
#[allow(unused_imports)]
use crate::mixer::{BgmPart, MixSpan, MixState, Mixer, MusicSchedule, RenderSteps};
#[allow(unused_imports)]
use crate::music;
#[allow(unused_imports)]
use crate::music::{MusicFrameSource, MusicRenderOutcome, MusicState, MusicVoice, SourceEvent};
#[allow(unused_imports)]
use crate::ramp;
#[allow(unused_imports)]
use crate::ring;
#[allow(unused_imports)]
use crate::schedule;
#[allow(unused_imports)]
use crate::sound::SoundData;
#[allow(unused_imports)]
use crate::voice;
#[allow(unused_imports)]
use crate::voice::{Pool, SoundRequest};

verus! {

/// Whether `command` is meant for the song.
pub open spec fn is_for_music(command: Command) -> bool {
    ||| command is MusicPlayScheduled
    ||| command is MusicPrepare
    ||| command is MusicSeek
    ||| command is MusicPause
    ||| command is MusicResumeAt
    ||| command is MusicStop
    ||| command is MusicSetLoop
}

/// Whether `command` is meant for the background music.
pub open spec fn is_for_bgm(command: Command) -> bool {
    ||| command is BgmPrepare
    ||| command is BgmSeek
    ||| command is BgmPlay
    ||| command is BgmStop
    ||| command is BgmSetLoop
}

/// Whether `command` is meant for a bus.
pub open spec fn is_for_bus(command: Command) -> bool {
    command is SetBusVolume || command is BusFade
}

/// A command reaches only what it is meant for: the song, the background music, a bus, or the sound
/// effects and their schedule. What is published, reported or counted of the mix does not change
/// with it, save the count of effects that did not fit on the schedule.
pub proof fn law_commands_reach_what_they_are_meant_for<S: MusicFrameSource, M: SampleMath>(
    m: &M,
    before: Mixer<S>,
    command: Command,
    after: Mixer<S>,
)
    requires
        before.applied(m, command, after),
    ensures
        !is_for_music(command) ==> after.music_voice == before.music_voice && after.music_source
            == before.music_source && after.music_schedule == before.music_schedule,
        !is_for_bgm(command) ==> after.bgm_voice == before.bgm_voice && after.bgm_source
            == before.bgm_source,
        !is_for_bus(command) ==> after.buses == before.buses,
        is_for_music(command) || is_for_bgm(command) || is_for_bus(command) ==> {
            &&& after.voices == before.voices
            &&& after.se_schedule == before.se_schedule
            &&& after.reclaim == before.reclaim
        },
        !(command is SeSchedule) ==> after.se_schedule_overflow_count
            == before.se_schedule_overflow_count,
        command is PlaySe || command is SetVoiceVolume ==> after.se_schedule == before.se_schedule,
        command is SeSchedule ==> after.voices == before.voices,
        after.clipper == before.clipper,
        after.sample_rate == before.sample_rate,
        after.default_ramp_ms == before.default_ramp_ms,
        after.music_clock == before.music_clock,
        after.bgm_state == before.bgm_state,
        after.events == before.events,
        after.underrun_accumulator == before.underrun_accumulator,
        after.report_clipping == before.report_clipping,
{
}

/// The song and the background music answer to their own commands as a voice does to the control of
/// that name, and their sources are asked for other frames exactly by a seek, and by a song that is
/// loaded and resumed.
pub proof fn law_songs_are_controlled_by_their_commands<S: MusicFrameSource, M: SampleMath>(
    m: &M,
    before: Mixer<S>,
    command: Command,
    after: Mixer<S>,
)
    requires
        before.applied(m, command, after),
    ensures
        match command {
            Command::MusicPlayScheduled { host_time_ns } => after.music_voice == before.music_voice
                && after.music_schedule.pending_host_time_ns == Some(host_time_ns)
                && !after.music_schedule.deferred,
            Command::MusicPrepare => after.music_voice == before.music_voice.prepared(),
            Command::MusicSeek { frames } => after.music_voice == before.music_voice.sought(frames),
            Command::MusicPause => after.music_voice == before.music_voice.paused(m),
            Command::MusicResumeAt { frames } => after.music_voice
                == before.music_voice.resumed_at(m, frames),
            Command::MusicStop => after.music_voice == before.music_voice.stopped(m),
            Command::MusicSetLoop { region } => after.music_voice == before.music_voice.looping(
                region,
            ),
            Command::BgmPrepare => after.bgm_voice == before.bgm_voice.prepared(),
            Command::BgmSeek { frames } => after.bgm_voice == before.bgm_voice.sought(frames),
            Command::BgmPlay => after.bgm_voice == before.bgm_voice.played(m),
            Command::BgmStop => after.bgm_voice == before.bgm_voice.stopped(m),
            Command::BgmSetLoop { region } => after.bgm_voice == before.bgm_voice.looping(region),
            _ => true,
        },
        after.music_source.events() == match command {
            Command::MusicSeek { frames } => before.music_source.events().push(
                SourceEvent::Seek(frames),
            ),
            Command::MusicResumeAt { frames } => if before.music_voice.state
                == MusicState::Loading {
                before.music_source.events()
            } else {
                before.music_source.events().push(SourceEvent::Seek(frames))
            },
            _ => before.music_source.events(),
        },
        after.bgm_source.events() == match command {
            Command::BgmSeek { frames } => before.bgm_source.events().push(
                SourceEvent::Seek(frames),
            ),
            _ => before.bgm_source.events(),
        },
        is_for_music(command) && !(command is MusicPlayScheduled) ==> after.music_schedule
            == before.music_schedule,
{
}

/// A bus whose volume is changed moves there from where it is, over the length of an ordinary ramp,
/// or over the given time if it is faded; the other buses do not change.
pub proof fn law_one_bus_changes_its_volume<S: MusicFrameSource, M: SampleMath>(
    m: &M,
    before: Mixer<S>,
    bus: BusId,
    volume: u32,
    ms: u32,
    after: Mixer<S>,
    other: BusId,
)
    requires
        other != bus,
    ensures
        before.applied(m, Command::SetBusVolume { bus, volume }, after) ==> {
            &&& after.buses.bus(other) == before.buses.bus(other)
            &&& after.buses.bus(bus).volume == before.buses.bus(bus).volume.aimed_at(
                m,
                volume,
                ramp::samples_in_ms(m, before.default_ramp_ms, before.sample_rate),
            )
        },
        before.applied(m, Command::BusFade { bus, target: volume, ms }, after) ==> {
            &&& after.buses.bus(other) == before.buses.bus(other)
            &&& after.buses.bus(bus).volume == before.buses.bus(bus).volume.aimed_at(
                m,
                volume,
                ramp::samples_in_ms(m, ms, before.sample_rate),
            )
        },
{
    assert(before.buses.buses@.len() == 4);
}

/// The entries that `keep` keeps, in their order.
pub open spec fn kept(entries: Seq<(u64, ScheduledSe)>, keep: spec_fn(ScheduledSe) -> bool) -> Seq<
    (u64, ScheduledSe),
>
    decreases entries.len(),
{
    if entries.len() == 0 {
        Seq::empty()
    } else if keep(entries.last().1) {
        kept(entries.drop_last(), keep).push(entries.last())
    } else {
        kept(entries.drop_last(), keep)
    }
}

proof fn lemma_kept(
    entries: Seq<(u64, ScheduledSe)>,
    marks: Seq<bool>,
    keep: spec_fn(ScheduledSe) -> bool,
    n: nat,
)
    requires
        n <= entries.len(),
        n <= marks.len(),
        forall|i: int| 0 <= i < n ==> #[trigger] marks[i] == !keep(entries[i].1),
    ensures
        schedule::unmarked(entries, marks, n) == kept(entries.take(n as int), keep),
    decreases n,
{
    if n > 0 {
        lemma_kept(entries, marks, keep, (n - 1) as nat);
        assert(entries.take(n as int).drop_last() =~= entries.take(n - 1));
        assert(marks[n - 1] == !keep(entries[n - 1].1));
    }
}

/// Stopping a voice, or letting go of a sound, also takes the scheduled effects off the schedule
/// that would have been that voice or played that sound, and only these; the others wait on in
/// their order. The voices fade out over the length of an ordinary ramp.
pub proof fn law_stopped_effects_are_called_off<S: MusicFrameSource, M: SampleMath>(
    m: &M,
    before: Mixer<S>,
    id: u64,
    after: Mixer<S>,
)
    ensures
        before.applied(m, Command::StopVoice { voice_serial: id }, after) ==> {
            &&& after.se_schedule.entries@ == kept(
                before.se_schedule.entries@,
                |se: ScheduledSe| se.voice_serial != id,
            )
            &&& after.voices@ == before.voices@.stopping(
                m,
                id,
                ramp::samples_in_ms(m, before.default_ramp_ms, before.sample_rate),
            )
        },
        before.applied(m, Command::StopVoicesUsingSound { sound_id: id }, after) ==> {
            &&& after.se_schedule.entries@ == kept(
                before.se_schedule.entries@,
                |se: ScheduledSe| se.sound_id != id,
            )
            &&& after.voices@ == before.voices@.without_sound(
                m,
                id,
                ramp::samples_in_ms(m, before.default_ramp_ms, before.sample_rate),
            )
        },
{
    let entries = before.se_schedule.entries@;
    assert(entries.take(entries.len() as int) =~= entries);
    if before.applied(m, Command::StopVoice { voice_serial: id }, after) {
        lemma_kept(
            entries,
            mixer::marks_of(entries, |se: ScheduledSe| se.voice_serial == id),
            |se: ScheduledSe| se.voice_serial != id,
            entries.len(),
        );
    }
    if before.applied(m, Command::StopVoicesUsingSound { sound_id: id }, after) {
        lemma_kept(
            entries,
            mixer::marks_of(entries, |se: ScheduledSe| se.sound_id == id),
            |se: ScheduledSe| se.sound_id != id,
            entries.len(),
        );
    }
}

/// An effect that is scheduled waits behind everything that is due no later and before everything
/// that is due later, and nothing else on the schedule changes. Where the schedule is full it does
/// not change, and the effect is counted as one that did not fit.
pub proof fn law_effects_wait_for_their_time<S: MusicFrameSource, M: SampleMath>(
    m: &M,
    before: Mixer<S>,
    host_time_ns: u64,
    entry: ScheduledSe,
    after: Mixer<S>,
)
    requires
        before.se_schedule.wf(),
        before.applied(m, Command::SeSchedule { host_time_ns, entry }, after),
    ensures
        ({
            let old_entries = before.se_schedule.entries@;
            let entries = after.se_schedule.entries@;
            if old_entries.len() < before.se_schedule.capacity {
                &&& after.se_schedule_overflow_count == before.se_schedule_overflow_count
                &&& exists|at: int|
                    {
                        &&& 0 <= at <= old_entries.len()
                        &&& entries == #[trigger] old_entries.insert(at, (host_time_ns, entry))
                        &&& forall|i: int|
                            0 <= i < at ==> (#[trigger] old_entries[i]).0 <= host_time_ns
                        &&& forall|i: int|
                            at <= i < old_entries.len() ==> (#[trigger] old_entries[i]).0
                                > host_time_ns
                    }
            } else {
                &&& entries == old_entries
                &&& after.se_schedule_overflow_count == (before.se_schedule_overflow_count + 1)
                    % 0x1_0000_0000_0000_0000
            }
        }),
{
    let entries = before.se_schedule.entries@;
    schedule::law_equal_times_are_served_in_order(entries, host_time_ns);
    let at = schedule::due_count(entries, host_time_ns, entries.len()) as int;
    if entries.len() < before.se_schedule.capacity {
        assert(after.se_schedule.entries@ == entries.insert(at, (host_time_ns, entry)));
    }
}

/// An effect is played, and a voice changes its volume, as the pool of voices does it, over the
/// length of an ordinary ramp.
pub proof fn law_effects_are_played_by_the_pool<S: MusicFrameSource, M: SampleMath>(
    m: &M,
    before: Mixer<S>,
    request: SoundRequest,
    after: Mixer<S>,
)
    ensures
        ({
            let samples = ramp::samples_in_ms(m, before.default_ramp_ms, before.sample_rate);
            let play = Command::PlaySe {
                voice_serial: request.serial,
                sound_id: request.sound_id,
                sound: request.sound,
                bus: request.bus,
                volume: request.volume,
            };
            let change = Command::SetVoiceVolume {
                voice_serial: request.serial,
                volume: request.volume,
            };
            &&& before.applied(m, play, after) ==> {
                &&& after.voices@ == before.voices@.playing(m, request, samples)
                &&& mixer::given_back(
                    before.reclaim.producer,
                    after.reclaim.producer,
                    before.voices@.refused(request.sound),
                )
            }
            &&& before.applied(m, change, after) ==> after.voices@ == before.voices@.at_volume(
                m,
                request.serial,
                request.volume,
                samples,
            )
        }),
{
}

/// The pool after the first `k` of the scheduled effects have been played, in their order.
pub open spec fn played_in_order<M: SampleMath>(
    m: &M,
    pool: Pool,
    entries: Seq<(u64, ScheduledSe)>,
    ramp_samples: u32,
    k: nat,
) -> Pool
    decreases k,
{
    if k == 0 {
        pool
    } else {
        let se = entries[k - 1].1;
        played_in_order(m, pool, entries, ramp_samples, (k - 1) as nat).playing(
            m,
            SoundRequest {
                serial: se.voice_serial,
                sound_id: se.sound_id,
                sound: se.sound,
                bus: se.bus,
                volume: se.volume,
            },
            ramp_samples,
        )
    }
}

proof fn lemma_played_first<M: SampleMath>(
    m: &M,
    pool: Pool,
    entries: Seq<(u64, ScheduledSe)>,
    ramp_samples: u32,
    k: nat,
)
    requires
        entries.len() > 0,
        k <= entries.skip(1).len(),
    ensures
        played_in_order(m, pool, entries, ramp_samples, k + 1) == played_in_order(
            m,
            pool.playing(m, mixer::request_of(entries[0].1), ramp_samples),
            entries.skip(1),
            ramp_samples,
            k,
        ),
    decreases k,
{
    if k == 0 {
        reveal_with_fuel(played_in_order, 2);
    } else {
        lemma_played_first(m, pool, entries, ramp_samples, (k - 1) as nat);
        assert(entries.skip(1)[k - 1] == entries[k as int]);
    }
}

/// The effects that are due in a frame are played in the order in which they are due, each with the
/// sound, the bus and the volume that it was scheduled with. Those at the front whose time lies
/// before the end of the buffer and whose frame has come are due; the first one that is not, and
/// all behind it, wait on.
pub proof fn law_due_effects_are_played_in_order<M: SampleMath>(
    m: &M,
    pool: Pool,
    entries: Seq<(u64, ScheduledSe)>,
    frame_index: int,
    span: MixSpan,
    k: nat,
)
    requires
        k <= entries.len(),
        forall|j: int|
            0 <= j < k ==> (#[trigger] entries[j]).0 < span.end_ns && mixer::due_frame(
                entries[j].0,
                span.start_ns,
                span.sample_rate,
            ) <= frame_index,
        k < entries.len() ==> entries[k as int].0 >= span.end_ns || mixer::due_frame(
            entries[k as int].0,
            span.start_ns,
            span.sample_rate,
        ) > frame_index,
    ensures
        mixer::fired(m, pool, entries, frame_index, span).0 == played_in_order(
            m,
            pool,
            entries,
            span.ramp_samples,
            k,
        ),
        mixer::fired(m, pool, entries, frame_index, span).1 == entries.skip(k as int),
    decreases k,
{
    if k == 0 {
        assert(entries.skip(0) =~= entries);
    } else {
        let rest = entries.skip(1);
        assert forall|j: int| 0 <= j < k - 1 implies (#[trigger] rest[j]).0 < span.end_ns
            && mixer::due_frame(rest[j].0, span.start_ns, span.sample_rate) <= frame_index by {
            assert(rest[j] == entries[j + 1]);
        }
        if k < entries.len() {
            assert(rest[k - 1] == entries[k as int]);
        }
        law_due_effects_are_played_in_order(
            m,
            pool.playing(m, mixer::request_of(entries[0].1), span.ramp_samples),
            rest,
            frame_index,
            span,
            (k - 1) as nat,
        );
        lemma_played_first(m, pool, entries, span.ramp_samples, (k - 1) as nat);
        assert(rest.skip(k - 1) =~= entries.skip(k as int));
    }
}

/// The sounds that are refused among the first `k` scheduled effects as these are played in their
/// order.
pub open spec fn refused_in_order<M: SampleMath>(
    m: &M,
    pool: Pool,
    entries: Seq<(u64, ScheduledSe)>,
    ramp_samples: u32,
    k: nat,
) -> Seq<Arc<SoundData>>
    decreases k,
{
    if k == 0 {
        Seq::empty()
    } else {
        refused_in_order(m, pool, entries, ramp_samples, (k - 1) as nat) + played_in_order(
            m,
            pool,
            entries,
            ramp_samples,
            (k - 1) as nat,
        ).refused(entries[k - 1].1.sound)
    }
}

proof fn lemma_refused_first<M: SampleMath>(
    m: &M,
    pool: Pool,
    entries: Seq<(u64, ScheduledSe)>,
    ramp_samples: u32,
    k: nat,
)
    requires
        entries.len() > 0,
        k <= entries.skip(1).len(),
    ensures
        refused_in_order(m, pool, entries, ramp_samples, k + 1) == pool.refused(entries[0].1.sound)
            + refused_in_order(
            m,
            pool.playing(m, mixer::request_of(entries[0].1), ramp_samples),
            entries.skip(1),
            ramp_samples,
            k,
        ),
    decreases k,
{
    let first = pool.refused(entries[0].1.sound);
    if k == 0 {
        reveal_with_fuel(refused_in_order, 2);
        assert(Seq::empty() + first =~= first + Seq::empty());
    } else {
        lemma_refused_first(m, pool, entries, ramp_samples, (k - 1) as nat);
        lemma_played_first(m, pool, entries, ramp_samples, (k - 1) as nat);
        assert(entries.skip(1)[k - 1] == entries[k as int]);
        let next = pool.playing(m, mixer::request_of(entries[0].1), ramp_samples);
        let before = refused_in_order(m, next, entries.skip(1), ramp_samples, (k - 1) as nat);
        let last = played_in_order(m, pool, entries, ramp_samples, k).refused(
            entries[k as int].1.sound,
        );
        assert((first + before) + last =~= first + (before + last));
    }
}

/// Every due effect that no voice could be had for is given back, in the order in which they are
/// due, and no other.
pub proof fn law_refused_effects_are_given_back<M: SampleMath>(
    m: &M,
    pool: Pool,
    entries: Seq<(u64, ScheduledSe)>,
    frame_index: int,
    span: MixSpan,
    k: nat,
)
    requires
        k <= entries.len(),
        forall|j: int|
            0 <= j < k ==> (#[trigger] entries[j]).0 < span.end_ns && mixer::due_frame(
                entries[j].0,
                span.start_ns,
                span.sample_rate,
            ) <= frame_index,
        k < entries.len() ==> entries[k as int].0 >= span.end_ns || mixer::due_frame(
            entries[k as int].0,
            span.start_ns,
            span.sample_rate,
        ) > frame_index,
    ensures
        mixer::refused_in(m, pool, entries, frame_index, span) == refused_in_order(
            m,
            pool,
            entries,
            span.ramp_samples,
            k,
        ),
    decreases k,
{
    if k > 0 {
        let rest = entries.skip(1);
        assert forall|j: int| 0 <= j < k - 1 implies (#[trigger] rest[j]).0 < span.end_ns
            && mixer::due_frame(rest[j].0, span.start_ns, span.sample_rate) <= frame_index by {
            assert(rest[j] == entries[j + 1]);
        }
        if k < entries.len() {
            assert(rest[k - 1] == entries[k as int]);
        }
        law_refused_effects_are_given_back(
            m,
            pool.playing(m, mixer::request_of(entries[0].1), span.ramp_samples),
            rest,
            frame_index,
            span,
            (k - 1) as nat,
        );
        lemma_refused_first(m, pool, entries, span.ramp_samples, (k - 1) as nat);
    }
}

/// One channel of a frame before it is clipped: the songs together at the volume of the music bus,
/// added to the effects, all at the master volume.
pub open spec fn channel_of<M: SampleMath>(
    m: &M,
    effects: u32,
    music: u32,
    bgm: u32,
    music_volume: u32,
    master_volume: u32,
) -> u32 {
    math::product_of(
        m,
        math::sum_of(
            m,
            effects,
            math::product_of(m, math::sum_of(m, music, bgm), music_volume),
        ),
        master_volume,
    )
}

/// In every frame the effects that are due start first and are heard in it, and every bus moves on
/// by one sample before its volume is applied. The left channel is made of the left channels of the
/// effects, the song and the background music, and the right channel of the right ones; each is
/// clipped on its own, and each time that counts. What was mixed before stays.
pub proof fn law_frames_are_mixed_by_channel<M: SampleMath>(
    s: MixState,
    m: &M,
    span: MixSpan,
    i: int,
    music: (u32, u32),
    bgm: (u32, u32),
)
    requires
        s.buses.len() == 4,
    ensures
        ({
            let next = s.after_frame(m, span, i, music, bgm);
            let pool = mixer::fired(m, s.pool, s.entries, i, span).0;
            let volumes = Seq::new(4, |k: int| s.buses[k].volume.advanced(m).current);
            let effects = pool.mixed(m, volumes);
            let l = channel_of(m, effects.0, music.0, bgm.0, volumes[1], volumes[0]);
            let r = channel_of(m, effects.1, music.1, bgm.1, volumes[1], volumes[0]);
            &&& next.out.len() == s.out.len() + 2
            &&& next.out.take(s.out.len() as int) == s.out
            &&& next.out[s.out.len() as int] == clipper::clipped(m, span.threshold, l)
            &&& next.out[s.out.len() as int + 1] == clipper::clipped(m, span.threshold, r)
            &&& next.clipped == clipper::counted(
                m,
                span.threshold,
                r,
                clipper::counted(m, span.threshold, l, s.clipped),
            )
            &&& next.pool == pool.advanced(m)
            &&& next.entries == mixer::fired(m, s.pool, s.entries, i, span).1
            &&& next.refused == s.refused + mixer::refused_in(m, s.pool, s.entries, i, span)
            &&& next.buses.len() == 4
            &&& forall|k: int|
                0 <= k < 4 ==> (#[trigger] next.buses[k]).volume == s.buses[k].volume.advanced(m)
        }),
{
    reveal(MixState::after_frame);
    let next = s.after_frame(m, span, i, music, bgm);
    let volumes = Seq::new(4, |k: int| s.buses[k].volume.advanced(m).current);
    assert(mixer::bus_volumes(next.buses) =~= volumes);
    assert(next.out.take(s.out.len() as int) =~= s.out);
}

/// The frames of a buffer are mixed one after the other, frame `i` from samples `2i` and `2i + 1`
/// of the song and the background music.
pub proof fn law_frames_follow_each_other<M: SampleMath>(
    s: MixState,
    m: &M,
    span: MixSpan,
    music: Seq<u32>,
    bgm: Seq<u32>,
    i: nat,
)
    ensures
        s.after_frames(m, span, music, bgm, 0) == s,
        s.after_frames(m, span, music, bgm, i + 1) == s.after_frames(
            m,
            span,
            music,
            bgm,
            i,
        ).after_frame(
            m,
            span,
            i as int,
            (music[2 * i as int], music[2 * i as int + 1]),
            (bgm[2 * i as int], bgm[2 * i as int + 1]),
        ),
{
}

/// Whether these are the same scheduled effects but for the channels of their sounds, which are
/// exchanged.
pub open spec fn entries_exchanged(
    a: Seq<(u64, ScheduledSe)>,
    b: Seq<(u64, ScheduledSe)>,
) -> bool {
    &&& a.len() == b.len()
    &&& forall|i: int|
        #![trigger a[i]]
        #![trigger b[i]]
        0 <= i < a.len() ==> {
            &&& b[i].0 == a[i].0
            &&& b[i].1 == ScheduledSe { sound: b[i].1.sound, ..a[i].1 }
            &&& voice::channels_exchanged(*a[i].1.sound, *b[i].1.sound)
        }
}

proof fn lemma_positions_agree(a: Seq<voice::Voice>, b: Seq<voice::Voice>, from: int)
    requires
        voice::play_exchanged(a, b),
        0 <= from <= a.len(),
    ensures
        voice::position_of(a, |v: voice::Voice| !v.active(), from) == voice::position_of(
            b,
            |v: voice::Voice| !v.active(),
            from,
        ),
        from <= voice::position_of(a, |v: voice::Voice| !v.active(), from) <= a.len(),
    decreases a.len() - from,
{
    if from < a.len() {
        assert(a[from].sound is Some == b[from].sound is Some);
        lemma_positions_agree(a, b, from + 1);
    }
}

proof fn lemma_oldest_agree(a: Seq<voice::Voice>, b: Seq<voice::Voice>, n: nat)
    requires
        voice::play_exchanged(a, b),
        n <= a.len(),
    ensures
        voice::oldest(a, n) == voice::oldest(b, n),
        n > 0 ==> 0 <= voice::oldest(a, n) < n,
    decreases n,
{
    if n > 1 {
        lemma_oldest_agree(a, b, (n - 1) as nat);
        let best = voice::oldest(a, (n - 1) as nat);
        assert(a[best].age == b[best].age);
        assert(a[n - 1].age == b[n - 1].age);
    }
}

proof fn lemma_playing_exchanged<M: SampleMath>(
    a: Pool,
    b: Pool,
    m: &M,
    x: SoundRequest,
    y: SoundRequest,
    ramp_samples: u32,
)
    requires
        voice::play_exchanged(a.primary, b.primary),
        voice::play_exchanged(a.tails, b.tails),
        a.next_age == b.next_age,
        y == (SoundRequest { sound: y.sound, ..x }),
        voice::channels_exchanged(*x.sound, *y.sound),
    ensures
        ({
            let p = a.playing(m, x, ramp_samples);
            let q = b.playing(m, y, ramp_samples);
            &&& voice::play_exchanged(p.primary, q.primary)
            &&& voice::play_exchanged(p.tails, q.tails)
            &&& p.next_age == q.next_age
            &&& a.outcome() == b.outcome()
        }),
{
    lemma_positions_agree(a.primary, b.primary, 0);
    lemma_positions_agree(a.tails, b.tails, 0);
    lemma_oldest_agree(a.primary, b.primary, a.primary.len());
    if a.outcome() == voice::StealOutcome::Stolen {
        let i = voice::oldest(a.primary, a.primary.len());
        assert(b.primary[i] == voice::Voice { sound: b.primary[i].sound, ..a.primary[i] });
    }
}

proof fn lemma_fired_exchanged<M: SampleMath>(
    m: &M,
    a: Pool,
    b: Pool,
    x: Seq<(u64, ScheduledSe)>,
    y: Seq<(u64, ScheduledSe)>,
    frame_index: int,
    span: MixSpan,
)
    requires
        voice::play_exchanged(a.primary, b.primary),
        voice::play_exchanged(a.tails, b.tails),
        a.next_age == b.next_age,
        entries_exchanged(x, y),
    ensures
        ({
            let p = mixer::fired(m, a, x, frame_index, span);
            let q = mixer::fired(m, b, y, frame_index, span);
            &&& voice::play_exchanged(p.0.primary, q.0.primary)
            &&& voice::play_exchanged(p.0.tails, q.0.tails)
            &&& p.0.next_age == q.0.next_age
            &&& entries_exchanged(p.1, q.1)
        }),
    decreases x.len(),
{
    if x.len() > 0 {
        assert(y[0].0 == x[0].0);
        if mixer::first_is_due(x, frame_index, span.start_ns, span.end_ns, span.sample_rate) {
            let s = mixer::request_of(x[0].1);
            let t = mixer::request_of(y[0].1);
            lemma_playing_exchanged(a, b, m, s, t, span.ramp_samples);
            let x1 = x.skip(1);
            let y1 = y.skip(1);
            assert forall|i: int|
                #![trigger x1[i]]
                #![trigger y1[i]]
                0 <= i < x1.len() implies {
                &&& y1[i].0 == x1[i].0
                &&& y1[i].1 == ScheduledSe { sound: y1[i].1.sound, ..x1[i].1 }
                &&& voice::channels_exchanged(*x1[i].1.sound, *y1[i].1.sound)
            } by {
                assert(x1[i] == x[i + 1]);
                assert(y1[i] == y[i + 1]);
            }
            lemma_fired_exchanged(
                m,
                a.playing(m, s, span.ramp_samples),
                b.playing(m, t, span.ramp_samples),
                x1,
                y1,
                frame_index,
                span,
            );
        }
    }
}

/// Exchanging the channels of everything that is mixed, the sounds that play, the sounds that are
/// scheduled, the song and the background music, exchanges the channels of the frame; what is
/// clipped is the same.
pub proof fn law_mixed_channels_are_exchanged<M: SampleMath>(
    a: MixState,
    b: MixState,
    m: &M,
    span: MixSpan,
    i: int,
    music: (u32, u32),
    bgm: (u32, u32),
)
    requires
        voice::play_exchanged(a.pool.primary, b.pool.primary),
        voice::play_exchanged(a.pool.tails, b.pool.tails),
        a.pool.next_age == b.pool.next_age,
        entries_exchanged(a.entries, b.entries),
        a.buses == b.buses,
        a.clipped == b.clipped,
        a.out.len() == b.out.len(),
    ensures
        ({
            let x = a.after_frame(m, span, i, music, bgm);
            let y = b.after_frame(m, span, i, (music.1, music.0), (bgm.1, bgm.0));
            let n = a.out.len() as int;
            &&& x.out[n] == y.out[n + 1]
            &&& x.out[n + 1] == y.out[n]
            &&& x.clipped == y.clipped
            &&& x.buses == y.buses
        }),
{
    reveal(MixState::after_frame);
    lemma_fired_exchanged(m, a.pool, b.pool, a.entries, b.entries, i, span);
    let p = mixer::fired(m, a.pool, a.entries, i, span).0;
    let q = mixer::fired(m, b.pool, b.entries, i, span).0;
    let buses = a.buses.map_values(|b: Bus| Bus { volume: b.volume.advanced(m) });
    voice::law_channels_are_mixed_apart(p, q, m, mixer::bus_volumes(buses));
}

/// A start that is planned is carried out in the buffer in which its time lies, or in the first one
/// behind it, on the frame in which its time lies, or the first one if it is overdue. While the
/// song is being loaded the plan waits and is known to be late; a song that plays or is paused by
/// then drops it. Before its time nothing happens.
pub proof fn law_planned_starts_are_carried_out_once(
    target: u64,
    deferred: bool,
    start: u64,
    end: u64,
    sample_rate: u32,
    state: MusicState,
)
    ensures
        ({
            let plan = MusicSchedule { pending_host_time_ns: Some(target), deferred };
            let due = plan.due(start, end, sample_rate, state);
            let next = plan.after(end, state);
            &&& target >= end ==> due is None && next == plan
            &&& target < end ==> {
                &&& state == MusicState::Loading ==> due is None && next.pending_host_time_ns
                    == Some(target) && next.deferred
                &&& state != MusicState::Loading ==> next.pending_host_time_ns is None
                    && !next.deferred
                &&& due is Some <==> state == MusicState::Ready
                &&& state == MusicState::Ready && target <= start ==> due == Some(0int)
                &&& state == MusicState::Ready && target > start && (target - start) * sample_rate
                    <= usize::MAX * 1_000_000_000 ==> {
                    &&& due->0 * 1_000_000_000 <= (target - start) * sample_rate
                    &&& (target - start) * sample_rate < (due->0 + 1) * 1_000_000_000
                }
            }
        }),
        ({
            let plan = MusicSchedule { pending_host_time_ns: None, deferred };
            plan.due(start, end, sample_rate, state) is None && plan.after(end, state) == plan
        }),
{
    if target > start && (target - start) * sample_rate <= usize::MAX * 1_000_000_000 {
        let ns = (target - start) as nat;
        schedule::law_offset_is_the_frame_of_the_target(ns, sample_rate as nat);
        let frames = schedule::frames_in(ns, sample_rate as nat);
        assert(frames <= usize::MAX) by (nonlinear_arith)
            requires
                frames * 1_000_000_000 <= ns * sample_rate,
                ns * sample_rate <= usize::MAX * 1_000_000_000,
        ;
        vstd::arithmetic::div_mod::lemma_small_mod(frames, (usize::MAX + 1) as nat);
    }
}

/// A song that waits to start at a frame of the buffer is silent before that frame, and from that
/// frame on it is rendered as a song that was started there.
pub proof fn law_planned_songs_are_silent_until_they_start<M: SampleMath>(
    m: &M,
    before: MusicVoice,
    log: Seq<SourceEvent>,
    buf: Seq<u32>,
    split: int,
    outcome: MusicRenderOutcome,
    after: MusicVoice,
)
    requires
        before.state == MusicState::Ready,
        0 <= split <= buf.len(),
        split % 2 == 0,
        mixer::rendered_around_start(m, before, log, buf, split, outcome, after),
    ensures
        forall|i: int| 0 <= i < split ==> buf[i] == SILENCE,
        outcome.discontinuity || !before.pending_discontinuity,
        exists|rest: Seq<SourceEvent>, two: MusicRenderOutcome| #[trigger]
            mixer::voice_rendered(
                m,
                (MusicVoice { pending_discontinuity: false, ..before }).played(m),
                rest,
                buf.skip(split),
                two,
                after,
            ) && outcome.rendered_frames == two.rendered_frames && outcome.underrun_frames
                == two.underrun_frames && outcome.ended == two.ended && outcome.looped
                == two.looped,
{
    reveal(mixer::voice_rendered);
    let (cut, mid, one, two) = choose|
        cut: int,
        mid: MusicVoice,
        one: MusicRenderOutcome,
        two: MusicRenderOutcome,
    |
        mixer::rendered_in_parts(
            m,
            before,
            log,
            buf,
            split,
            outcome,
            after,
            cut,
            mid,
            one,
            two,
        );
    let first = log.take(cut);
    let head = buf.take(split);
    lemma_ready_songs_rest(before, m, head.len() / 2, first);
    assert forall|i: int| 0 <= i < split implies buf[i] == SILENCE by {
        assert(head[i] == SILENCE);
    }
    assert(mixer::voice_rendered(
        m,
        (MusicVoice { pending_discontinuity: false, ..before }).played(m),
        log.skip(cut),
        buf.skip(split),
        two,
        after,
    ));
}

proof fn lemma_ready_songs_rest<M: SampleMath>(
    voice: MusicVoice,
    m: &M,
    frames: nat,
    log: Seq<SourceEvent>,
)
    requires
        voice.state == MusicState::Ready,
    ensures
        ({
            let run = voice.rendered(m, frames, log);
            &&& run.voice == MusicVoice { pending_discontinuity: false, ..voice }
            &&& run.outcome == MusicRenderOutcome {
                rendered_frames: 0,
                underrun_frames: 0,
                ended: false,
                looped: false,
                discontinuity: voice.pending_discontinuity,
            }
            &&& run.out.len() == 0
            &&& run.phase is Done || run.phase is Astray
        }),
    decreases log.len(),
{
    if log.len() > 0 {
        lemma_ready_songs_rest(voice, m, frames, log.drop_last());
        reveal(music::RenderRun::after);
    }
}

/// Missing frames are reported as soon as none are missing any more, or as soon as there are as
/// many as the threshold; then one event tells of all of them and the count starts anew. Until then
/// they are gathered, and no event is lost or added.
pub proof fn law_missing_frames_are_reported_in_time(
    accumulator: u32,
    threshold: u32,
    events: EventState,
    frames: u32,
)
    ensures
        ({
            let (left, after) = mixer::underrun_reported(accumulator, threshold, events, frames);
            let all = if accumulator + frames <= u32::MAX {
                accumulator + frames
            } else {
                u32::MAX as int
            };
            if all > 0 && (frames == 0 || all >= threshold) {
                left == 0 && after == events.pushed(Event::Underrun { frames: all as u32 })
            } else {
                left == all && after == events
            }
        }),
{
}

/// The end of a song is told of before its loop, and each only if it happened; missing frames come
/// last. A jump starts a new generation of the clock and changes nothing else of it.
pub proof fn law_songs_are_reported_in_order<S: MusicFrameSource>(
    before: Mixer<S>,
    outcome: MusicRenderOutcome,
    after: Mixer<S>,
)
    requires
        before.music_reported(outcome, after),
        outcome.underrun_frames <= u32::MAX,
        before.underrun_accumulator + outcome.underrun_frames <= u32::MAX,
    ensures
        ({
            let told = after.events@;
            let looped = Event::MusicLooped {
                restart_frame: before.music_voice.loop_restart_frame,
            };
            let missing = (before.underrun_accumulator + outcome.underrun_frames) as u32;
            let ended = if outcome.ended {
                before.events@.pushed(Event::MusicEnded)
            } else {
                before.events@
            };
            let both = if outcome.looped {
                ended.pushed(looped)
            } else {
                ended
            };
            &&& missing == 0 ==> told == both && after.underrun_accumulator == 0
            &&& missing > 0 && (outcome.underrun_frames == 0 || missing
                >= before.underrun_report_threshold_frames) ==> told == both.pushed(
                Event::Underrun { frames: missing },
            ) && after.underrun_accumulator == 0
            &&& missing > 0 && outcome.underrun_frames > 0 && missing
                < before.underrun_report_threshold_frames ==> told == both
                && after.underrun_accumulator == missing
        }),
        ({
            let clock = after.music_clock.published();
            let old_clock = before.music_clock.published();
            &&& outcome.discontinuity ==> clock.generation == (old_clock.generation + 1)
                % 0x1_0000_0000
            &&& !outcome.discontinuity ==> clock.generation == old_clock.generation
            &&& clock.song_frames == old_clock.song_frames
            &&& clock.host_time_ns == old_clock.host_time_ns
            &&& clock.sample_rate == old_clock.sample_rate
            &&& clock.state == old_clock.state
            &&& clock.is_playing == old_clock.is_playing
        }),
        after.voices == before.voices,
        after.buses == before.buses,
        after.music_voice == before.music_voice,
        after.bgm_voice == before.bgm_voice,
        after.se_schedule == before.se_schedule,
{
}

/// At the end of a buffer clipping is told of once if any sample was clipped in it and that is
/// wanted, the voices that are done are freed, and the song, the time and the state of the
/// background music are published as they are then.
pub proof fn law_buffers_end_with_what_is_true<S: MusicFrameSource>(
    before: Mixer<S>,
    clipped_before: u64,
    end: u64,
    after: Mixer<S>,
)
    requires
        before.finished(clipped_before, end, after),
    ensures
        after.events@ == before.events@ || after.events@ == before.events@.pushed(
            Event::ClipperEngaged,
        ),
        !before.report_clipping || before.clipper.engaged_count == clipped_before
            ==> after.events@ == before.events@,
        before.report_clipping && before.clipper.engaged_count != clipped_before ==> after.events@
            == before.events@.pushed(Event::ClipperEngaged),
        after.voices@ == before.voices@.reaped(),
        mixer::given_back(
            before.reclaim.producer,
            after.reclaim.producer,
            before.voices@.reclaimed(),
        ),
        after.music_clock.published().song_frames == before.music_voice.position_frames,
        after.music_clock.published().host_time_ns == end,
        after.music_clock.published().sample_rate == before.sample_rate,
        after.music_clock.published().state == before.music_voice.state,
        after.music_clock.published().is_playing <==> before.music_voice.state
            == MusicState::Playing,
        after.music_clock.published().generation == before.music_clock.published().generation,
        after.bgm_state.published() == before.bgm_voice.state,
        after.music_voice == before.music_voice,
        after.bgm_voice == before.bgm_voice,
        after.buses == before.buses,
        after.clipper == before.clipper,
        after.se_schedule == before.se_schedule,
{
}

proof fn lemma_parts_cover<M: SampleMath>(
    m: &M,
    first: MusicVoice,
    parts: Seq<BgmPart>,
    frames: nat,
    n: nat,
)
    requires
        mixer::parts_follow(m, first, parts, frames),
        n <= parts.len(),
        parts.len() > 0 ==> (parts.len() - 1) * 256 < frames,
    ensures
        mixer::samples_in(parts, n).len() == 2 * if n * 256 < frames {
            n * 256
        } else {
            frames
        },
    decreases n,
{
    if n > 0 {
        lemma_parts_cover(m, first, parts, frames, (n - 1) as nat);
        assert(mixer::part_follows(m, first, parts, frames, n - 1));
    }
}

/// The background music is rendered in chunks that follow each other and together fill the buffer:
/// each goes on from where the one before it has ended, the first one from where the music was, and
/// it ends where the last one does; without frames it stays where it is.
pub proof fn law_background_music_fills_the_buffer<S: MusicFrameSource, M: SampleMath>(
    m: &M,
    before: Mixer<S>,
    span: MixSpan,
    music: Seq<u32>,
    out: Seq<u32>,
    parts: Seq<BgmPart>,
    after: Mixer<S>,
)
    requires
        before.mixed_with(m, span, music, out, parts, after),
    ensures
        mixer::samples_in(parts, parts.len()).len() == 2 * (music.len() / 2),
        parts.len() > 0 <==> music.len() >= 2,
        parts.len() > 0 ==> parts[0].before == before.bgm_voice && after.bgm_voice
            == parts.last().after,
        forall|i: int|
            0 < i < parts.len() ==> (#[trigger] parts[i]).before == parts[i - 1].after,
        parts.len() == 0 ==> after.bgm_voice == before.bgm_voice,
        after.music_voice == before.music_voice,
        after.events == before.events,
        after.music_clock == before.music_clock,
{
    let frames = music.len() / 2;
    assert forall|i: int| 0 <= i < parts.len() implies (#[trigger] parts[i]).before == if i == 0 {
        before.bgm_voice
    } else {
        parts[i - 1].after
    } by {
        assert(mixer::part_follows(m, before.bgm_voice, parts, frames, i));
    }
    lemma_parts_cover(m, before.bgm_voice, parts, frames, parts.len());
}

/// A change of rate reaches the mixer and both songs, and changes nothing else of them; the last
/// change counts.
pub proof fn law_all_follow_the_rate<S: MusicFrameSource>(mixer: Mixer<S>, first: u32, last: u32)
    ensures
        mixer.at_rate(last).sample_rate == last,
        mixer.at_rate(last).music_voice.sample_rate == last,
        mixer.at_rate(last).bgm_voice.sample_rate == last,
        mixer.at_rate(first).at_rate(last) == mixer.at_rate(last),
        mixer.at_rate(last).music_voice.position_frames == mixer.music_voice.position_frames,
        mixer.at_rate(last).music_voice.state == mixer.music_voice.state,
        mixer.at_rate(last).bgm_voice.position_frames == mixer.bgm_voice.position_frames,
        mixer.at_rate(last).bgm_voice.state == mixer.bgm_voice.state,
        mixer.at_rate(last).voices == mixer.voices,
        mixer.at_rate(last).buses == mixer.buses,
        mixer.at_rate(last).se_schedule == mixer.se_schedule,
{
}

/// Every command that has arrived by the time a buffer is asked for is carried out before that
/// buffer is rendered, and none is carried out twice: the mixer then waits for the next one.
pub proof fn law_arrived_commands_are_carried_out<S: MusicFrameSource, M: SampleMath>(
    m: &M,
    before: Mixer<S>,
    start: u64,
    out: Seq<u32>,
    after: Mixer<S>,
    steps: RenderSteps<S>,
    chain: Seq<Mixer<S>>,
)
    requires
        before.rendered_through(m, start, out, after, steps),
        before.drained_through(m, steps.drained, chain),
    ensures
        ring::commands_taken(after.command_consumer) >= ring::commands_taken(
            before.command_consumer,
        ) + ring::commands_ready(before.command_consumer),
        ring::commands_taken(after.command_consumer) == ring::commands_taken(
            before.command_consumer,
        ) + (chain.len() - 1),
        ring::command_line_out(after.command_consumer) == ring::command_line_out(
            before.command_consumer,
        ),
        ring::commands_ready(after.command_consumer) == 0,
{
    lemma_chain_counts(m, chain, chain.len() - 1);
}

proof fn lemma_chain_counts<S: MusicFrameSource, M: SampleMath>(
    m: &M,
    chain: Seq<Mixer<S>>,
    n: int,
)
    requires
        0 <= n < chain.len(),
        forall|i: int|
            0 <= i < chain.len() - 1 ==> (#[trigger] chain[i]).took_command(m, chain[i + 1]),
    ensures
        ring::commands_taken(chain[n].command_consumer) == ring::commands_taken(
            chain[0].command_consumer,
        ) + n,
        ring::command_line_out(chain[n].command_consumer) == ring::command_line_out(
            chain[0].command_consumer,
        ),
    decreases n,
{
    if n > 0 {
        lemma_chain_counts(m, chain, n - 1);
        assert(chain[n - 1].took_command(m, chain[n - 1 + 1]));
    }
}

/// A new mixer is silent and waits: no voice holds a sound, no song is loaded, nothing is scheduled
/// or planned, nothing has been told, clipped or missed, and every bus is at unity.
pub proof fn law_new_mixers_are_silent<S: MusicFrameSource, M: SampleMath>(
    m: &M,
    mixer: Mixer<S>,
    config: Config,
    sample_rate: u32,
    report_clipping: bool,
    bus_volume: Seq<u32>,
    id: BusId,
)
    requires
        mixer::is_new(mixer, config, sample_rate, report_clipping),
    ensures
        mixer.voices@.primary.len() == config.max_voices,
        mixer.voices@.tails.len() == config.steal_tail_capacity,
        mixer.voices@.mixed(m, bus_volume) == (SILENCE, SILENCE),
        mixer.buses.bus(id).volume.current == UNITY,
        mixer.buses.bus(id).volume.remaining_samples == 0,
        mixer.music_voice.state == MusicState::Loading,
        mixer.bgm_voice.state == MusicState::Loading,
        mixer.music_voice.position_frames == 0,
        mixer.bgm_voice.position_frames == 0,
        mixer.music_voice.target_volume == UNITY,
        mixer.bgm_voice.target_volume == UNITY,
        mixer.music_voice.gain.current == SILENCE,
        mixer.bgm_voice.gain.current == SILENCE,
        mixer.music_voice.loop_region is None,
        mixer.bgm_voice.loop_region is None,
        mixer.sample_rate == sample_rate,
        mixer.music_voice.sample_rate == sample_rate,
        mixer.bgm_voice.sample_rate == sample_rate,
        mixer.clipper.threshold == config.clipper_threshold,
        mixer.clipper.engaged_count == 0,
        mixer.se_schedule.entries@.len() == 0,
        mixer.music_schedule.pending_host_time_ns is None,
        mixer.underrun_accumulator == 0,
        mixer.music_clock.published().generation == 0,
        mixer.music_clock.published().state == MusicState::Loading,
        !mixer.music_clock.published().is_playing,
        mixer.events@.in_ring().len() == 0,
        mixer.events@.side_channel.len() == 0,
{
    lemma_idle_pool_is_silent(
        m,
        (SILENCE, SILENCE),
        mixer.voices@.primary,
        bus_volume,
        mixer.voices@.primary.len(),
    );
    lemma_idle_pool_is_silent(
        m,
        (SILENCE, SILENCE),
        mixer.voices@.tails,
        bus_volume,
        mixer.voices@.tails.len(),
    );
}

proof fn lemma_idle_pool_is_silent<M: SampleMath>(
    m: &M,
    sum: (u32, u32),
    voices: Seq<voice::Voice>,
    bus_volume: Seq<u32>,
    n: nat,
)
    requires
        n <= voices.len(),
        forall|i: int| 0 <= i < voices.len() ==> (#[trigger] voices[i]).sound is None,
    ensures
        voice::with_voices(m, sum, voices, bus_volume, n) == sum,
    decreases n,
{
    if n > 0 {
        lemma_idle_pool_is_silent(m, sum, voices, bus_volume, (n - 1) as nat);
        assert(voices[n - 1].sound is None);
    }
}

/// A song that is ready and whose planned time lies before the end of the buffer is silent in that
/// buffer up to the frame of its time, and the plan is over; a song that is ready without a plan,
/// or before its time, is silent in the whole buffer and stays ready. Only the song, its source and
/// the plan change as it is rendered.
pub proof fn law_ready_songs_wait_for_their_plan<S: MusicFrameSource, M: SampleMath>(
    m: &M,
    start: u64,
    end: u64,
    before: Mixer<S>,
    after: Mixer<S>,
    buf: Seq<u32>,
    outcome: MusicRenderOutcome,
)
    requires
        before.music_rendered(m, start, end, after, buf, outcome),
        before.music_voice.state == MusicState::Ready,
        buf.len() % 2 == 0,
    ensures
        before.music_schedule.pending_host_time_ns matches Some(target) ==> target < end ==> {
            let frame = mixer::due_frame(target, start, before.sample_rate);
            &&& after.music_schedule.pending_host_time_ns is None
            &&& !after.music_schedule.deferred
            &&& forall|i: int| 0 <= i < buf.len() && i < 2 * frame ==> buf[i] == SILENCE
        },
        before.music_schedule.pending_host_time_ns is None
            || before.music_schedule.pending_host_time_ns->0 >= end ==> {
            &&& after.music_schedule == before.music_schedule
            &&& after.music_voice == (MusicVoice {
                pending_discontinuity: false,
                ..before.music_voice
            })
            &&& forall|i: int| 0 <= i < buf.len() ==> buf[i] == SILENCE
            &&& outcome.rendered_frames == 0
            &&& outcome.discontinuity == before.music_voice.pending_discontinuity
        },
        after.bgm_voice == before.bgm_voice,
        after.voices == before.voices,
        after.buses == before.buses,
        after.events == before.events,
        after.music_clock == before.music_clock,
{
    let log = after.music_source.events().skip(before.music_source.events().len() as int);
    assert(log.skip(0) =~= log);
    match before.music_schedule.due(start, end, before.sample_rate, MusicState::Ready) {
        None => {
            reveal(mixer::voice_rendered);
            lemma_ready_songs_rest(before.music_voice, m, buf.len() / 2, log);
        },
        Some(frame) => {
            let split = if frame > buf.len() / 2 {
                buf.len() as int
            } else {
                2 * frame
            };
            law_planned_songs_are_silent_until_they_start(
                m,
                before.music_voice,
                log,
                buf,
                split,
                outcome,
                after.music_voice,
            );
        },
    }
}

/// A song that is still being loaded when a buffer is asked for is first asked whether it is ready.
/// If it is, a plan whose time lies before the end of the buffer is carried out in that very
/// buffer; if not, the plan is kept and known to be late. A plan for later is kept either way.
pub proof fn law_loaded_songs_start_in_the_same_buffer<S: MusicFrameSource, M: SampleMath>(
    m: &M,
    start: u64,
    end: u64,
    before: Mixer<S>,
    after: Mixer<S>,
    buf: Seq<u32>,
    outcome: MusicRenderOutcome,
    target: u64,
)
    requires
        before.music_rendered(m, start, end, after, buf, outcome),
        before.music_voice.state == MusicState::Loading,
        before.music_schedule.pending_host_time_ns == Some(target),
    ensures
        ({
            let first = before.music_source.events().len() as int;
            let answer = after.music_source.events()[first];
            &&& after.music_source.events().len() > first
            &&& answer is Ready
            &&& target >= end ==> after.music_schedule == before.music_schedule
            &&& target < end && answer == SourceEvent::Ready(true) ==> {
                &&& after.music_schedule.pending_host_time_ns is None
                &&& !after.music_schedule.deferred
                &&& exists|log: Seq<SourceEvent>, split: int| #[trigger]
                    mixer::rendered_around_start(
                        m,
                        before.music_voice,
                        log,
                        buf,
                        split,
                        outcome,
                        after.music_voice,
                    ) && (target <= start ==> split == 0)
            }
            &&& target < end && answer == SourceEvent::Ready(false) ==> {
                &&& after.music_schedule.pending_host_time_ns == Some(target)
                &&& after.music_schedule.deferred
            }
        }),
{
    let first = before.music_source.events().len() as int;
    let log = after.music_source.events().skip(first);
    assert(log[0] == after.music_source.events()[first]);
    if target < end && log[0] == SourceEvent::Ready(true) {
        let frame = mixer::due_frame(target, start, before.sample_rate);
        let split = if frame > buf.len() / 2 {
            buf.len() as int
        } else {
            2 * frame
        };
        assert(mixer::rendered_around_start(
            m,
            before.music_voice,
            log.skip(1),
            buf,
            split,
            outcome,
            after.music_voice,
        ));
    }
}

/// A buffer is mixed from where the mixer is: its voices, its schedule, its buses and its count of
/// clipped samples go in, what the frames make of them comes out, and the output is what they give.
/// Samples that make no whole frame are left as they are.
pub proof fn law_buffers_are_mixed_from_where_the_mixer_is<S: MusicFrameSource, M: SampleMath>(
    m: &M,
    before: Mixer<S>,
    span: MixSpan,
    music: Seq<u32>,
    out: Seq<u32>,
    parts: Seq<BgmPart>,
    after: Mixer<S>,
)
    requires
        before.mixed_with(m, span, music, out, parts, after),
    ensures
        ({
            let n = music.len() / 2;
            let begun = MixState {
                pool: before.voices@,
                entries: before.se_schedule.entries@,
                buses: before.buses.buses@,
                clipped: before.clipper.engaged_count,
                refused: Seq::empty(),
                out: Seq::empty(),
            };
            let s = begun.after_frames(
                m,
                span,
                music,
                mixer::samples_in(parts, parts.len()),
                n,
            );
            &&& after.voices@ == s.pool
            &&& after.se_schedule.entries@ == s.entries
            &&& after.buses.buses@ == s.buses
            &&& after.clipper.engaged_count == s.clipped
            &&& after.clipper.threshold == before.clipper.threshold
            &&& mixer::given_back(before.reclaim.producer, after.reclaim.producer, s.refused)
            &&& out == s.out + music.skip(2 * n as int)
            &&& after.bgm_source.events() == before.bgm_source.events() + mixer::answers_in(
                parts,
                parts.len(),
            )
        }),
        after.music_voice == before.music_voice,
        after.music_source == before.music_source,
        after.sample_rate == before.sample_rate,
        after.underrun_accumulator == before.underrun_accumulator,
{
}

/// A buffer is rendered in turn: the commands, the song, what is told of the song, the mix, and
/// what is told of the mix. All but the commands happen at the rate, with the ordinary ramp and
/// with the threshold that the commands left, and the buffer ends where its frames do.
pub proof fn law_buffers_are_rendered_in_turn<S: MusicFrameSource, M: SampleMath>(
    m: &M,
    before: Mixer<S>,
    start: u64,
    out: Seq<u32>,
    after: Mixer<S>,
    steps: RenderSteps<S>,
)
    requires
        before.rendered_through(m, start, out, after, steps),
        start + schedule::duration_of(out.len() / 2, steps.drained.sample_rate as nat)
            <= u64::MAX,
    ensures
        ({
            let mixer = steps.drained;
            let end = (start + schedule::duration_of(
                out.len() / 2,
                mixer.sample_rate as nat,
            )) as u64;
            let span = MixSpan {
                start_ns: start,
                end_ns: end,
                sample_rate: mixer.sample_rate,
                ramp_samples: ramp::samples_in_ms(m, mixer.default_ramp_ms, mixer.sample_rate),
                threshold: mixer.clipper.threshold,
            };
            &&& exists|chain: Seq<Mixer<S>>| before.drained_through(m, mixer, chain)
            &&& mixer.music_rendered(m, start, end, steps.sung, steps.music, steps.outcome)
            &&& steps.sung.music_reported(steps.outcome, steps.reported)
            &&& exists|parts: Seq<BgmPart>|
                steps.reported.mixed_with(m, span, steps.music, out, parts, steps.mixed)
            &&& steps.mixed.finished(mixer.clipper.engaged_count, end, after)
            &&& steps.music.len() == out.len()
        }),
{
}

} // verus!
