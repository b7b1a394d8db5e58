//! What becomes of a song: how the controls of a [`MusicVoice`] act, and what a listener gets of
//! the frames that its source delivers.

use vstd::prelude::*;

#[allow(unused_imports)]
use crate::config::Config;
#[allow(unused_imports)]
use crate::math;
#[allow(unused_imports)]
use crate::math::{SampleMath, SILENCE};
#[allow(unused_imports)]
use crate::music;
#[allow(unused_imports)]
use crate::music::{
    ChunkRun, MusicRenderOutcome, MusicState, MusicVoice, PendingTransition, RenderPhase,
    RenderRun, SourceEvent,
};
#[allow(unused_imports)]
use crate::ramp;
#[allow(unused_imports)]
use crate::ramp::Ramp;

verus! {

/// How many frames a fade of a song takes.
pub open spec fn fade_length<M: SampleMath>(m: &M, voice: MusicVoice) -> u32 {
    ramp::samples_in_ms(m, Config::DEFAULT_RAMP_MS, voice.sample_rate)
}

/// How many frames are left to the end of the loop, if that is so near that the next frame starts
/// the way back.
pub open spec fn loop_fade<M: SampleMath>(m: &M, voice: MusicVoice) -> Option<int> {
    match voice.loop_region {
        Some(region) => {
            let left = region.1 - voice.position_frames;
            if voice.pending_settle == PendingTransition::Nothing && 0 < left <= fade_length(
                m,
                voice,
            ) {
                Some(left)
            } else {
                None
            }
        },
        None => None,
    }
}

/// The gain of the song after its next frame. Where that frame starts the way back to the start of
/// the loop, the gain is to be silent with the last frame of the loop.
pub open spec fn gain_after<M: SampleMath>(m: &M, voice: MusicVoice) -> Ramp {
    match loop_fade(m, voice) {
        Some(left) => voice.gain.aimed_at(m, SILENCE, left as u32).advanced(m),
        None => voice.gain.advanced(m),
    }
}

/// What happens as soon as the gain settles, once the next frame has been rendered.
pub open spec fn pending_after<M: SampleMath>(m: &M, voice: MusicVoice) -> PendingTransition {
    match (loop_fade(m, voice), voice.loop_region) {
        (Some(left), Some(region)) => PendingTransition::LoopWrap(region.0),
        _ => voice.pending_settle,
    }
}

/// Each frame of a song gives one sample to either channel, which is the sample of that channel
/// times the gain of the frame.
pub proof fn law_a_frame_keeps_its_channels<M: SampleMath>(
    c: ChunkRun,
    m: &M,
    l: u32,
    r: u32,
    got: bool,
)
    ensures
        c.after_frame(m, l, r, got).out == c.out.push(
            math::product_of(m, l, gain_after(m, c.voice).current),
        ).push(math::product_of(m, r, gain_after(m, c.voice).current)),
{
    reveal(ChunkRun::after_frame);
}

/// A frame that the source has delivered moves the song on by one; one for which it had nothing
/// leaves the song where it is and counts as missing. Nothing else happens until the gain has
/// settled and something waits for that. Then a song that was to pause is paused where it is, one
/// that was to stop is ready at its start, and one at the end of its loop goes on from the start of
/// the loop, where the gain comes back from where it is to the volume of the song. What the source
/// delivered beyond that frame is not used.
pub proof fn law_a_frame_moves_the_song<M: SampleMath>(
    c: ChunkRun,
    m: &M,
    l: u32,
    r: u32,
    got: bool,
)
    requires
        c.outcome.rendered_frames < usize::MAX,
        c.outcome.underrun_frames < usize::MAX,
        c.voice.position_frames < u64::MAX,
    ensures
        ({
            let d = c.after_frame(m, l, r, got);
            let gain = gain_after(m, c.voice);
            let pending = pending_after(m, c.voice);
            let position = c.voice.position_frames + if got {
                1int
            } else {
                0
            };
            &&& d.outcome.rendered_frames == c.outcome.rendered_frames + 1
            &&& d.outcome.underrun_frames == c.outcome.underrun_frames + if got {
                0int
            } else {
                1
            }
            &&& d.outcome.ended == c.outcome.ended
            &&& d.voice.loop_region == c.voice.loop_region
            &&& d.voice.target_volume == c.voice.target_volume
            &&& d.voice.sample_rate == c.voice.sample_rate
            &&& d.voice.pending_discontinuity == c.voice.pending_discontinuity
            &&& d.stopped <==> gain.remaining_samples == 0 && pending != PendingTransition::Nothing
            &&& d.restart is Some <==> d.stopped && pending is LoopWrap
            &&& !d.stopped ==> {
                &&& d.voice.state == c.voice.state
                &&& d.voice.position_frames == position
                &&& d.voice.gain == gain
                &&& d.voice.pending_settle == pending
                &&& d.outcome.looped == c.outcome.looped
                &&& d.outcome.discontinuity == c.outcome.discontinuity
            }
            &&& d.stopped ==> d.voice.pending_settle == PendingTransition::Nothing
            &&& d.stopped && pending == PendingTransition::Pause ==> {
                &&& d.voice.state == MusicState::Paused
                &&& d.voice.position_frames == position
                &&& d.voice.gain == gain
                &&& d.outcome.looped == c.outcome.looped
                &&& d.outcome.discontinuity == c.outcome.discontinuity
            }
            &&& d.stopped && pending == PendingTransition::Stop ==> {
                &&& d.voice.state == MusicState::Ready
                &&& d.voice.position_frames == 0
                &&& d.voice.gain == gain
                &&& d.outcome.looped == c.outcome.looped
                &&& d.outcome.discontinuity
            }
            &&& pending matches PendingTransition::LoopWrap(start) ==> d.stopped ==> {
                &&& d.restart == Some(start)
                &&& d.voice.state == c.voice.state
                &&& d.voice.position_frames == start
                &&& d.voice.loop_restart_frame == start
                &&& d.voice.gain == gain.aimed_at(
                    m,
                    c.voice.target_volume,
                    fade_length(m, c.voice),
                )
                &&& d.outcome.looped
                &&& d.outcome.discontinuity
            }
            &&& d.restart is None ==> d.voice.loop_restart_frame == c.voice.loop_restart_frame
        }),
{
    reveal(ChunkRun::after_frame);
}

/// A chunk that has stopped takes no more of what the source delivered.
pub proof fn law_a_stopped_chunk_takes_no_more<M: SampleMath>(
    c: ChunkRun,
    m: &M,
    raw: Seq<u32>,
    count: usize,
    n: nat,
)
    ensures
        ({
            let before = c.after_frames(m, raw, count, n);
            let after = c.after_frames(m, raw, count, n + 1);
            &&& before.stopped ==> after == before
            &&& !before.stopped ==> after == before.after_frame(
                m,
                raw[2 * n as int],
                raw[2 * n as int + 1],
                n < count,
            )
        }),
{
}

proof fn lemma_chunk_samples<M: SampleMath>(
    c: ChunkRun,
    m: &M,
    raw: Seq<u32>,
    count: usize,
    n: nat,
)
    requires
        c.out.len() == 0,
        !c.stopped,
    ensures
        ({
            let d = c.after_frames(m, raw, count, n);
            &&& d.out.len() % 2 == 0
            &&& d.out.len() <= 2 * n
            &&& !d.stopped ==> d.out.len() == 2 * n
            &&& forall|i: int|
                #![trigger d.out[2 * i]]
                0 <= i && 2 * i < d.out.len() ==> {
                    let gain = gain_after(m, c.after_frames(m, raw, count, i as nat).voice).current;
                    &&& d.out[2 * i] == math::product_of(m, raw[2 * i], gain)
                    &&& d.out[2 * i + 1] == math::product_of(m, raw[2 * i + 1], gain)
                }
        }),
    decreases n,
{
    if n > 0 {
        lemma_chunk_samples(c, m, raw, count, (n - 1) as nat);
        let before = c.after_frames(m, raw, count, (n - 1) as nat);
        if !before.stopped {
            law_a_frame_keeps_its_channels(
                before,
                m,
                raw[2 * (n - 1)],
                raw[2 * (n - 1) + 1],
                n - 1 < count,
            );
            let d = c.after_frames(m, raw, count, n);
            assert forall|i: int|
                #![trigger d.out[2 * i]]
                0 <= i && 2 * i < d.out.len() implies {
                let gain = gain_after(m, c.after_frames(m, raw, count, i as nat).voice).current;
                &&& d.out[2 * i] == math::product_of(m, raw[2 * i], gain)
                &&& d.out[2 * i + 1] == math::product_of(m, raw[2 * i + 1], gain)
            } by {
                if i < n - 1 {
                    assert(d.out[2 * i] == before.out[2 * i]);
                }
            }
        }
    }
}

/// Whatever is heard of a song was delivered by its source. What has been rendered stays; only a
/// read adds to it, in whole frames and no more than were asked for; and sample `i` of what it adds
/// is sample `i` of what the source left in the buffer, times the gain of its frame, which is the
/// same for both channels.
pub proof fn law_samples_come_from_the_source<M: SampleMath>(
    voice: MusicVoice,
    m: &M,
    frames: nat,
    log: Seq<SourceEvent>,
    e: SourceEvent,
)
    ensures
        ({
            let a = voice.rendered(m, frames, log);
            let b = voice.rendered(m, frames, log.push(e));
            let old_len = a.out.len() as int;
            let added = (b.out.len() - old_len) / 2;
            &&& b.out.len() == old_len + 2 * added
            &&& b.out.take(old_len) == a.out
            &&& added > 0 ==> {
                &&& a.phase is Reading
                &&& e is Read
                &&& added <= a.phase->Reading_0
                &&& e->before == music::silent_frames(a.phase->Reading_0)
            }
            &&& e matches SourceEvent::Read { before, after, count } ==> forall|i: int|
                #![trigger after[2 * i]]
                0 <= i < added ==> {
                    let gain = gain_after(
                        m,
                        a.chunk().after_frames(m, after, count, i as nat).voice,
                    ).current;
                    &&& b.out[old_len + 2 * i] == math::product_of(m, after[2 * i], gain)
                    &&& b.out[old_len + 2 * i + 1] == math::product_of(m, after[2 * i + 1], gain)
                }
        }),
{
    reveal(RenderRun::after);
    assert(log.push(e).drop_last() =~= log);
    let a = voice.rendered(m, frames, log);
    let b = voice.rendered(m, frames, log.push(e));
    assert(b == a.after(m, frames, e));
    match (a.phase, e) {
        (RenderPhase::Reading(n), SourceEvent::Read { before, after, count }) => {
            lemma_chunk_samples(a.chunk(), m, after, count, n);
            let d = a.chunk().after_frames(m, after, count, n);
            if before == music::silent_frames(n) {
                assert(b.out == a.out + d.out);
                assert(b.out.take(a.out.len() as int) =~= a.out);
                assert forall|i: int|
                    #![trigger after[2 * i]]
                    0 <= i && 2 * i < d.out.len() implies {
                    let gain = gain_after(
                        m,
                        a.chunk().after_frames(m, after, count, i as nat).voice,
                    ).current;
                    &&& b.out[a.out.len() + 2 * i] == math::product_of(m, after[2 * i], gain)
                    &&& b.out[a.out.len() + 2 * i + 1] == math::product_of(
                        m,
                        after[2 * i + 1],
                        gain,
                    )
                } by {
                    assert(b.out[a.out.len() + 2 * i] == d.out[2 * i]);
                }
            } else {
                assert(b.out.take(a.out.len() as int) =~= a.out);
            }
        },
        _ => {
            assert(b.out == a.out);
            assert(b.out.take(a.out.len() as int) =~= a.out);
        },
    }
}

/// Whether two buffers of interleaved frames are alike but for their channels, which are exchanged.
pub open spec fn exchanged(a: Seq<u32>, b: Seq<u32>) -> bool {
    &&& a.len() == b.len()
    &&& forall|i: int|
        #![trigger a[2 * i]]
        #![trigger b[2 * i]]
        0 <= i && 2 * i + 1 < a.len() ==> a[2 * i] == b[2 * i + 1] && a[2 * i + 1] == b[2 * i]
}

/// Whether two sources answer alike but for the channels of what they deliver, which are exchanged.
pub open spec fn answer_exchanged(a: Seq<SourceEvent>, b: Seq<SourceEvent>) -> bool {
    &&& a.len() == b.len()
    &&& forall|i: int| 0 <= i < a.len() ==> event_exchanged(#[trigger] a[i], b[i])
}

/// Whether `b` is the answer `a` with the channels of what it delivers exchanged.
pub open spec fn event_exchanged(a: SourceEvent, b: SourceEvent) -> bool {
    match (a, b) {
        (
            SourceEvent::Read { before, after, count },
            SourceEvent::Read { before: before_b, after: after_b, count: count_b },
        ) => {
            &&& before_b == before
            &&& count_b == count
            &&& after.len() == before.len()
            &&& exchanged(after, after_b)
        },
        _ => a == b && !(a is Read),
    }
}

proof fn lemma_exchanged_frame<M: SampleMath>(
    c: ChunkRun,
    d: ChunkRun,
    m: &M,
    l: u32,
    r: u32,
    got: bool,
)
    requires
        d == (ChunkRun { out: d.out, ..c }),
        exchanged(c.out, d.out),
        c.out.len() % 2 == 0,
    ensures
        ({
            let x = c.after_frame(m, l, r, got);
            let y = d.after_frame(m, r, l, got);
            &&& y == ChunkRun { out: y.out, ..x }
            &&& exchanged(x.out, y.out)
            &&& x.out.len() % 2 == 0
        }),
{
    reveal(ChunkRun::after_frame);
    let x = c.after_frame(m, l, r, got);
    let y = d.after_frame(m, r, l, got);
    assert forall|i: int|
        #![trigger x.out[2 * i]]
        #![trigger y.out[2 * i]]
        0 <= i && 2 * i + 1 < x.out.len() implies x.out[2 * i] == y.out[2 * i + 1] && x.out[2 * i
        + 1] == y.out[2 * i] by {
        if 2 * i + 1 < c.out.len() {
            assert(c.out[2 * i] == d.out[2 * i + 1]);
        }
    }
}

proof fn lemma_exchanged_chunk<M: SampleMath>(
    c: ChunkRun,
    d: ChunkRun,
    m: &M,
    raw: Seq<u32>,
    other: Seq<u32>,
    count: usize,
    n: nat,
)
    requires
        d == (ChunkRun { out: d.out, ..c }),
        exchanged(c.out, d.out),
        c.out.len() % 2 == 0,
        exchanged(raw, other),
        2 * n <= raw.len(),
    ensures
        ({
            let x = c.after_frames(m, raw, count, n);
            let y = d.after_frames(m, other, count, n);
            &&& y == ChunkRun { out: y.out, ..x }
            &&& exchanged(x.out, y.out)
            &&& x.out.len() % 2 == 0
        }),
    decreases n,
{
    if n > 0 {
        lemma_exchanged_chunk(c, d, m, raw, other, count, (n - 1) as nat);
        let x = c.after_frames(m, raw, count, (n - 1) as nat);
        let y = d.after_frames(m, other, count, (n - 1) as nat);
        let i = n - 1;
        assert(raw[2 * i] == other[2 * i + 1]);
        if !x.stopped {
            lemma_exchanged_frame(x, y, m, raw[2 * i], raw[2 * i + 1], i < count);
        }
    }
}

/// A song with its channels exchanged sounds the same with its channels exchanged: nothing of what
/// is rendered from one channel depends on the other, and nothing else of the song on either.
pub proof fn law_channels_are_rendered_apart<M: SampleMath>(
    voice: MusicVoice,
    m: &M,
    frames: nat,
    log: Seq<SourceEvent>,
    other: Seq<SourceEvent>,
)
    requires
        answer_exchanged(log, other),
    ensures
        ({
            let a = voice.rendered(m, frames, log);
            let b = voice.rendered(m, frames, other);
            &&& exchanged(a.out, b.out)
            &&& b.voice == a.voice
            &&& b.outcome == a.outcome
            &&& b.phase == a.phase
            &&& a.out.len() % 2 == 0
        }),
    decreases log.len(),
{
    if log.len() > 0 {
        law_channels_are_rendered_apart(voice, m, frames, log.drop_last(), other.drop_last());
        let a = voice.rendered(m, frames, log.drop_last());
        let b = voice.rendered(m, frames, other.drop_last());
        assert(event_exchanged(log[log.len() - 1], other[log.len() - 1]));
        reveal(RenderRun::after);
        match (a.phase, log.last(), other.last()) {
            (
                RenderPhase::Reading(n),
                SourceEvent::Read { before, after, count },
                SourceEvent::Read { before: before_b, after: after_b, count: count_b },
            ) => {
                if before == music::silent_frames(n) {
                    lemma_exchanged_chunk(a.chunk(), b.chunk(), m, after, after_b, count, n);
                    let x = a.chunk().after_frames(m, after, count, n);
                    let y = b.chunk().after_frames(m, after_b, count, n);
                    let p = a.out + x.out;
                    let q = b.out + y.out;
                    assert forall|i: int|
                        #![trigger p[2 * i]]
                        #![trigger q[2 * i]]
                        0 <= i && 2 * i + 1 < p.len() implies p[2 * i] == q[2 * i + 1] && p[2 * i
                        + 1] == q[2 * i] by {
                        if 2 * i + 1 < a.out.len() {
                            assert(a.out[2 * i] == b.out[2 * i + 1]);
                        } else {
                            let j = i - a.out.len() as int / 2;
                            assert(2 * i - a.out.len() == 2 * j);
                            assert(x.out[2 * j] == y.out[2 * j + 1]);
                        }
                    }
                }
            },
            _ => {},
        }
    }
}

/// A song that is stopped goes back to its start and can be started again, whatever it was doing.
/// One that is paused does so at once. One that plays plays on while it fades out, and is ready at
/// its start with the last frame of the fade, or with the next frame where fades take no time.
pub proof fn law_stopped_songs_are_ready_at_their_start<M: SampleMath>(
    voice: MusicVoice,
    m: &M,
    c: ChunkRun,
    raw: Seq<u32>,
    count: usize,
)
    requires
        !c.stopped,
        c.voice == voice.stopped(m),
    ensures
        voice.state == MusicState::Paused ==> {
            let v = voice.stopped(m);
            &&& v.state == MusicState::Ready
            &&& v.position_frames == 0
            &&& v.pending_discontinuity
            &&& v.gain == Ramp::resting_at(SILENCE)
            &&& v.loop_region == voice.loop_region
            &&& v.target_volume == voice.target_volume
            &&& v.sample_rate == voice.sample_rate
            &&& v.loop_restart_frame == voice.loop_restart_frame
            &&& v.pending_settle == voice.pending_settle
        },
        voice.state == MusicState::Playing ==> {
            let v = voice.stopped(m);
            let fade = fade_length(m, voice) as nat;
            let last = c.after_frames(
                m,
                raw,
                count,
                if fade == 0 {
                    1
                } else {
                    fade
                },
            );
            &&& v == MusicVoice { gain: v.gain, pending_settle: v.pending_settle, ..voice }
            &&& v.gain == voice.gain.aimed_at(m, SILENCE, fade_length(m, voice))
            &&& last.stopped
            &&& last.voice.state == MusicState::Ready
            &&& last.voice.position_frames == 0
            &&& last.voice.gain.current == SILENCE
            &&& last.outcome.discontinuity
            &&& last.restart is None
        },
        voice.state == MusicState::Ready || voice.state == MusicState::Loading ==> voice.stopped(m)
            == voice,
{
    if voice.state == MusicState::Playing {
        let fade = fade_length(m, voice) as nat;
        reveal(ChunkRun::after_frame);
        assert(c.after_frames(m, raw, count, 0) == c);
        if fade == 0 {
            reveal_with_fuel(ChunkRun::after_frames, 2);
        } else {
            music::law_fades_settle_on_the_frame(c, m, voice, true, raw, count, fade);
            if fade > 1 {
                music::law_fades_settle_on_the_frame(c, m, voice, true, raw, count, (fade
                    - 1) as nat);
            }
            lemma_stop_is_pending(c, m, raw, count, (fade - 1) as nat);
        }
    }
}

proof fn lemma_stop_is_pending<M: SampleMath>(
    c: ChunkRun,
    m: &M,
    raw: Seq<u32>,
    count: usize,
    n: nat,
)
    requires
        c.voice.pending_settle == PendingTransition::Stop,
    ensures
        ({
            let d = c.after_frames(m, raw, count, n);
            !d.stopped ==> d.voice.pending_settle == PendingTransition::Stop
        }),
    decreases n,
{
    reveal(ChunkRun::after_frame);
    if n > 0 {
        lemma_stop_is_pending(c, m, raw, count, (n - 1) as nat);
    }
}

/// A song that is ready starts from where it is, and its gain rises from silence to its volume over
/// the length of a fade; in every other state a start changes nothing.
pub proof fn law_only_ready_songs_are_started<M: SampleMath>(voice: MusicVoice, m: &M)
    ensures
        voice.state != MusicState::Ready ==> voice.played(m) == voice,
        voice.state == MusicState::Ready ==> voice.played(m) == (MusicVoice {
            state: MusicState::Playing,
            pending_settle: PendingTransition::Nothing,
            gain: Ramp::resting_at(SILENCE).aimed_at(
                m,
                voice.target_volume,
                fade_length(m, voice),
            ),
            ..voice
        }),
{
}

/// A song that plays and is paused plays on where it is until it has faded from its present gain to
/// silence; in every other state a pause changes nothing. A pause takes the place of whatever else
/// was to happen.
pub proof fn law_only_playing_songs_are_paused<M: SampleMath>(voice: MusicVoice, m: &M)
    ensures
        voice.state != MusicState::Playing ==> voice.paused(m) == voice,
        voice.state == MusicState::Playing ==> voice.paused(m) == (MusicVoice {
            pending_settle: PendingTransition::Pause,
            gain: voice.gain.aimed_at(m, SILENCE, fade_length(m, voice)),
            ..voice
        }),
{
}

/// A song that is loaded and resumed plays from the given frame, whatever it was doing: what was
/// pending is forgotten, the jump is told of, and the gain rises from silence as it does for a
/// start.
pub proof fn law_loaded_songs_are_resumed_anywhere<M: SampleMath>(
    voice: MusicVoice,
    m: &M,
    frames: u64,
)
    requires
        voice.state != MusicState::Loading,
    ensures
        ({
            let v = voice.resumed_at(m, frames);
            &&& v.state == MusicState::Playing
            &&& v.position_frames == frames
            &&& v.pending_discontinuity
            &&& v.pending_settle == PendingTransition::Nothing
            &&& v.loop_region == voice.loop_region
            &&& v.target_volume == voice.target_volume
            &&& v.sample_rate == voice.sample_rate
            &&& v.loop_restart_frame == voice.loop_restart_frame
            &&& v.gain == (MusicVoice { state: MusicState::Ready, ..voice }).played(m).gain
        }),
{
}

/// A seek moves the song and forgets what was pending, and the jump is told of; it starts nothing,
/// stops nothing and leaves the gain alone. Of several seeks the last one counts.
pub proof fn law_the_last_seek_counts(voice: MusicVoice, first: u64, last: u64)
    ensures
        voice.sought(first).sought(last) == voice.sought(last),
        voice.sought(last).position_frames == last,
        voice.sought(last).pending_discontinuity,
        voice.sought(last).pending_settle == PendingTransition::Nothing,
        voice.sought(last).state == voice.state,
        voice.sought(last).gain == voice.gain,
        voice.sought(last).loop_region == voice.loop_region,
        voice.sought(last).target_volume == voice.target_volume,
        voice.sought(last).sample_rate == voice.sample_rate,
        voice.sought(last).loop_restart_frame == voice.loop_restart_frame,
{
}

/// The next song starts afresh: loading, at its start, silent, without a loop and with nothing
/// pending. The volume, the rate and the frame of the latest loop are kept.
pub proof fn law_prepared_songs_start_afresh(voice: MusicVoice)
    ensures
        ({
            let v = voice.prepared();
            &&& v.state == MusicState::Loading
            &&& v.position_frames == 0
            &&& v.loop_region is None
            &&& v.gain == Ramp::resting_at(SILENCE)
            &&& v.pending_settle == PendingTransition::Nothing
            &&& !v.pending_discontinuity
            &&& v.target_volume == voice.target_volume
            &&& v.sample_rate == voice.sample_rate
            &&& v.loop_restart_frame == voice.loop_restart_frame
        }),
{
}

/// A new volume is remembered in every state. It is moved to at once, from the present gain, only
/// while the song plays undisturbed: a fade that is under way goes on. Neither the loop nor the
/// volume moves the song or changes what it does.
pub proof fn law_volumes_do_not_disturb_fades<M: SampleMath>(
    voice: MusicVoice,
    m: &M,
    volume: u32,
    region: (u64, u64),
)
    ensures
        ({
            let v = voice.at_volume(m, volume);
            &&& v == MusicVoice { target_volume: volume, gain: v.gain, ..voice }
            &&& v.gain == if voice.state == MusicState::Playing && voice.pending_settle
                == PendingTransition::Nothing {
                voice.gain.aimed_at(m, volume, fade_length(m, voice))
            } else {
                voice.gain
            }
        }),
        region.0 < region.1 ==> voice.looping(Some(region)) == (MusicVoice {
            loop_region: Some(region),
            ..voice
        }),
        voice.looping(None) == (MusicVoice { loop_region: None, ..voice }),
{
}

/// Rendering tells of a pending jump and then forgets it. It asks a song that is being loaded only
/// whether it is ready, and one that plays first for its length; a song in another state, or an
/// empty buffer, asks for nothing.
pub proof fn law_rendering_begins_with_the_state<M: SampleMath>(
    voice: MusicVoice,
    m: &M,
    frames: nat,
)
    ensures
        ({
            let run = voice.rendered(m, frames, Seq::empty());
            &&& run.out.len() == 0
            &&& run.voice == MusicVoice { pending_discontinuity: false, ..voice }
            &&& run.outcome == MusicRenderOutcome {
                rendered_frames: 0,
                underrun_frames: 0,
                ended: false,
                looped: false,
                discontinuity: voice.pending_discontinuity,
            }
            &&& run.phase is Waiting <==> voice.state == MusicState::Loading
            &&& run.phase is Asking <==> voice.state == MusicState::Playing && frames > 0
            &&& !(run.phase is Waiting) && !(run.phase is Asking) ==> run.phase is Done
        }),
{
}

/// A song that is being loaded becomes ready as soon as its source is, and not before; nothing is
/// rendered of it by then, and it does not start by itself.
pub proof fn law_loaded_songs_become_ready<M: SampleMath>(
    run: RenderRun,
    m: &M,
    frames: nat,
    ready: bool,
)
    requires
        run.phase is Waiting,
        run.voice.state == MusicState::Loading,
    ensures
        ({
            let next = run.after(m, frames, SourceEvent::Ready(ready));
            &&& next.phase is Done
            &&& next.out == run.out
            &&& next.outcome == run.outcome
            &&& next.voice == MusicVoice { state: next.voice.state, ..run.voice }
            &&& next.voice.state == MusicState::Ready <==> ready
            &&& next.voice.state == MusicState::Loading <==> !ready
        }),
{
    reveal(RenderRun::after);
}

/// A song ends exactly when it has come to its length: then it is ready where it is, silent, and
/// nothing is pending. Until then the source is asked for as many frames as the buffer still
/// wants, or as are left of the song, or as are left of the loop before its end, whichever is
/// least.
pub proof fn law_songs_end_with_their_length<M: SampleMath>(
    run: RenderRun,
    m: &M,
    frames: nat,
    total: Option<u64>,
)
    requires
        run.phase is Asking,
        run.out.len() < 2 * frames,
        run.out.len() % 2 == 0,
    ensures
        ({
            let next = run.after(m, frames, SourceEvent::Total(total));
            let v = run.voice;
            let over = total matches Some(t) && t <= v.position_frames;
            &&& next.out == run.out
            &&& over ==> {
                &&& next.phase is Done
                &&& next.outcome == MusicRenderOutcome { ended: true, ..run.outcome }
                &&& next.voice == MusicVoice {
                    state: MusicState::Ready,
                    gain: Ramp::resting_at(SILENCE),
                    pending_settle: PendingTransition::Nothing,
                    ..v
                }
            }
            &&& !over ==> {
                let n = next.phase->Reading_0;
                let wanted = frames - run.out.len() as int / 2;
                &&& next.phase is Reading
                &&& next.outcome == run.outcome
                &&& next.voice == v
                &&& 0 < n <= wanted
                &&& total matches Some(t) ==> v.position_frames + n <= t
                &&& v.loop_region matches Some(region) ==> v.position_frames < region.1
                    ==> v.position_frames + n <= region.1
                &&& {
                    ||| n == wanted
                    ||| total matches Some(t) && v.position_frames + n == t
                    ||| v.loop_region matches Some(region) && v.position_frames + n == region.1
                }
            }
        }),
{
    reveal(RenderRun::after);
}

/// After a read the song goes on as long as it plays and the buffer wants more. Where it has gone
/// back to the start of its loop, the source is first asked for the frames from there on.
pub proof fn law_loops_are_read_from_their_start<M: SampleMath>(
    run: RenderRun,
    m: &M,
    frames: nat,
    n: nat,
    raw: Seq<u32>,
    count: usize,
)
    requires
        run.phase == RenderPhase::Reading(n),
    ensures
        ({
            let c = run.chunk().after_frames(m, raw, count, n);
            let e = SourceEvent::Read { before: music::silent_frames(n), after: raw, count };
            let next = run.after(m, frames, e);
            &&& next.voice == c.voice
            &&& next.outcome == c.outcome
            &&& c.restart matches Some(start) ==> {
                let sought = next.after(m, frames, SourceEvent::Seek(start));
                &&& next.phase == RenderPhase::Seeking(start)
                &&& sought.voice == next.voice
                &&& sought.outcome == next.outcome
                &&& sought.out == next.out
                &&& sought.phase is Asking <==> next.voice.state == MusicState::Playing
                    && next.out.len() < 2 * frames
                &&& sought.phase is Asking || sought.phase is Done
            }
            &&& c.restart is None ==> {
                &&& next.phase is Asking <==> next.voice.state == MusicState::Playing
                    && next.out.len() < 2 * frames
                &&& next.phase is Asking || next.phase is Done
            }
        }),
{
    reveal(RenderRun::after);
}

/// Two parts of a buffer together count what each counts, and whatever happened in one of them has
/// happened; which part comes first does not matter.
pub proof fn law_joined_outcomes_add_up(a: MusicRenderOutcome, b: MusicRenderOutcome)
    requires
        a.rendered_frames + b.rendered_frames <= usize::MAX,
        a.underrun_frames + b.underrun_frames <= usize::MAX,
    ensures
        a.merged(b) == b.merged(a),
        a.merged(b).rendered_frames == a.rendered_frames + b.rendered_frames,
        a.merged(b).underrun_frames == a.underrun_frames + b.underrun_frames,
        a.merged(b).ended <==> a.ended || b.ended,
        a.merged(b).looped <==> a.looped || b.looped,
        a.merged(b).discontinuity <==> a.discontinuity || b.discontinuity,
{
}

} // verus!
