//! The clocks that the audio thread publishes: how much it has rendered, and where the song is.

use vstd::prelude::*;

use crate::music::MusicState;

verus! {

/// The state of the background music.
#[derive(Debug)]
pub struct BgmStatePublisher {
    /// The number of the state.
    pub state: u8,
}

impl BgmStatePublisher {
    /// The state that is published.
    pub open spec fn published(self) -> MusicState {
        if self.state == 1 {
            MusicState::Ready
        } else if self.state == 2 {
            MusicState::Playing
        } else if self.state == 3 {
            MusicState::Paused
        } else {
            MusicState::Loading
        }
    }

    /// Nothing has been loaded yet.
    pub fn new() -> (p: BgmStatePublisher)
        ensures
            p.state == MusicState::Loading.number(),
            p.published() == MusicState::Loading,
    {
        BgmStatePublisher { state: MusicState::Loading.to_u8() }
    }

    /// Publishes a state.
    pub fn write(&mut self, state: MusicState)
        ensures
            final(self).published() == state,
    {
        self.state = state.to_u8();
    }

    /// The state that was published last.
    pub fn read(&self) -> (state: MusicState)
        ensures
            state == self.published(),
    {
        MusicState::from_u8(self.state)
    }
}

impl Default for BgmStatePublisher {
    fn default() -> (p: BgmStatePublisher)
        ensures
            p.published() == MusicState::Loading,
    {
        BgmStatePublisher::new()
    }
}

/// How many frames have been rendered, modulo `2^64`.
#[derive(Debug)]
pub struct RenderedFrameCounter {
    /// The count.
    pub frames: u64,
}

impl RenderedFrameCounter {
    /// Nothing rendered yet.
    pub fn new() -> (c: RenderedFrameCounter)
        ensures
            c.frames == 0,
    {
        RenderedFrameCounter { frames: 0 }
    }

    /// Counts `frames` more frames.
    pub fn add(&mut self, frames: u64)
        ensures
            final(self).frames == old(self).frames.wrapping_add(frames),
    {
        self.frames = self.frames.wrapping_add(frames);
    }

    /// The count.
    pub fn get(&self) -> (frames: u64)
        ensures
            frames == self.frames,
    {
        self.frames
    }

    /// Starts over.
    pub fn reset(&mut self)
        ensures
            final(self).frames == 0,
    {
        self.frames = 0;
    }
}

impl Default for RenderedFrameCounter {
    fn default() -> (c: RenderedFrameCounter)
        ensures
            c.frames == 0,
    {
        RenderedFrameCounter::new()
    }
}

/// Where the song was at some moment.
#[derive(Debug, Clone, Copy, PartialEq, Eq, Structural)]
pub struct MusicClockSnapshot {
    /// The frame of the song that is heard at `host_time_ns`.
    pub song_frames: u64,
    /// The host time, in nanoseconds.
    pub host_time_ns: u64,
    /// Frames per second.
    pub sample_rate: u32,
    /// What the music voice is doing.
    pub state: MusicState,
    /// Whether the song is playing.
    pub is_playing: bool,
    /// A number that changes whenever the position jumps.
    pub generation: u32,
}

impl MusicClockSnapshot {
    /// Nothing published yet.
    pub open spec fn blank() -> MusicClockSnapshot {
        MusicClockSnapshot {
            song_frames: 0,
            host_time_ns: 0,
            sample_rate: 0,
            state: MusicState::Loading,
            is_playing: false,
            generation: 0,
        }
    }
}

/// How often a reader looks for a consistent snapshot before it takes the last one.
pub const MAX_READ_RETRIES: u32 = 16;

/// A reader's search for a consistent snapshot.
///
/// The writer counts up before it changes anything and once more when it is done, so that the
/// count is odd while a change is under way. A reader reads the count, the fields and the count
/// again, and looks no further if the count was even and has not changed.
#[derive(Debug)]
pub struct SnapshotReader {
    /// How many more times the reader may look.
    pub tries_left: u32,
    /// What was read last.
    pub last: MusicClockSnapshot,
}

/// Whether fields that were read between the counts `before` and `after` belong together.
pub open spec fn belong_together(before: u32, after: u32) -> bool {
    before % 2 == 0 && after == before
}

impl SnapshotReader {
    /// A search that has not begun.
    pub fn new() -> (r: SnapshotReader)
        ensures
            r.tries_left == MAX_READ_RETRIES,
            r.last == MusicClockSnapshot::blank(),
    {
        SnapshotReader {
            tries_left: MAX_READ_RETRIES,
            last: MusicClockSnapshot {
                song_frames: 0,
                host_time_ns: 0,
                sample_rate: 0,
                state: MusicState::Loading,
                is_playing: false,
                generation: 0,
            },
        }
    }

    /// Whether to look once more.
    pub fn next_try(&mut self) -> (again: bool)
        ensures
            again == (old(self).tries_left > 0),
            final(self).last == old(self).last,
            final(self).tries_left == if again {
                old(self).tries_left - 1
            } else {
                0
            },
    {
        if self.tries_left == 0 {
            return false;
        }
        self.tries_left = self.tries_left - 1;
        true
    }

    /// Takes note of one look: the count before, the fields, and the count after. Returns whether
    /// the fields are consistent. They are kept either way: a reader that runs out of tries is left
    /// with what it read last, each field of which is valid.
    pub fn offer(&mut self, before: u32, fields: MusicClockSnapshot, after: u32) -> (consistent:
        bool)
        ensures
            consistent == (before % 2 == 0 && after == before),
            consistent == belong_together(before, after),
            final(self).tries_left == old(self).tries_left,
            final(self).last == fields,
    {
        self.last = fields;
        before % 2 == 0 && after == before
    }
}

/// The song clock.
#[derive(Debug)]
pub struct MusicClockPublisher {
    /// Counts the changes, twice each: odd while a change is under way.
    pub seq: u32,
    /// See [`MusicClockSnapshot::song_frames`].
    pub song_frames: u64,
    /// See [`MusicClockSnapshot::host_time_ns`].
    pub host_time_ns: u64,
    /// See [`MusicClockSnapshot::sample_rate`].
    pub sample_rate: u32,
    /// The number of [`MusicClockSnapshot::state`].
    pub state: u8,
    /// See [`MusicClockSnapshot::is_playing`].
    pub is_playing: bool,
    /// See [`MusicClockSnapshot::generation`].
    pub generation: u32,
}

impl MusicClockPublisher {
    /// Whether no change is under way.
    pub open spec fn wf(self) -> bool {
        self.seq % 2 == 0
    }

    /// What is published.
    pub open spec fn published(self) -> MusicClockSnapshot {
        MusicClockSnapshot {
            song_frames: self.song_frames,
            host_time_ns: self.host_time_ns,
            sample_rate: self.sample_rate,
            state: (BgmStatePublisher { state: self.state }).published(),
            is_playing: self.is_playing,
            generation: self.generation,
        }
    }

    /// A clock on which nothing has been published.
    pub fn new() -> (clock: MusicClockPublisher)
        ensures
            clock.wf(),
            clock.seq == 0,
            clock.state == MusicState::Loading.number(),
            clock.published() == MusicClockSnapshot::blank(),
    {
        MusicClockPublisher {
            seq: 0,
            song_frames: 0,
            host_time_ns: 0,
            sample_rate: 0,
            state: MusicState::Loading.to_u8(),
            is_playing: false,
            generation: 0,
        }
    }

    /// Marks the start of a change.
    pub fn begin_write(&mut self)
        requires
            old(self).wf(),
        ensures
            *final(self) == (MusicClockPublisher { seq: (old(self).seq + 1) as u32, ..*old(self) }),
            final(self).seq % 2 == 1,
    {
        self.seq = self.seq + 1;
    }

    /// Marks the end of a change.
    pub fn end_write(&mut self)
        requires
            old(self).seq % 2 == 1,
        ensures
            *final(self) == (MusicClockPublisher {
                seq: old(self).seq.wrapping_add(1),
                ..*old(self)
            }),
            final(self).wf(),
    {
        self.seq = self.seq.wrapping_add(1);
    }

    /// Publishes where the song is. The generation stays as it is.
    pub fn publish(
        &mut self,
        song_frames: u64,
        host_time_ns: u64,
        sample_rate: u32,
        state: MusicState,
    )
        requires
            old(self).wf(),
        ensures
            final(self).wf(),
            final(self).seq == old(self).seq.wrapping_add(2),
            final(self).published() == (MusicClockSnapshot {
                song_frames,
                host_time_ns,
                sample_rate,
                state,
                is_playing: state == MusicState::Playing,
                generation: old(self).published().generation,
            }),
    {
        self.begin_write();
        self.song_frames = song_frames;
        self.host_time_ns = host_time_ns;
        self.sample_rate = sample_rate;
        self.state = state.to_u8();
        self.is_playing = state == MusicState::Playing;
        self.end_write();
    }

    /// Marks a jump of the position. Everything but the generation stays as it is.
    pub fn bump_generation(&mut self)
        requires
            old(self).wf(),
        ensures
            final(self).wf(),
            final(self).seq == old(self).seq.wrapping_add(2),
            final(self).published() == (MusicClockSnapshot {
                generation: old(self).published().generation.wrapping_add(1),
                ..old(self).published()
            }),
    {
        self.begin_write();
        self.generation = self.generation.wrapping_add(1);
        self.end_write();
    }

    /// Sets the generation of a new clock, so that it differs from that of the clock it replaces.
    pub fn seed_generation_after_reopen(&mut self, generation: u32)
        requires
            old(self).wf(),
        ensures
            final(self).wf(),
            final(self).seq == old(self).seq.wrapping_add(2),
            final(self).published() == (MusicClockSnapshot { generation, ..old(self).published() }),
    {
        self.begin_write();
        self.generation = generation;
        self.end_write();
    }

    /// The fields as they stand.
    pub fn fields(&self) -> (fields: MusicClockSnapshot)
        ensures
            fields == self.published(),
    {
        MusicClockSnapshot {
            song_frames: self.song_frames,
            host_time_ns: self.host_time_ns,
            sample_rate: self.sample_rate,
            state: MusicState::from_u8(self.state),
            is_playing: self.is_playing,
            generation: self.generation,
        }
    }

    /// What was published last. While a change is under way, each field is the one stored last, and
    /// the fields need not belong together.
    pub fn snapshot(&self) -> (snapshot: MusicClockSnapshot)
        ensures
            snapshot == self.published(),
    {
        let mut reader: SnapshotReader = SnapshotReader::new();
        while reader.next_try()
            invariant
                reader.tries_left == MAX_READ_RETRIES || reader.last == self.published(),
            ensures
                reader.last == self.published(),
            decreases reader.tries_left,
        {
            if reader.offer(self.seq, self.fields(), self.seq) {
                break;
            }
        }
        reader.last
    }
}

impl Default for MusicClockPublisher {
    fn default() -> (clock: MusicClockPublisher)
        ensures
            clock.wf(),
            clock.published() == MusicClockSnapshot::blank(),
    {
        MusicClockPublisher::new()
    }
}

/// One memory access of the writer: nothing happens to the clock, a change begins or ends, or,
/// while a change is under way, some field is stored.
pub open spec fn writer_step(a: MusicClockPublisher, b: MusicClockPublisher) -> bool {
    ||| a == b
    ||| a.seq % 2 == 0 && b == (MusicClockPublisher { seq: a.seq.wrapping_add(1), ..a })
    ||| a.seq % 2 == 1 && b == (MusicClockPublisher { seq: a.seq.wrapping_add(1), ..a })
    ||| a.seq % 2 == 1 && b.seq == a.seq
}

/// Whether `history` lists the clock after each memory access of the writer.
pub open spec fn written_in_steps(history: Seq<MusicClockPublisher>) -> bool {
    forall|i: int|
        0 <= i < history.len() - 1 ==> writer_step(#[trigger] history[i], history[i + 1])
}

/// How far the count has moved between two moments, without wrapping round.
spec fn advance_between(history: Seq<MusicClockPublisher>, from: int, to: int) -> int
    decreases to - from,
{
    if to <= from {
        0
    } else {
        advance_between(history, from, to - 1) + if history[to].seq == history[to - 1].seq {
            0int
        } else {
            1
        }
    }
}

proof fn lemma_advance(history: Seq<MusicClockPublisher>, from: int, to: int)
    requires
        written_in_steps(history),
        0 <= from <= to < history.len(),
    ensures
        0 <= advance_between(history, from, to) <= to - from,
        history[to].seq == (history[from].seq + advance_between(history, from, to))
            % 0x1_0000_0000,
        advance_between(history, from, to) == 0 && history[from].seq % 2 == 0 ==> history[to]
            == history[from],
    decreases to - from,
{
    if from < to {
        lemma_advance(history, from, to - 1);
        assert(writer_step(history[to - 1], history[to]));
        lemma_step_counts(history[to - 1], history[to]);
    }
}

proof fn lemma_step_counts(a: MusicClockPublisher, b: MusicClockPublisher)
    requires
        writer_step(a, b),
    ensures
        b.seq == a.seq || b.seq as int == (a.seq + 1) % 0x1_0000_0000,
        b.seq == a.seq && a.seq % 2 == 0 ==> b == a,
{
}

proof fn lemma_advance_grows(history: Seq<MusicClockPublisher>, from: int, mid: int, to: int)
    requires
        from <= mid <= to,
    ensures
        advance_between(history, from, mid) <= advance_between(history, from, to),
    decreases to - mid,
{
    if mid < to {
        lemma_advance_grows(history, from, mid, to - 1);
    }
}

/// A reader that finds the same even count before and after it has read the fields has read them
/// all from one and the same state of the clock: whatever the writer did, at no moment in between
/// had any field another value. The writer must not have made `2^32` accesses meanwhile.
pub proof fn law_accepted_snapshots_are_consistent(
    history: Seq<MusicClockPublisher>,
    before: int,
    during: int,
    after: int,
)
    requires
        written_in_steps(history),
        0 <= before <= during <= after < history.len(),
        after - before < 0x1_0000_0000,
        belong_together(history[before].seq, history[after].seq),
    ensures
        history[during].published() == history[before].published(),
{
    lemma_advance(history, before, after);
    lemma_advance(history, before, during);
    let moved = advance_between(history, before, after);
    assert(moved == 0) by {
        let s = history[before].seq as int;
        if moved > 0 {
            assert((s + moved) % 0x1_0000_0000 != s);
        }
    }
    lemma_advance_grows(history, before, during, after);
}

/// What a clock publishes names a state by its number: each state by its own, and a number that no
/// state has stands for one in which nothing is loaded.
pub proof fn law_states_are_published_by_number(p: BgmStatePublisher, clock: MusicClockPublisher)
    ensures
        p.state <= 3 ==> p.published().number() == p.state,
        p.state > 3 ==> p.published() == MusicState::Loading,
        clock.state <= 3 ==> clock.published().state.number() == clock.state,
        clock.state > 3 ==> clock.published().state == MusicState::Loading,
        p.published() == MusicState::Ready <==> p.state == 1,
        p.published() == MusicState::Playing <==> p.state == 2,
        p.published() == MusicState::Paused <==> p.state == 3,
{
}

/// A clock that nobody is writing to is read at the first try: what is read while it stays as it
/// is belongs together. What is read while a change is under way does not, nor does what is read
/// while a change begins and no other ends.
pub proof fn law_quiet_clocks_are_read_at_once(
    before: MusicClockPublisher,
    after: MusicClockPublisher,
)
    ensures
        before.wf() && after == before ==> belong_together(before.seq, after.seq),
        !before.wf() ==> !belong_together(before.seq, after.seq),
        !after.wf() ==> !belong_together(before.seq, after.seq),
        before.wf() && after != before && writer_step(before, after) ==> !belong_together(
            before.seq,
            after.seq,
        ),
{
}

} // verus!
