//! Events on their way from the audio side to the game thread.

use std::collections::VecDeque;

use vstd::prelude::*;

verus! {

/// Why the output stream failed.
#[derive(Debug, Clone, Copy, PartialEq, Eq, Structural)]
pub enum StreamErrorReason {
    /// Nothing more is known.
    Unknown,
    /// The device or its host cannot be reached.
    DeviceUnavailable,
    /// The stream has become invalid, for instance by a change of route, and must be rebuilt.
    Reconfigured,
    /// Access to the device was denied.
    PermissionDenied,
    /// Another failure of the backend.
    Backend,
}

impl StreamErrorReason {
    /// The number of this reason.
    pub open spec fn number(self) -> u64 {
        match self {
            StreamErrorReason::Unknown => 0,
            StreamErrorReason::DeviceUnavailable => 1,
            StreamErrorReason::Reconfigured => 2,
            StreamErrorReason::PermissionDenied => 3,
            StreamErrorReason::Backend => 4,
        }
    }

    /// The reason with the number `raw`; [`StreamErrorReason::Unknown`] if no reason has it.
    pub open spec fn numbered(raw: u32) -> StreamErrorReason {
        if raw == 1 {
            StreamErrorReason::DeviceUnavailable
        } else if raw == 2 {
            StreamErrorReason::Reconfigured
        } else if raw == 3 {
            StreamErrorReason::PermissionDenied
        } else if raw == 4 {
            StreamErrorReason::Backend
        } else {
            StreamErrorReason::Unknown
        }
    }

    /// The number of this reason.
    pub fn to_raw(self) -> (raw: u32)
        ensures
            raw == self.number(),
    {
        match self {
            StreamErrorReason::Unknown => 0,
            StreamErrorReason::DeviceUnavailable => 1,
            StreamErrorReason::Reconfigured => 2,
            StreamErrorReason::PermissionDenied => 3,
            StreamErrorReason::Backend => 4,
        }
    }

    /// The reason with the number `raw`; [`StreamErrorReason::Unknown`] if no reason has it.
    pub fn from_raw(raw: u32) -> (reason: StreamErrorReason)
        ensures
            reason == StreamErrorReason::numbered(raw),
    {
        match raw {
            1 => StreamErrorReason::DeviceUnavailable,
            2 => StreamErrorReason::Reconfigured,
            3 => StreamErrorReason::PermissionDenied,
            4 => StreamErrorReason::Backend,
            _ => StreamErrorReason::Unknown,
        }
    }
}

/// Something the game thread should know.
#[derive(Debug, Clone, Copy, PartialEq, Eq, Structural)]
pub enum Event {
    /// The output goes to another device now.
    RouteChanged,
    /// Frames were missing from the music stream.
    Underrun {
        /// How many, gathered over several buffers.
        frames: u32,
    },
    /// The song has been played to its end.
    MusicEnded,
    /// The song went back to the start of its loop.
    MusicLooped {
        /// The frame from which it went on.
        restart_frame: u64,
    },
    /// The output stream failed.
    StreamError {
        /// Why.
        reason: StreamErrorReason,
    },
    /// The mix was clipped.
    ClipperEngaged,
    /// The operating system has taken the audio output away.
    AudioInterruptionBegan,
    /// The interruption is over, or a recovery was tried.
    AudioInterruptionEnded {
        /// Whether the stream runs again.
        recovered: bool,
    },
}

/// How many bits of a packed event hold its payload. The rest holds the kind of event.
pub const PAYLOAD_BITS: u32 = 56;

/// The bits of a packed event that hold its payload.
pub const PAYLOAD_MASK: u64 = 0x00FF_FFFF_FFFF_FFFF;

/// The number of payloads, `2^56`.
pub const PAYLOAD_RANGE: u64 = 0x0100_0000_0000_0000;

impl Event {
    /// The number of this kind of event.
    pub open spec fn tag(self) -> u64 {
        match self {
            Event::RouteChanged => 0,
            Event::Underrun { .. } => 1,
            Event::MusicEnded => 2,
            Event::MusicLooped { .. } => 3,
            Event::StreamError { .. } => 4,
            Event::ClipperEngaged => 5,
            Event::AudioInterruptionBegan => 6,
            Event::AudioInterruptionEnded { .. } => 7,
        }
    }

    /// What the event holds, as a number that fits the payload.
    pub open spec fn payload(self) -> u64 {
        match self {
            Event::Underrun { frames } => frames as u64,
            Event::MusicLooped { restart_frame } => restart_frame % PAYLOAD_RANGE,
            Event::StreamError { reason } => reason.number(),
            Event::AudioInterruptionEnded { recovered } => if recovered {
                1
            } else {
                0
            },
            _ => 0,
        }
    }

    /// The event packed into one word: its kind above its payload.
    pub open spec fn packed(self) -> int {
        self.tag() * PAYLOAD_RANGE + self.payload()
    }

    /// The event that a word stands for.
    pub open spec fn unpacked(bits: u64) -> Event {
        let payload = bits % PAYLOAD_RANGE;
        let tag = bits / PAYLOAD_RANGE;
        if tag == 0 {
            Event::RouteChanged
        } else if tag == 1 {
            Event::Underrun { frames: payload as u32 }
        } else if tag == 2 {
            Event::MusicEnded
        } else if tag == 3 {
            Event::MusicLooped { restart_frame: payload }
        } else if tag == 4 {
            Event::StreamError { reason: StreamErrorReason::numbered(payload as u32) }
        } else if tag == 5 {
            Event::ClipperEngaged
        } else if tag == 6 {
            Event::AudioInterruptionBegan
        } else {
            Event::AudioInterruptionEnded { recovered: payload != 0 }
        }
    }

    /// What is left of the event once it has been packed: a restart frame is kept modulo `2^56`.
    pub open spec fn carried(self) -> Event {
        match self {
            Event::MusicLooped { restart_frame } => Event::MusicLooped {
                restart_frame: restart_frame % PAYLOAD_RANGE,
            },
            _ => self,
        }
    }

    /// Packs the event into one word.
    pub fn to_bits(self) -> (bits: u64)
        ensures
            bits == self.packed(),
    {
        let tag: u64 = match self {
            Event::RouteChanged => 0,
            Event::Underrun { .. } => 1,
            Event::MusicEnded => 2,
            Event::MusicLooped { .. } => 3,
            Event::StreamError { .. } => 4,
            Event::ClipperEngaged => 5,
            Event::AudioInterruptionBegan => 6,
            Event::AudioInterruptionEnded { .. } => 7,
        };
        let payload: u64 = match self {
            Event::Underrun { frames } => frames as u64,
            Event::MusicLooped { restart_frame } => restart_frame & PAYLOAD_MASK,
            Event::StreamError { reason } => reason.to_raw() as u64,
            Event::AudioInterruptionEnded { recovered } => if recovered {
                1
            } else {
                0
            },
            _ => 0,
        };
        proof {
            if let Event::MusicLooped { restart_frame } = self {
                assert(restart_frame & 0x00FF_FFFF_FFFF_FFFFu64 == restart_frame
                    % 0x0100_0000_0000_0000u64) by (bit_vector);
            }
            assert((tag << 56u32) | (payload & 0x00FF_FFFF_FFFF_FFFFu64) == tag
                * 0x0100_0000_0000_0000u64 + payload) by (bit_vector)
                requires
                    tag <= 7,
                    payload < 0x0100_0000_0000_0000u64,
            ;
        }
        (tag << PAYLOAD_BITS) | (payload & PAYLOAD_MASK)
    }

    /// The event that a word stands for.
    pub fn from_bits(bits: u64) -> (event: Event)
        ensures
            event == Event::unpacked(bits),
    {
        let tag: u64 = bits >> PAYLOAD_BITS;
        let payload: u64 = bits & PAYLOAD_MASK;
        proof {
            assert(bits >> 56u32 == bits / 0x0100_0000_0000_0000u64) by (bit_vector);
            assert(bits & 0x00FF_FFFF_FFFF_FFFFu64 == bits % 0x0100_0000_0000_0000u64)
                by (bit_vector);
        }
        match tag {
            0 => Event::RouteChanged,
            1 => Event::Underrun { frames: payload as u32 },
            2 => Event::MusicEnded,
            3 => Event::MusicLooped { restart_frame: payload },
            4 => Event::StreamError { reason: StreamErrorReason::from_raw(payload as u32) },
            5 => Event::ClipperEngaged,
            6 => Event::AudioInterruptionBegan,
            _ => Event::AudioInterruptionEnded { recovered: payload != 0 },
        }
    }
}

/// What a word gives back of the event that was packed into it: all of it, except that a restart
/// frame of `2^56` or more loses its upper bits.
pub proof fn law_packing_round_trips(e: Event)
    ensures
        e.packed() <= u64::MAX,
        Event::unpacked(e.packed() as u64) == e.carried(),
        !(e is MusicLooped && e->restart_frame >= PAYLOAD_RANGE) ==> e.carried() == e,
{
    let bits = e.packed() as u64;
    let (tag, payload) = (e.tag(), e.payload());
    assert(payload < PAYLOAD_RANGE);
    assert((tag * PAYLOAD_RANGE + payload) / (PAYLOAD_RANGE as int) == tag);
    assert((tag * PAYLOAD_RANGE + payload) % (PAYLOAD_RANGE as int) == payload);
}

/// What a call of [`EventQueue::drain`] takes from the ring: from which position on, how many
/// events, and how many had been overwritten before they were read.
#[derive(Debug, Clone, Copy)]
pub struct DrainPlan {
    /// The position of the first event that is taken.
    pub start: u64,
    /// How many events are taken.
    pub count: usize,
    /// How many events were overwritten unread.
    pub dropped: u64,
}

/// How many of the events at positions `read` up to `write` a ring of this capacity has lost.
pub open spec fn lost(write: u64, read: u64, capacity: usize) -> nat {
    if write - read > capacity {
        (write - read - capacity) as nat
    } else {
        0
    }
}

/// How many of the events at positions `read` up to `write` a ring of this capacity still holds.
pub open spec fn held(write: u64, read: u64, capacity: usize) -> nat {
    if write < read {
        0
    } else if write - read > capacity {
        capacity as nat
    } else {
        (write - read) as nat
    }
}

/// Decides what to take from a ring of `capacity` slots when `max` events are wanted, the next
/// event goes to position `write`, and the reader is at position `read`.
pub fn plan_drain(write: u64, read: u64, capacity: usize, max: usize) -> (plan: DrainPlan)
    ensures
        plan.dropped == lost(write, read, capacity),
        plan.start == read + plan.dropped,
        plan.count == if held(write, read, capacity) < max {
            held(write, read, capacity)
        } else {
            max as nat
        },
{
    let available: u64 = if write >= read {
        write - read
    } else {
        0
    };
    let mut start: u64 = read;
    let mut dropped: u64 = 0;
    if available > capacity as u64 {
        dropped = available - capacity as u64;
        start = write - capacity as u64;
    }
    let remaining: u64 = if write >= start {
        write - start
    } else {
        0
    };
    let count: usize = if remaining < max as u64 {
        remaining as usize
    } else {
        max
    };
    DrainPlan { start, count, dropped }
}

/// The events that wait for the game thread.
///
/// The audio thread writes to a ring in which new events replace the oldest ones. Other threads
/// write to a separate queue, which drops its oldest event when it is full.
#[derive(Debug)]
pub struct EventQueue {
    /// The number of slots of the ring, and the greatest length of the separate queue.
    pub capacity: usize,
    /// The slots of the ring, each with a packed event.
    pub slots: Vec<u64>,
    /// The position of the next event of the audio thread. It is written to the slot with the
    /// position's remainder modulo the capacity.
    pub write_index: u64,
    /// The position of the next event that is read.
    pub read_index: u64,
    /// The events of the other threads.
    pub side_channel: VecDeque<Event>,
    /// How many of them have been dropped since the last call of [`EventQueue::drain`].
    pub side_channel_dropped: u64,
}

/// The state of an [`EventQueue`].
#[verifier::ext_equal]
pub struct EventState {
    /// See [`EventQueue::capacity`].
    pub capacity: usize,
    /// See [`EventQueue::slots`].
    pub slots: Seq<u64>,
    /// See [`EventQueue::write_index`].
    pub write_index: u64,
    /// See [`EventQueue::read_index`].
    pub read_index: u64,
    /// See [`EventQueue::side_channel`].
    pub side_channel: Seq<Event>,
    /// See [`EventQueue::side_channel_dropped`].
    pub side_channel_dropped: u64,
}

impl View for EventQueue {
    type V = EventState;

    open spec fn view(&self) -> EventState {
        EventState {
            capacity: self.capacity,
            slots: self.slots@,
            write_index: self.write_index,
            read_index: self.read_index,
            side_channel: self.side_channel@,
            side_channel_dropped: self.side_channel_dropped,
        }
    }
}

impl EventState {
    /// This state after an event of the audio thread.
    pub open spec fn pushed(self, event: Event) -> EventState {
        EventState {
            slots: self.slots.update(
                self.write_index as int % self.capacity as int,
                event.packed() as u64,
            ),
            write_index: self.write_index.wrapping_add(1),
            ..self
        }
    }

    /// This state after an event of another thread.
    pub open spec fn pushed_aside(self, event: Event) -> EventState {
        EventState {
            side_channel: newest(self.side_channel.push(event), self.capacity as nat),
            side_channel_dropped: if self.side_channel.len() >= self.capacity {
                self.side_channel_dropped.wrapping_add(1)
            } else {
                self.side_channel_dropped
            },
            ..self
        }
    }
}

impl EventState {
    /// The events of the audio thread that can still be read, oldest first.
    pub open spec fn in_ring(self) -> Seq<Event> {
        let start = self.read_index + lost(self.write_index, self.read_index, self.capacity);
        Seq::new(
            held(self.write_index, self.read_index, self.capacity),
            |i: int| Event::unpacked(self.slots[(start + i) % self.capacity as int]),
        )
    }

    /// What taking out up to `max` events gives: those of the audio thread come first.
    pub open spec fn taken(self, max: nat) -> Seq<Event> {
        let all = self.in_ring() + self.side_channel;
        if all.len() < max {
            all
        } else {
            all.take(max as int)
        }
    }

    /// This state after up to `max` events have been taken out.
    pub open spec fn drained(self, max: nat) -> EventState {
        let ring = self.in_ring().len();
        let n = if ring < max {
            ring
        } else {
            max
        };
        EventState {
            read_index: (self.read_index + lost(self.write_index, self.read_index, self.capacity)
                + n) as u64,
            side_channel: self.side_channel.skip(self.taken(max).len() - n),
            side_channel_dropped: 0,
            ..self
        }
    }
}

impl EventQueue {
    /// Whether the queue has a slot, as many slots as it says, and no more events of the other
    /// threads than it allows.
    pub open spec fn wf(self) -> bool {
        &&& self.capacity >= 1
        &&& self.slots@.len() == self.capacity
        &&& self.side_channel@.len() <= self.capacity
    }

    /// Whether the reader is not ahead of the audio thread. That is so from the start and stays so
    /// until the audio thread has counted `2^64` events and begins anew.
    pub open spec fn in_order(self) -> bool {
        self.read_index <= self.write_index
    }

    /// The event at a position of the ring.
    pub open spec fn event_at(self, position: int) -> Event {
        Event::unpacked(self.slots@[position % self.capacity as int])
    }

    /// The events of the audio thread that can still be read, oldest first.
    pub open spec fn pending(self) -> Seq<Event> {
        let start = self.read_index + lost(self.write_index, self.read_index, self.capacity);
        Seq::new(
            held(self.write_index, self.read_index, self.capacity),
            |i: int| self.event_at(start + i),
        )
    }

    /// An empty queue. A capacity of zero counts as one.
    pub fn new(capacity: usize) -> (queue: EventQueue)
        ensures
            queue.wf(),
            queue.in_order(),
            queue.capacity == if capacity == 0 {
                1
            } else {
                capacity
            },
            queue.pending() == Seq::<Event>::empty(),
            queue.write_index == 0,
            queue.read_index == 0,
            queue.side_channel@ == Seq::<Event>::empty(),
            queue.side_channel_dropped == 0,
    {
        let capacity: usize = if capacity == 0 {
            1
        } else {
            capacity
        };
        let mut slots: Vec<u64> = Vec::with_capacity(capacity);
        let mut i: usize = 0;
        while i < capacity
            invariant
                i <= capacity,
                slots@.len() == i,
            decreases capacity - i,
        {
            slots.push(0);
            i = i + 1;
        }
        EventQueue {
            capacity,
            slots,
            write_index: 0,
            read_index: 0,
            side_channel: VecDeque::with_capacity(capacity),
            side_channel_dropped: 0,
        }
    }

    /// Adds an event of the audio thread. When the ring is full the event takes the place of the
    /// oldest one.
    pub fn push_realtime(&mut self, event: Event)
        requires
            old(self).wf(),
        ensures
            final(self).wf(),
            final(self)@ == old(self)@.pushed(event),
            old(self).in_order() && old(self).write_index < u64::MAX ==> final(self).in_order()
                && final(self).pending() == newest(
                old(self).pending().push(event.carried()),
                old(self).capacity as nat,
            ),
    {
        let index: usize = (self.write_index % self.capacity as u64) as usize;
        self.slots[index] = event.to_bits();
        self.write_index = self.write_index.wrapping_add(1);
        proof {
            law_packing_round_trips(event);
            if old(self).read_index <= old(self).write_index < u64::MAX {
                lemma_pushed(*old(self), *self, event);
            }
        }
    }

    /// Adds an event of a thread other than the audio thread. When the queue is full its oldest
    /// event is dropped.
    pub fn push_side_channel(&mut self, event: Event)
        requires
            old(self).wf(),
        ensures
            final(self).wf(),
            final(self)@ == old(self)@.pushed_aside(event),
    {
        if self.side_channel.len() >= self.capacity {
            let _ = self.side_channel.pop_front();
            self.side_channel_dropped = self.side_channel_dropped.wrapping_add(1);
        }
        self.side_channel.push_back(event);
        assert(self.side_channel@ =~= newest(
            old(self).side_channel@.push(event),
            old(self).capacity as nat,
        ));
    }

    /// Takes out up to `max` events, those of the audio thread first, and appends them to `out`.
    /// Returns how many that were, and how many events have been lost since the last call.
    pub fn drain(&mut self, max: usize, out: &mut Vec<Event>) -> (counts: (usize, u32))
        requires
            old(self).wf(),
        ensures
            final(self).wf(),
            final(self).capacity == old(self).capacity,
            final(self).slots@ == old(self).slots@,
            final(self).write_index == old(self).write_index,
            old(self).in_order() ==> final(self).in_order(),
            final(self)@ == old(self)@.drained(max as nat),
            final(out)@ == old(out)@ + old(self)@.taken(max as nat),
            counts.0 == old(self)@.taken(max as nat).len(),
            ({
                let ring = old(self).pending();
                let side = old(self).side_channel@;
                let n = if ring.len() < max {
                    ring.len() as int
                } else {
                    max as int
                };
                let k = if side.len() < max - n {
                    side.len() as int
                } else {
                    max - n
                };
                let missed = lost(old(self).write_index, old(self).read_index, old(self).capacity);
                let lost_now = missed + old(self).side_channel_dropped;
                &&& final(out)@ == old(out)@ + ring.take(n) + side.take(k)
                &&& final(self).side_channel@ == side.skip(k)
                &&& final(self).read_index == old(self).read_index + missed + n
                &&& final(self).side_channel_dropped == 0
                &&& counts.0 == n + k
                &&& counts.1 == if lost_now < u32::MAX {
                    lost_now
                } else {
                    u32::MAX as int
                }
            }),
    {
        let plan: DrainPlan = plan_drain(self.write_index, self.read_index, self.capacity, max);
        let ghost ring = self.pending();
        let ghost side = self.side_channel@;
        let mut i: usize = 0;
        assert(out@ =~= old(out)@ + ring.take(0));
        while i < plan.count
            invariant
                self.wf(),
                *self == *old(self),
                ring == self.pending(),
                i <= plan.count <= ring.len(),
                plan.start == self.read_index + lost(
                    self.write_index,
                    self.read_index,
                    self.capacity,
                ),
                plan.start + ring.len() <= u64::MAX,
                out@ == old(out)@ + ring.take(i as int),
            decreases plan.count - i,
        {
            let index: usize = ((plan.start + i as u64) % self.capacity as u64) as usize;
            out.push(Event::from_bits(self.slots[index]));
            i = i + 1;
            assert(ring.take(i as int) =~= ring.take(i - 1).push(ring[i - 1]));
            assert(out@ =~= old(out)@ + ring.take(i as int));
        }
        self.read_index = plan.start + plan.count as u64;

        let mut written: usize = plan.count;
        let ghost delivered = out@;
        assert(out@ =~= delivered + side.take(0));
        assert(side.skip(0) =~= side);
        while written < max && self.side_channel.len() > 0
            invariant
                self.wf(),
                self.capacity == old(self).capacity,
                self.slots@ == old(self).slots@,
                self.write_index == old(self).write_index,
                self.read_index == plan.start + plan.count,
                self.side_channel_dropped == old(self).side_channel_dropped,
                side.len() <= self.capacity,
                plan.count <= written <= max,
                written - plan.count <= side.len(),
                self.side_channel@ == side.skip(written - plan.count),
                out@ == delivered + side.take(written - plan.count),
            decreases max - written,
        {
            if let Some(event) = self.side_channel.pop_front() {
                out.push(event);
            }
            written = written + 1;
            assert(self.side_channel@ =~= side.skip(written - plan.count));
            assert(out@ =~= delivered + side.take(written - plan.count));
        }
        let total: u64 = plan.dropped.saturating_add(self.side_channel_dropped);
        self.side_channel_dropped = 0;
        proof {
            assert(old(self)@.in_ring() =~= ring);
            assert(old(self)@.taken(max as nat) =~= ring.take(plan.count as int) + side.take(
                written - plan.count,
            ));
            assert(out@ =~= old(out)@ + old(self)@.taken(max as nat));
            assert(self@ =~= old(self)@.drained(max as nat));
        }
        let reported: u32 = if total < u32::MAX as u64 {
            total as u32
        } else {
            u32::MAX
        };
        (written, reported)
    }
}

/// The last `n` events of `events`, or all of them if there are fewer.
pub open spec fn newest(events: Seq<Event>, n: nat) -> Seq<Event> {
    if events.len() <= n {
        events
    } else {
        events.skip(events.len() - n)
    }
}

proof fn lemma_pushed(before: EventQueue, after: EventQueue, event: Event)
    requires
        before.wf(),
        after.capacity == before.capacity,
        before.read_index <= before.write_index < u64::MAX,
        after.slots@ == before.slots@.update(
            before.write_index as int % before.capacity as int,
            event.packed() as u64,
        ),
        after.write_index == before.write_index + 1,
        after.read_index == before.read_index,
    ensures
        after.pending() == newest(
            before.pending().push(event.carried()),
            before.capacity as nat,
        ),
{
    law_packing_round_trips(event);
    let cap = before.capacity as int;
    let w = before.write_index as int;
    let first = after.read_index + lost(after.write_index, after.read_index, after.capacity);
    let want = newest(before.pending().push(event.carried()), before.capacity as nat);
    assert(after.pending().len() == want.len());
    assert forall|i: int| 0 <= i < want.len() implies after.pending()[i] == want[i] by {
        let p = first + i;
        if p < w {
            assert(0 < w - p < cap);
            lemma_other_slot(p, w, cap);
        }
    }
    assert(after.pending() =~= want);
}

proof fn lemma_other_slot(p: int, w: int, cap: int)
    by (nonlinear_arith)
    requires
        0 <= p < w,
        w - p < cap,
    ensures
        p % cap != w % cap,
        0 <= p % cap < cap,
{
}

/// However many events are added to a full queue, it keeps the newest ones in their order:
/// dropping the oldest with every event leaves the same as dropping them all in the end.
pub proof fn law_queues_keep_the_newest(events: Seq<Event>, event: Event, n: nat)
    ensures
        newest(newest(events, n).push(event), n) == newest(events.push(event), n),
        newest(events, n).len() <= n,
{
    if events.len() > n {
        if n == 0 {
            assert(newest(newest(events, n).push(event), n) =~= newest(events.push(event), n));
        } else {
            assert(newest(events, n).push(event) =~= events.push(event).skip(events.len() - n));
            assert(newest(newest(events, n).push(event), n) =~= newest(events.push(event), n));
        }
    }
}

/// No event is lost without being counted: of the events between the reader and the writer those
/// that are lost and those that are still held make up all.
pub proof fn law_lost_events_are_counted(write: u64, read: u64, capacity: usize)
    requires
        read <= write,
    ensures
        lost(write, read, capacity) + held(write, read, capacity) == write - read,
        held(write, read, capacity) <= capacity,
        write - read <= capacity ==> lost(write, read, capacity) == 0,
{
}

/// The reason of a failure is known again by its number, and a number that no reason has stands
/// for an unknown one. The numbers are part of what the application is told.
pub proof fn law_reasons_are_known_by_their_number(reason: StreamErrorReason, raw: u32)
    ensures
        StreamErrorReason::numbered(reason.number() as u32) == reason,
        raw > 4 ==> StreamErrorReason::numbered(raw) == StreamErrorReason::Unknown,
        raw <= 4 ==> StreamErrorReason::numbered(raw).number() == raw,
        reason.number() == 0 <==> reason == StreamErrorReason::Unknown,
        reason.number() == 1 <==> reason == StreamErrorReason::DeviceUnavailable,
        reason.number() == 2 <==> reason == StreamErrorReason::Reconfigured,
        reason.number() == 3 <==> reason == StreamErrorReason::PermissionDenied,
        reason.number() == 4 <==> reason == StreamErrorReason::Backend,
{
}

/// Two events are packed into the same word exactly if they are the same, as far as a restart frame
/// is kept; the kind of event is told by the upper bits alone.
pub proof fn law_words_tell_events_apart(a: Event, b: Event)
    ensures
        a.packed() == b.packed() <==> a.carried() == b.carried(),
        a.packed() / 0x0100_0000_0000_0000 == b.packed() / 0x0100_0000_0000_0000 <==> a.tag()
            == b.tag(),
        a.carried().tag() == a.tag(),
{
    law_packing_round_trips(a);
    law_packing_round_trips(b);
    assert((a.tag() * PAYLOAD_RANGE + a.payload()) / (PAYLOAD_RANGE as int) == a.tag());
    assert((b.tag() * PAYLOAD_RANGE + b.payload()) / (PAYLOAD_RANGE as int) == b.tag());
    if a.carried() == b.carried() {
        assert(a.carried().packed() == a.packed());
        assert(b.carried().packed() == b.packed());
    }
}

/// The newest events are the last ones, in their order, and as many as are kept or as there are.
pub proof fn law_the_newest_are_the_last(events: Seq<Event>, n: nat, i: int)
    requires
        0 <= i < newest(events, n).len(),
    ensures
        newest(events, n).len() == if events.len() < n {
            events.len()
        } else {
            n
        },
        newest(events, n)[i] == events[events.len() - newest(events, n).len() + i],
{
}

/// An event of another thread is put behind those that wait there; if there is no room, the oldest
/// of them is dropped and counted. The ring of the audio thread is not touched by it.
pub proof fn law_side_events_replace_the_oldest(state: EventState, event: Event)
    requires
        state.capacity >= 1,
        state.side_channel.len() <= state.capacity,
    ensures
        ({
            let next = state.pushed_aside(event);
            &&& next.side_channel.last() == event
            &&& state.side_channel.len() < state.capacity ==> {
                &&& next.side_channel.drop_last() == state.side_channel
                &&& next.side_channel_dropped == state.side_channel_dropped
            }
            &&& state.side_channel.len() == state.capacity ==> {
                &&& next.side_channel.drop_last() == state.side_channel.skip(1)
                &&& next.side_channel_dropped == (state.side_channel_dropped + 1)
                    % 0x1_0000_0000_0000_0000
            }
            &&& next == EventState {
                side_channel: next.side_channel,
                side_channel_dropped: next.side_channel_dropped,
                ..state
            }
        }),
{
    let next = state.pushed_aside(event);
    if state.side_channel.len() < state.capacity {
        assert(next.side_channel.drop_last() =~= state.side_channel);
    } else {
        assert(next.side_channel.drop_last() =~= state.side_channel.skip(1));
    }
}

/// An event of the audio thread is written to the next slot in turn and to no other, and only that
/// slot and the position move; nothing is read by it and the events of other threads are not
/// touched.
pub proof fn law_ring_events_take_the_next_slot(state: EventState, event: Event, i: int)
    requires
        state.capacity >= 1,
        state.slots.len() == state.capacity,
        0 <= i < state.capacity,
    ensures
        ({
            let next = state.pushed(event);
            &&& next.slots.len() == state.slots.len()
            &&& i == state.write_index as int % state.capacity as int ==> next.slots[i]
                == event.packed() && Event::unpacked(next.slots[i]) == event.carried()
            &&& i != state.write_index as int % state.capacity as int ==> next.slots[i]
                == state.slots[i]
            &&& next.write_index == (state.write_index + 1) % 0x1_0000_0000_0000_0000
            &&& next.read_index == state.read_index
            &&& next.side_channel == state.side_channel
            &&& next.side_channel_dropped == state.side_channel_dropped
            &&& next.capacity == state.capacity
        }),
{
    law_packing_round_trips(event);
}

/// Events are taken out in their order, those of the audio thread before those of other threads, as
/// many as are wanted or as there are; the others stay, and after that none counts as lost.
pub proof fn law_events_are_taken_in_order(state: EventState, max: nat, i: int)
    requires
        state.capacity >= 1,
        state.slots.len() == state.capacity,
        state.read_index <= state.write_index,
        0 <= i < state.in_ring().len() + state.side_channel.len(),
    ensures
        ({
            let ring = state.in_ring();
            let all = ring.len() + state.side_channel.len();
            let next = state.drained(max);
            &&& state.taken(max).len() == if all < max {
                all
            } else {
                max
            }
            &&& i < ring.len() && i < max ==> state.taken(max)[i] == ring[i]
            &&& ring.len() <= i < max ==> state.taken(max)[i] == state.side_channel[i
                - ring.len()]
            &&& state.taken(max) + (next.in_ring() + next.side_channel) == ring
                + state.side_channel
            &&& next.side_channel_dropped == 0
            &&& lost(next.write_index, next.read_index, next.capacity) == 0
            &&& next.write_index == state.write_index
            &&& next.slots == state.slots
            &&& next.capacity == state.capacity
        }),
{
    let ring = state.in_ring();
    let side = state.side_channel;
    let next = state.drained(max);
    let n = if ring.len() < max {
        ring.len() as int
    } else {
        max as int
    };
    let k = state.taken(max).len() - n;
    assert(state.taken(max) =~= ring.take(n) + side.take(k));
    assert(next.in_ring() =~= ring.skip(n));
    assert(next.side_channel =~= side.skip(k));
    assert(ring.take(n) + side.take(k) + (ring.skip(n) + side.skip(k)) =~= ring + side);
}

/// What the ring still holds are the events at the last positions, each in the slot of its
/// position: the oldest one at the position of the reader, or behind all that have been lost.
pub proof fn law_the_ring_holds_the_last_positions(state: EventState, i: int)
    requires
        state.capacity >= 1,
        state.slots.len() == state.capacity,
        state.read_index <= state.write_index,
        0 <= i < state.in_ring().len(),
    ensures
        ({
            let count = state.write_index - state.read_index;
            let n = state.in_ring().len() as int;
            let position = state.write_index - n + i;
            &&& n == if count < state.capacity {
                count
            } else {
                state.capacity as int
            }
            &&& state.in_ring()[i] == Event::unpacked(
                state.slots[position % state.capacity as int],
            )
        }),
{
}

} // verus!
