//! Streamed music: a decoder on one thread fills a ring that a music voice on another one empties.
//!
//! A seek goes through an epoch. The reading side throws away what it has, writes down the target
//! and raises the epoch. As long as the epoch is not acknowledged, everything that comes out of
//! the ring is thrown away. The writing side moves the decoder, acknowledges the epoch, and only
//! then goes on writing, so that everything it writes from then on belongs to the new position.

use vstd::prelude::*;

use crate::config::Config;
use crate::decode::{DecodeError, DecoderEvent, MusicDecoder};
use crate::format::CHANNELS;
#[allow(unused_imports)]
use crate::math;
use crate::math::{SampleMath, SILENCE};
use crate::music::{MusicFrameSource, SourceEvent};
#[allow(unused_imports)]
use crate::ramp;
use crate::ramp::ms_to_samples;
#[allow(unused_imports)]
use crate::ring;
use crate::ring::{
    discard_words, measure_word_room, measure_words_ready, new_word_ring, put_words,
    split_word_room, take_words,
};

verus! {

/// Stands for a length that is not known.
pub const UNKNOWN_TOTAL_FRAMES: u64 = 0xFFFF_FFFF_FFFF_FFFF;

/// What the two sides of a stream tell each other.
///
/// The reading side writes the first two fields, the writing side the others.
#[derive(Debug, Clone, Copy, PartialEq, Eq, Structural)]
pub struct SharedState {
    /// The frame of the latest seek.
    pub seek_target: u64,
    /// Counts the seeks, modulo `2^64`.
    pub seek_epoch: u64,
    /// The latest seek that the writing side has carried out.
    pub acked_epoch: u64,
    /// The length of the stream, or [`UNKNOWN_TOTAL_FRAMES`].
    pub total_frames: u64,
    /// Whether the writing side has reached the end.
    pub eof: bool,
    /// Whether the writing side has failed.
    pub has_error: bool,
}

impl SharedState {
    /// Whether the latest seek has been carried out.
    pub open spec fn in_step(self) -> bool {
        self.acked_epoch == self.seek_epoch
    }

    /// The length of the stream, if it is known.
    pub open spec fn length(self) -> Option<u64> {
        if self.total_frames == UNKNOWN_TOTAL_FRAMES {
            None
        } else {
            Some(self.total_frames)
        }
    }

    /// This state after a seek to `frame` has been asked for.
    pub open spec fn sought(self, frame: u64) -> SharedState {
        SharedState {
            seek_target: frame,
            seek_epoch: self.seek_epoch.wrapping_add(1),
            ..self
        }
    }

    /// This state with what the writing side has published.
    pub open spec fn told(
        self,
        acked_epoch: u64,
        total_frames: u64,
        eof: bool,
        has_error: bool,
    ) -> SharedState {
        SharedState { acked_epoch, total_frames, eof, has_error, ..self }
    }

    /// Whether what comes out of the ring may be heard.
    pub open spec fn lets_through(self) -> bool {
        self.in_step() && !self.has_error
    }

    /// Whether the stream may start with `buffered` frames in the ring, where `preroll` frames are
    /// to be decoded ahead.
    pub open spec fn may_start(self, buffered: nat, preroll: usize) -> bool {
        self.in_step() && (buffered >= preroll || self.eof)
    }

    /// Nothing has happened yet.
    pub fn new() -> (s: SharedState)
        ensures
            s == (SharedState {
                seek_target: 0,
                seek_epoch: 0,
                acked_epoch: 0,
                total_frames: UNKNOWN_TOTAL_FRAMES,
                eof: false,
                has_error: false,
            }),
    {
        SharedState {
            seek_target: 0,
            seek_epoch: 0,
            acked_epoch: 0,
            total_frames: UNKNOWN_TOTAL_FRAMES,
            eof: false,
            has_error: false,
        }
    }
}

/// What a call of [`MusicStreamProducer::pump`] did.
#[derive(Debug, Clone, Copy, PartialEq, Eq, Structural)]
pub struct PumpOutcome {
    /// How many frames were written.
    pub pushed_frames: usize,
    /// Whether the end of the stream has been reached.
    pub reached_eof: bool,
}

impl Default for PumpOutcome {
    fn default() -> (o: PumpOutcome)
        ensures
            o == (PumpOutcome { pushed_frames: 0, reached_eof: false }),
    {
        PumpOutcome { pushed_frames: 0, reached_eof: false }
    }
}

/// The writing side of a stream.
pub struct MusicStreamProducer {
    /// The writing end of the ring.
    pub producer: rtrb::Producer<u32>,
    /// The latest seek that this side has carried out.
    pub observed_epoch: u64,
}

/// `n` silent samples.
pub open spec fn blank(n: nat) -> Seq<u32> {
    Seq::new(n, |i: int| SILENCE)
}

/// What a reply of a decoder adds to the ring.
pub open spec fn delivered(e: DecoderEvent) -> Seq<u32> {
    match e {
        DecoderEvent::Read { after, result: Ok(n), .. } => after.take(2 * n),
        _ => Seq::empty(),
    }
}

/// What the replies of a decoder add to the ring.
pub open spec fn all_delivered(log: Seq<DecoderEvent>) -> Seq<u32>
    decreases log.len(),
{
    if log.len() == 0 {
        Seq::empty()
    } else {
        all_delivered(log.drop_last()) + delivered(log.last())
    }
}

/// Whether `log` is what a decoder was asked to fill `free` free frames, and `failure` the error
/// it ended with. The free slots lie in two stretches, the first of `first` slots. The second one
/// is filled exactly if there is one and the first one was filled completely.
pub open spec fn filled_by(
    log: Seq<DecoderEvent>,
    free: nat,
    first: nat,
    failure: Option<DecodeError>,
) -> bool {
    &&& 1 <= log.len() <= 2
    &&& forall|i: int|
        0 <= i < log.len() ==> {
            &&& (#[trigger] log[i]) is Read
            &&& log[i]->before == blank(log[i]->before.len())
        }
    &&& log[0]->before.len() == first
    &&& log.len() == 2 <==> first < 2 * free && first % 2 == 0 && log[0]->result == Ok::<
        usize,
        DecodeError,
    >((first / 2) as usize)
    &&& log.len() == 2 ==> log[1]->before.len() == 2 * free - first
    &&& failure == match log.last()->result {
        Err(e) => Some(e),
        Ok(_) => None,
    }
}

/// What [`MusicStreamProducer::begin_pump`] does: the length is announced, and if a seek was asked
/// for, the decoder is moved. Only if that worked is the seek acknowledged.
pub open spec fn pump_begun(
    observed: u64,
    shared: SharedState,
    length: Option<u64>,
    log: Seq<DecoderEvent>,
    r: Result<(), DecodeError>,
    new_observed: u64,
    new_shared: SharedState,
) -> bool {
    let announced = SharedState {
        total_frames: match length {
            Some(n) => n,
            None => UNKNOWN_TOTAL_FRAMES,
        },
        ..shared
    };
    if shared.seek_epoch == observed {
        &&& r is Ok
        &&& new_shared == announced
        &&& new_observed == observed
        &&& log.len() == 0
    } else {
        &&& log.len() == 1
        &&& log[0] == (DecoderEvent::Seek { frame: shared.seek_target, outcome: r })
        &&& r is Ok ==> new_observed == shared.seek_epoch && new_shared == (SharedState {
            eof: false,
            has_error: false,
            acked_epoch: shared.seek_epoch,
            ..announced
        })
        &&& r is Err ==> new_observed == observed && new_shared == (SharedState {
            has_error: true,
            ..announced
        })
    }
}

/// What [`MusicStreamProducer::fill`] does with a ring of `slots` slots, of which `room` are free
/// for certain, after `put` words were put into it. If no frame fits, nothing happens. Else the
/// decoder fills what is free: an error of the decoder is passed on and remembered, and if it
/// delivers less than fits, the end has been reached.
pub open spec fn pump_filled(
    shared: SharedState,
    slots: nat,
    put: nat,
    room: nat,
    log: Seq<DecoderEvent>,
    r: Result<PumpOutcome, DecodeError>,
    new_shared: SharedState,
) -> bool {
    if log.len() == 0 {
        &&& r == Ok::<PumpOutcome, DecodeError>(
            PumpOutcome { pushed_frames: 0, reached_eof: shared.eof },
        )
        &&& new_shared == shared
        &&& room < 2
    } else {
        exists|free: nat, failure: Option<DecodeError>| #[trigger]
            filled_by(log, free, ring::first_stretch(slots, put, 2 * free), failure) && room - 1
                <= 2 * free <= slots && match failure {
                Some(e) => {
                    &&& r == Err::<PumpOutcome, DecodeError>(e)
                    &&& new_shared == (SharedState { has_error: true, ..shared })
                },
                None => {
                    let ended = all_delivered(log).len() < 2 * free;
                    &&& r == Ok::<PumpOutcome, DecodeError>(
                        PumpOutcome {
                            pushed_frames: (all_delivered(log).len() / 2) as usize,
                            reached_eof: ended,
                        },
                    )
                    &&& new_shared == (SharedState { eof: shared.eof || ended, ..shared })
                },
            }
    }
}

/// Whether `words` were put into the ring between two moments of its writing end, and nothing
/// else.
pub open spec fn were_put(
    before: rtrb::Producer<u32>,
    after: rtrb::Producer<u32>,
    words: Seq<u32>,
) -> bool {
    &&& ring::word_line_in(after) == ring::word_line_in(before)
    &&& ring::words_put(after) == ring::words_put(before) + words.len()
    &&& words.len() > 0 ==> ring::words_put(after) <= ring::word_line_in(after).len()
    &&& words.len() > 0 ==> words == ring::word_line_in(after).subrange(
        ring::words_put(before) as int,
        ring::words_put(after) as int,
    )
}

impl MusicStreamProducer {
    /// The first half of [`MusicStreamProducer::pump`]: announces the length of the stream and
    /// carries out a seek that was asked for. The other side must be shown the new state before
    /// anything more is written, else it throws away what belongs to the new position.
    pub fn begin_pump<D: MusicDecoder>(&mut self, shared: &mut SharedState, decoder: &mut D) -> (r:
        Result<(), DecodeError>)
        ensures
            old(decoder).events().is_prefix_of(final(decoder).events()),
            pump_begun(
                old(self).observed_epoch,
                *old(shared),
                old(decoder).length(),
                final(decoder).events().skip(old(decoder).events().len() as int),
                r,
                final(self).observed_epoch,
                *final(shared),
            ),
            final(self).producer == old(self).producer,
    {
        shared.total_frames =
        match decoder.total_frames() {
            Some(n) => n,
            None => UNKNOWN_TOTAL_FRAMES,
        };
        let result: Result<(), DecodeError> = self.handle_seek_if_requested(shared, decoder);
        if result.is_err() {
            shared.has_error = true;
        }
        assert(decoder.events().skip(old(decoder).events().len() as int) =~= if old(
            shared,
        ).seek_epoch == old(self).observed_epoch {
            Seq::empty()
        } else {
            seq![DecoderEvent::Seek { frame: old(shared).seek_target, outcome: result }]
        });
        result
    }

    /// Carries out a seek that was asked for.
    fn handle_seek_if_requested<D: MusicDecoder>(
        &mut self,
        shared: &mut SharedState,
        decoder: &mut D,
    ) -> (r: Result<(), DecodeError>)
        ensures
            final(self).producer == old(self).producer,
            ({
                let epoch = old(shared).seek_epoch;
                if epoch == old(self).observed_epoch {
                    &&& r is Ok
                    &&& *final(shared) == *old(shared)
                    &&& final(self).observed_epoch == epoch
                    &&& final(decoder).events() == old(decoder).events()
                } else {
                    &&& final(decoder).events() == old(decoder).events().push(
                        DecoderEvent::Seek { frame: old(shared).seek_target, outcome: r },
                    )
                    &&& r is Ok ==> final(self).observed_epoch == epoch && *final(shared) == (
                    SharedState { eof: false, has_error: false, acked_epoch: epoch, ..*old(shared) }
                    )
                    &&& r is Err ==> final(self).observed_epoch == old(self).observed_epoch
                        && *final(shared) == *old(shared)
                }
            }),
    {
        let requested_epoch: u64 = shared.seek_epoch;
        if requested_epoch == self.observed_epoch {
            return Ok(());
        }
        let result: Result<(), DecodeError> = decoder.seek(shared.seek_target);
        if result.is_ok() {
            self.observed_epoch = requested_epoch;
            shared.eof = false;
            shared.has_error = false;
            shared.acked_epoch = requested_epoch;
        }
        result
    }

    /// The second half of [`MusicStreamProducer::pump`]: decodes as many frames as the ring has
    /// room for. A decoder that delivers less has reached the end of the stream.
    pub fn fill<D: MusicDecoder>(
        &mut self,
        shared: &mut SharedState,
        decoder: &mut D,
    ) -> (r: Result<PumpOutcome, DecodeError>)
        ensures
            final(self).observed_epoch == old(self).observed_epoch,
            old(decoder).events().is_prefix_of(final(decoder).events()),
            ({
                let log = final(decoder).events().skip(old(decoder).events().len() as int);
                &&& were_put(old(self).producer, final(self).producer, all_delivered(log))
                &&& pump_filled(
                    *old(shared),
                    ring::word_slots(old(self).producer),
                    ring::words_put(old(self).producer),
                    ring::word_room(old(self).producer),
                    log,
                    r,
                    *final(shared),
                )
            }),
    {
        let ghost past = decoder.events();
        let free_frames: usize = measure_word_room(&mut self.producer) / CHANNELS;
        if free_frames == 0 {
            assert(decoder.events().skip(past.len() as int) =~= Seq::empty());
            return Ok(PumpOutcome { pushed_frames: 0, reached_eof: shared.eof });
        }
        let n_samples: usize = free_frames * CHANNELS;
        let (first_len, second_len) = split_word_room(&mut self.producer, n_samples);
        assert(first_len == ring::first_stretch(
            ring::word_slots(old(self).producer),
            ring::words_put(old(self).producer),
            2 * (free_frames as nat),
        ));
        let mut first: Vec<u32> = vec![SILENCE; first_len];
        assert(first@ =~= blank(first_len as nat));
        let first_result: Result<usize, DecodeError> = decoder.read(first.as_mut_slice());
        let ghost e1 = decoder.events().last();
        let ghost log1 = Seq::empty().push(e1);
        proof {
            assert(decoder.events().skip(past.len() as int) =~= log1);
            assert(log1.drop_last() =~= Seq::empty());
            assert(all_delivered(log1) =~= delivered(e1)) by {
                reveal_with_fuel(all_delivered, 2);
            }
        }
        let pushed: usize = match first_result {
            Ok(n) => n,
            Err(e) => {
                shared.has_error = true;
                assert(filled_by(log1, free_frames as nat, first_len as nat, Some(e)));
                return Err(e);
            },
        };
        let (kept, _) = first.as_slice().split_at(pushed * CHANNELS);
        put_words(&mut self.producer, kept);
        let ghost put = ring::words_put(self.producer);
        let ghost line = ring::word_line_in(self.producer);
        assert(kept@ =~= delivered(e1));
        let mut total: usize = pushed;
        if pushed * CHANNELS == first_len && second_len > 0 {
            let mut second: Vec<u32> = vec![SILENCE; second_len];
            assert(second@ =~= blank(second_len as nat));
            let second_result: Result<usize, DecodeError> = decoder.read(second.as_mut_slice());
            let ghost e2 = decoder.events().last();
            let ghost log2 = log1.push(e2);
            proof {
                assert(decoder.events().skip(past.len() as int) =~= log2);
                assert(log2.drop_last() =~= log1);
                assert(all_delivered(log2) =~= delivered(e1) + delivered(e2));
            }
            match second_result {
                Ok(n) => {
                    let (kept2, _) = second.as_slice().split_at(n * CHANNELS);
                    put_words(&mut self.producer, kept2);
                    assert(kept2@ =~= delivered(e2));
                    assert(all_delivered(log2) =~= line.subrange(
                        ring::words_put(old(self).producer) as int,
                        ring::words_put(self.producer) as int,
                    ));
                    total = total + n;
                    assert(filled_by(log2, free_frames as nat, first_len as nat, None));
                },
                Err(e) => {
                    shared.has_error = true;
                    assert(all_delivered(log2) =~= delivered(e1));
                    assert(filled_by(log2, free_frames as nat, first_len as nat, Some(e)));
                    return Err(e);
                },
            }
        } else {
            assert(filled_by(log1, free_frames as nat, first_len as nat, None));
        }
        let reached_eof: bool = total < free_frames;
        if reached_eof {
            shared.eof = true;
        }
        Ok(PumpOutcome { pushed_frames: total, reached_eof })
    }

    /// Carries out a seek that was asked for, and decodes as many frames as the ring has room for.
    pub fn pump<D: MusicDecoder>(
        &mut self,
        shared: &mut SharedState,
        decoder: &mut D,
    ) -> (r: Result<PumpOutcome, DecodeError>)
        ensures
            old(decoder).events().is_prefix_of(final(decoder).events()),
            ({
                let log = final(decoder).events().skip(old(decoder).events().len() as int);
                exists|begun: Result<(), DecodeError>, mid: SharedState, cut: int| #[trigger]
                    pump_begun(
                        old(self).observed_epoch,
                        *old(shared),
                        old(decoder).length(),
                        log.take(cut),
                        begun,
                        final(self).observed_epoch,
                        mid,
                    ) && 0 <= cut <= log.len() && match begun {
                        Err(e) => {
                            &&& r == Err::<PumpOutcome, DecodeError>(e)
                            &&& cut == log.len()
                            &&& *final(shared) == mid
                            &&& final(self).producer == old(self).producer
                        },
                        Ok(_) => {
                            &&& pump_filled(
                                mid,
                                ring::word_slots(old(self).producer),
                                ring::words_put(old(self).producer),
                                ring::word_room(old(self).producer),
                                log.skip(cut),
                                r,
                                *final(shared),
                            )
                            &&& were_put(
                                old(self).producer,
                                final(self).producer,
                                all_delivered(log.skip(cut)),
                            )
                        },
                    }
            }),
    {
        let ghost past = decoder.events();
        let begun: Result<(), DecodeError> = self.begin_pump(shared, decoder);
        let ghost mid = *shared;
        let ghost seen = decoder.events();
        let ghost cut = seen.len() - past.len();
        proof {
            assert(seen.skip(past.len() as int).take(cut) =~= seen.skip(past.len() as int));
        }
        if let Err(e) = begun {
            return Err(e);
        }
        let r: Result<PumpOutcome, DecodeError> = self.fill(shared, decoder);
        proof {
            let log = decoder.events().skip(past.len() as int);
            assert(log.take(cut) =~= seen.skip(past.len() as int));
            assert(log.skip(cut) =~= decoder.events().skip(seen.len() as int));
            assert(past.is_prefix_of(decoder.events()));
        }
        r
    }
}

/// The reading side of a stream.
pub struct StreamingMusicSource {
    /// The reading end of the ring.
    pub consumer: rtrb::Consumer<u32>,
    /// What the two sides have told each other, as far as this side knows.
    pub shared: SharedState,
    /// How many frames must have been decoded before the stream may start.
    pub preroll_frames: usize,
    /// The calls that have been answered so far.
    pub answered: Ghost<Seq<SourceEvent>>,
}

/// Whether words were taken out of the ring between two moments of its reading end without being
/// used.
pub open spec fn were_discarded(before: rtrb::Consumer<u32>, after: rtrb::Consumer<u32>) -> bool {
    &&& ring::word_line_out(after) == ring::word_line_out(before)
    &&& ring::words_taken(after) >= ring::words_taken(before) + ring::words_ready(before)
}

impl StreamingMusicSource {
    /// Takes note of what the writing side has published.
    pub fn observe(&mut self, acked_epoch: u64, total_frames: u64, eof: bool, has_error: bool)
        ensures
            final(self).shared == old(self).shared.told(acked_epoch, total_frames, eof, has_error),
            *final(self) == (StreamingMusicSource {
                shared: SharedState {
                    acked_epoch,
                    total_frames,
                    eof,
                    has_error,
                    ..old(self).shared
                },
                ..*old(self)
            }),
    {
        self.shared.acked_epoch = acked_epoch;
        self.shared.total_frames = total_frames;
        self.shared.eof = eof;
        self.shared.has_error = has_error;
    }

    /// How many frames are in the ring at this moment.
    pub fn buffered_frames(&mut self) -> (n: usize)
        ensures
            n == ring::words_ready(final(self).consumer) / 2,
            ring::words_ready(final(self).consumer) >= ring::words_ready(old(self).consumer),
            ring::words_taken(final(self).consumer) == ring::words_taken(old(self).consumer),
            ring::word_line_out(final(self).consumer) == ring::word_line_out(old(self).consumer),
            *final(self) == (StreamingMusicSource {
                consumer: final(self).consumer,
                ..*old(self)
            }),
    {
        measure_words_ready(&mut self.consumer) / CHANNELS
    }

    /// Whether the writing side has failed and has not been moved since.
    pub fn has_stream_error(&self) -> (yes: bool)
        ensures
            yes == self.shared.has_error,
    {
        self.shared.has_error
    }

    /// Throws away everything that is in the ring at this moment.
    fn drain_all_available(&mut self)
        ensures
            were_discarded(old(self).consumer, final(self).consumer),
            *final(self) == (StreamingMusicSource {
                consumer: final(self).consumer,
                ..*old(self)
            }),
    {
        let available: usize = measure_words_ready(&mut self.consumer);
        if available == 0 {
            return;
        }
        discard_words(&mut self.consumer, available);
    }
}

impl MusicFrameSource for StreamingMusicSource {
    open spec fn events(&self) -> Seq<SourceEvent> {
        self.answered@
    }

    /// Takes frames from the ring. While a seek has not been carried out, everything that comes
    /// out of the ring is thrown away; after a failure of the writing side nothing is taken.
    fn read(&mut self, out: &mut [u32]) -> (count: usize)
        ensures
            final(self).shared == old(self).shared,
            final(self).preroll_frames == old(self).preroll_frames,
            !old(self).shared.lets_through() ==> count == 0 && final(out)@ == old(out)@,
            old(self).shared.lets_through() ==> {
                let start = ring::words_taken(old(self).consumer) as int;
                final(out)@.take(2 * count as int) == ring::word_line_out(
                    old(self).consumer,
                ).subrange(start, start + 2 * count)
            },
            !old(self).shared.in_step() ==> {
                &&& count == 0
                &&& final(out)@ == old(out)@
                &&& were_discarded(old(self).consumer, final(self).consumer)
            },
            old(self).shared.in_step() && old(self).shared.has_error ==> {
                &&& count == 0
                &&& final(out)@ == old(out)@
                &&& final(self).consumer == old(self).consumer
            },
            old(self).shared.in_step() && !old(self).shared.has_error ==> {
                let start = ring::words_taken(old(self).consumer);
                let end = ring::words_taken(final(self).consumer);
                let line = ring::word_line_out(final(self).consumer);
                let usable = old(out)@.len() - old(out)@.len() % 2;
                &&& line == ring::word_line_out(old(self).consumer)
                &&& start <= end <= line.len()
                &&& count == (end - start) / 2
                &&& end - start <= usable
                &&& final(out)@ == line.subrange(start as int, end as int) + old(out)@.skip(
                    end - start,
                )
                &&& end - start >= ring::words_ready(old(self).consumer) || end - start == usable
            },
    {
        let ghost before = out@;
        if self.shared.acked_epoch != self.shared.seek_epoch {
            self.drain_all_available();
            self.answered = Ghost(
                self.answered@.push(SourceEvent::Read { before, after: before, count: 0 }),
            );
            return 0;
        }
        if self.shared.has_error {
            self.answered = Ghost(
                self.answered@.push(SourceEvent::Read { before, after: before, count: 0 }),
            );
            return 0;
        }
        let len: usize = out.len();
        let (usable, rest) = out.split_at_mut(len - len % CHANNELS);
        let n: usize = take_words(&mut self.consumer, usable);
        let count: usize = n / CHANNELS;
        assert(out@ =~= ring::word_line_out(self.consumer).subrange(
            ring::words_taken(old(self).consumer) as int,
            ring::words_taken(self.consumer) as int,
        ) + before.skip(n as int));
        self.answered = Ghost(
            self.answered@.push(SourceEvent::Read { before, after: out@, count }),
        );
        count
    }

    /// The length of the stream, if the writing side has announced it.
    fn total_frames(&mut self) -> (total: Option<u64>)
        ensures
            total == old(self).shared.length(),
            *final(self) == (StreamingMusicSource { answered: final(self).answered, ..*old(self) }),
    {
        let total: Option<u64> = if self.shared.total_frames == UNKNOWN_TOTAL_FRAMES {
            None
        } else {
            Some(self.shared.total_frames)
        };
        self.answered = Ghost(self.answered@.push(SourceEvent::Total(total)));
        total
    }

    /// Whether the stream may start: the latest seek has been carried out, and enough has been
    /// decoded, or everything there is.
    fn is_ready(&mut self) -> (ready: bool)
        ensures
            ready == old(self).shared.may_start(
                ring::words_ready(final(self).consumer) / 2,
                old(self).preroll_frames,
            ),
            ready == (old(self).shared.in_step() && (ring::words_ready(final(self).consumer) / 2
                >= old(self).preroll_frames || old(self).shared.eof)),
            final(self).shared == old(self).shared,
            final(self).preroll_frames == old(self).preroll_frames,
            ring::words_taken(final(self).consumer) == ring::words_taken(old(self).consumer),
            ring::word_line_out(final(self).consumer) == ring::word_line_out(old(self).consumer),
    {
        let buffered: usize = self.buffered_frames();
        let ready: bool = self.shared.acked_epoch == self.shared.seek_epoch && (buffered
            >= self.preroll_frames || self.shared.eof);
        self.answered = Ghost(self.answered@.push(SourceEvent::Ready(ready)));
        ready
    }

    /// Throws away what is in the ring and asks the writing side to move to `frame`.
    fn request_seek(&mut self, frame: u64)
        ensures
            were_discarded(old(self).consumer, final(self).consumer),
            final(self).preroll_frames == old(self).preroll_frames,
            final(self).shared == old(self).shared.sought(frame),
            final(self).shared == (SharedState {
                seek_target: frame,
                seek_epoch: old(self).shared.seek_epoch.wrapping_add(1),
                ..old(self).shared
            }),
    {
        self.drain_all_available();
        self.shared.seek_target = frame;
        self.shared.seek_epoch = self.shared.seek_epoch.wrapping_add(1);
        self.answered = Ghost(self.answered@.push(SourceEvent::Seek(frame)));
    }
}

/// The size of the ring of a stream in samples: four times as long as the stream has to be decoded
/// ahead before it may start, and at least one frame.
pub open spec fn ring_size(preroll_frames: u32) -> int {
    if preroll_frames == 0 {
        2
    } else {
        preroll_frames * 4 * 2
    }
}

/// Whether the two sides of a stream are new: nothing has been put in or asked for, and the ring
/// has room for four times the preroll.
pub open spec fn is_new_stream(
    producer: MusicStreamProducer,
    source: StreamingMusicSource,
    preroll_frames: u32,
) -> bool {
    &&& ring::word_line_in(producer.producer) == ring::word_line_out(source.consumer)
    &&& ring::words_put(producer.producer) == 0
    &&& ring::words_taken(source.consumer) == 0
    &&& ring::word_room(producer.producer) == ring_size(preroll_frames)
    &&& ring::word_slots(producer.producer) == ring_size(preroll_frames)
    &&& producer.observed_epoch == 0
    &&& source.shared == (SharedState {
        seek_target: 0,
        seek_epoch: 0,
        acked_epoch: 0,
        total_frames: UNKNOWN_TOTAL_FRAMES,
        eof: false,
        has_error: false,
    })
    &&& source.preroll_frames == preroll_frames
    &&& source.events() == Seq::<SourceEvent>::empty()
}

/// Sets up a stream: its writing and its reading side.
pub fn channel<M: SampleMath>(m: &M, config: Config, sample_rate: u32) -> (sides: (
    MusicStreamProducer,
    StreamingMusicSource,
))
    requires
        math::is_pure(m),
        ring_size(ramp::samples_in_ms(m, config.preroll_ms, sample_rate)) <= usize::MAX / 16,
    ensures
        is_new_stream(
            sides.0,
            sides.1,
            ramp::samples_in_ms(m, config.preroll_ms, sample_rate),
        ),
{
    let preroll: u32 = ms_to_samples(m, config.preroll_ms, sample_rate);
    let wanted: u64 = preroll as u64 * 4;
    let frames: u64 = if wanted == 0 {
        1
    } else {
        wanted
    };
    let (producer, consumer) = new_word_ring(frames as usize * CHANNELS);
    (
        MusicStreamProducer { producer, observed_epoch: 0 },
        StreamingMusicSource {
            consumer,
            shared: SharedState::new(),
            preroll_frames: preroll as usize,
            answered: Ghost(Seq::empty()),
        },
    )
}

/// What comes out of a stream is what was put in, in the same order: the word that the reading end
/// takes out as number `n` is the one that the writing end has put in as number `n`, whatever else
/// the two ends have done in between. `before_put` and `after_put` are the writing end around a
/// call that has put in `put`, `before_take` and `after_take` the reading end around one that has
/// taken out `taken`.
pub proof fn law_stream_keeps_order(
    before_put: rtrb::Producer<u32>,
    after_put: rtrb::Producer<u32>,
    put: Seq<u32>,
    before_take: rtrb::Consumer<u32>,
    after_take: rtrb::Consumer<u32>,
    taken: Seq<u32>,
    n: int,
)
    requires
        ring::word_line_in(after_put) == ring::word_line_out(after_take),
        were_put(before_put, after_put, put),
        ring::words_taken(before_take) <= ring::words_taken(after_take) <= ring::word_line_out(
            after_take,
        ).len(),
        taken == ring::word_line_out(after_take).subrange(
            ring::words_taken(before_take) as int,
            ring::words_taken(after_take) as int,
        ),
        ring::words_put(before_put) <= n < ring::words_put(after_put),
        ring::words_taken(before_take) <= n < ring::words_taken(after_take),
    ensures
        taken[n - ring::words_taken(before_take)] == put[n - ring::words_put(before_put)],
{
}

/// What is written in two steps is written in one piece.
pub proof fn law_writes_join(
    a: rtrb::Producer<u32>,
    b: rtrb::Producer<u32>,
    c: rtrb::Producer<u32>,
    first: Seq<u32>,
    second: Seq<u32>,
)
    requires
        were_put(a, b, first),
        were_put(b, c, second),
    ensures
        were_put(a, c, first + second),
{
    if first.len() + second.len() > 0 {
        assert(first + second =~= ring::word_line_in(c).subrange(
            ring::words_put(a) as int,
            ring::words_put(c) as int,
        ));
    }
}

/// A seek is carried out before it is acknowledged, and nothing is written in between: when the
/// writing side acknowledges a new epoch, the last thing it did was to move the decoder to the
/// target of that epoch.
pub proof fn law_seeks_are_carried_out_before_they_are_acknowledged(
    observed: u64,
    shared: SharedState,
    length: Option<u64>,
    log: Seq<DecoderEvent>,
    r: Result<(), DecodeError>,
    new_observed: u64,
    new_shared: SharedState,
)
    requires
        pump_begun(observed, shared, length, log, r, new_observed, new_shared),
        new_shared.acked_epoch != shared.acked_epoch,
    ensures
        new_shared.acked_epoch == shared.seek_epoch,
        log == seq![DecoderEvent::Seek { frame: shared.seek_target, outcome: r }],
        r is Ok,
        !new_shared.eof && !new_shared.has_error,
{
    assert(log =~= seq![DecoderEvent::Seek { frame: shared.seek_target, outcome: r }]);
}

/// After a seek only frames from the new position are heard. `at_ack` is the writing end when the
/// seek was acknowledged, `now` the writing end later, and `since` what the decoder has delivered
/// in between. Once the reading side has thrown away what was written before the acknowledgement,
/// what it takes out is a stretch of `since`.
pub proof fn law_after_a_seek_only_new_frames_are_heard(
    at_ack: rtrb::Producer<u32>,
    now: rtrb::Producer<u32>,
    since: Seq<u32>,
    before_take: rtrb::Consumer<u32>,
    after_take: rtrb::Consumer<u32>,
    taken: Seq<u32>,
)
    requires
        were_put(at_ack, now, since),
        ring::word_line_in(now) == ring::word_line_out(after_take),
        ring::words_put(at_ack) <= ring::words_taken(before_take) <= ring::words_taken(after_take)
            <= ring::words_put(now),
        ring::words_taken(after_take) <= ring::word_line_out(after_take).len(),
        taken == ring::word_line_out(after_take).subrange(
            ring::words_taken(before_take) as int,
            ring::words_taken(after_take) as int,
        ),
    ensures
        taken == since.subrange(
            ring::words_taken(before_take) - ring::words_put(at_ack),
            ring::words_taken(after_take) - ring::words_put(at_ack),
        ),
{
    assert(taken =~= since.subrange(
        ring::words_taken(before_take) - ring::words_put(at_ack),
        ring::words_taken(after_take) - ring::words_put(at_ack),
    ));
}

/// A pump begins by telling the length of the music, or that it is not known. Where no seek was
/// asked for, nothing else happens. A seek that was asked for moves the decoder to its target: if
/// that works the end and any error are forgotten and the seek is acknowledged; if not, the error
/// is remembered, the seek is not acknowledged and will be tried again.
pub proof fn law_pumps_begin_with_the_seek(
    observed: u64,
    shared: SharedState,
    length: Option<u64>,
    log: Seq<DecoderEvent>,
    r: Result<(), DecodeError>,
    new_observed: u64,
    new_shared: SharedState,
)
    requires
        pump_begun(observed, shared, length, log, r, new_observed, new_shared),
        length != Some(UNKNOWN_TOTAL_FRAMES),
    ensures
        new_shared.length() == length,
        new_shared.seek_epoch == shared.seek_epoch,
        new_shared.seek_target == shared.seek_target,
        observed == shared.seek_epoch ==> {
            &&& r is Ok
            &&& log.len() == 0
            &&& new_observed == observed
            &&& new_shared.acked_epoch == shared.acked_epoch
            &&& new_shared.eof == shared.eof
            &&& new_shared.has_error == shared.has_error
        },
        observed != shared.seek_epoch ==> {
            &&& log == seq![DecoderEvent::Seek { frame: shared.seek_target, outcome: r }]
            &&& r is Ok ==> {
                &&& new_observed == shared.seek_epoch
                &&& new_shared.in_step()
                &&& !new_shared.eof
                &&& !new_shared.has_error
            }
            &&& r is Err ==> {
                &&& new_observed == observed
                &&& new_observed != new_shared.seek_epoch
                &&& new_shared.acked_epoch == shared.acked_epoch
                &&& new_shared.eof == shared.eof
                &&& new_shared.has_error
            }
        },
{
    if observed != shared.seek_epoch {
        assert(log =~= seq![DecoderEvent::Seek { frame: shared.seek_target, outcome: r }]);
    }
}

/// What a decoder delivers is the frames that it says it has read, from the start of its buffer; a
/// read that failed, or a seek, delivers nothing. What several replies deliver comes in their
/// order.
pub proof fn law_replies_deliver_their_frames(log: Seq<DecoderEvent>, e: DecoderEvent)
    ensures
        all_delivered(Seq::empty()).len() == 0,
        all_delivered(log.push(e)) == all_delivered(log) + delivered(e),
        e matches DecoderEvent::Read { before, after, result } ==> {
            &&& result matches Ok(n) ==> delivered(e) == after.subrange(0, 2 * n)
            &&& result is Err ==> delivered(e).len() == 0
        },
        e is Seek ==> delivered(e).len() == 0,
{
    assert(log.push(e).drop_last() =~= log);
    if let DecoderEvent::Read { before, after, result: Ok(n) } = e {
        assert(after.take(2 * n) =~= after.subrange(0, 2 * n));
    }
}

/// A pump fills what is free in the ring. Where no frame fits it asks the decoder for nothing and
/// changes nothing. An error of the decoder is passed on and remembered. Otherwise the pump counts
/// the frames that were delivered, and the end has been reached exactly if those were fewer than
/// fit; an end that was reached before is not forgotten. A seek is neither asked for nor
/// acknowledged by it.
pub proof fn law_pumps_fill_what_is_free(
    shared: SharedState,
    slots: nat,
    put: nat,
    room: nat,
    log: Seq<DecoderEvent>,
    r: Result<PumpOutcome, DecodeError>,
    new_shared: SharedState,
)
    requires
        pump_filled(shared, slots, put, room, log, r, new_shared),
    ensures
        log.len() == 0 ==> new_shared == shared && room < 2 && r == Ok::<PumpOutcome, DecodeError>(
            PumpOutcome { pushed_frames: 0, reached_eof: shared.eof },
        ),
        log.len() > 0 ==> {
            &&& log.len() <= 2
            &&& forall|i: int| 0 <= i < log.len() ==> (#[trigger] log[i]) is Read
            &&& r is Err <==> log.last()->result is Err
            &&& r matches Err(e) ==> log.last()->result == Err::<usize, DecodeError>(e)
                && new_shared.has_error && new_shared.eof == shared.eof
            &&& r matches Ok(outcome) ==> {
                &&& new_shared.has_error == shared.has_error
                &&& new_shared.eof == (shared.eof || outcome.reached_eof)
                &&& outcome.pushed_frames == (all_delivered(log).len() / 2) as usize
                &&& exists|free: nat| #[trigger]
                    filled_by(log, free, ring::first_stretch(slots, put, 2 * free), None) && room
                        - 1 <= 2 * free <= slots && (outcome.reached_eof <==> all_delivered(
                        log,
                    ).len() < 2 * free)
            }
        },
        new_shared.seek_epoch == shared.seek_epoch,
        new_shared.seek_target == shared.seek_target,
        new_shared.acked_epoch == shared.acked_epoch,
        new_shared.total_frames == shared.total_frames,
{
}

/// A decoder that fills everything that is free has not reached the end, and one that does not has:
/// `log` is what the decoder was asked, and answered without an error, to fill `free` frames.
pub proof fn law_short_reads_are_the_end(
    log: Seq<DecoderEvent>,
    free: nat,
    first: nat,
)
    requires
        filled_by(log, free, first, None),
        first <= 2 * free <= usize::MAX,
        forall|i: int|
            0 <= i < log.len() ==> (#[trigger] log[i])->after.len() == log[i]->before.len() && (
            log[i]->result matches Ok(n) ==> 2 * n <= log[i]->before.len()),
    ensures
        all_delivered(log).len() <= 2 * free,
        log.len() == 1 ==> {
            &&& log[0]->before.len() == first
            &&& all_delivered(log) == delivered(log[0])
        },
        log.len() == 2 ==> {
            &&& log[0]->before.len() + log[1]->before.len() == 2 * free
            &&& delivered(log[0]) == log[0]->after
            &&& all_delivered(log) == log[0]->after + delivered(log[1])
        },
        log.len() == 1 && all_delivered(log).len() == first && first % 2 == 0 ==> first == 2 * free,
{
    reveal_with_fuel(all_delivered, 3);
    assert(log[0] is Read);
    if log.len() == 1 {
        assert(log.drop_last() =~= Seq::empty());
        assert(all_delivered(log) =~= delivered(log[0]));
        assert(log.last() == log[0]);
    } else {
        assert(log[1] is Read);
        assert(log.drop_last().drop_last() =~= Seq::empty());
        assert(log.drop_last().last() == log[0]);
        assert(delivered(log[0]) =~= log[0]->after);
        assert(all_delivered(log) =~= log[0]->after + delivered(log[1]));
    }
}

/// The ring of a stream holds four times the frames that have to be decoded ahead, and at least
/// one frame, of two samples each.
pub proof fn law_rings_hold_four_times_the_preroll(preroll_frames: u32)
    ensures
        ring_size(preroll_frames) >= 2,
        preroll_frames > 0 ==> ring_size(preroll_frames) == 2 * (4 * preroll_frames),
        ring_size(preroll_frames) >= 2 * preroll_frames,
{
}

/// A seek puts the reading side out of step until the writing side has carried it out: from then on
/// nothing is heard and the stream may not start, however much is in the ring, until that very seek
/// is acknowledged. Of several seeks the last one counts.
pub proof fn law_nothing_is_heard_until_a_seek_is_carried_out(
    shared: SharedState,
    frame: u64,
    later: u64,
    buffered: nat,
    preroll: usize,
)
    requires
        shared.in_step(),
    ensures
        ({
            let asked = shared.sought(frame);
            &&& !asked.in_step()
            &&& !asked.lets_through()
            &&& !asked.may_start(buffered, preroll)
            &&& asked.seek_target == frame
            &&& asked.acked_epoch == shared.acked_epoch
            &&& asked.total_frames == shared.total_frames
            &&& asked.eof == shared.eof
            &&& asked.has_error == shared.has_error
            &&& asked.sought(later).seek_target == later
            &&& !asked.sought(later).in_step()
            &&& (SharedState { acked_epoch: asked.seek_epoch, ..asked }).in_step()
            &&& !(SharedState { acked_epoch: asked.seek_epoch, ..asked.sought(later) }).in_step()
        }),
{
}

/// A stream that is in step may start as soon as enough has been decoded, or everything there is.
/// After a failure of the writing side nothing is heard until a seek has been carried out.
pub proof fn law_streams_start_with_enough(shared: SharedState, buffered: nat, preroll: usize)
    requires
        shared.in_step(),
    ensures
        buffered >= preroll ==> shared.may_start(buffered, preroll),
        shared.eof ==> shared.may_start(buffered, preroll),
        buffered < preroll && !shared.eof ==> !shared.may_start(buffered, preroll),
        shared.lets_through() <==> !shared.has_error,
        shared.length() is None <==> shared.total_frames == UNKNOWN_TOTAL_FRAMES,
        shared.length() matches Some(n) ==> n == shared.total_frames,
{
}

/// What the writing side publishes reaches the reading side as it is, and does not change which
/// seek was asked for; a seek does not change what was published.
pub proof fn law_each_side_says_its_own(shared: SharedState, published: SharedState, frame: u64)
    ensures
        ({
            let next = shared.told(
                published.acked_epoch,
                published.total_frames,
                published.eof,
                published.has_error,
            );
            &&& next.acked_epoch == published.acked_epoch
            &&& next.length() == published.length()
            &&& next.eof == published.eof
            &&& next.has_error == published.has_error
            &&& next.seek_target == shared.seek_target
            &&& next.seek_epoch == shared.seek_epoch
            &&& shared.sought(frame).told(
                published.acked_epoch,
                published.total_frames,
                published.eof,
                published.has_error,
            ) == next.sought(frame)
        }),
{
}

/// The two sides of a new stream are in step with nothing in between: nothing was put in or taken
/// out, no seek was asked for, the length is not known, and the stream may not start before enough
/// has been decoded.
pub proof fn law_new_streams_are_empty(
    producer: MusicStreamProducer,
    source: StreamingMusicSource,
    preroll_frames: u32,
    buffered: nat,
)
    requires
        is_new_stream(producer, source, preroll_frames),
    ensures
        ring::words_put(producer.producer) == 0,
        ring::words_taken(source.consumer) == 0,
        ring::word_line_in(producer.producer) == ring::word_line_out(source.consumer),
        ring::word_room(producer.producer) >= 2 * preroll_frames,
        source.shared.in_step(),
        source.shared.lets_through(),
        source.shared.length() is None,
        producer.observed_epoch == source.shared.seek_epoch,
        source.shared.may_start(buffered, source.preroll_frames) <==> buffered >= preroll_frames,
{
}

} // verus!
