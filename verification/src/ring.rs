//! The queues between threads: single-producer single-consumer rings of the crate `rtrb`.
//!
//! Each ring has two ends, which different threads may use at the same time. What is stated of an
//! end must therefore hold whatever the other end does meanwhile:
//!
//! - The *line* of a ring is everything that is put into it over its whole life, in order. Both
//!   ends share one line, and neither changes it.
//! - The producer knows how many items it has put in, and a number of slots that are free for
//!   certain: the consumer can only free more of them.
//! - The consumer knows how many items it has taken out, and a number of items that are there for
//!   certain: the producer can only add more of them.
//!
//! That a ring is first in, first out then means that the item which is put in or taken out as
//! number `n` is the one at position `n` of the line.

use std::sync::Arc;

use vstd::prelude::*;

use crate::command::Command;
use crate::sound::SoundData;

verus! {

/// The writing end of a ring of the crate `rtrb`.
#[verifier::external_type_specification]
#[verifier::external_body]
#[verifier::reject_recursive_types(T)]
pub struct ExProducer<T>(rtrb::Producer<T>);

/// The reading end of a ring of the crate `rtrb`.
#[verifier::external_type_specification]
#[verifier::external_body]
#[verifier::reject_recursive_types(T)]
pub struct ExConsumer<T>(rtrb::Consumer<T>);

/// The line of the ring that `p` writes to.
pub uninterp spec fn word_line_in(p: rtrb::Producer<u32>) -> Seq<u32>;

/// How many words `p` has put in.
pub uninterp spec fn words_put(p: rtrb::Producer<u32>) -> nat;

/// How many slots are free for certain, as far as `p` knows.
pub uninterp spec fn word_room(p: rtrb::Producer<u32>) -> nat;

/// How many slots the ring that `p` writes to was made with.
pub uninterp spec fn word_slots(p: rtrb::Producer<u32>) -> nat;

/// How many of the next `n` words, at least one, lie side by side in a ring of `slots` slots into
/// which `put` words were put: those up to the last slot.
pub open spec fn first_stretch(slots: nat, put: nat, n: nat) -> nat {
    let left = (slots - put % slots) as nat;
    if n < left {
        n
    } else {
        left
    }
}

/// The line of the ring that `c` reads from.
pub uninterp spec fn word_line_out(c: rtrb::Consumer<u32>) -> Seq<u32>;

/// How many words `c` has taken out.
pub uninterp spec fn words_taken(c: rtrb::Consumer<u32>) -> nat;

/// How many words are there for certain, as far as `c` knows.
pub uninterp spec fn words_ready(c: rtrb::Consumer<u32>) -> nat;

/// Calls `rtrb::RingBuffer::new`: the two ends of a new ring with `capacity` free slots. The
/// memory for so many words must not exceed what an allocation may hold.
#[verifier::external_body]
pub(crate) fn new_word_ring(capacity: usize) -> (ends: (rtrb::Producer<u32>, rtrb::Consumer<u32>))
    requires
        capacity <= usize::MAX / 16,
    ensures
        word_line_in(ends.0) == word_line_out(ends.1),
        words_put(ends.0) == 0,
        words_taken(ends.1) == 0,
        word_room(ends.0) == capacity,
        word_slots(ends.0) == capacity,
        words_ready(ends.1) == 0,
{
    rtrb::RingBuffer::new(capacity)
}

/// Calls `rtrb::Producer::slots`: how many slots are free at this moment, at least as many as were
/// known before.
#[verifier::external_body]
pub(crate) fn measure_word_room(p: &mut rtrb::Producer<u32>) -> (n: usize)
    ensures
        n == word_room(*final(p)),
        n >= word_room(*old(p)),
        n <= word_slots(*final(p)),
        word_slots(*final(p)) == word_slots(*old(p)),
        words_put(*final(p)) == words_put(*old(p)),
        word_line_in(*final(p)) == word_line_in(*old(p)),
{
    p.slots()
}

/// Calls `rtrb::Producer::write_chunk` and looks at the lengths of the two slices of the chunk,
/// which is then dropped: `n` free slots lie in up to two stretches of memory. Words are put into
/// the slots in turn, from the first to the last and over again, so the first stretch ends with the
/// last slot, if it gets that far.
#[verifier::external_body]
pub(crate) fn split_word_room(p: &mut rtrb::Producer<u32>, n: usize) -> (lens: (usize, usize))
    requires
        n <= word_room(*old(p)),
    ensures
        lens.0 + lens.1 == n,
        n > 0 ==> lens.0 == first_stretch(word_slots(*old(p)), words_put(*old(p)), n as nat),
        word_slots(*final(p)) == word_slots(*old(p)),
        word_room(*final(p)) >= word_room(*old(p)),
        words_put(*final(p)) == words_put(*old(p)),
        word_line_in(*final(p)) == word_line_in(*old(p)),
{
    match p.write_chunk(n) {
        Ok(mut chunk) => {
            let (first, second) = chunk.as_mut_slices();
            (first.len(), second.len())
        },
        Err(_) => (n, 0),
    }
}

/// Calls `rtrb::Producer::push_entire_slice`: puts `words` into the ring, in order.
#[verifier::external_body]
pub(crate) fn put_words(p: &mut rtrb::Producer<u32>, words: &[u32])
    requires
        words@.len() <= word_room(*old(p)),
    ensures
        words_put(*final(p)) == words_put(*old(p)) + words@.len(),
        word_line_in(*final(p)) == word_line_in(*old(p)),
        words_put(*final(p)) <= word_line_in(*final(p)).len(),
        words@ == word_line_in(*final(p)).subrange(
            words_put(*old(p)) as int,
            words_put(*final(p)) as int,
        ),
        word_room(*final(p)) >= word_room(*old(p)) - words@.len(),
        word_slots(*final(p)) == word_slots(*old(p)),
{
    let _ = p.push_entire_slice(words);
}

/// Calls `rtrb::Consumer::slots`: how many words are there at this moment, at least as many as
/// were known before.
#[verifier::external_body]
pub(crate) fn measure_words_ready(c: &mut rtrb::Consumer<u32>) -> (n: usize)
    ensures
        n == words_ready(*final(c)),
        n >= words_ready(*old(c)),
        words_taken(*final(c)) == words_taken(*old(c)),
        word_line_out(*final(c)) == word_line_out(*old(c)),
{
    c.slots()
}

/// Calls `rtrb::Consumer::read_chunk` and `commit_all` on the chunk: takes out `n` words without
/// looking at them.
#[verifier::external_body]
pub(crate) fn discard_words(c: &mut rtrb::Consumer<u32>, n: usize)
    requires
        n <= words_ready(*old(c)),
    ensures
        words_taken(*final(c)) == words_taken(*old(c)) + n,
        word_line_out(*final(c)) == word_line_out(*old(c)),
        words_taken(*final(c)) <= word_line_out(*final(c)).len(),
        words_ready(*final(c)) >= words_ready(*old(c)) - n,
{
    if let Ok(chunk) = c.read_chunk(n) {
        chunk.commit_all();
    }
}

/// Calls `rtrb::Consumer::pop_partial_slice`: takes out as many words as are there, up to the
/// length of `out`, and puts them at the start of `out`. The rest of `out` stays as it is.
#[verifier::external_body]
pub(crate) fn take_words(c: &mut rtrb::Consumer<u32>, out: &mut [u32]) -> (n: usize)
    ensures
        n <= old(out)@.len(),
        words_ready(*old(c)) < old(out)@.len() ==> n >= words_ready(*old(c)),
        words_ready(*old(c)) >= old(out)@.len() ==> n == old(out)@.len(),
        words_taken(*final(c)) == words_taken(*old(c)) + n,
        word_line_out(*final(c)) == word_line_out(*old(c)),
        words_taken(*final(c)) <= word_line_out(*final(c)).len(),
        final(out)@ == word_line_out(*final(c)).subrange(
            words_taken(*old(c)) as int,
            words_taken(*final(c)) as int,
        ) + old(out)@.skip(n as int),
{
    let (filled, _) = c.pop_partial_slice(out);
    filled.len()
}

/// The line of the ring that `p` writes to.
pub uninterp spec fn command_line_in(p: rtrb::Producer<Command>) -> Seq<Command>;

/// How many commands `p` has put in.
pub uninterp spec fn commands_put(p: rtrb::Producer<Command>) -> nat;

/// How many slots are free for certain, as far as `p` knows.
pub uninterp spec fn command_room(p: rtrb::Producer<Command>) -> nat;

/// The line of the ring that `c` reads from.
pub uninterp spec fn command_line_out(c: rtrb::Consumer<Command>) -> Seq<Command>;

/// How many commands `c` has taken out.
pub uninterp spec fn commands_taken(c: rtrb::Consumer<Command>) -> nat;

/// How many commands are there for certain, as far as `c` knows.
pub uninterp spec fn commands_ready(c: rtrb::Consumer<Command>) -> nat;

/// Calls `rtrb::RingBuffer::new`: the two ends of a new ring with `capacity` free slots. The
/// memory for so many commands must not exceed what an allocation may hold.
#[verifier::external_body]
pub(crate) fn new_command_ring(capacity: usize) -> (ends: (
    rtrb::Producer<Command>,
    rtrb::Consumer<Command>,
))
    requires
        capacity <= usize::MAX / 256,
    ensures
        command_line_in(ends.0) == command_line_out(ends.1),
        commands_put(ends.0) == 0,
        command_room(ends.0) == capacity,
        commands_taken(ends.1) == 0,
        commands_ready(ends.1) == 0,
{
    rtrb::RingBuffer::new(capacity)
}

/// Calls `rtrb::Producer::push`: puts a command into the ring unless the ring is full, which it is
/// not as long as a slot is known to be free.
#[verifier::external_body]
pub(crate) fn put_command(p: &mut rtrb::Producer<Command>, command: Command) -> (done: bool)
    ensures
        command_line_in(*final(p)) == command_line_in(*old(p)),
        command_room(*old(p)) > 0 ==> done,
        done ==> {
            &&& commands_put(*final(p)) == commands_put(*old(p)) + 1
            &&& commands_put(*final(p)) <= command_line_in(*final(p)).len()
            &&& command_line_in(*final(p))[commands_put(*old(p)) as int] == command
            &&& command_room(*final(p)) >= command_room(*old(p)) - 1
        },
        !done ==> {
            &&& commands_put(*final(p)) == commands_put(*old(p))
            &&& command_room(*final(p)) == 0
        },
{
    p.push(command).is_ok()
}

/// Calls `rtrb::Consumer::pop`: takes out the next command, unless there is none, which is not so
/// as long as one is known to be there.
#[verifier::external_body]
pub(crate) fn take_command(c: &mut rtrb::Consumer<Command>) -> (command: Option<Command>)
    ensures
        command_line_out(*final(c)) == command_line_out(*old(c)),
        commands_ready(*old(c)) > 0 ==> command is Some,
        command matches Some(v) ==> {
            &&& commands_taken(*final(c)) == commands_taken(*old(c)) + 1
            &&& commands_taken(*final(c)) <= command_line_out(*final(c)).len()
            &&& v == command_line_out(*final(c))[commands_taken(*old(c)) as int]
            &&& commands_ready(*final(c)) >= commands_ready(*old(c)) - 1
        },
        command is None ==> {
            &&& commands_taken(*final(c)) == commands_taken(*old(c))
            &&& commands_ready(*final(c)) == 0
        },
{
    c.pop().ok()
}

/// The line of the ring that `p` writes to.
pub uninterp spec fn sound_line_in(p: rtrb::Producer<Arc<SoundData>>) -> Seq<Arc<SoundData>>;

/// How many sounds `p` has put in.
pub uninterp spec fn sounds_put(p: rtrb::Producer<Arc<SoundData>>) -> nat;

/// How many slots are free for certain, as far as `p` knows.
pub uninterp spec fn sound_room(p: rtrb::Producer<Arc<SoundData>>) -> nat;

/// The line of the ring that `c` reads from.
pub uninterp spec fn sound_line_out(c: rtrb::Consumer<Arc<SoundData>>) -> Seq<Arc<SoundData>>;

/// How many sounds `c` has taken out.
pub uninterp spec fn sounds_taken(c: rtrb::Consumer<Arc<SoundData>>) -> nat;

/// How many sounds are there for certain, as far as `c` knows.
pub uninterp spec fn sounds_ready(c: rtrb::Consumer<Arc<SoundData>>) -> nat;

/// Calls `rtrb::RingBuffer::new`: the two ends of a new ring with `capacity` free slots. The
/// memory for so many handles must not exceed what an allocation may hold.
#[verifier::external_body]
pub(crate) fn new_sound_ring(capacity: usize) -> (ends: (
    rtrb::Producer<Arc<SoundData>>,
    rtrb::Consumer<Arc<SoundData>>,
))
    requires
        capacity <= usize::MAX / 256,
    ensures
        sound_line_in(ends.0) == sound_line_out(ends.1),
        sounds_put(ends.0) == 0,
        sound_room(ends.0) == capacity,
        sounds_taken(ends.1) == 0,
        sounds_ready(ends.1) == 0,
{
    rtrb::RingBuffer::new(capacity)
}

/// Calls `rtrb::Producer::push`: puts a sound into the ring, or gives it back if the ring is full,
/// which it is not as long as a slot is known to be free.
#[verifier::external_body]
pub(crate) fn put_sound(p: &mut rtrb::Producer<Arc<SoundData>>, sound: Arc<SoundData>) -> (refused:
    Option<Arc<SoundData>>)
    ensures
        sound_line_in(*final(p)) == sound_line_in(*old(p)),
        sound_room(*old(p)) > 0 ==> refused is None,
        refused is None ==> {
            &&& sounds_put(*final(p)) == sounds_put(*old(p)) + 1
            &&& sounds_put(*final(p)) <= sound_line_in(*final(p)).len()
            &&& sound_line_in(*final(p))[sounds_put(*old(p)) as int] == sound
            &&& sound_room(*final(p)) >= sound_room(*old(p)) - 1
        },
        refused matches Some(s) ==> {
            &&& s == sound
            &&& sounds_put(*final(p)) == sounds_put(*old(p))
            &&& sound_room(*final(p)) == 0
        },
{
    match p.push(sound) {
        Ok(()) => None,
        Err(rtrb::PushError::Full(refused)) => Some(refused),
    }
}

/// Calls `rtrb::Consumer::pop`: takes out the next sound, unless there is none, which is not so as
/// long as one is known to be there.
#[verifier::external_body]
pub(crate) fn take_sound(c: &mut rtrb::Consumer<Arc<SoundData>>) -> (sound: Option<Arc<SoundData>>)
    ensures
        sound_line_out(*final(c)) == sound_line_out(*old(c)),
        sounds_ready(*old(c)) > 0 ==> sound is Some,
        sound matches Some(s) ==> {
            &&& sounds_taken(*final(c)) == sounds_taken(*old(c)) + 1
            &&& sounds_taken(*final(c)) <= sound_line_out(*final(c)).len()
            &&& s == sound_line_out(*final(c))[sounds_taken(*old(c)) as int]
            &&& sounds_ready(*final(c)) >= sounds_ready(*old(c)) - 1
        },
        sound is None ==> {
            &&& sounds_taken(*final(c)) == sounds_taken(*old(c))
            &&& sounds_ready(*final(c)) == 0
        },
{
    c.pop().ok()
}

/// Calls `rtrb::Consumer::slots`: how many sounds are there at this moment, at least as many as
/// were known before.
#[verifier::external_body]
pub(crate) fn measure_sounds_ready(c: &mut rtrb::Consumer<Arc<SoundData>>) -> (n: usize)
    ensures
        n == sounds_ready(*final(c)),
        n >= sounds_ready(*old(c)),
        sounds_taken(*final(c)) == sounds_taken(*old(c)),
        sound_line_out(*final(c)) == sound_line_out(*old(c)),
{
    c.slots()
}

/// Calls `std::mem::forget`: gives up a handle without freeing what it stands for.
#[verifier::external_body]
pub(crate) fn leak_sound(sound: Arc<SoundData>) {
    std::mem::forget(sound);
}

} // verus!
