//! Loaded sounds, kept by the game thread under an identifier.

use std::collections::HashMap;
use std::sync::Arc;

use vstd::prelude::*;

use crate::format::CHANNELS;

verus! {

broadcast use vstd::std_specs::hash::group_hash_axioms;

/// A loaded sound: interleaved stereo.
#[derive(Debug)]
pub struct SoundData {
    /// Frames per second.
    pub sample_rate: u32,
    /// The number of frames.
    pub frames: usize,
    /// The samples, left and right in turn.
    pub interleaved: Vec<u32>,
}

impl SoundData {
    /// Whether the samples are as many as the frames need.
    pub open spec fn wf(self) -> bool {
        self.interleaved@.len() == self.frames * CHANNELS
    }

    /// The left and the right sample of frame `i`, if the sound has that frame.
    pub open spec fn frame_at(self, i: int) -> Option<(u32, u32)> {
        if 0 <= i < self.frames && 2 * i + 1 < self.interleaved@.len() {
            Some((self.interleaved@[2 * i], self.interleaved@[2 * i + 1]))
        } else {
            None
        }
    }

    /// The left and the right sample of a frame; none past the end.
    pub fn frame(&self, frame_index: usize) -> (frame: Option<(u32, u32)>)
        ensures
            frame == self.frame_at(frame_index as int),
    {
        let len: usize = self.interleaved.len();
        if frame_index >= self.frames || frame_index >= len / CHANNELS {
            return None;
        }
        let base: usize = frame_index * CHANNELS;
        Some((self.interleaved[base], self.interleaved[base + 1]))
    }
}

/// The identifier of a loaded sound. Zero is never issued.
#[derive(Debug, Clone, Copy, PartialEq, Eq, Hash, Structural)]
pub struct SoundId(pub u64);

/// The number that follows `n` in a count that skips zero.
pub open spec fn next_nonzero(n: u64) -> u64 {
    if n == u64::MAX {
        1
    } else {
        (n + 1) as u64
    }
}

/// The loaded sounds.
#[derive(Debug)]
pub struct SoundStorage {
    /// The identifier of the next sound.
    pub next_id: u64,
    /// The sounds by identifier.
    pub sounds: HashMap<u64, Arc<SoundData>>,
}

impl SoundStorage {
    /// The sounds by identifier.
    pub open spec fn contents(self) -> Map<u64, Arc<SoundData>> {
        self.sounds@
    }

    /// Whether zero is kept free.
    pub open spec fn wf(self) -> bool {
        self.next_id != 0 && !self.contents().dom().contains(0)
    }

    /// The sound that is stored under `id`, if there is one.
    pub open spec fn found(self, id: u64) -> Option<Arc<SoundData>> {
        if self.contents().dom().contains(id) {
            Some(self.contents()[id])
        } else {
            None
        }
    }

    /// Whether `next` is this storage with a sound under the next identifier.
    pub open spec fn added(self, next: SoundStorage, id: u64, sound: Arc<SoundData>) -> bool {
        &&& id == self.next_id
        &&& next.next_id == next_nonzero(self.next_id)
        &&& next.contents() == self.contents().insert(id, sound)
    }

    /// Whether `next` is this storage without the sound `id`.
    pub open spec fn dropped(self, next: SoundStorage, id: u64) -> bool {
        &&& next.next_id == self.next_id
        &&& next.contents() == self.contents().remove(id)
    }

    /// No sounds.
    pub fn new() -> (storage: SoundStorage)
        ensures
            storage.wf(),
            storage.next_id == 1,
            storage.contents() == Map::<u64, Arc<SoundData>>::empty(),
    {
        SoundStorage { next_id: 1, sounds: HashMap::new() }
    }

    /// Adds a sound under the next identifier. After `2^64 - 1` sounds the identifiers start over.
    pub fn insert(&mut self, data: SoundData) -> (id: SoundId)
        requires
            old(self).wf(),
        ensures
            final(self).wf(),
            id.0 == old(self).next_id,
            final(self).next_id == next_nonzero(old(self).next_id),
            final(self).contents() == old(self).contents().insert(id.0, Arc::new(data)),
            old(self).added(*final(self), id.0, Arc::new(data)),
    {
        let id: u64 = self.next_id;
        self.next_id = if id == u64::MAX {
            1
        } else {
            id + 1
        };
        self.sounds.insert(id, Arc::new(data));
        SoundId(id)
    }

    /// Another handle to a sound.
    pub fn get(&self, id: SoundId) -> (sound: Option<Arc<SoundData>>)
        ensures
            sound == self.found(id.0),
            sound == if self.contents().dom().contains(id.0) {
                Some(self.contents()[id.0])
            } else {
                None
            },
    {
        match self.sounds.get(&id.0) {
            Some(sound) => Some(Arc::clone(sound)),
            None => None,
        }
    }

    /// Removes a sound and returns the handle that was kept. Other handles stay valid.
    pub fn remove(&mut self, id: SoundId) -> (sound: Option<Arc<SoundData>>)
        requires
            old(self).wf(),
        ensures
            final(self).wf(),
            final(self).next_id == old(self).next_id,
            final(self).contents() == old(self).contents().remove(id.0),
            old(self).dropped(*final(self), id.0),
            sound == old(self).found(id.0),
            sound == if old(self).contents().dom().contains(id.0) {
                Some(old(self).contents()[id.0])
            } else {
                None
            },
    {
        self.sounds.remove(&id.0)
    }

    /// Whether a sound is stored under `id`.
    pub fn contains(&self, id: SoundId) -> (yes: bool)
        ensures
            yes == self.contents().dom().contains(id.0),
            yes == (self.found(id.0) is Some),
    {
        self.sounds.contains_key(&id.0)
    }
}

impl Default for SoundStorage {
    fn default() -> (storage: SoundStorage)
        ensures
            storage.wf(),
            storage.next_id == 1,
            storage.contents() == Map::<u64, Arc<SoundData>>::empty(),
    {
        SoundStorage::new()
    }
}

/// `n` identifiers after `start`.
pub open spec fn id_after(start: u64, n: nat) -> u64
    decreases n,
{
    if n == 0 {
        start
    } else {
        next_nonzero(id_after(start, (n - 1) as nat))
    }
}

/// The identifiers of up to `2^64 - 1` sounds in a row all differ, and none of them is zero.
pub proof fn law_ids_are_distinct(start: u64, i: nat, j: nat)
    requires
        start != 0,
        i < j < u64::MAX,
    ensures
        id_after(start, i) != id_after(start, j),
        id_after(start, i) != 0,
{
    lemma_id_after(start, i);
    lemma_id_after(start, j);
}

proof fn lemma_id_after(start: u64, n: nat)
    requires
        start != 0,
        n < u64::MAX,
    ensures
        id_after(start, n) == if start + n <= u64::MAX {
            start + n
        } else {
            start + n - u64::MAX
        },
    decreases n,
{
    if n > 0 {
        lemma_id_after(start, (n - 1) as nat);
    }
}

/// A sound that was added is found under its identifier, and every other sound under its own,
/// until it is removed; then it is gone and the others stay.
pub proof fn law_sounds_are_found_until_removed(
    contents: Map<u64, Arc<SoundData>>,
    id: u64,
    data: Arc<SoundData>,
    other: u64,
)
    requires
        other != id,
    ensures
        contents.insert(id, data).dom().contains(id),
        contents.insert(id, data)[id] == data,
        contents.insert(id, data).dom().contains(other) == contents.dom().contains(other),
        contents.dom().contains(other) ==> contents.insert(id, data)[other] == contents[other],
        !contents.insert(id, data).remove(id).dom().contains(id),
        contents.insert(id, data).remove(id).dom().contains(other) == contents.dom().contains(
            other,
        ),
{
}

/// A sound has a frame exactly as far as it has frames and samples for them; frame `i` is made of
/// the samples `2i`, which is the left one, and `2i + 1`, which is the right one.
pub proof fn law_frames_are_left_and_right(sound: SoundData, i: int)
    requires
        0 <= i,
    ensures
        sound.frame_at(i) is Some <==> i < sound.frames && 2 * i + 1 < sound.interleaved@.len(),
        sound.frame_at(i) matches Some(frame) ==> frame.0 == sound.interleaved@[2 * i] && frame.1
            == sound.interleaved@[2 * i + 1],
        sound.wf() ==> (sound.frame_at(i) is Some <==> i < sound.frames),
{
}

/// The identifiers follow each other, and one starts anew behind the last.
pub proof fn law_ids_follow_each_other(id: u64)
    ensures
        next_nonzero(id) != 0,
        id < u64::MAX ==> next_nonzero(id) == id + 1,
        next_nonzero(u64::MAX) == 1,
{
}

/// A sound that was added is found under the identifier it was given, and every other sound is
/// found as before. The next sound is given another identifier.
pub proof fn law_added_sounds_are_found(
    before: SoundStorage,
    after: SoundStorage,
    id: u64,
    sound: Arc<SoundData>,
    other: u64,
)
    requires
        before.wf(),
        before.added(after, id, sound),
    ensures
        after.wf(),
        after.found(id) == Some(sound),
        other != id ==> after.found(other) == before.found(other),
        id != 0,
        after.next_id != id,
        after.found(0) is None,
{
}

/// A sound that was removed is not found any more, every other sound is, and no identifier is given
/// out again on that account.
pub proof fn law_removed_sounds_are_gone(
    before: SoundStorage,
    after: SoundStorage,
    id: u64,
    other: u64,
)
    requires
        before.wf(),
        before.dropped(after, id),
    ensures
        after.wf(),
        after.found(id) is None,
        other != id ==> after.found(other) == before.found(other),
        after.next_id == before.next_id,
{
}

} // verus!
