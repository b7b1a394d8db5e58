//! Commands on their way from the game thread to the audio thread.

use std::sync::Arc;

use vstd::prelude::*;

use crate::bus::BusId;
use crate::sound::SoundData;

verus! {

/// A sound effect that is due at some host time.
#[derive(Debug)]
pub struct ScheduledSe {
    /// The number by which the game thread knows the sound that is played.
    pub voice_serial: u64,
    /// The identifier of the sound.
    pub sound_id: u64,
    /// The sound.
    pub sound: Arc<SoundData>,
    /// The bus it is sent to.
    pub bus: BusId,
    /// Its volume.
    pub volume: u32,
}

/// What the audio thread is asked to do.
#[derive(Debug)]
pub enum Command {
    /// Play a sound effect now.
    PlaySe {
        /// The number by which the game thread knows the sound that is played.
        voice_serial: u64,
        /// The identifier of the sound.
        sound_id: u64,
        /// The sound.
        sound: Arc<SoundData>,
        /// The bus it is sent to.
        bus: BusId,
        /// Its volume.
        volume: u32,
    },
    /// Fade a sound effect out, or take it off the schedule.
    StopVoice {
        /// Which one.
        voice_serial: u64,
    },
    /// Change the volume of a sound effect.
    SetVoiceVolume {
        /// Which one.
        voice_serial: u64,
        /// Its new volume.
        volume: u32,
    },
    /// Fade out every sound effect that uses a sound, and take those off the schedule that would.
    StopVoicesUsingSound {
        /// The identifier of the sound.
        sound_id: u64,
    },
    /// Change the volume of a bus.
    SetBusVolume {
        /// Which one.
        bus: BusId,
        /// Its new volume.
        volume: u32,
    },
    /// Change the volume of a bus over a given time.
    BusFade {
        /// Which one.
        bus: BusId,
        /// Its new volume.
        target: u32,
        /// How long the change takes, in milliseconds.
        ms: u32,
    },
    /// Play a sound effect at a given host time.
    SeSchedule {
        /// When, in nanoseconds.
        host_time_ns: u64,
        /// Which one.
        entry: ScheduledSe,
    },
    /// Start the song at a given host time.
    MusicPlayScheduled {
        /// When, in nanoseconds.
        host_time_ns: u64,
    },
    /// Prepare for another song.
    MusicPrepare,
    /// Move to a frame of the song.
    MusicSeek {
        /// Which one.
        frames: u64,
    },
    /// Pause the song.
    MusicPause,
    /// Go on with the song from a given frame.
    MusicResumeAt {
        /// Which one.
        frames: u64,
    },
    /// Stop the song.
    MusicStop,
    /// Set the loop of the song.
    MusicSetLoop {
        /// The first frame and the frame after the last.
        region: Option<(u64, u64)>,
    },
    /// Prepare for other background music.
    BgmPrepare,
    /// Move to a frame of the background music.
    BgmSeek {
        /// Which one.
        frames: u64,
    },
    /// Start the background music.
    BgmPlay,
    /// Stop the background music.
    BgmStop,
    /// Set the loop of the background music.
    BgmSetLoop {
        /// The first frame and the frame after the last.
        region: Option<(u64, u64)>,
    },
}

} // verus!
