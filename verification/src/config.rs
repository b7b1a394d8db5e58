//! Sizes, durations and thresholds that are chosen once, when the mixer is built.

use vstd::prelude::*;

verus! {

/// The configuration of a mixer. Durations and levels are raw words (see [`crate::math`]).
#[derive(Debug, Clone, Copy, PartialEq, Eq, Structural)]
pub struct Config {
    /// How many sound effects can be heard at once.
    pub max_voices: usize,
    /// How many stolen voices can fade out at once.
    pub steal_tail_capacity: usize,
    /// The length of the ramp of an ordinary volume change, in milliseconds.
    pub default_ramp_ms: u32,
    /// How many commands can wait for the audio thread.
    pub command_queue_capacity: usize,
    /// How many sounds can wait to be given back by the audio thread.
    pub reclaim_queue_capacity: usize,
    /// The magnitude beyond which the mix is clipped.
    pub clipper_threshold: u32,
    /// How much of a stream has to be decoded before it may start, in milliseconds.
    pub preroll_ms: u32,
    /// How many sound effects can be scheduled ahead.
    pub schedule_queue_capacity: usize,
    /// How many events can wait for the game thread.
    pub event_queue_capacity: usize,
    /// How many missing frames are gathered before a long underrun is reported.
    pub underrun_report_threshold_frames: u32,
}

impl Config {
    /// The default of [`Config::max_voices`].
    pub const DEFAULT_MAX_VOICES: usize = 64;

    /// The default of [`Config::default_ramp_ms`]: `5.0`.
    pub const DEFAULT_RAMP_MS: u32 = 0x40A0_0000;

    /// The default of [`Config::command_queue_capacity`].
    pub const DEFAULT_COMMAND_QUEUE_CAPACITY: usize = 256;

    /// The default of [`Config::clipper_threshold`]: `1.0`.
    pub const DEFAULT_CLIPPER_THRESHOLD: u32 = 0x3F80_0000;

    /// The default of [`Config::preroll_ms`]: `100.0`.
    pub const DEFAULT_PREROLL_MS: u32 = 0x42C8_0000;

    /// The default of [`Config::schedule_queue_capacity`].
    pub const DEFAULT_SCHEDULE_QUEUE_CAPACITY: usize = 32;

    /// The default of [`Config::event_queue_capacity`].
    pub const DEFAULT_EVENT_QUEUE_CAPACITY: usize = 64;

    /// The default of [`Config::underrun_report_threshold_frames`].
    pub const DEFAULT_UNDERRUN_REPORT_THRESHOLD_FRAMES: u32 = 48_000;

    /// The configuration that [`Config::default`] gives: as many fading voices as audible ones,
    /// and room to give back twice as many sounds as can sound or fade at once.
    pub open spec fn standard() -> Config {
        Config {
            max_voices: Config::DEFAULT_MAX_VOICES,
            steal_tail_capacity: Config::DEFAULT_MAX_VOICES,
            default_ramp_ms: Config::DEFAULT_RAMP_MS,
            command_queue_capacity: Config::DEFAULT_COMMAND_QUEUE_CAPACITY,
            reclaim_queue_capacity: 256,
            clipper_threshold: Config::DEFAULT_CLIPPER_THRESHOLD,
            preroll_ms: Config::DEFAULT_PREROLL_MS,
            schedule_queue_capacity: Config::DEFAULT_SCHEDULE_QUEUE_CAPACITY,
            event_queue_capacity: Config::DEFAULT_EVENT_QUEUE_CAPACITY,
            underrun_report_threshold_frames: Config::DEFAULT_UNDERRUN_REPORT_THRESHOLD_FRAMES,
        }
    }
}

impl Default for Config {
    fn default() -> (config: Config)
        ensures
            config == Config::standard(),
    {
        let max_voices: usize = Config::DEFAULT_MAX_VOICES;
        let steal_tail_capacity: usize = max_voices;
        Config {
            max_voices,
            steal_tail_capacity,
            default_ramp_ms: Config::DEFAULT_RAMP_MS,
            command_queue_capacity: Config::DEFAULT_COMMAND_QUEUE_CAPACITY,
            reclaim_queue_capacity: (max_voices + steal_tail_capacity) * 2,
            clipper_threshold: Config::DEFAULT_CLIPPER_THRESHOLD,
            preroll_ms: Config::DEFAULT_PREROLL_MS,
            schedule_queue_capacity: Config::DEFAULT_SCHEDULE_QUEUE_CAPACITY,
            event_queue_capacity: Config::DEFAULT_EVENT_QUEUE_CAPACITY,
            underrun_report_threshold_frames: Config::DEFAULT_UNDERRUN_REPORT_THRESHOLD_FRAMES,
        }
    }
}

/// By default every voice can be moved aside to fade out, and every sound of a voice, moved aside
/// or not, can be given back twice over before the queue for that is full.
pub proof fn law_default_queues_have_room()
    ensures
        Config::standard().steal_tail_capacity == Config::standard().max_voices,
        Config::standard().reclaim_queue_capacity == 2 * (Config::standard().max_voices
            + Config::standard().steal_tail_capacity),
{
}

} // verus!
