//! A verified audio middleware core.
//!
//! The library mixes sound effects and streamed music to interleaved stereo. Effects are played by
//! a pool of voices ([`voice`]), music by one voice per stream ([`music`]) that is fed through a
//! ring of samples ([`stream`]). The [`mixer`] applies the commands of the application, fires
//! scheduled effects on the frame they belong to, adds up the buses and reports what happened
//! through a clock ([`clock`]) and a queue of events ([`event`]). What follows from that for the
//! songs is in [`playback`], for the whole mix in [`mixing`], and that no sound gets lost in
//! [`custody`]. Files are read by [`wav`] and [`decode`], which [`container`] and [`codebook`]
//! guard against malformed ones, and converted to the rate of the output by [`resample`];
//! [`backend`], [`interruption`] and [`underrun`] decide what to do with an output device, whose
//! times [`host_time`] reads.
//!
//! Samples and gains are raw words; [`math`] says how they are computed with. [`ring`] holds what
//! is trusted of the rings between the threads.

pub mod backend;
pub mod bus;
pub mod clipper;
pub mod clock;
pub mod codebook;
pub mod command;
pub mod config;
pub mod container;
pub mod custody;
pub mod decode;
pub mod event;
pub mod format;
pub mod host_time;
pub mod interruption;
pub mod math;
pub mod mixer;
pub mod mixing;
pub mod music;
pub mod playback;
pub mod ramp;
pub mod renderer;
pub mod resample;
pub mod ring;
pub mod schedule;
pub mod sound;
pub mod stream;
pub mod text;
pub mod underrun;
pub mod voice;
pub mod wav;

pub use backend::{Backend, BackendError};
pub use bus::{Bus, BusId, BusSet, ALL_BUSES, BUS_COUNT};
pub use clipper::SoftClipper;
pub use clock::RenderedFrameCounter;
pub use command::Command;
pub use config::Config;
pub use decode::{DecodeError, MusicDecoder, SymphoniaDecoder};
pub use format::{AudioFormat, Sample, CHANNELS};
pub use math::SampleMath;
pub use mixer::{CommandSender, Mixer, ReclaimReceiver};
pub use music::{MusicFrameSource, MusicRenderOutcome, MusicState, MusicVoice};
pub use ramp::{ms_to_samples, Ramp};
pub use renderer::Renderer;
pub use sound::{SoundData, SoundId, SoundStorage};
pub use stream::{MusicStreamProducer, PumpOutcome, StreamingMusicSource};
pub use wav::WavError;
