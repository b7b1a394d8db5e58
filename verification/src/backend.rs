//! Decisions around the output device.

use vstd::prelude::*;

use crate::event::StreamErrorReason;
use crate::format::CHANNELS;
use crate::text::joined;

verus! {

/// Why the output could not be opened or closed.
#[derive(Debug)]
pub enum BackendError {
    /// There is no output device.
    NoOutputDevice,
    /// The device does not offer single-precision stereo.
    NoSupportedStreamConfig,
    /// The stream could not be built.
    BuildStreamFailed(String),
    /// The stream could not be started.
    PlayStreamFailed(String),
    /// The output is open already.
    AlreadyOpen,
    /// The output is not open.
    NotOpen,
}

impl BackendError {
    /// What is told of this error.
    pub open spec fn text(self) -> Seq<char> {
        match self {
            BackendError::NoOutputDevice => "no default output device"@,
            BackendError::NoSupportedStreamConfig =>
                "no supported f32 stereo output stream config"@,
            BackendError::BuildStreamFailed(msg) => "failed to build stream: "@ + msg@,
            BackendError::PlayStreamFailed(msg) => "failed to start stream: "@ + msg@,
            BackendError::AlreadyOpen => "backend is already open"@,
            BackendError::NotOpen => "backend is not open"@,
        }
    }

    /// What is told of this error.
    pub fn message(&self) -> (s: String)
        ensures
            s@ == self.text(),
    {
        match self {
            BackendError::NoOutputDevice => "no default output device".to_owned(),
            BackendError::NoSupportedStreamConfig =>
                "no supported f32 stereo output stream config".to_owned(),
            BackendError::BuildStreamFailed(msg) => joined(
                "failed to build stream: ",
                msg.as_str(),
            ),
            BackendError::PlayStreamFailed(msg) => joined(
                "failed to start stream: ",
                msg.as_str(),
            ),
            BackendError::AlreadyOpen => "backend is already open".to_owned(),
            BackendError::NotOpen => "backend is not open".to_owned(),
        }
    }
}

/// An output device that drives a renderer from its callback.
///
/// What becomes of a call depends on the device; the decisions that do not are in
/// [`OutputSession`].
pub trait Backend {
    /// What fills the buffers of the device.
    type Renderer;

    /// Where failures of the stream are reported.
    type Events;

    /// Opens the device and starts it.
    fn open(&mut self, renderer: Self::Renderer, events: Self::Events) -> Result<(), BackendError>;

    /// Stops the device and closes it.
    fn close(&mut self) -> Result<(), BackendError>;

    /// Whether the device is open.
    fn is_open(&self) -> bool;

    /// How many frames the last callback was asked for; zero before the first.
    fn last_callback_frames(&self) -> u32;

    /// Frames per second of the open device; zero if it is not open.
    fn sample_rate(&self) -> u32;

    /// The time from the last callback until its frames are heard, in nanoseconds; zero before
    /// the first.
    fn output_latency_ns(&self) -> u64;

    /// How many callbacks were late in all.
    fn output_underrun_count(&self) -> u64;

    /// The host time of the callback that was late most recently; zero if none was.
    fn last_output_underrun_host_time_ns(&self) -> u64;

    /// How many callbacks in a row were late, up to now.
    fn consecutive_output_underrun_count(&self) -> u32;
}

/// The kinds of failure of an output stream that are told apart.
#[derive(Debug, Clone, Copy, PartialEq, Eq, Structural)]
pub enum DeviceErrorKind {
    /// The device is gone.
    DeviceNotAvailable,
    /// The audio system is gone.
    HostUnavailable,
    /// Another application uses the device.
    DeviceBusy,
    /// The device was replaced.
    DeviceChanged,
    /// The stream has become invalid.
    StreamInvalidated,
    /// Access was denied.
    PermissionDenied,
    /// A parameter was invalid.
    InvalidInput,
    /// The callback could not be given its priority.
    RealtimeDenied,
    /// The system has run out of something.
    ResourceExhausted,
    /// The configuration is not supported.
    UnsupportedConfig,
    /// The operation is not supported.
    UnsupportedOperation,
    /// Data came too late.
    Xrun,
    /// Anything else.
    Other,
}

/// The reason that the game thread is told for a failure of this kind.
pub open spec fn reason_of(kind: DeviceErrorKind) -> StreamErrorReason {
    match kind {
        DeviceErrorKind::DeviceNotAvailable
        | DeviceErrorKind::HostUnavailable
        | DeviceErrorKind::DeviceBusy => StreamErrorReason::DeviceUnavailable,
        DeviceErrorKind::DeviceChanged
        | DeviceErrorKind::StreamInvalidated => StreamErrorReason::Reconfigured,
        DeviceErrorKind::PermissionDenied => StreamErrorReason::PermissionDenied,
        _ => StreamErrorReason::Backend,
    }
}

/// The reason that the game thread is told for a failure of this kind.
pub fn classify_stream_error(kind: DeviceErrorKind) -> (reason: StreamErrorReason)
    ensures
        reason == reason_of(kind),
{
    match kind {
        DeviceErrorKind::DeviceNotAvailable
        | DeviceErrorKind::HostUnavailable
        | DeviceErrorKind::DeviceBusy => StreamErrorReason::DeviceUnavailable,
        DeviceErrorKind::DeviceChanged
        | DeviceErrorKind::StreamInvalidated => StreamErrorReason::Reconfigured,
        DeviceErrorKind::PermissionDenied => StreamErrorReason::PermissionDenied,
        _ => StreamErrorReason::Backend,
    }
}

/// The configuration that a device uses by default.
#[derive(Debug, Clone, Copy, PartialEq, Eq, Structural)]
pub struct DefaultConfig {
    /// The number of channels.
    pub channels: u16,
    /// Whether the samples are single-precision numbers.
    pub single_precision: bool,
    /// Frames per second.
    pub sample_rate: u32,
}

/// A range of configurations that a device offers.
#[derive(Debug, Clone, Copy, PartialEq, Eq, Structural)]
pub struct ConfigRange {
    /// The number of channels.
    pub channels: u16,
    /// Whether the samples are single-precision numbers.
    pub single_precision: bool,
    /// The lowest sample rate.
    pub min_sample_rate: u32,
    /// The highest sample rate.
    pub max_sample_rate: u32,
}

/// Which configuration to use.
#[derive(Debug, Clone, Copy, PartialEq, Eq, Structural)]
pub enum ConfigChoice {
    /// The default one.
    Default,
    /// One of the ranges.
    FromRange {
        /// The position of the range.
        index: usize,
        /// The sample rate.
        sample_rate: u32,
    },
}

impl ConfigRange {
    /// Whether the range holds single-precision stereo.
    pub open spec fn usable(self) -> bool {
        self.channels == CHANNELS && self.single_precision
    }

    /// Whether the range holds single-precision stereo at this rate.
    pub open spec fn offers(self, rate: u32) -> bool {
        self.usable() && self.min_sample_rate <= rate <= self.max_sample_rate
    }
}

/// The position from `from` on of the first range that offers `rate`; the number of ranges if none
/// does.
pub open spec fn first_offering(ranges: Seq<ConfigRange>, rate: u32, from: int) -> int
    decreases ranges.len() - from,
{
    if from >= ranges.len() {
        ranges.len() as int
    } else if ranges[from].offers(rate) {
        from
    } else {
        first_offering(ranges, rate, from + 1)
    }
}

/// The position of the usable range among the first `n` that goes highest, the first one if
/// several go as high; none if none is usable.
pub open spec fn highest(ranges: Seq<ConfigRange>, n: nat) -> Option<int>
    decreases n,
{
    if n == 0 {
        None
    } else {
        let best = highest(ranges, (n - 1) as nat);
        let here = ranges[n - 1];
        if !here.usable() {
            best
        } else {
            match best {
                Some(b) => if here.max_sample_rate > ranges[b].max_sample_rate {
                    Some(n - 1)
                } else {
                    best
                },
                None => Some(n - 1),
            }
        }
    }
}

/// The first of `rates` that a range offers, with the first range that does.
pub open spec fn first_rate(ranges: Seq<ConfigRange>, rates: Seq<u32>, from: int) -> Option<
    ConfigChoice,
>
    decreases rates.len() - from,
{
    if from >= rates.len() {
        None
    } else {
        let i = first_offering(ranges, rates[from], 0);
        if i < ranges.len() {
            Some(ConfigChoice::FromRange { index: i as usize, sample_rate: rates[from] })
        } else {
            first_rate(ranges, rates, from + 1)
        }
    }
}

/// The sample rates that are preferred, the most preferred first: that of the default
/// configuration, 48000 and 44100.
pub open spec fn preferred_rates(default: Option<DefaultConfig>) -> Seq<u32> {
    match default {
        Some(d) => seq![d.sample_rate, 48_000u32, 44_100u32],
        None => seq![48_000u32, 44_100u32],
    }
}

/// The configuration to use: the default one if it is single-precision stereo, else the first
/// preferred rate that is offered, else the highest rate that is offered.
pub open spec fn chosen_config(
    default: Option<DefaultConfig>,
    ranges: Option<Seq<ConfigRange>>,
) -> Option<ConfigChoice> {
    if default matches Some(d) && d.channels == CHANNELS && d.single_precision {
        Some(ConfigChoice::Default)
    } else {
        match ranges {
            None => None,
            Some(ranges) => match first_rate(ranges, preferred_rates(default), 0) {
                Some(choice) => Some(choice),
                None => match highest(ranges, ranges.len()) {
                    Some(i) => Some(
                        ConfigChoice::FromRange {
                            index: i as usize,
                            sample_rate: ranges[i].max_sample_rate,
                        },
                    ),
                    None => None,
                },
            },
        }
    }
}

fn find_rate(ranges: &Vec<ConfigRange>, rate: u32) -> (position: usize)
    ensures
        position == first_offering(ranges@, rate, 0),
        position <= ranges@.len(),
{
    let mut i: usize = 0;
    while i < ranges.len()
        invariant
            i <= ranges@.len(),
            first_offering(ranges@, rate, 0) == first_offering(ranges@, rate, i as int),
        decreases ranges@.len() - i,
    {
        let r: ConfigRange = ranges[i];
        if r.channels as usize == CHANNELS && r.single_precision && r.min_sample_rate <= rate
            && rate <= r.max_sample_rate {
            return i;
        }
        i = i + 1;
    }
    i
}

/// Chooses a configuration of a device that has `default` as its default one and offers `ranges`;
/// none stands for what could not be found out.
pub fn find_f32_stereo_config(
    default: Option<DefaultConfig>,
    ranges: Option<Vec<ConfigRange>>,
) -> (choice: Option<ConfigChoice>)
    ensures
        choice == chosen_config(
            default,
            match ranges {
                Some(r) => Some(r@),
                None => None,
            },
        ),
{
    let mut rates: Vec<u32> = Vec::new();
    if let Some(d) = default {
        if d.channels as usize == CHANNELS && d.single_precision {
            return Some(ConfigChoice::Default);
        }
        rates.push(d.sample_rate);
    }
    rates.push(48_000);
    rates.push(44_100);
    assert(rates@ =~= preferred_rates(default));
    let offered: Vec<ConfigRange> = match ranges {
        Some(offered) => offered,
        None => {
            return None;
        },
    };
    let mut k: usize = 0;
    while k < rates.len()
        invariant
            k <= rates@.len(),
            rates@ == preferred_rates(default),
            !(default matches Some(d) && d.channels == CHANNELS && d.single_precision),
            ranges == Some(offered),
            first_rate(offered@, rates@, 0) == first_rate(offered@, rates@, k as int),
        decreases rates@.len() - k,
    {
        let i: usize = find_rate(&offered, rates[k]);
        if i < offered.len() {
            return Some(ConfigChoice::FromRange { index: i, sample_rate: rates[k] });
        }
        k = k + 1;
    }
    let mut best: Option<usize> = None;
    let mut i: usize = 0;
    while i < offered.len()
        invariant
            i <= offered@.len(),
            match highest(offered@, i as nat) {
                Some(b) => best is Some && best->0 == b && b < i,
                None => best is None,
            },
        decreases offered@.len() - i,
    {
        let r: ConfigRange = offered[i];
        if r.channels as usize == CHANNELS && r.single_precision {
            best =
            match best {
                Some(b) => if r.max_sample_rate > offered[b].max_sample_rate {
                    Some(i)
                } else {
                    Some(b)
                },
                None => Some(i),
            };
        }
        i = i + 1;
    }
    match best {
        Some(b) => Some(
            ConfigChoice::FromRange { index: b, sample_rate: offered[b].max_sample_rate },
        ),
        None => None,
    }
}

/// How long it takes from `callback_ns` until `playback_ns`; no time if the clock went back.
pub open spec fn latency_between(playback_ns: u64, callback_ns: u64) -> nat {
    if playback_ns >= callback_ns {
        (playback_ns - callback_ns) as nat
    } else {
        0
    }
}

/// How long a buffer takes to be heard, from the time at which it is played and the time at which
/// it was asked for.
pub fn output_latency(playback_ns: u64, callback_ns: u64) -> (ns: u64)
    ensures
        ns == latency_between(playback_ns, callback_ns),
        ns == if playback_ns >= callback_ns {
            playback_ns - callback_ns
        } else {
            0
        },
{
    if playback_ns >= callback_ns {
        playback_ns - callback_ns
    } else {
        0
    }
}

/// An output device and what has been logged of it.
#[derive(Debug, Clone, Copy, PartialEq, Eq, Structural)]
pub struct OutputSession {
    /// Whether the device is open.
    pub open: bool,
    /// The sample rate of the open device; zero if it is not open.
    pub sample_rate: u32,
    /// Whether the latency has been logged.
    pub latency_logged: bool,
    /// How many late callbacks have been logged.
    pub logged_underruns: u64,
}

/// What stands against opening a device: it is open already, there is none, or it has no usable
/// configuration.
pub open spec fn open_decision(
    open: bool,
    device_found: bool,
    choice: Option<ConfigChoice>,
) -> Result<ConfigChoice, BackendError> {
    if open {
        Err(BackendError::AlreadyOpen)
    } else if !device_found {
        Err(BackendError::NoOutputDevice)
    } else {
        match choice {
            Some(c) => Ok(c),
            None => Err(BackendError::NoSupportedStreamConfig),
        }
    }
}

impl OutputSession {
    /// A device that is not open.
    pub open spec fn closed_session() -> OutputSession {
        OutputSession { open: false, sample_rate: 0, latency_logged: false, logged_underruns: 0 }
    }

    /// This session with the stream started.
    pub open spec fn opened_at(self, sample_rate: u32) -> OutputSession {
        OutputSession { open: true, sample_rate, ..self }
    }

    /// This session once the device has been closed, if it was open.
    pub open spec fn left(self) -> OutputSession {
        if self.open {
            OutputSession::closed_session()
        } else {
            self
        }
    }

    /// How many late callbacks, of `current` in all, have not been logged yet.
    pub open spec fn unlogged(self, current: u64) -> nat {
        if current > self.logged_underruns {
            (current - self.logged_underruns) as nat
        } else {
            0
        }
    }

    /// This session once late callbacks, of `current` in all, have been logged.
    pub open spec fn logged(self, current: u64) -> OutputSession {
        OutputSession {
            logged_underruns: (self.logged_underruns + self.unlogged(current)) as u64,
            ..self
        }
    }

    /// Whether this latency has to be logged.
    pub open spec fn latency_is_due(self, latency_ns: u64) -> bool {
        !self.latency_logged && latency_ns != 0
    }

    /// A device that is not open.
    pub fn new() -> (s: OutputSession)
        ensures
            s == OutputSession::closed_session(),
    {
        OutputSession { open: false, sample_rate: 0, latency_logged: false, logged_underruns: 0 }
    }

    /// Decides whether to open the device, and with which configuration.
    pub fn decide_open(&self, device_found: bool, choice: Option<ConfigChoice>) -> (r: Result<
        ConfigChoice,
        BackendError,
    >)
        ensures
            r == open_decision(self.open, device_found, choice),
    {
        if self.open {
            return Err(BackendError::AlreadyOpen);
        }
        if !device_found {
            return Err(BackendError::NoOutputDevice);
        }
        match choice {
            Some(c) => Ok(c),
            None => Err(BackendError::NoSupportedStreamConfig),
        }
    }

    /// The stream has been started.
    pub fn opened(&mut self, sample_rate: u32)
        ensures
            *final(self) == (OutputSession { open: true, sample_rate, ..*old(self) }),
            *final(self) == old(self).opened_at(sample_rate),
    {
        self.open = true;
        self.sample_rate = sample_rate;
    }

    /// Closes the device and forgets everything about it.
    pub fn close(&mut self) -> (r: Result<(), BackendError>)
        ensures
            *final(self) == if old(self).open {
                OutputSession::closed_session()
            } else {
                *old(self)
            },
            *final(self) == old(self).left(),
            r is Ok <==> old(self).open,
            r matches Err(e) ==> e == BackendError::NotOpen,
    {
        if !self.open {
            return Err(BackendError::NotOpen);
        }
        *self = OutputSession::new();
        Ok(())
    }

    /// How many late callbacks, of `current` in all, have not been logged yet, if there are any.
    /// They count as logged from now on.
    pub fn underruns_to_log(&mut self, current: u64) -> (new: Option<u64>)
        ensures
            new is Some <==> old(self).unlogged(current) > 0,
            new matches Some(n) ==> n == old(self).unlogged(current),
            *final(self) == old(self).logged(current),
            new == if current > old(self).logged_underruns {
                Some((current - old(self).logged_underruns) as u64)
            } else {
                None
            },
            *final(self) == (OutputSession {
                logged_underruns: if current > old(self).logged_underruns {
                    current
                } else {
                    old(self).logged_underruns
                },
                ..*old(self)
            }),
    {
        if current <= self.logged_underruns {
            return None;
        }
        let new: u64 = current - self.logged_underruns;
        self.logged_underruns = current;
        Some(new)
    }

    /// Whether the latency has to be logged: once, as soon as it is known.
    pub fn latency_to_log(&mut self, latency_ns: u64) -> (due: bool)
        ensures
            due == old(self).latency_is_due(latency_ns),
            due == (!old(self).latency_logged && latency_ns != 0),
            *final(self) == (OutputSession {
                latency_logged: old(self).latency_logged || due,
                ..*old(self)
            }),
    {
        if self.latency_logged || latency_ns == 0 {
            return false;
        }
        self.latency_logged = true;
        true
    }
}

impl Default for OutputSession {
    fn default() -> (s: OutputSession)
        ensures
            s == OutputSession::closed_session(),
    {
        OutputSession::new()
    }
}

/// Whatever a device offers, the chosen configuration is single-precision stereo at a rate that
/// the device offers.
pub proof fn law_chosen_config_is_offered(
    default: Option<DefaultConfig>,
    ranges: Seq<ConfigRange>,
)
    requires
        ranges.len() <= usize::MAX,
        forall|i: int|
            0 <= i < ranges.len() ==> (#[trigger] ranges[i]).min_sample_rate
                <= ranges[i].max_sample_rate,
    ensures
        match chosen_config(default, Some(ranges)) {
            Some(ConfigChoice::Default) => default is Some && default->0.channels == CHANNELS
                && default->0.single_precision,
            Some(ConfigChoice::FromRange { index, sample_rate }) => index < ranges.len()
                && ranges[index as int].offers(sample_rate),
            None => forall|i: int| 0 <= i < ranges.len() ==> !(#[trigger] ranges[i]).usable(),
        },
{
    lemma_first_rate(ranges, preferred_rates(default), 0);
    lemma_highest(ranges, ranges.len());
}

proof fn lemma_first_offering(ranges: Seq<ConfigRange>, rate: u32, from: int)
    requires
        0 <= from <= ranges.len(),
    ensures
        from <= first_offering(ranges, rate, from) <= ranges.len(),
        first_offering(ranges, rate, from) < ranges.len() ==> ranges[first_offering(
            ranges,
            rate,
            from,
        )].offers(rate),
    decreases ranges.len() - from,
{
    if from < ranges.len() && !ranges[from].offers(rate) {
        lemma_first_offering(ranges, rate, from + 1);
    }
}

proof fn lemma_first_rate(ranges: Seq<ConfigRange>, rates: Seq<u32>, from: int)
    requires
        0 <= from <= rates.len(),
        ranges.len() <= usize::MAX,
    ensures
        first_rate(ranges, rates, from) matches Some(choice) ==> {
            &&& choice is FromRange
            &&& choice->index < ranges.len()
            &&& ranges[choice->index as int].offers(choice->sample_rate)
        },
    decreases rates.len() - from,
{
    if from < rates.len() {
        lemma_first_offering(ranges, rates[from], 0);
        lemma_first_rate(ranges, rates, from + 1);
    }
}

proof fn lemma_highest(ranges: Seq<ConfigRange>, n: nat)
    requires
        n <= ranges.len(),
    ensures
        match highest(ranges, n) {
            Some(i) => 0 <= i < n && ranges[i].usable(),
            None => forall|i: int| 0 <= i < n ==> !(#[trigger] ranges[i]).usable(),
        },
    decreases n,
{
    if n > 0 {
        lemma_highest(ranges, (n - 1) as nat);
    }
}

/// The game thread is told that the device cannot be reached, that the stream has to be rebuilt or
/// that access was denied exactly for the failures that mean that; any other failure is one of the
/// backend, and none is unknown.
pub proof fn law_failures_have_their_reason(kind: DeviceErrorKind)
    ensures
        reason_of(kind) == StreamErrorReason::DeviceUnavailable <==> kind
            == DeviceErrorKind::DeviceNotAvailable || kind == DeviceErrorKind::HostUnavailable
            || kind == DeviceErrorKind::DeviceBusy,
        reason_of(kind) == StreamErrorReason::Reconfigured <==> kind
            == DeviceErrorKind::DeviceChanged || kind == DeviceErrorKind::StreamInvalidated,
        reason_of(kind) == StreamErrorReason::PermissionDenied <==> kind
            == DeviceErrorKind::PermissionDenied,
        reason_of(kind) != StreamErrorReason::Unknown,
{
}

proof fn lemma_first_is_first(ranges: Seq<ConfigRange>, rate: u32, from: int, at: int)
    requires
        0 <= from <= at <= ranges.len(),
        forall|i: int| from <= i < at ==> !(#[trigger] ranges[i]).offers(rate),
        at < ranges.len() ==> ranges[at].offers(rate),
    ensures
        first_offering(ranges, rate, from) == at,
    decreases at - from,
{
    if from < at {
        lemma_first_is_first(ranges, rate, from + 1, at);
    }
}

proof fn lemma_rate_is_first(ranges: Seq<ConfigRange>, rates: Seq<u32>, from: int, k: int)
    requires
        0 <= from <= k <= rates.len(),
        forall|j: int, i: int|
            from <= j < k && 0 <= i < ranges.len() ==> !(#[trigger] ranges[i]).offers(
                #[trigger] rates[j],
            ),
    ensures
        first_rate(ranges, rates, from) == first_rate(ranges, rates, k),
    decreases k - from,
{
    if from < k {
        lemma_first_is_first(ranges, rates[from], 0, ranges.len() as int);
        lemma_rate_is_first(ranges, rates, from + 1, k);
    }
}

/// A device whose default is single-precision stereo is used with it, whatever else it offers.
/// Otherwise the rate of the default is preferred, then 48000 and then 44100: the first of these
/// that some range offers in single-precision stereo is taken, with the first such range.
pub proof fn law_preferred_rates_come_first(
    default: Option<DefaultConfig>,
    ranges: Seq<ConfigRange>,
    rates: Seq<u32>,
    k: int,
    at: int,
)
    requires
        ranges.len() <= usize::MAX,
        default matches Some(d) ==> rates == seq![d.sample_rate, 48_000u32, 44_100u32],
        default is None ==> rates == seq![48_000u32, 44_100u32],
        0 <= k < rates.len(),
        0 <= at < ranges.len(),
        forall|j: int, i: int|
            0 <= j < k && 0 <= i < ranges.len() ==> !(#[trigger] ranges[i]).offers(
                #[trigger] rates[j],
            ),
        forall|i: int| 0 <= i < at ==> !(#[trigger] ranges[i]).offers(rates[k]),
        ranges[at].channels == 2,
        ranges[at].single_precision,
        ranges[at].min_sample_rate <= rates[k] <= ranges[at].max_sample_rate,
    ensures
        default is None || default->0.channels != 2 || !default->0.single_precision
            ==> chosen_config(default, Some(ranges)) == Some(
            ConfigChoice::FromRange { index: at as usize, sample_rate: rates[k] },
        ),
        default matches Some(d) ==> d.channels == 2 && d.single_precision ==> chosen_config(
            default,
            Some(ranges),
        ) == Some(ConfigChoice::Default) && chosen_config(default, None) == Some(
            ConfigChoice::Default,
        ),
{
    lemma_rate_is_first(ranges, rates, 0, k);
    lemma_first_is_first(ranges, rates[k], 0, at);
    assert(preferred_rates(default) == rates);
}

proof fn lemma_highest_is(ranges: Seq<ConfigRange>, n: nat, at: int)
    requires
        0 <= at < n <= ranges.len(),
        ranges[at].usable(),
        forall|i: int|
            0 <= i < n && (#[trigger] ranges[i]).usable() ==> ranges[i].max_sample_rate
                <= ranges[at].max_sample_rate,
        forall|i: int|
            0 <= i < at && (#[trigger] ranges[i]).usable() ==> ranges[i].max_sample_rate
                < ranges[at].max_sample_rate,
    ensures
        highest(ranges, n) == Some(at),
    decreases n,
{
    lemma_highest(ranges, (n - 1) as nat);
    if at < n - 1 {
        lemma_highest_is(ranges, (n - 1) as nat, at);
    }
}

/// Where no preferred rate is offered, the highest rate that is offered in single-precision stereo
/// is taken, with the first range that goes so high.
pub proof fn law_the_highest_rate_is_taken_last(
    default: Option<DefaultConfig>,
    ranges: Seq<ConfigRange>,
    at: int,
)
    requires
        ranges.len() <= usize::MAX,
        default is None || default->0.channels != 2 || !default->0.single_precision,
        forall|i: int|
            0 <= i < ranges.len() ==> !(#[trigger] ranges[i]).offers(48_000) && !ranges[i].offers(
                44_100,
            ),
        default matches Some(d) ==> forall|i: int|
            0 <= i < ranges.len() ==> !(#[trigger] ranges[i]).offers(d.sample_rate),
        0 <= at < ranges.len(),
        ranges[at].channels == 2,
        ranges[at].single_precision,
        forall|i: int|
            0 <= i < ranges.len() && (#[trigger] ranges[i]).channels == 2
                && ranges[i].single_precision ==> ranges[i].max_sample_rate
                <= ranges[at].max_sample_rate,
        forall|i: int|
            0 <= i < at && (#[trigger] ranges[i]).channels == 2 && ranges[i].single_precision
                ==> ranges[i].max_sample_rate < ranges[at].max_sample_rate,
    ensures
        chosen_config(default, Some(ranges)) == Some(
            ConfigChoice::FromRange {
                index: at as usize,
                sample_rate: ranges[at].max_sample_rate,
            },
        ),
{
    let rates = preferred_rates(default);
    lemma_rate_is_first(ranges, rates, 0, rates.len() as int);
    lemma_highest_is(ranges, ranges.len(), at);
}

/// A device is opened unless it is open already, there is none, or it offers nothing usable, and
/// the first of these that holds is reported.
pub proof fn law_devices_are_opened_once(
    open: bool,
    device_found: bool,
    choice: Option<ConfigChoice>,
)
    ensures
        open_decision(open, device_found, choice) is Ok <==> !open && device_found && choice
            is Some,
        open_decision(open, device_found, choice) matches Ok(c) ==> choice == Some(c),
        open ==> open_decision(open, device_found, choice) == Err::<ConfigChoice, BackendError>(
            BackendError::AlreadyOpen,
        ),
        !open && !device_found ==> open_decision(open, device_found, choice) == Err::<
            ConfigChoice,
            BackendError,
        >(BackendError::NoOutputDevice),
        !open && device_found && choice is None ==> open_decision(open, device_found, choice)
            == Err::<ConfigChoice, BackendError>(BackendError::NoSupportedStreamConfig),
{
}

/// A session that was opened and closed again is as good as new, whatever was logged in between;
/// one that is not open is not changed by closing it. Opening changes nothing of what was logged.
pub proof fn law_closed_sessions_are_as_new(s: OutputSession, sample_rate: u32, current: u64)
    ensures
        s.opened_at(sample_rate).logged(current).left() == (OutputSession {
            open: false,
            sample_rate: 0,
            latency_logged: false,
            logged_underruns: 0,
        }),
        !s.open ==> s.left() == s,
        s.opened_at(sample_rate).open,
        s.opened_at(sample_rate).sample_rate == sample_rate,
        s.opened_at(sample_rate).latency_logged == s.latency_logged,
        s.opened_at(sample_rate).logged_underruns == s.logged_underruns,
{
}

/// Every late callback is logged once: what was logged and what is logged now make up all of them,
/// and right after that nothing is left to log. A count that has not grown gives nothing to log.
pub proof fn law_late_callbacks_are_logged_once(s: OutputSession, current: u64)
    ensures
        current >= s.logged_underruns ==> s.logged_underruns + s.unlogged(current) == current,
        current <= s.logged_underruns ==> s.unlogged(current) == 0 && s.logged(current) == s,
        s.logged(current).unlogged(current) == 0,
        s.logged(current).open == s.open,
        s.logged(current).sample_rate == s.sample_rate,
        s.logged(current).latency_logged == s.latency_logged,
{
}

/// The latency is logged once, as soon as it is known. It and the time at which a buffer was asked
/// for make up the time at which it is heard, unless the clock went back.
pub proof fn law_latency_is_logged_once(s: OutputSession, playback_ns: u64, callback_ns: u64)
    ensures
        callback_ns <= playback_ns ==> callback_ns + latency_between(playback_ns, callback_ns)
            == playback_ns,
        playback_ns <= callback_ns ==> latency_between(playback_ns, callback_ns) == 0,
        s.latency_logged ==> forall|ns: u64| !(#[trigger] s.latency_is_due(ns)),
        !s.latency_logged ==> forall|ns: u64| #[trigger] s.latency_is_due(ns) <==> ns > 0,
{
}

} // verus!
