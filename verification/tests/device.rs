//! What is decided around an output device.

use audioware::backend::{
    classify_stream_error, find_f32_stereo_config, output_latency, ConfigChoice, ConfigRange,
    DefaultConfig, DeviceErrorKind, OutputSession,
};
use audioware::event::{Event, StreamErrorReason};
use audioware::host_time::{ns_of_seconds, ns_of_ticks};
use audioware::interruption::{
    classify_route_change_reason, conclude_recovery, interruption_notice, react, CheckStep,
    InterruptionState, Notice, RecoveryCheck,
    RouteChangeReason,
};
use audioware::BackendError;

fn range(channels: u16, single_precision: bool, min: u32, max: u32) -> ConfigRange {
    ConfigRange { channels, single_precision, min_sample_rate: min, max_sample_rate: max }
}

#[test]
fn a_usable_default_is_taken() {
    let default = DefaultConfig { channels: 2, single_precision: true, sample_rate: 96_000 };
    assert_eq!(find_f32_stereo_config(Some(default), None), Some(ConfigChoice::Default));
}

#[test]
fn the_rate_of_the_default_is_preferred_in_the_ranges() {
    let default = DefaultConfig { channels: 6, single_precision: true, sample_rate: 44_100 };
    let ranges = vec![range(1, true, 8_000, 192_000), range(2, true, 44_100, 48_000)];
    assert_eq!(
        find_f32_stereo_config(Some(default), Some(ranges)),
        Some(ConfigChoice::FromRange { index: 1, sample_rate: 44_100 })
    );
}

#[test]
fn common_rates_come_before_the_highest() {
    let ranges = vec![range(2, false, 8_000, 192_000), range(2, true, 44_100, 96_000)];
    assert_eq!(
        find_f32_stereo_config(None, Some(ranges)),
        Some(ConfigChoice::FromRange { index: 1, sample_rate: 48_000 })
    );
    let odd = vec![range(2, true, 8_000, 16_000), range(2, true, 8_000, 32_000)];
    assert_eq!(
        find_f32_stereo_config(None, Some(odd)),
        Some(ConfigChoice::FromRange { index: 1, sample_rate: 32_000 })
    );
}

#[test]
fn without_single_precision_stereo_there_is_no_choice() {
    assert_eq!(find_f32_stereo_config(None, None), None);
    let ranges = vec![range(2, false, 8_000, 48_000), range(1, true, 8_000, 48_000)];
    assert_eq!(find_f32_stereo_config(None, Some(ranges)), None);
}

#[test]
fn opening_is_refused_for_the_first_reason_that_holds() {
    let mut session = OutputSession::new();
    assert!(matches!(session.decide_open(false, None), Err(BackendError::NoOutputDevice)));
    assert!(matches!(
        session.decide_open(true, None),
        Err(BackendError::NoSupportedStreamConfig)
    ));
    assert!(matches!(
        session.decide_open(true, Some(ConfigChoice::Default)),
        Ok(ConfigChoice::Default)
    ));
    assert!(matches!(session.close(), Err(BackendError::NotOpen)));
    session.opened(48_000);
    assert_eq!(session.sample_rate, 48_000);
    assert!(matches!(
        session.decide_open(false, None),
        Err(BackendError::AlreadyOpen)
    ));
    assert!(session.close().is_ok());
    assert_eq!(session, OutputSession::new());
}

#[test]
fn late_callbacks_and_the_latency_are_logged_once() {
    let mut session = OutputSession::new();
    assert_eq!(session.underruns_to_log(0), None);
    assert_eq!(session.underruns_to_log(3), Some(3));
    assert_eq!(session.underruns_to_log(3), None);
    assert_eq!(session.underruns_to_log(5), Some(2));
    assert!(!session.latency_to_log(0));
    assert!(session.latency_to_log(7));
    assert!(!session.latency_to_log(7));
}

#[test]
fn the_latency_never_goes_below_zero() {
    assert_eq!(output_latency(15, 10), 5);
    assert_eq!(output_latency(10, 15), 0);
}

#[test]
fn every_backend_error_has_its_message() {
    assert_eq!(BackendError::NoOutputDevice.message(), "no default output device");
    assert_eq!(
        BackendError::NoSupportedStreamConfig.message(),
        "no supported f32 stereo output stream config"
    );
    assert_eq!(
        BackendError::BuildStreamFailed("x".into()).message(),
        "failed to build stream: x"
    );
    assert_eq!(
        BackendError::PlayStreamFailed("y".into()).message(),
        "failed to start stream: y"
    );
    assert_eq!(BackendError::AlreadyOpen.message(), "backend is already open");
    assert_eq!(BackendError::NotOpen.message(), "backend is not open");
}

#[test]
fn late_data_is_a_failure_of_the_backend() {
    assert_eq!(classify_stream_error(DeviceErrorKind::Xrun), StreamErrorReason::Backend);
    assert_eq!(classify_stream_error(DeviceErrorKind::Other), StreamErrorReason::Backend);
}

#[test]
fn notices_lead_to_events_and_restarts() {
    let began = react(InterruptionState::Running, Notice::Began);
    assert_eq!(began.state, InterruptionState::Interrupted);
    assert_eq!(began.event, Some(Event::AudioInterruptionBegan));
    assert!(!began.attempt_recovery);

    let ended = react(began.state, Notice::Ended { should_resume: true });
    assert_eq!(ended.event, None);
    assert!(ended.attempt_recovery);

    let stays = react(began.state, Notice::Ended { should_resume: false });
    assert_eq!(stays.event, Some(Event::AudioInterruptionEnded { recovered: false }));
    assert!(!stays.attempt_recovery);

    let away = react(InterruptionState::Running, Notice::EnteredBackground);
    assert_eq!(away.event, None);
    let back = react(away.state, Notice::BecameActive);
    assert!(back.attempt_recovery);

    let reason = RouteChangeReason::OldDeviceUnavailable;
    let rerouted = react(InterruptionState::Running, Notice::RouteChanged { reason });
    assert_eq!(rerouted.event, Some(Event::RouteChanged));
    assert!(rerouted.attempt_recovery);
}

#[test]
fn a_restart_is_concluded_with_an_event() {
    let worked = conclude_recovery(InterruptionState::RecoveryPending, true);
    assert_eq!(worked.state, InterruptionState::Recovered);
    assert_eq!(worked.event, Some(Event::AudioInterruptionEnded { recovered: true }));
    let failed = conclude_recovery(InterruptionState::RecoveryPending, false);
    assert_eq!(failed.state, InterruptionState::RecoveryFailed);
    let again = react(failed.state, Notice::BecameActive);
    assert!(again.attempt_recovery);
}

#[test]
fn a_check_waits_longer_every_time() {
    let mut check = RecoveryCheck::new(7);
    assert_eq!(check.next_step(), Some(CheckStep { retry: false, wait_ms: 20 }));
    assert_eq!(check.look(7), None);
    assert_eq!(check.next_step(), Some(CheckStep { retry: true, wait_ms: 50 }));
    assert_eq!(check.look(8), Some((2, 70)));
    assert_eq!(check.look(7), None);
    assert_eq!(check.look(7), None);
    assert_eq!(check.next_step(), None);
}

#[test]
fn the_numbers_of_the_system_are_understood() {
    assert_eq!(classify_route_change_reason(0), RouteChangeReason::Other);
    assert_eq!(classify_route_change_reason(1), RouteChangeReason::NewDeviceAvailable);
    assert_eq!(classify_route_change_reason(2), RouteChangeReason::OldDeviceUnavailable);
    assert_eq!(classify_route_change_reason(3), RouteChangeReason::CategoryChange);
    assert_eq!(classify_route_change_reason(4), RouteChangeReason::Override);
    assert_eq!(classify_route_change_reason(8), RouteChangeReason::Other);

    assert_eq!(interruption_notice(Some(1), None), Some(Notice::Began));
    assert_eq!(
        interruption_notice(Some(0), Some(1)),
        Some(Notice::Ended { should_resume: true })
    );
    assert_eq!(
        interruption_notice(Some(0), Some(2)),
        Some(Notice::Ended { should_resume: false })
    );
    assert_eq!(
        interruption_notice(Some(0), None),
        Some(Notice::Ended { should_resume: false })
    );
    assert_eq!(interruption_notice(Some(2), None), None);
    assert_eq!(interruption_notice(None, Some(1)), None);
}

#[test]
fn clocks_are_read_in_nanoseconds() {
    assert_eq!(ns_of_ticks(24, Some((125, 3))), 1_000);
    assert_eq!(ns_of_ticks(24, Some((125, 0))), 24);
    assert_eq!(ns_of_ticks(24, None), 24);
    assert_eq!(ns_of_ticks(u64::MAX, Some((2, 1))), u64::MAX - 1);
    assert_eq!(ns_of_seconds(2, 5), 2_000_000_005);
}
