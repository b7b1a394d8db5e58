//! Interruptions of the audio session.

use audioware::interruption::{
    confirm_recovery_progress, InterruptionState, RecoveryActions, RouteChangeReason,
    RECOVERY_WAIT_SCHEDULE_MS,
};

#[test]
fn interruption_began_then_ended_with_resume_then_recovery_succeeds() {
    let state = InterruptionState::new();
    assert_eq!(state, InterruptionState::Running);

    let state = state.on_interruption_began();
    assert_eq!(state, InterruptionState::Interrupted);

    let state = state.on_interruption_ended(true);
    assert_eq!(state, InterruptionState::RecoveryPending);
    assert!(state.needs_recovery_attempt());

    let state = state.on_recovery_attempted(true);
    assert_eq!(state, InterruptionState::Recovered);
    assert!(!state.needs_recovery_attempt());
}

#[test]
fn interruption_ended_without_should_resume_returns_to_running_without_recovery() {
    let state = InterruptionState::Interrupted.on_interruption_ended(false);
    assert_eq!(state, InterruptionState::Running);
    assert!(!state.needs_recovery_attempt());
}

#[test]
fn recovery_failure_can_be_retried_when_the_app_becomes_active_again() {
    let state = InterruptionState::Interrupted
        .on_interruption_ended(true)
        .on_recovery_attempted(false);
    assert_eq!(state, InterruptionState::RecoveryFailed);

    let state = state.on_app_became_active();
    assert_eq!(state, InterruptionState::RecoveryPending);
    assert!(state.needs_recovery_attempt());
}

#[test]
fn app_became_active_recovers_the_exact_reported_bug_scenario() {
    let state = InterruptionState::new().on_interruption_began();
    assert_eq!(state, InterruptionState::Interrupted);

    let state = state.on_app_became_active();
    assert_eq!(state, InterruptionState::RecoveryPending);
}

#[test]
fn app_became_active_recovers_when_no_interruption_began_before_backgrounding() {
    let state = InterruptionState::new();
    assert_eq!(state, InterruptionState::Running);

    let state = state.on_app_entered_background();
    assert_eq!(state, InterruptionState::Backgrounded);

    let state = state.on_app_became_active();
    assert_eq!(state, InterruptionState::RecoveryPending);
    assert!(state.needs_recovery_attempt());
}

#[test]
fn app_entered_background_while_interrupted_still_recovers_on_becoming_active() {
    let state = InterruptionState::new()
        .on_interruption_began()
        .on_app_entered_background();
    assert_eq!(state, InterruptionState::Backgrounded);

    let state = state.on_app_became_active();
    assert_eq!(state, InterruptionState::RecoveryPending);
}

#[test]
fn recovery_failure_after_backgrounding_can_be_retried_on_becoming_active_again() {
    let state = InterruptionState::new()
        .on_app_entered_background()
        .on_app_became_active();
    assert_eq!(state, InterruptionState::RecoveryPending);

    let state = state.on_recovery_attempted(false);
    assert_eq!(state, InterruptionState::RecoveryFailed);

    let state = state.on_app_became_active();
    assert_eq!(state, InterruptionState::RecoveryPending);
    assert!(state.needs_recovery_attempt());
}

#[test]
fn app_became_active_is_a_no_op_when_nothing_was_interrupted() {
    for state in [
        InterruptionState::Running,
        InterruptionState::RecoveryPending,
        InterruptionState::Recovered,
    ] {
        assert_eq!(state.on_app_became_active(), state);
    }
}

#[test]
fn a_new_interruption_always_wins_even_mid_recovery() {
    for state in [
        InterruptionState::Running,
        InterruptionState::Interrupted,
        InterruptionState::RecoveryPending,
        InterruptionState::Recovered,
        InterruptionState::RecoveryFailed,
    ] {
        assert_eq!(
            state.on_interruption_began(),
            InterruptionState::Interrupted
        );
    }
}

#[test]
fn a_new_interruption_always_wins_even_while_backgrounded() {
    assert_eq!(
        InterruptionState::Backgrounded.on_interruption_began(),
        InterruptionState::Interrupted
    );
}

#[test]
fn entering_background_always_wins_from_any_state() {
    for state in [
        InterruptionState::Running,
        InterruptionState::Interrupted,
        InterruptionState::RecoveryPending,
        InterruptionState::Recovered,
        InterruptionState::RecoveryFailed,
        InterruptionState::Backgrounded,
    ] {
        assert_eq!(
            state.on_app_entered_background(),
            InterruptionState::Backgrounded
        );
    }
}

#[test]
fn default_state_is_running() {
    assert_eq!(InterruptionState::default(), InterruptionState::Running);
}

#[test]
fn route_changed_with_old_device_unavailable_requests_recovery_from_any_state() {
    for state in [
        InterruptionState::Running,
        InterruptionState::Interrupted,
        InterruptionState::RecoveryPending,
        InterruptionState::Recovered,
        InterruptionState::RecoveryFailed,
        InterruptionState::Backgrounded,
    ] {
        assert_eq!(
            state.on_route_changed(RouteChangeReason::OldDeviceUnavailable),
            InterruptionState::RecoveryPending
        );
    }
}

#[test]
fn route_changed_with_benign_reasons_does_not_change_state() {
    for reason in [
        RouteChangeReason::CategoryChange,
        RouteChangeReason::Override,
        RouteChangeReason::Other,
    ] {
        for state in [
            InterruptionState::Running,
            InterruptionState::Interrupted,
            InterruptionState::RecoveryPending,
            InterruptionState::Recovered,
            InterruptionState::RecoveryFailed,
            InterruptionState::Backgrounded,
        ] {
            assert_eq!(
                state.on_route_changed(reason),
                state,
                "reason {reason:?} must not change state {state:?}"
            );
        }
    }
}

#[test]
fn old_device_unavailable_and_new_device_available_require_recovery_other_reasons_do_not() {
    assert!(RouteChangeReason::OldDeviceUnavailable.requires_recovery());
    assert!(RouteChangeReason::NewDeviceAvailable.requires_recovery());
    assert!(!RouteChangeReason::CategoryChange.requires_recovery());
    assert!(!RouteChangeReason::Override.requires_recovery());
    assert!(!RouteChangeReason::Other.requires_recovery());
}

#[test]
fn route_changed_with_new_device_available_requests_recovery_from_any_state() {
    for state in [
        InterruptionState::Running,
        InterruptionState::Interrupted,
        InterruptionState::RecoveryPending,
        InterruptionState::Recovered,
        InterruptionState::RecoveryFailed,
        InterruptionState::Backgrounded,
    ] {
        assert_eq!(
            state.on_route_changed(RouteChangeReason::NewDeviceAvailable),
            InterruptionState::RecoveryPending
        );
    }
}

#[test]
fn category_change_does_not_require_recovery_to_avoid_self_triggered_loop() {
    assert!(!RouteChangeReason::CategoryChange.requires_recovery());
    for state in [
        InterruptionState::Running,
        InterruptionState::Interrupted,
        InterruptionState::RecoveryPending,
        InterruptionState::Recovered,
        InterruptionState::RecoveryFailed,
        InterruptionState::Backgrounded,
    ] {
        assert_eq!(
            state.on_route_changed(RouteChangeReason::CategoryChange),
            state
        );
    }
}

#[test]
fn route_change_recovery_failure_can_be_retried_when_the_app_becomes_active_again() {
    let state = InterruptionState::Running
        .on_route_changed(RouteChangeReason::OldDeviceUnavailable)
        .on_recovery_attempted(false);
    assert_eq!(state, InterruptionState::RecoveryFailed);

    let state = state.on_app_became_active();
    assert_eq!(state, InterruptionState::RecoveryPending);
}

#[test]
fn confirm_recovery_progress_succeeds_on_the_first_check_without_retrying() {
    let ticks_before = 41u64;

    let ticks_now = ticks_before + 1;
    let mut retry_calls = 0u32;
    let mut waits = Vec::new();

    let outcome = confirm_recovery_progress(
        ticks_before,
        &mut RecoveryActions::new(
            || ticks_now,
            || retry_calls += 1,
            |wait_ms| waits.push(wait_ms),
        ),
    );

    assert_eq!(outcome, Some((1, RECOVERY_WAIT_SCHEDULE_MS[0])));
    assert_eq!(retry_calls, 0);
    assert_eq!(waits, vec![RECOVERY_WAIT_SCHEDULE_MS[0]]);
}

#[test]
fn confirm_recovery_progress_succeeds_after_a_couple_of_retries() {
    let ticks_before = 100u64;

    let mut read_calls = 0u32;
    let mut retry_calls = 0u32;

    let outcome = confirm_recovery_progress(
        ticks_before,
        &mut RecoveryActions::new(
            || {
                read_calls += 1;
                if read_calls < 3 {
                    ticks_before
                } else {
                    ticks_before + 1
                }
            },
            || retry_calls += 1,
            |_| {},
        ),
    );

    let expected_waited: u64 = RECOVERY_WAIT_SCHEDULE_MS[..3].iter().sum();
    assert_eq!(outcome, Some((3, expected_waited)));
    assert_eq!(
        retry_calls, 2
    );
}

#[test]
fn confirm_recovery_progress_gives_up_after_exhausting_the_schedule() {
    let ticks_before = 7u64;
    let mut retry_calls = 0u32;
    let mut waits = Vec::new();

    let outcome = confirm_recovery_progress(
        ticks_before,
        &mut RecoveryActions::new(
            || ticks_before,
            || retry_calls += 1,
            |wait_ms| waits.push(wait_ms),
        ),
    );

    assert_eq!(outcome, None);
    assert_eq!(
        retry_calls,
        RECOVERY_WAIT_SCHEDULE_MS.len() as u32 - 1
    );
    assert_eq!(waits, RECOVERY_WAIT_SCHEDULE_MS.to_vec());
    assert_eq!(
        waits.iter().sum::<u64>(),
        370
    );
}

#[test]
fn a_check_restarts_waits_and_looks_in_turn() {
    let calls = std::cell::RefCell::new(Vec::new());
    let mut looks = 0;
    let outcome = confirm_recovery_progress(
        100,
        &mut RecoveryActions::new(
            || {
                looks += 1;
                calls.borrow_mut().push("read".to_owned());
                if looks < 3 {
                    100
                } else {
                    101
                }
            },
            || calls.borrow_mut().push("retry".to_owned()),
            |ms| calls.borrow_mut().push(format!("sleep {ms}")),
        ),
    );
    assert_eq!(outcome, Some((3, 170)));
    assert_eq!(
        calls.into_inner(),
        ["sleep 20", "read", "retry", "sleep 50", "read", "retry", "sleep 100", "read"]
    );
}
