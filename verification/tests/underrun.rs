//! Late output callbacks.

use audioware::underrun::OutputUnderrunTracker;

#[test]
fn a_large_gap_between_callbacks_increments_the_counter() {
    let mut tracker = OutputUnderrunTracker::new();
    let sample_rate = 48_000u32;
    let frames = 512u32;
    let nominal_gap_ns = frames as u64 * 1_000_000_000 / sample_rate as u64;

    let mut host_time_ns = 1u64;

    for _ in 0..5 {
        tracker.observe(host_time_ns, frames, sample_rate);
        host_time_ns += nominal_gap_ns;
    }
    assert_eq!(tracker.count(), 0);
    assert_eq!(tracker.consecutive(), 0);

    host_time_ns += nominal_gap_ns * 3;
    tracker.observe(host_time_ns, frames, sample_rate);

    assert_eq!(tracker.count(), 1);
    assert_eq!(tracker.consecutive(), 1);
    assert_eq!(tracker.last_host_time_ns(), host_time_ns);

    host_time_ns += nominal_gap_ns;
    tracker.observe(host_time_ns, frames, sample_rate);
    assert_eq!(tracker.count(), 1);
    assert_eq!(tracker.consecutive(), 0);
}

#[test]
fn regular_callback_cadence_never_increments_the_counter() {
    let mut tracker = OutputUnderrunTracker::new();
    let sample_rate = 44_100u32;
    let frames = 256u32;
    let nominal_gap_ns = frames as u64 * 1_000_000_000 / sample_rate as u64;

    let mut host_time_ns = 1u64;
    for _ in 0..500 {
        tracker.observe(host_time_ns, frames, sample_rate);
        host_time_ns += nominal_gap_ns;
    }

    assert_eq!(tracker.count(), 0);
    assert_eq!(tracker.last_host_time_ns(), 0);
    assert_eq!(tracker.consecutive(), 0);
}

#[test]
fn consecutive_gaps_accumulate_until_a_normal_callback_resets_it() {
    let mut tracker = OutputUnderrunTracker::new();
    let sample_rate = 48_000u32;
    let frames = 512u32;
    let nominal_gap_ns = frames as u64 * 1_000_000_000 / sample_rate as u64;

    let mut host_time_ns = 1u64;
    tracker.observe(host_time_ns, frames, sample_rate);

    for i in 1..=3u64 {
        host_time_ns += nominal_gap_ns * 3;
        tracker.observe(host_time_ns, frames, sample_rate);
        assert_eq!(tracker.count(), i);
        assert_eq!(tracker.consecutive(), i as u32);
    }

    host_time_ns += nominal_gap_ns;
    tracker.observe(host_time_ns, frames, sample_rate);
    assert_eq!(tracker.count(), 3);
    assert_eq!(tracker.consecutive(), 0);
}

#[test]
fn first_callback_ever_is_never_flagged() {
    let mut tracker = OutputUnderrunTracker::new();
    tracker.observe(1, 512, 48_000);
    assert_eq!(tracker.count(), 0);
}

#[test]
fn zero_sample_rate_does_not_panic_or_detect() {
    let mut tracker = OutputUnderrunTracker::new();
    tracker.observe(1_000_000, 512, 0);
    tracker.observe(2_000_000, 512, 0);
    assert_eq!(tracker.count(), 0);
}

#[test]
fn backwards_host_time_does_not_panic() {
    let mut tracker = OutputUnderrunTracker::new();
    tracker.observe(1_000_000, 512, 48_000);
    tracker.observe(500_000, 512, 48_000);
}
