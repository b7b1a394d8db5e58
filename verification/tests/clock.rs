//! Clocks for the game thread.

use audioware::clock::{BgmStatePublisher, MusicClockPublisher, RenderedFrameCounter};
use audioware::music::MusicState;

#[test]
fn starts_at_zero() {
    let counter = RenderedFrameCounter::new();
    assert_eq!(counter.get(), 0);
}

#[test]
fn add_accumulates() {
    let mut counter = RenderedFrameCounter::new();
    counter.add(128);
    counter.add(256);
    assert_eq!(counter.get(), 384);
}

#[test]
fn reset_returns_to_zero() {
    let mut counter = RenderedFrameCounter::new();
    counter.add(1_000);
    counter.reset();
    assert_eq!(counter.get(), 0);
}

#[test]
fn bgm_state_publisher_starts_at_loading() {
    let publisher = BgmStatePublisher::new();
    assert_eq!(publisher.read(), MusicState::Loading);
}

#[test]
fn default_matches_new_for_bgm_state_publisher() {
    let mut default = BgmStatePublisher::default();
    let mut new = BgmStatePublisher::new();
    assert_eq!(default.read(), new.read());

    default.write(MusicState::Playing);
    new.write(MusicState::Playing);
    assert_eq!(default.read(), new.read());
}

#[test]
fn bgm_state_publisher_write_is_reflected_in_read() {
    let mut publisher = BgmStatePublisher::new();
    for state in [
        MusicState::Loading,
        MusicState::Ready,
        MusicState::Playing,
        MusicState::Paused,
    ] {
        publisher.write(state);
        assert_eq!(publisher.read(), state);
    }
}

#[test]
fn music_clock_publisher_starts_at_zero() {
    let publisher = MusicClockPublisher::new();
    let snapshot = publisher.snapshot();
    assert_eq!(snapshot.song_frames, 0);
    assert_eq!(snapshot.host_time_ns, 0);
    assert_eq!(snapshot.sample_rate, 0);
    assert_eq!(
        snapshot.state,
        MusicState::Loading,
        "before the first publish, state must default to Loading (matches MusicVoice::new)"
    );
    assert!(!snapshot.is_playing);
    assert_eq!(snapshot.generation, 0);
}

#[test]
fn music_clock_publisher_publish_is_reflected_in_snapshot() {
    let mut publisher = MusicClockPublisher::new();
    publisher.publish(48_000, 123_456_789, 48_000, MusicState::Playing);

    let snapshot = publisher.snapshot();
    assert_eq!(snapshot.song_frames, 48_000);
    assert_eq!(snapshot.host_time_ns, 123_456_789);
    assert_eq!(snapshot.sample_rate, 48_000);
    assert_eq!(snapshot.state, MusicState::Playing);
    assert!(snapshot.is_playing);
    assert_eq!(snapshot.generation, 0);
}

#[test]
fn music_clock_publisher_is_playing_is_true_only_for_playing_state() {
    let mut publisher = MusicClockPublisher::new();
    for state in [
        MusicState::Loading,
        MusicState::Ready,
        MusicState::Playing,
        MusicState::Paused,
    ] {
        publisher.publish(0, 0, 48_000, state);
        let snapshot = publisher.snapshot();
        assert_eq!(snapshot.state, state);
        assert_eq!(snapshot.is_playing, state == MusicState::Playing);
    }
}

#[test]
fn music_clock_publisher_bump_generation_increments_and_preserves_other_fields() {
    let mut publisher = MusicClockPublisher::new();
    publisher.publish(1_000, 2_000, 44_100, MusicState::Playing);

    publisher.bump_generation();
    let snapshot = publisher.snapshot();
    assert_eq!(snapshot.generation, 1);

    assert_eq!(snapshot.song_frames, 1_000);
    assert_eq!(snapshot.host_time_ns, 2_000);
    assert_eq!(snapshot.sample_rate, 44_100);
    assert_eq!(snapshot.state, MusicState::Playing);
    assert!(snapshot.is_playing);

    publisher.bump_generation();
    assert_eq!(publisher.snapshot().generation, 2);
}

#[test]
fn music_clock_publisher_bump_generation_wraps_without_panicking() {
    let mut publisher = MusicClockPublisher::new();

    publisher.generation = u32::MAX;

    publisher.bump_generation();
    assert_eq!(publisher.snapshot().generation, 0);

    publisher.bump_generation();
    assert_eq!(publisher.snapshot().generation, 1);
}

#[test]
fn seed_generation_after_reopen_sets_generation_without_disturbing_other_fields() {
    let mut publisher = MusicClockPublisher::new();
    publisher.seed_generation_after_reopen(42);

    let snapshot = publisher.snapshot();
    assert_eq!(snapshot.generation, 42);
    assert_eq!(snapshot.song_frames, 0);
    assert_eq!(snapshot.host_time_ns, 0);
    assert_eq!(snapshot.state, MusicState::Loading);

    publisher.bump_generation();
    assert_eq!(publisher.snapshot().generation, 43);
}

#[test]
fn seed_generation_after_reopen_wraps_without_panicking() {
    let mut publisher = MusicClockPublisher::new();
    publisher.seed_generation_after_reopen(u32::MAX);
    publisher.bump_generation();
    assert_eq!(publisher.snapshot().generation, 0);
}
