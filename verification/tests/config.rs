//! The default configuration.

use audioware::Config;

#[test]
fn default_matches_spec_defaults() {
    let config = Config::default();
    assert_eq!(config.max_voices, 64);
    assert_eq!(config.default_ramp_ms, 5.0f32.to_bits());
    assert!(config.reclaim_queue_capacity > config.max_voices + config.steal_tail_capacity);
    assert_eq!(config.preroll_ms, 100.0f32.to_bits());
    assert_eq!(config.schedule_queue_capacity, 32);
    assert_eq!(config.event_queue_capacity, 64);
    assert_eq!(config.underrun_report_threshold_frames, 48_000);
}
