//! Clocks, schedules, queues and conversions on concrete values.

use audioware::clock::{MusicClockPublisher, MusicClockSnapshot, SnapshotReader, MAX_READ_RETRIES};
use audioware::event::{plan_drain, Event, EventQueue};
use audioware::resample::{
    append_resampled_output, convert_frame_count, deinterleave, Feed, OneshotResample,
    StreamResampler,
};
use audioware::schedule::{buffer_duration_ns, offset_within_buffer};
use audioware::text::{append_decimal, joined, numbered};
use audioware::underrun::OutputUnderrunTracker;
use audioware::{MusicState, RenderedFrameCounter, SoundData, SoundStorage};

#[test]
fn a_reader_takes_only_what_was_not_changed_meanwhile() {
    let mut clock = MusicClockPublisher::new();
    clock.publish(1, 2, 3, MusicState::Playing);
    let old = clock.fields();
    let before = clock.seq;

    let mut reader = SnapshotReader::new();
    assert!(reader.next_try());
    clock.begin_write();
    assert!(!reader.offer(before, old, clock.seq));
    assert!(!reader.offer(clock.seq, old, clock.seq));
    clock.end_write();
    assert!(reader.offer(clock.seq, clock.fields(), clock.seq));
    assert_eq!(reader.last, clock.snapshot());
}

#[test]
fn a_reader_that_meets_a_suspended_writer_is_left_with_what_it_read_last() {
    let mut clock = MusicClockPublisher::new();
    clock.publish(480, 10_000_000, 48_000, MusicState::Playing);
    clock.begin_write();
    assert_eq!(clock.snapshot(), clock.fields());

    let mut reader = SnapshotReader::new();
    while reader.next_try() {
        assert!(!reader.offer(clock.seq, clock.fields(), clock.seq));
    }
    assert_eq!(
        reader.last,
        MusicClockSnapshot {
            song_frames: 480,
            host_time_ns: 10_000_000,
            sample_rate: 48_000,
            state: MusicState::Playing,
            is_playing: true,
            generation: 0,
        }
    );
}

#[test]
fn a_reader_gives_up_after_some_tries() {
    let mut reader = SnapshotReader::new();
    let mut tries = 0;
    while reader.next_try() {
        tries += 1;
    }
    assert_eq!(tries, MAX_READ_RETRIES);
    let blank: MusicClockSnapshot = reader.last;
    assert_eq!(blank.state, MusicState::Loading);
}

#[test]
fn the_count_of_frames_wraps() {
    let mut counter = RenderedFrameCounter::new();
    counter.add(u64::MAX);
    counter.add(2);
    assert_eq!(counter.get(), 1);
}

#[test]
fn a_distant_restart_frame_loses_its_upper_bits() {
    let far = Event::MusicLooped { restart_frame: (1 << 56) + 5 };
    assert_eq!(
        Event::from_bits(far.to_bits()),
        Event::MusicLooped { restart_frame: 5 }
    );
    assert_eq!(Event::Underrun { frames: 7 }.to_bits(), (1 << 56) + 7);
}

#[test]
fn a_drain_is_planned_around_what_was_overwritten() {
    let plan = plan_drain(10, 2, 4, 3);
    assert_eq!((plan.start, plan.count, plan.dropped), (6, 3, 4));
    let plan = plan_drain(10, 8, 4, 9);
    assert_eq!((plan.start, plan.count, plan.dropped), (8, 2, 0));
    let plan = plan_drain(3, 5, 4, 9);
    assert_eq!((plan.start, plan.count, plan.dropped), (5, 0, 0));
}

#[test]
fn a_queue_keeps_the_newest_events_and_counts_the_others() {
    let mut queue = EventQueue::new(2);
    let mut out = Vec::new();
    for frames in 0..5 {
        queue.push_realtime(Event::Underrun { frames });
    }
    assert_eq!(queue.drain(1, &mut out), (1, 3));
    assert_eq!(queue.drain(9, &mut out), (1, 0));
    assert_eq!(out, vec![Event::Underrun { frames: 3 }, Event::Underrun { frames: 4 }]);
}

#[test]
fn a_target_falls_in_the_frame_that_holds_it() {
    assert_eq!(offset_within_buffer(3_999_999, 0, 1_000), 3);
    assert_eq!(offset_within_buffer(4_000_000, 0, 1_000), 4);
    assert_eq!(offset_within_buffer(u64::MAX, u64::MAX - 1, 48_000), 0);
    assert_eq!(offset_within_buffer(5, 0, 0), 0);
    assert_eq!(buffer_duration_ns(1, 48_000), 20_833);
}

#[test]
fn counts_are_rounded_to_the_nearest() {
    assert_eq!(convert_frame_count(1, 2, 1), 1);
    assert_eq!(convert_frame_count(1, 3, 1), 0);
    assert_eq!(convert_frame_count(2, 3, 1), 1);
    assert_eq!(convert_frame_count(7, 48_000, 44_100), 6);
    assert_eq!(convert_frame_count(9, 0, 0), 9);
}

#[test]
fn a_whole_sound_is_fed_in_chunks_and_flushed() {
    let frames = 4_096 + 10;
    let input: Vec<u32> = (0..frames as u32 * 2).collect();
    let mut run = OneshotResample::new(frames, 2, 1, 1);
    let mut planes = vec![vec![0; 4_096], vec![0; 4_096]];
    assert_eq!(run.feed(&input, &mut planes), Some(Feed::Whole));
    assert_eq!((planes[0][1], planes[1][1]), (2, 3));
    run.accept(&vec![vec![70, 71, 72], vec![80, 81, 82]], 3);
    assert_eq!(run.feed(&input, &mut planes), Some(Feed::Rest(10)));
    assert_eq!((planes[0][0], planes[1][0]), (8_192, 8_193));
    run.accept(&vec![vec![73], vec![83]], 1);
    assert_eq!(run.feed(&input, &mut planes), None);
    let (out, n) = run.finish();
    assert_eq!(n, 2_053);
    assert_eq!(out.len(), 4_106);
    assert_eq!(out[..8], [71, 81, 72, 82, 73, 83, 0, 0]);
}

#[test]
fn too_long_a_result_is_cut_off() {
    let mut run = OneshotResample::new(2, 2, 1, 0);
    let mut planes = vec![vec![0; 4_096], vec![0; 4_096]];
    assert_eq!(run.feed(&[1, 2, 3, 4, 5, 6], &mut planes), Some(Feed::Rest(2)));
    assert_eq!((&planes[0][..3], &planes[1][..3]), (&[1, 3, 0][..], &[2, 4, 0][..]));
    run.accept(&vec![vec![5, 6, 7], vec![5, 6, 7]], 3);
    assert_eq!(run.finish(), (vec![5, 5], 1));
}

#[test]
fn the_delay_of_a_streaming_conversion_is_skipped_again_after_a_seek() {
    let mut resampler = StreamResampler::new(2, 3);
    assert_eq!(resampler.input_frames_needed(), 2);
    assert_eq!(resampler.load(&[1, 2, 3, 4]), 2);
    assert_eq!(resampler.planar, vec![vec![1, 3], vec![2, 4]]);
    let mut out = Vec::new();
    let planes = vec![vec![10, 11], vec![20, 21]];
    resampler.take(&planes, 2, &mut out);
    assert!(out.is_empty());
    resampler.take(&planes, 2, &mut out);
    assert_eq!(out, vec![11, 21]);
    resampler.reset();
    assert_eq!(resampler.delay_to_skip, 3);
}

#[test]
fn channels_are_taken_apart_and_put_together() {
    let mut planes = vec![vec![9; 3], vec![9; 3]];
    deinterleave(&[1, 2, 3, 4], 2, &mut planes);
    assert_eq!(planes, vec![vec![1, 3, 9], vec![2, 4, 9]]);
    let mut delay = 1;
    let mut out = Vec::new();
    append_resampled_output(&planes, 2, &mut delay, &mut out);
    assert_eq!(out, vec![3, 4]);
    assert_eq!(delay, 0);
}

#[test]
fn late_callbacks_in_a_row_are_counted_up_to_a_limit() {
    let mut tracker = OutputUnderrunTracker::new();
    tracker.consecutive = u32::MAX;
    tracker.count = u64::MAX;
    tracker.observe(1, 1, 1_000);
    tracker.consecutive = u32::MAX;
    tracker.observe(1 + 1_500_001, 1, 1_000);
    assert_eq!(tracker.consecutive(), u32::MAX);
    assert_eq!(tracker.count(), 0);
    tracker.observe(1 + 1_500_001 + 1_500_000, 1, 1_000);
    assert_eq!(tracker.consecutive(), 0);
}

#[test]
fn identifiers_start_over_without_zero() {
    let silent = || SoundData { sample_rate: 1, frames: 0, interleaved: Vec::new() };
    let mut storage = SoundStorage::default();
    assert_eq!(storage.insert(silent()).0, 1);
    storage.next_id = u64::MAX;
    let last = storage.insert(silent());
    assert_eq!(last.0, u64::MAX);
    assert_eq!(storage.insert(silent()).0, 1);
    assert!(storage.contains(last));
    assert!(storage.remove(last).is_some());
    assert!(!storage.contains(last));
    assert!(storage.remove(last).is_none());
}

#[test]
fn numbers_are_written_in_decimal() {
    let mut s = String::new();
    append_decimal(&mut s, 0);
    append_decimal(&mut s, u64::MAX);
    assert_eq!(s, "018446744073709551615");
    assert_eq!(numbered("a ", 42, " b"), "a 42 b");
    assert_eq!(joined("a", "b"), "ab");
}
