//! Schedules and the times they are measured by.

use audioware::schedule::{buffer_duration_ns, offset_within_buffer, ScheduleQueue};

#[test]
fn buffer_duration_ns_matches_frames_over_rate() {
    assert_eq!(buffer_duration_ns(1_000, 1_000), 1_000_000_000);
    assert_eq!(buffer_duration_ns(480, 48_000), 10_000_000);
    assert_eq!(buffer_duration_ns(0, 48_000), 0);
}

#[test]
fn buffer_duration_ns_is_zero_when_sample_rate_unset() {
    assert_eq!(buffer_duration_ns(256, 0), 0);
}

#[test]
fn offset_within_buffer_is_zero_at_buffer_start() {
    assert_eq!(offset_within_buffer(1_000, 1_000, 48_000), 0);
}

#[test]
fn offset_within_buffer_floors_not_rounds() {
    assert_eq!(offset_within_buffer(1_000 + 20_833, 1_000, 48_000), 0);

    assert_eq!(offset_within_buffer(1_000 + 20_834, 1_000, 48_000), 1);
}

#[test]
fn offset_advances_by_exactly_one_sample_per_sample_period() {
    for n in 0u64..64 {
        let target = 5_000_000_000u64 + n * 1_000_000;
        assert_eq!(
            offset_within_buffer(target, 5_000_000_000, 1_000),
            n as usize,
            "n={n}"
        );
    }
}

#[test]
fn offset_within_buffer_saturates_to_zero_when_target_is_before_start() {
    assert_eq!(offset_within_buffer(100, 1_000, 48_000), 0);
}

#[test]
fn try_insert_keeps_ascending_order_regardless_of_insertion_order() {
    let mut q: ScheduleQueue<u32> = ScheduleQueue::with_capacity(8);
    assert!(q.try_insert(300, 3));
    assert!(q.try_insert(100, 1));
    assert!(q.try_insert(200, 2));

    assert_eq!(q.pop_front(), Some((100, 1)));
    assert_eq!(q.pop_front(), Some((200, 2)));
    assert_eq!(q.pop_front(), Some((300, 3)));
    assert_eq!(q.pop_front(), None);
}

#[test]
fn try_insert_is_fifo_for_equal_timestamps() {
    let mut q: ScheduleQueue<u32> = ScheduleQueue::with_capacity(8);
    assert!(q.try_insert(100, 1));
    assert!(q.try_insert(100, 2));
    assert!(q.try_insert(100, 3));

    assert_eq!(q.pop_front(), Some((100, 1)));
    assert_eq!(q.pop_front(), Some((100, 2)));
    assert_eq!(q.pop_front(), Some((100, 3)));
}

#[test]
fn try_insert_rejects_beyond_capacity_without_dropping_existing_entries() {
    let mut q: ScheduleQueue<u32> = ScheduleQueue::with_capacity(2);
    assert!(q.try_insert(100, 1));
    assert!(q.try_insert(200, 2));
    assert!(!q.try_insert(300, 3), "capacity is exhausted");
    assert_eq!(q.len(), 2);
    assert_eq!(q.pop_front(), Some((100, 1)));
    assert_eq!(q.pop_front(), Some((200, 2)));
}

#[test]
fn front_does_not_remove() {
    let mut q: ScheduleQueue<u32> = ScheduleQueue::with_capacity(4);
    q.try_insert(100, 1);
    assert_eq!(q.front(), Some(&(100, 1)));
    assert_eq!(q.front(), Some(&(100, 1)));
    assert_eq!(q.len(), 1);
}

#[test]
fn remove_where_removes_only_matching_entries_and_hands_them_to_on_removed() {
    let mut q: ScheduleQueue<u32> = ScheduleQueue::with_capacity(8);
    q.try_insert(100, 1);
    q.try_insert(200, 2);
    q.try_insert(300, 3);
    q.try_insert(400, 2);

    let mut removed = Vec::new();
    q.remove_where(|payload| *payload == 2, &mut removed);

    assert_eq!(
        removed,
        vec![2, 2],
        "both matching entries must be handed to on_removed"
    );
    assert_eq!(q.len(), 2);
    assert_eq!(q.pop_front(), Some((100, 1)));
    assert_eq!(q.pop_front(), Some((300, 3)));
    assert_eq!(q.pop_front(), None);
}

#[test]
fn remove_where_preserves_ascending_order_of_survivors() {
    let mut q: ScheduleQueue<u32> = ScheduleQueue::with_capacity(8);
    for (t, v) in [(100, 1), (200, 2), (300, 3), (400, 4), (500, 5)] {
        assert!(q.try_insert(t, v));
    }

    let mut removed = Vec::new();
    q.remove_where(|payload| matches!(payload, 1 | 3 | 5), &mut removed);

    assert_eq!(q.len(), 2);

    assert_eq!(q.pop_front(), Some((200, 2)));
    assert_eq!(q.pop_front(), Some((400, 4)));
    assert_eq!(q.pop_front(), None);
}

#[test]
fn remove_where_with_no_match_leaves_queue_untouched() {
    let mut q: ScheduleQueue<u32> = ScheduleQueue::with_capacity(8);
    q.try_insert(100, 1);
    q.try_insert(200, 2);

    let mut removed = Vec::new();
    q.remove_where(|payload| *payload == 999, &mut removed);

    assert!(removed.is_empty());
    assert_eq!(q.len(), 2);
    assert_eq!(q.pop_front(), Some((100, 1)));
    assert_eq!(q.pop_front(), Some((200, 2)));
}

#[test]
fn remove_where_can_empty_the_queue_entirely() {
    let mut q: ScheduleQueue<u32> = ScheduleQueue::with_capacity(4);
    q.try_insert(100, 1);
    q.try_insert(200, 1);
    q.try_insert(300, 1);

    let mut removed = Vec::new();
    q.remove_where(|_| true, &mut removed);

    assert_eq!(removed.len(), 3);
    assert_eq!(q.len(), 0);
    assert_eq!(q.front(), None);
}
