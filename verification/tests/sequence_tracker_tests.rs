use jamjam::sequence_tracker::SequenceTracker;

/// Lost over received plus lost, as the tracker's users compute it.
fn loss_rate(t: &SequenceTracker) -> f32 {
    let received = t.packets_received();
    let lost = t.packets_lost();
    let total = received + lost;
    if total == 0 {
        0.0
    } else {
        lost as f32 / total as f32
    }
}

#[test]
fn sequence_tracker_test_sequential_packets() {
    let mut tracker = SequenceTracker::new();

    for i in 0..10 {
        let lost = tracker.record(i);
        assert!(lost.is_empty(), "Unexpected loss at sequence {}", i);
    }

    assert_eq!(tracker.packets_received(), 10);
    assert_eq!(tracker.packets_lost(), 0);
    assert_eq!(loss_rate(&tracker), 0.0);
}

#[test]
fn test_single_packet_loss() {
    let mut tracker = SequenceTracker::new();

    tracker.record(0);
    tracker.record(1);
    let lost = tracker.record(3);

    assert_eq!(lost, vec![2]);
    assert_eq!(tracker.packets_lost(), 1);
}

#[test]
fn test_multiple_packet_loss() {
    let mut tracker = SequenceTracker::new();

    tracker.record(0);
    let lost = tracker.record(4);

    assert_eq!(lost, vec![1, 2, 3]);
    assert_eq!(tracker.packets_lost(), 3);
}

#[test]
fn sequence_tracker_test_out_of_order() {
    let mut tracker = SequenceTracker::new();

    tracker.record(0);
    tracker.record(1);
    let lost = tracker.record(3);
    assert_eq!(lost, vec![2]);
    assert_eq!(tracker.packets_lost(), 1);

    let lost = tracker.record(2);
    assert!(lost.is_empty());
    assert_eq!(tracker.packets_lost(), 0);
}

#[test]
fn test_sequence_wraparound() {
    let mut tracker = SequenceTracker::new();

    tracker.record(u32::MAX - 2);
    tracker.record(u32::MAX - 1);
    tracker.record(u32::MAX);
    let lost = tracker.record(0);

    assert!(lost.is_empty());
    assert_eq!(tracker.packets_lost(), 0);
}

#[test]
fn test_loss_rate_calculation() {
    let mut tracker = SequenceTracker::new();

    for i in 0..10 {
        if i != 3 && i != 7 {
            tracker.record(i);
        }
    }

    tracker.record(10);

    let rate = loss_rate(&tracker);
    assert!(rate > 0.0 && rate < 0.5);
    assert_eq!(tracker.packets_received(), 9);
    assert_eq!(tracker.packets_lost(), 2);
}

#[test]
fn test_was_received() {
    let mut tracker = SequenceTracker::new();

    tracker.record(0);
    tracker.record(1);
    tracker.record(3);

    assert!(tracker.was_received(0));
    assert!(tracker.was_received(1));
    assert!(!tracker.was_received(2));
    assert!(tracker.was_received(3));
}

#[test]
fn sequence_tracker_test_reset() {
    let mut tracker = SequenceTracker::new();

    tracker.record(0);
    tracker.record(5);

    assert!(tracker.packets_lost() > 0);

    tracker.reset();

    assert_eq!(tracker.packets_received(), 0);
    assert_eq!(tracker.packets_lost(), 0);
    assert_eq!(loss_rate(&tracker), 0.0);
}

#[test]
fn test_duplicate_packets() {
    let mut tracker = SequenceTracker::new();

    tracker.record(0);
    tracker.record(1);
    tracker.record(1);
    tracker.record(1);

    assert_eq!(tracker.packets_received(), 4);
    assert_eq!(tracker.packets_lost(), 0);
}

#[test]
fn highest_sequence_follows_newest_packet() {
    let mut tracker = SequenceTracker::new();
    tracker.record(5);
    assert_eq!(tracker.highest_sequence(), 5);
    tracker.record(3);
    assert_eq!(tracker.highest_sequence(), 5);
    tracker.record(9);
    assert_eq!(tracker.highest_sequence(), 9);
}

#[test]
fn very_old_packet_is_ignored() {
    let mut tracker = SequenceTracker::new();
    tracker.record(1000);
    let lost = tracker.record(10);
    assert!(lost.is_empty());
    assert_eq!(tracker.packets_received(), 2);
    assert!(!tracker.was_received(10));
}
