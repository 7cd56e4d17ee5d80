use chord_dht::ring::distance;
use chord_dht::ring::finger_target;
use chord_dht::ring::in_range;

#[test]
fn distance_is_clockwise() {
    assert_eq!(distance(1, 2), 1);
    assert_eq!(distance(2, 1), 1023);
    assert_eq!(distance(7, 7), 0);
    assert_eq!(distance(1023, 0), 1);
    assert_eq!(distance(0, 1023), 1023);
}

#[test]
fn distance_reduces_ids_off_the_ring() {
    assert_eq!(distance(0, 1024), 0);
    assert_eq!(distance(0, 1029), 5);
    assert_eq!(distance(-1, 0), 1);
    assert_eq!(distance(0, -1), 1023);
    assert_eq!(distance(i32::MIN, i32::MAX), 1023);
    assert_eq!(distance(i32::MAX, i32::MIN), 1);
}

#[test]
fn in_range_is_inclusive_at_the_start_and_exclusive_at_the_end() {
    assert!(in_range(5, 5, 9));
    assert!(in_range(8, 5, 9));
    assert!(!in_range(9, 5, 9));
    assert!(!in_range(4, 5, 9));
}

#[test]
fn in_range_wraps_around_zero() {
    assert!(in_range(1020, 1000, 10));
    assert!(in_range(3, 1000, 10));
    assert!(!in_range(10, 1000, 10));
    assert!(!in_range(500, 1000, 10));
}

#[test]
fn in_range_with_equal_ends_is_the_whole_ring() {
    assert!(in_range(0, 7, 7));
    assert!(in_range(7, 7, 7));
    assert!(in_range(1023, 7, 7));
}

#[test]
fn finger_targets_double_their_reach() {
    assert_eq!(finger_target(1, 0), 2);
    assert_eq!(finger_target(1, 1), 3);
    assert_eq!(finger_target(1, 3), 9);
    assert_eq!(finger_target(1, 9), 513);
    assert_eq!(finger_target(1000, 5), 8);
    assert_eq!(finger_target(1023, 0), 0);
}
