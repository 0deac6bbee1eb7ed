use opp::clock::{add, monotonic_nanos, remaining};

#[test]
fn deadlines_saturate() {
    assert_eq!(add(1, 2), 3);
    assert_eq!(add(u64::MAX - 1, 5), u64::MAX);
    assert_eq!(add(0, u128::MAX), u64::MAX);
    assert_eq!(remaining(3, 10), 7);
    assert_eq!(remaining(10, 10), 0);
    assert_eq!(remaining(11, 10), 0);
}

#[test]
fn monotonic_readings_are_in_nanoseconds() {
    assert_eq!(monotonic_nanos(2, 5), 2_000_000_005);
    assert_eq!(monotonic_nanos(-1, 5), 5);
    assert_eq!(monotonic_nanos(2, -5), 2_000_000_000);
    assert_eq!(monotonic_nanos(i64::MAX, 0), u64::MAX);
    assert_eq!(monotonic_nanos(18_446_744_073, i64::MAX), u64::MAX);
}
