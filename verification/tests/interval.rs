use spiro::interval::{duration_to_nanos, next_interval, Dur, Interval, IntervalError, Tick};

const SEC: u64 = 1_000_000_000;

#[test]
fn duration_to_nanos_exact() {
    assert_eq!(duration_to_nanos(Dur::new(1, 500)), Some(1_000_000_500));
    assert_eq!(duration_to_nanos(Dur::new(0, 0)), Some(0));
    assert_eq!(duration_to_nanos(Dur::new(u64::MAX, 0)), None);
}

#[test]
fn next_interval_no_drift() {
    // One period past the previous deadline still lies in the future.
    assert_eq!(next_interval(10, 14, 5), Some(15));
    assert_eq!(next_interval(10, 10, 5), Some(15));
}

#[test]
fn next_interval_skips_whole_periods() {
    // 17 ns have passed since the deadline at 10; the timer skips to the
    // smallest multiple of 5 past 27.
    assert_eq!(next_interval(10, 27, 5), Some(30));
    assert_eq!(next_interval(10, 15, 5), Some(20));
}

#[test]
fn next_interval_skip_bound_is_fatal() {
    // A clock jump of 2^64 periods exceeds the four-billion bound.
    assert_eq!(next_interval(0, u64::MAX, 1), None);
}

#[test]
fn interval_construction_errors() {
    assert_eq!(Interval::new(Dur::new(0, 0), 7), Err(IntervalError::ZeroPeriod));
    assert_eq!(Interval::new_at(0, Dur::new(0, 0)), Err(IntervalError::ZeroPeriod));
    assert_eq!(Interval::new(Dur::new(u64::MAX, 0), 0), Err(IntervalError::Overflow));
    assert_eq!(Interval::new_at(0, Dur::new(u64::MAX, 0)), Err(IntervalError::Overflow));
}

#[test]
fn interval_new_sets_first_deadline_one_period_out() {
    let iv = Interval::new(Dur::new(5, 0), 3 * SEC).unwrap();
    assert_eq!(iv.next, 8 * SEC);
    assert_eq!(iv.interval, 5 * SEC);
}

#[test]
fn poll_before_deadline_is_silent() {
    let mut iv = Interval::new_at(5, Dur::new(0, 5)).unwrap();
    assert_eq!(iv.poll(3), Ok(None));
    assert_eq!(iv.next, 5);
}

#[test]
fn poll_reports_at_most_one_tick_and_deadlines_advance_by_a_period() {
    let mut iv = Interval::new_at(5, Dur::new(0, 5)).unwrap();

    // Three periods have elapsed unpolled: one tick, not three.
    let t = iv.poll(17).unwrap().unwrap();
    assert_eq!(t, Tick { next_deadline: 20 });
    assert_eq!(iv.next, 20);

    // Polling again at the same instant reports nothing.
    assert_eq!(iv.poll(17), Ok(None));

    // Consecutive tick deadlines lie at least one period apart.
    let t2 = iv.poll(20).unwrap().unwrap();
    assert!(t2.next_deadline >= t.next_deadline + 5);
}

#[test]
fn poll_skip_bound_is_fatal() {
    let mut iv = Interval::new_at(0, Dur::new(0, 1)).unwrap();
    assert_eq!(iv.poll(u64::MAX), Err(IntervalError::SkipExceeded));
    // The timer itself is unchanged by the failed advance.
    assert_eq!(iv.next, 0);
}
