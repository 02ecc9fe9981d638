use concurrent_scraper::metrics::Metrics;
use concurrent_scraper::text::decimal;
use std::time::Duration;

#[test]
fn test_metrics_recording() {
    let mut metrics = Metrics::new();
    metrics.start_operation();

    metrics.record_success("http://example.com".to_string(), Duration::from_secs(1), 1000);
    metrics.record_failure("http://failed.com".to_string(), Duration::from_secs(2));

    assert_eq!(metrics.successful_requests(), 1);
    assert_eq!(metrics.failed_requests(), 1);
    assert_eq!(metrics.total_bytes(), 1000);
}

#[test]
fn summary_reports_counts_average_and_bytes() {
    let mut metrics = Metrics::new();
    metrics.start_operation();
    metrics.record_success("http://example.com".to_string(), Duration::from_secs(1), 1000);
    metrics.record_failure("http://failed.com".to_string(), Duration::from_secs(2));

    assert_eq!(
        metrics.get_summary(),
        "Performance Summary:\nTotal Requests: 2\nSuccessful: 1\nFailed: 1\nAverage Duration: 1.50s\nTotal Data: 1000 bytes"
    );
}

#[test]
fn summary_of_an_empty_recorder_has_a_zero_average() {
    let metrics = Metrics::new();
    assert_eq!(
        metrics.get_summary(),
        "Performance Summary:\nTotal Requests: 0\nSuccessful: 0\nFailed: 0\nAverage Duration: 0.00ns\nTotal Data: 0 bytes"
    );
}

#[test]
fn summary_is_the_same_when_read_twice() {
    let mut metrics = Metrics::new();
    metrics.record_success("a".to_string(), Duration::from_millis(250), 10);
    metrics.record_success("b".to_string(), Duration::from_millis(750), 20);
    let first = metrics.get_summary();
    let second = metrics.get_summary();
    assert_eq!(first, second);
    assert_eq!(
        first,
        "Performance Summary:\nTotal Requests: 2\nSuccessful: 2\nFailed: 0\nAverage Duration: 500.00ms\nTotal Data: 30 bytes"
    );
}

#[test]
fn a_repeated_key_keeps_the_last_duration_and_both_counts() {
    let mut metrics = Metrics::new();
    metrics.record_success("same".to_string(), Duration::from_secs(10), 5);
    metrics.record_success("same".to_string(), Duration::from_secs(4), 7);

    assert_eq!(metrics.successful_requests(), 2);
    assert_eq!(metrics.total_bytes(), 12);
    // One stored duration of four seconds over two operations.
    assert_eq!(
        metrics.get_summary(),
        "Performance Summary:\nTotal Requests: 2\nSuccessful: 2\nFailed: 0\nAverage Duration: 2.00s\nTotal Data: 12 bytes"
    );
}

#[test]
fn average_keeps_the_part_below_a_second() {
    let mut metrics = Metrics::new();
    metrics.record_failure("x".to_string(), Duration::new(3, 500_000_000));
    metrics.record_failure("y".to_string(), Duration::new(0, 250_000_000));
    metrics.record_failure("z".to_string(), Duration::new(1, 0));
    // 4.75 s over three operations is 1.583333333 s.
    assert_eq!(
        metrics.get_summary(),
        "Performance Summary:\nTotal Requests: 3\nSuccessful: 0\nFailed: 3\nAverage Duration: 1.58s\nTotal Data: 0 bytes"
    );
}

#[test]
fn the_byte_total_goes_beyond_what_one_operation_can_report() {
    let mut metrics = Metrics::new();
    metrics.record_success("a".to_string(), Duration::from_secs(1), usize::MAX);
    metrics.record_success("b".to_string(), Duration::from_secs(1), 1);
    metrics.record_success("b".to_string(), Duration::from_secs(1), usize::MAX);
    assert_eq!(metrics.total_bytes(), 2 * (usize::MAX as u128) + 1);
    assert_eq!(metrics.successful_requests(), 3);
}

#[test]
fn the_average_is_the_sum_over_the_number_of_operations() {
    let mut metrics = Metrics::new();
    assert_eq!(metrics.average(), (0, 0));
    metrics.record_success("a".to_string(), Duration::new(3, 500_000_000), 1);
    assert_eq!(metrics.average(), (3, 500_000_000));
    metrics.record_failure("b".to_string(), Duration::new(0, 250_000_000));
    assert_eq!(metrics.average(), (1, 875_000_000));
    metrics.record_failure("c".to_string(), Duration::new(1, 0));
    // 4.75 s over three operations, rounded down to the nanosecond.
    assert_eq!(metrics.average(), (1, 583_333_333));
    // The key `a` is timed again: 1.25 s are stored, and four operations are counted.
    metrics.record_success("a".to_string(), Duration::new(0, 0), 1);
    assert_eq!(metrics.average(), (0, 312_500_000));
}

#[test]
fn the_average_of_the_longest_durations_does_not_overflow() {
    let mut metrics = Metrics::new();
    metrics.record_success("a".to_string(), Duration::MAX, 0);
    metrics.record_success("b".to_string(), Duration::MAX, 0);
    metrics.record_success("c".to_string(), Duration::MAX, 0);
    assert_eq!(metrics.average(), (u64::MAX, 999_999_999));
}

#[test]
fn the_report_is_built_around_the_text_of_the_average() {
    let mut metrics = Metrics::new();
    assert_eq!(
        metrics.summary_with("none"),
        "Performance Summary:\nTotal Requests: 0\nSuccessful: 0\nFailed: 0\nAverage Duration: none\nTotal Data: 0 bytes"
    );
    metrics.record_success("a".to_string(), Duration::from_secs(1), 1200);
    metrics.record_success("b".to_string(), Duration::from_secs(1), 34);
    metrics.record_failure("c".to_string(), Duration::from_secs(1));
    assert_eq!(
        metrics.summary_with("1.00s"),
        "Performance Summary:\nTotal Requests: 3\nSuccessful: 2\nFailed: 1\nAverage Duration: 1.00s\nTotal Data: 1234 bytes"
    );
    assert_eq!(
        metrics.summary_with(""),
        "Performance Summary:\nTotal Requests: 3\nSuccessful: 2\nFailed: 1\nAverage Duration: \nTotal Data: 1234 bytes"
    );
}

#[test]
fn the_start_is_marked_once_and_kept_by_recording() {
    let mut metrics = Metrics::new();
    assert!(metrics.start_time().is_none());
    metrics.record_failure("early".to_string(), Duration::from_secs(1));
    assert!(metrics.start_time().is_none());

    metrics.start_operation();
    let start = metrics.start_time();
    assert!(start.is_some());
    metrics.record_success("a".to_string(), Duration::from_secs(1), 10);
    metrics.record_failure("b".to_string(), Duration::from_secs(1));
    let _ = metrics.get_summary();
    assert_eq!(metrics.start_time(), start);
}

#[test]
fn durations_are_formatted_in_the_unit_that_fits() {
    let mut metrics = Metrics::new();
    metrics.record_success("a".to_string(), Duration::from_nanos(1_500), 0);
    assert!(metrics.get_summary().contains("Average Duration: 1.50\u{b5}s\n"));
    metrics.record_success("a".to_string(), Duration::from_nanos(84), 0);
    assert!(metrics.get_summary().contains("Average Duration: 42.00ns\n"));
}

#[test]
fn decimal_writes_numbers_without_leading_zeros() {
    assert_eq!(decimal(0), "0");
    assert_eq!(decimal(7), "7");
    assert_eq!(decimal(10), "10");
    assert_eq!(decimal(1000), "1000");
    assert_eq!(decimal(1234567890), "1234567890");
    assert_eq!(
        decimal(u128::MAX),
        "340282366920938463463374607431768211455"
    );
}

#[test]
fn a_default_recorder_has_recorded_nothing() {
    let metrics = Metrics::default();
    assert_eq!(metrics.successful_requests(), 0);
    assert_eq!(metrics.failed_requests(), 0);
    assert_eq!(metrics.total_bytes(), 0);
}

#[test]
fn a_failure_leaves_the_byte_total_as_it_was() {
    let mut metrics = Metrics::new();
    metrics.record_success("a".to_string(), Duration::from_millis(3), 40);
    metrics.record_failure("a".to_string(), Duration::from_millis(9));
    assert_eq!(metrics.total_bytes(), 40);
    assert_eq!(metrics.successful_requests(), 1);
    assert_eq!(metrics.failed_requests(), 1);
    // The key was timed twice and keeps the later duration: nine milliseconds over two operations.
    assert_eq!(
        metrics.get_summary(),
        "Performance Summary:\nTotal Requests: 2\nSuccessful: 1\nFailed: 1\nAverage Duration: 4.50ms\nTotal Data: 40 bytes"
    );
}
