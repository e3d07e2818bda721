use welle::outcome::{RequestOutcome, TestOutcome, TransportError};
use welle::report::{classify, collect_durations, total_duration, Report};
use welle::status::StatusCode;

const MS: u64 = 1_000_000;

fn answered(code: u16, duration: u64) -> RequestOutcome {
    RequestOutcome::new(Ok(StatusCode::from_u16(code).unwrap()), duration, 0)
}

fn failed(duration: u64) -> RequestOutcome {
    RequestOutcome::new(
        Err(TransportError { description: String::from("connection refused") }),
        duration,
        0,
    )
}

fn mixed_run(order: &[usize]) -> TestOutcome {
    let make = |which: usize| match which {
        0 => answered(200, 40 * MS),
        1 => answered(503, 10 * MS),
        2 => failed(30 * MS),
        3 => answered(404, 20 * MS),
        4 => answered(500, 50 * MS),
        _ => unreachable!(),
    };
    TestOutcome::new(order.iter().map(|which| make(*which)).collect(), 70 * MS, 2)
}

#[test]
fn test_outcome_keeps_what_it_is_given() {
    let run = TestOutcome::new(vec![answered(200, 5), failed(6)], 11, 3);
    assert_eq!(run.request_outcomes.len(), 2);
    assert_eq!(run.request_outcomes[0].duration, 5);
    assert_eq!(run.request_outcomes[1].duration, 6);
    assert_eq!(run.total_time, 11);
    assert_eq!(run.concurrent_count, 3);
}

#[test]
fn five_quick_successes_at_full_concurrency() {
    let outcomes = vec![
        answered(200, 1_000),
        answered(200, 1_002),
        answered(200, 1_001),
        answered(200, 1_003),
        answered(200, 1_001),
    ];
    let report = TestOutcome::new(outcomes, 1_100, 5).report();
    assert_eq!(report.total_requests, 5);
    assert_eq!(report.concurrent_count, 5);
    assert_eq!(report.ok_count, 5);
    assert_eq!(report.server_error_count, 0);
    assert_eq!(report.transport_error_count, 0);
    let percentiles = [
        report.p50,
        report.p66,
        report.p75,
        report.p80,
        report.p90,
        report.p95,
        report.p99,
        report.longest,
    ];
    for value in percentiles {
        assert!(value >= 1_000 && value <= 1_003, "{}", value);
    }
    assert_eq!(report.longest, 1_003);
}

#[test]
fn report_of_a_mixed_run_has_these_figures() {
    let report = mixed_run(&[0, 1, 2, 3, 4]).report();
    let expected = Report {
        total_requests: 5,
        concurrent_count: 2,
        ok_count: 4,
        server_error_count: 2,
        transport_error_count: 1,
        total_time: 70 * MS,
        avg_time_taken: 14 * MS,
        total_time_in_flight: 150 * MS as u128,
        avg_time_in_flight: 30 * MS as u128,
        // ascending: 10, 20, 30, 40, 50; positions are percent / 100 * 4
        p50: 30 * MS,
        // 2.64 rounds up to 3: the mean of 40 and 50
        p66: 45 * MS,
        p75: 40 * MS,
        // 3.2 and above round up to 4, the last index
        p80: 50 * MS,
        p90: 50 * MS,
        p95: 50 * MS,
        p99: 50 * MS,
        longest: 50 * MS,
    };
    assert_eq!(report, expected);
}

#[test]
fn report_does_not_depend_on_completion_order() {
    let reference = mixed_run(&[0, 1, 2, 3, 4]).report();
    let orders: [[usize; 5]; 5] =
        [[4, 3, 2, 1, 0], [1, 0, 3, 2, 4], [2, 4, 0, 1, 3], [3, 1, 4, 0, 2], [0, 2, 4, 1, 3]];
    for order in orders {
        assert_eq!(mixed_run(&order).report(), reference, "order {:?}", order);
    }
}

#[test]
fn reporting_twice_gives_the_same_figures() {
    let run = mixed_run(&[3, 1, 4, 0, 2]);
    let first = run.report();
    let second = run.report();
    assert_eq!(first, second);
    // Reporting leaves the run as it was.
    let durations: Vec<u64> = run.request_outcomes.iter().map(|o| o.duration).collect();
    assert_eq!(durations, vec![20 * MS, 10 * MS, 50 * MS, 40 * MS, 30 * MS]);
}

#[test]
fn percentiles_are_taken_of_the_durations_in_ascending_order() {
    let run = TestOutcome::new(
        vec![answered(200, 40 * MS), answered(200, 10 * MS), answered(200, 30 * MS), answered(200, 20 * MS)],
        100 * MS,
        1,
    );
    let report = run.report();
    assert_eq!(report.p50, 35 * MS);
    assert_eq!(report.p66, 35 * MS);
    assert_eq!(report.p75, 40 * MS);
    assert_eq!(report.longest, 40 * MS);
}

#[test]
fn averages_round_down_to_the_nanosecond() {
    let run = TestOutcome::new(vec![answered(200, 3), answered(200, 3), answered(200, 4)], 11, 1);
    let report = run.report();
    assert_eq!(report.avg_time_taken, 3);
    assert_eq!(report.total_time_in_flight, 10);
    assert_eq!(report.avg_time_in_flight, 3);
}

#[test]
fn report_of_a_single_request() {
    let report = TestOutcome::new(vec![answered(502, 123)], 200, 1).report();
    assert_eq!(report.total_requests, 1);
    assert_eq!(report.ok_count, 1);
    assert_eq!(report.server_error_count, 1);
    assert_eq!(report.transport_error_count, 0);
    assert_eq!(report.avg_time_taken, 200);
    assert_eq!(report.total_time_in_flight, 123);
    assert_eq!(report.avg_time_in_flight, 123);
    for value in [report.p50, report.p66, report.p75, report.p80, report.p90, report.p95, report.p99] {
        assert_eq!(value, 123);
    }
    assert_eq!(report.longest, 123);
}

#[test]
fn report_of_a_run_in_which_every_request_failed() {
    let report = TestOutcome::new(vec![failed(5), failed(7)], 12, 1).report();
    assert_eq!(report.total_requests, 2);
    assert_eq!(report.ok_count, 0);
    assert_eq!(report.server_error_count, 0);
    assert_eq!(report.transport_error_count, 2);
    assert_eq!(report.longest, 7);
}

#[test]
fn time_in_flight_may_exceed_sixty_four_bits() {
    let run = TestOutcome::new(
        vec![answered(200, u64::MAX), answered(200, u64::MAX), answered(200, u64::MAX)],
        u64::MAX,
        3,
    );
    let report = run.report();
    assert_eq!(report.total_time_in_flight, 3 * (u64::MAX as u128));
    assert_eq!(report.avg_time_in_flight, u64::MAX as u128);
    assert_eq!(report.avg_time_taken, u64::MAX / 3);
    assert_eq!(report.longest, u64::MAX);
}

#[test]
fn classify_counts_each_class() {
    let outcomes = vec![answered(200, 1), answered(503, 1), failed(1), answered(599, 1), failed(1), answered(499, 1)];
    assert_eq!(classify(&outcomes), (4, 2, 2));
    assert_eq!(classify(&Vec::new()), (0, 0, 0));
}

#[test]
fn durations_are_collected_in_order_and_summed() {
    let outcomes = vec![answered(200, 9), failed(2), answered(500, 5)];
    let durations = collect_durations(&outcomes);
    assert_eq!(durations, vec![9, 2, 5]);
    assert_eq!(total_duration(&durations), 16);
    assert_eq!(total_duration(&Vec::new()), 0);
}
