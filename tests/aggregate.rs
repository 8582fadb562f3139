use drill::actions::Report;
use drill::aggregate::summarize;

fn report(name: &str, duration_ns: u64, status: u16) -> Report {
    Report { name: String::from(name), duration_ns, status }
}

#[test]
fn summary_of_five_reports() {
    let reports = vec![
        report("a", 5, 200),
        report("b", 1, 200),
        report("c", 3, 404),
        report("d", 2, 0),
        report("e", 4, 200),
    ];
    let sm = summarize(&reports).unwrap();
    assert_eq!(sm.count, 5);
    assert_eq!(sm.min_ns, 1);
    assert_eq!(sm.max_ns, 5);
    assert_eq!(sm.mean_ns, 3);
    assert_eq!(sm.p50_ns, 3);
    assert_eq!(sm.p90_ns, 5);
    assert_eq!(sm.p99_ns, 5);
    assert_eq!(sm.statuses, vec![(200, 3), (404, 1), (0, 1)]);
}

#[test]
fn summary_mean_rounds_down_and_percentiles_of_hundred() {
    let mut reports = Vec::new();
    for i in 0..100u64 {
        reports.push(report("r", 100 - i, 200));
    }
    let sm = summarize(&reports).unwrap();
    assert_eq!(sm.mean_ns, 50);
    assert_eq!(sm.p50_ns, 50);
    assert_eq!(sm.p90_ns, 90);
    assert_eq!(sm.p99_ns, 99);
    assert_eq!(sm.statuses, vec![(200, 100)]);
}

#[test]
fn summary_of_large_durations_does_not_overflow() {
    let reports = vec![report("a", u64::MAX, 1), report("b", u64::MAX - 1, 1)];
    let sm = summarize(&reports).unwrap();
    assert_eq!(sm.mean_ns, u64::MAX - 1);
    assert_eq!(sm.min_ns, u64::MAX - 1);
}

#[test]
fn summary_of_nothing_is_none() {
    assert!(summarize(&Vec::new()).is_none());
}
