use concrete_driver::driver::harness::{outcome, summarize, Outcome, Summary};

fn percent(summary: &Summary) -> String {
    let total = summary.passed + summary.failed;
    format!("{:.2}", (summary.passed as f64 / total as f64) * 100.0)
}

#[test]
fn zero_passes_and_anything_else_fails() {
    assert_eq!(outcome(Some(0)), Outcome::Passed);
    assert_eq!(outcome(Some(1)), Outcome::Failed);
    assert_eq!(outcome(Some(-1)), Outcome::Failed);
    assert_eq!(outcome(None), Outcome::Missing);
}

#[test]
fn one_test_that_returns_zero() {
    let summary = summarize(&vec![Some(0)]);
    assert_eq!(summary, Summary { passed: 1, failed: 0 });
    assert!(summary.ok());
    assert_eq!(
        format!("{} passed; {} failed; {}%", summary.passed, summary.failed, percent(&summary)),
        "1 passed; 0 failed; 100.00%"
    );
}

#[test]
fn a_missing_symbol_fails_and_the_run_goes_on() {
    let summary = summarize(&vec![Some(0), None, Some(3), Some(0)]);
    assert_eq!(summary, Summary { passed: 2, failed: 2 });
    assert!(!summary.ok());
    assert_eq!(percent(&summary), "50.00");
}

#[test]
fn every_test_is_counted_once() {
    let statuses = vec![Some(1), None, Some(0), Some(0), Some(0), Some(7), None];
    let summary = summarize(&statuses);
    assert_eq!(summary.passed, 3);
    assert_eq!(summary.failed, 4);
    assert_eq!(summary.passed + summary.failed, statuses.len());
}

#[test]
fn a_run_without_tests_is_in_order() {
    let summary = summarize(&vec![]);
    assert_eq!(summary, Summary { passed: 0, failed: 0 });
    assert!(summary.ok());
}
