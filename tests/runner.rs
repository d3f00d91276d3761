use std::cell::RefCell;

use test_wrapper::registry::{Registry, Test};
use test_wrapper::runner::{run_all, status_line, RunOutcome, TestOutput};
use test_wrapper::text::decimal_string;

// Each entry's handler is modelled by a flag that says whether it terminates abruptly.
fn entry(name: &'static str, aborts: bool) -> Test<bool> {
    Test { name, line: 1, file: "tests/runner.rs", handler: aborts }
}

fn run(registry: &Registry<bool>) -> (RunOutcome, Vec<String>) {
    let lines = RefCell::new(Vec::new());
    let outcome = run_all(registry, |t: &Test<bool>| !t.handler, |line: String| {
        lines.borrow_mut().push(line)
    });
    (outcome, lines.into_inner())
}

#[test]
fn empty_registry_is_silent_success() {
    let registry: Registry<bool> = Registry::new();
    let (outcome, lines) = run(&registry);
    assert!(lines.is_empty());
    assert!(outcome.outcomes().is_empty());
    assert_eq!(outcome.verdict(), None);
}

#[test]
fn single_passing_entry() {
    let mut registry = Registry::new();
    registry.submit(entry("adds_correctly", false));
    let (outcome, lines) = run(&registry);
    assert_eq!(lines, vec!["adds_correctly OK".to_string()]);
    assert_eq!(outcome.verdict(), None);
    assert_eq!(outcome.passed(), &vec![0usize]);
    assert!(outcome.failed().is_empty());
}

#[test]
fn pass_then_failure() {
    let mut registry = Registry::new();
    registry.submit(entry("a", false));
    registry.submit(entry("b", true));
    let (outcome, lines) = run(&registry);
    assert_eq!(lines, vec!["a OK".to_string(), "b failed".to_string()]);
    assert_eq!(outcome.verdict(), Some("1 passed, 1 failures".to_string()));
}

#[test]
fn all_entries_fail() {
    let mut registry = Registry::new();
    registry.submit(entry("x", true));
    registry.submit(entry("y", true));
    registry.submit(entry("z", true));
    let (outcome, lines) = run(&registry);
    assert_eq!(
        lines,
        vec!["x failed".to_string(), "y failed".to_string(), "z failed".to_string()]
    );
    assert_eq!(outcome.failed(), &vec![0usize, 1, 2]);
    assert_eq!(outcome.verdict(), Some("0 passed, 3 failures".to_string()));
}

#[test]
fn every_entry_runs_once_after_a_failure() {
    let mut registry = Registry::new();
    let flags = [false, true, false, true, false, false];
    let names = ["t0", "t1", "t2", "t3", "t4", "t5"];
    for k in 0..flags.len() {
        registry.submit(entry(names[k], flags[k]));
    }
    let calls = RefCell::new(Vec::new());
    let outcome = run_all(
        &registry,
        |t: &Test<bool>| {
            calls.borrow_mut().push(t.name);
            !t.handler
        },
        |_line: String| {},
    );
    assert_eq!(calls.into_inner(), names.to_vec());
    assert_eq!(outcome.passed(), &vec![0usize, 2, 4, 5]);
    assert_eq!(outcome.failed(), &vec![1usize, 3]);
    assert_eq!(outcome.passed().len() + outcome.failed().len(), registry.len());
    assert_eq!(
        outcome.outcomes(),
        &vec![
            TestOutput::Pass,
            TestOutput::Fail,
            TestOutput::Pass,
            TestOutput::Fail,
            TestOutput::Pass,
            TestOutput::Pass
        ]
    );
    assert_eq!(outcome.verdict(), Some("4 passed, 2 failures".to_string()));
}

#[test]
fn summary_counts_past_one_digit() {
    let mut outcome = RunOutcome::new();
    for _ in 0..12 {
        outcome.record(TestOutput::Pass);
    }
    for _ in 0..10 {
        outcome.record(TestOutput::Fail);
    }
    assert_eq!(outcome.verdict(), Some("12 passed, 10 failures".to_string()));
}

#[test]
fn record_keeps_visit_order() {
    let mut outcome = RunOutcome::new();
    outcome.record(TestOutput::Fail);
    outcome.record(TestOutput::Pass);
    outcome.record(TestOutput::Fail);
    assert_eq!(outcome.failed(), &vec![0usize, 2]);
    assert_eq!(outcome.passed(), &vec![1usize]);
    assert_eq!(outcome.verdict(), Some("1 passed, 2 failures".to_string()));
}

#[test]
fn classification_of_completion() {
    assert_eq!(TestOutput::classify(true), TestOutput::Pass);
    assert_eq!(TestOutput::classify(false), TestOutput::Fail);
}

#[test]
fn status_lines() {
    assert_eq!(status_line("adds_correctly", TestOutput::Pass), "adds_correctly OK");
    assert_eq!(status_line("b", TestOutput::Fail), "b failed");
    assert_eq!(status_line("", TestOutput::Pass), " OK");
}

#[test]
fn decimal_notation() {
    assert_eq!(decimal_string(0), "0");
    assert_eq!(decimal_string(7), "7");
    assert_eq!(decimal_string(10), "10");
    assert_eq!(decimal_string(1234), "1234");
    assert_eq!(decimal_string(usize::MAX), usize::MAX.to_string());
}

#[test]
fn registry_keeps_submission_order() {
    let mut registry = Registry::new();
    assert_eq!(registry.len(), 0);
    registry.submit(entry("first", false));
    registry.submit(entry("second", true));
    let names: Vec<&str> = registry.iter().iter().map(|t| t.name).collect();
    assert_eq!(names, vec!["first", "second"]);
    assert_eq!(registry.len(), 2);
}

#[test]
fn registry_reads_are_repeatable() {
    let mut registry = Registry::new();
    registry.submit(entry("one", false));
    registry.submit(entry("two", false));
    let first: Vec<&str> = registry.iter().iter().map(|t| t.name).collect();
    let second: Vec<&str> = registry.iter().iter().map(|t| t.name).collect();
    assert_eq!(first, second);
    registry.submit(entry("three", true));
    let third: Vec<&str> = registry.iter().iter().map(|t| t.name).collect();
    assert_eq!(&third[..2], &first[..]);
    assert_eq!(third[2], "three");
}
