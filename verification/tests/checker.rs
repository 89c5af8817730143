use std::cell::Cell;

use website_checker::config::CheckConfig;
use website_checker::outcome::AttemptOutcome;
use website_checker::partition::partition;
use website_checker::pool::{run_in_turn, run_worker};
use website_checker::report::summary_line;
use website_checker::retry::{check_website, RetryExecutor, RetryStep};

fn urls(names: &[&str]) -> Vec<String> {
    names.iter().map(|n| n.to_string()).collect()
}

#[test]
fn scenario_three_reachable_two_workers() {
    let endpoints = urls(&["https://a.example", "https://b.example", "https://c.example"]);
    let config = CheckConfig::new(2, 5, 0).unwrap();
    let probe = |_url: &str, _timeout: u64| AttemptOutcome::Success(200);
    let results = run_in_turn(&endpoints, &config, &probe);
    assert_eq!(results.len(), 3);
    for (result, url) in results.iter().zip(endpoints.iter()) {
        assert_eq!(&result.endpoint, url);
        assert_eq!(result.outcome, Ok(200));
        assert!(result.is_ok());
    }
    let line = summary_line(results.len(), config.worker_count());
    assert_eq!(line, "Finished checking 3 websites with 2 workers.");
    assert!(line.contains("3 websites"));
    assert!(line.contains("2 workers"));
}

#[test]
fn scenario_always_failing_endpoint_is_tried_three_times() {
    let attempts = Cell::new(0u32);
    let probe = |_url: &str, _timeout: u64| {
        attempts.set(attempts.get() + 1);
        AttemptOutcome::Failure("connection refused".to_string())
    };
    let result = check_website("https://down.example", 5, 2, &probe);
    assert_eq!(attempts.get(), 3);
    assert_eq!(result.endpoint, "https://down.example");
    assert_eq!(result.outcome, Err("Error after 2 retries: connection refused".to_string()));
    assert!(result.outcome.clone().unwrap_err().contains("2 retries"));
    assert!(!result.is_ok());
}

#[test]
fn scenario_more_workers_than_endpoints() {
    let endpoints = urls(&["https://a.example", "https://b.example"]);
    let config = CheckConfig::new(5, 5, 2).unwrap();
    let chunks = partition(&endpoints, &config);
    assert_eq!(chunks.len(), 2);
    assert_eq!(chunks[0], urls(&["https://a.example"]));
    assert_eq!(chunks[1], urls(&["https://b.example"]));
    let probe = |_url: &str, _timeout: u64| AttemptOutcome::Success(204);
    let results = run_in_turn(&endpoints, &config, &probe);
    assert_eq!(results.len(), 2);
}

#[test]
fn scenario_no_endpoints() {
    let endpoints: Vec<String> = Vec::new();
    let config = CheckConfig::new(10, 5, 2).unwrap();
    let calls = Cell::new(0u32);
    let probe = |_url: &str, _timeout: u64| {
        calls.set(calls.get() + 1);
        AttemptOutcome::Success(200)
    };
    assert_eq!(partition(&endpoints, &config).len(), 0);
    let results = run_in_turn(&endpoints, &config, &probe);
    assert!(results.is_empty());
    assert_eq!(calls.get(), 0);
    let line = summary_line(results.len(), config.worker_count());
    assert_eq!(line, "Finished checking 0 websites with 10 workers.");
    assert!(line.contains("0 websites"));
}

#[test]
fn success_stops_the_retries() {
    let attempts = Cell::new(0u32);
    let probe = |_url: &str, _timeout: u64| {
        attempts.set(attempts.get() + 1);
        if attempts.get() < 3 {
            AttemptOutcome::Failure("timed out".to_string())
        } else {
            AttemptOutcome::Success(503)
        }
    };
    let result = check_website("https://slow.example", 1, 5, &probe);
    assert_eq!(attempts.get(), 3);
    assert_eq!(result.outcome, Ok(503));
}

#[test]
fn success_on_the_last_allowed_attempt() {
    let attempts = Cell::new(0u32);
    let probe = |_url: &str, _timeout: u64| {
        attempts.set(attempts.get() + 1);
        if attempts.get() <= 2 {
            AttemptOutcome::Failure("reset".to_string())
        } else {
            AttemptOutcome::Success(200)
        }
    };
    let result = check_website("https://late.example", 1, 2, &probe);
    assert_eq!(attempts.get(), 3);
    assert_eq!(result.outcome, Ok(200));
}

#[test]
fn no_retries_means_one_attempt() {
    let attempts = Cell::new(0u32);
    let probe = |_url: &str, _timeout: u64| {
        attempts.set(attempts.get() + 1);
        AttemptOutcome::Failure("dns".to_string())
    };
    let result = check_website("https://none.example", 1, 0, &probe);
    assert_eq!(attempts.get(), 1);
    assert_eq!(result.outcome, Err("Error after 0 retries: dns".to_string()));
}

#[test]
fn error_status_codes_count_as_reachable() {
    let probe = |_url: &str, _timeout: u64| AttemptOutcome::Success(500);
    let result = check_website("https://broken.example", 1, 2, &probe);
    assert_eq!(result.outcome, Ok(500));
}

#[test]
fn probe_receives_the_endpoint_and_the_timeout() {
    let seen = Cell::new(false);
    let probe = |url: &str, timeout: u64| {
        seen.set(url == "https://x.example" && timeout == 7);
        AttemptOutcome::Success(200)
    };
    check_website("https://x.example", 7, 2, &probe);
    assert!(seen.get());
}

#[test]
fn record_carries_a_recent_timestamp() {
    let probe = |_url: &str, _timeout: u64| AttemptOutcome::Success(200);
    let result = check_website("https://x.example", 1, 0, &probe);
    assert!(result.observed_at.secs > 1_600_000_000);
    assert!(result.observed_at.nanos < 2_000_000_000);
    assert!(result.elapsed_millis < 10_000);
}

#[test]
fn executor_steps() {
    let mut executor = RetryExecutor::new(1);
    let first = executor.on_outcome(AttemptOutcome::Failure("a".to_string()));
    assert!(matches!(first, RetryStep::Retry));
    let second = executor.on_outcome(AttemptOutcome::Failure("b".to_string()));
    match second {
        RetryStep::Done(Err(message)) => assert_eq!(message, "Error after 1 retries: b"),
        _ => panic!("the budget is spent"),
    }
    let mut fresh = RetryExecutor::new(3);
    match fresh.on_outcome(AttemptOutcome::Success(301)) {
        RetryStep::Done(Ok(code)) => assert_eq!(code, 301),
        _ => panic!("a success is terminal"),
    }
}

#[test]
fn executor_with_the_largest_budget() {
    let mut executor = RetryExecutor::new(u32::MAX);
    for _ in 0..1000 {
        let step = executor.on_outcome(AttemptOutcome::Failure("x".to_string()));
        assert!(matches!(step, RetryStep::Retry));
    }
}

#[test]
fn worker_keeps_the_order_of_its_chunk() {
    let chunk = urls(&["u1", "u2", "u3"]);
    let config = CheckConfig::new(1, 3, 1).unwrap();
    let probe = |url: &str, _timeout: u64| {
        if url == "u2" {
            AttemptOutcome::Failure("boom".to_string())
        } else {
            AttemptOutcome::Success(200)
        }
    };
    let results = run_worker(&chunk, &config, &probe);
    assert_eq!(results.len(), 3);
    assert_eq!(results[0].endpoint, "u1");
    assert_eq!(results[1].endpoint, "u2");
    assert_eq!(results[2].endpoint, "u3");
    assert_eq!(results[0].outcome, Ok(200));
    assert_eq!(results[1].outcome, Err("Error after 1 retries: boom".to_string()));
    assert_eq!(results[2].outcome, Ok(200));
}

#[test]
fn one_failing_endpoint_does_not_touch_the_others() {
    let endpoints = urls(&["a", "bad", "c", "d", "e"]);
    let config = CheckConfig::new(2, 3, 2).unwrap();
    let calls = Cell::new(0u32);
    let probe = |url: &str, _timeout: u64| {
        calls.set(calls.get() + 1);
        if url == "bad" {
            AttemptOutcome::Failure("refused".to_string())
        } else {
            AttemptOutcome::Success(200)
        }
    };
    let results = run_in_turn(&endpoints, &config, &probe);
    assert_eq!(results.len(), 5);
    assert_eq!(calls.get(), 4 + 3);
    let names: Vec<&str> = results.iter().map(|r| r.endpoint.as_str()).collect();
    assert_eq!(names, vec!["a", "bad", "c", "d", "e"]);
    assert_eq!(results.iter().filter(|r| r.is_ok()).count(), 4);
}

#[test]
fn same_responders_same_classification() {
    let endpoints = urls(&["up", "down", "up2"]);
    let config = CheckConfig::new(3, 3, 1).unwrap();
    let probe = |url: &str, _timeout: u64| {
        if url == "down" {
            AttemptOutcome::Failure("refused".to_string())
        } else {
            AttemptOutcome::Success(200)
        }
    };
    let first: Vec<bool> = run_in_turn(&endpoints, &config, &probe).iter().map(|r| r.is_ok()).collect();
    let second: Vec<bool> = run_in_turn(&endpoints, &config, &probe).iter().map(|r| r.is_ok()).collect();
    assert_eq!(first, second);
    assert_eq!(first, vec![true, false, true]);
}

#[test]
fn duplicate_endpoints_are_each_checked() {
    let endpoints = urls(&["same", "same", "other"]);
    let config = CheckConfig::new(2, 3, 0).unwrap();
    let probe = |_url: &str, _timeout: u64| AttemptOutcome::Success(200);
    let results = run_in_turn(&endpoints, &config, &probe);
    let names: Vec<&str> = results.iter().map(|r| r.endpoint.as_str()).collect();
    assert_eq!(names, vec!["same", "same", "other"]);
}
