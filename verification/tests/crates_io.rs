use gather::crates_io::{
    after_response, crate_dir_name, crate_download_url, crate_stats_url, rate_limit_wait,
    RequestPacer, ResponseAction, MAX_ATTEMPTS, RATE_LIMIT_NANOS,
};

#[test]
fn urls_of_a_crate_version() {
    assert_eq!(crate_stats_url("serde", "1.0.0"), "https://crates.io/api/v1/crates/serde/1.0.0");
    assert_eq!(
        crate_download_url("serde", "1.0.0"),
        "https://static.crates.io/crates/serde/serde-1.0.0.crate"
    );
    assert_eq!(crate_dir_name("serde", "1.0.0"), "serde-1.0.0");
}

#[test]
fn requests_are_spaced_by_a_second() {
    assert_eq!(rate_limit_wait(None), 0);
    assert_eq!(rate_limit_wait(Some(0)), RATE_LIMIT_NANOS);
    assert_eq!(rate_limit_wait(Some(250_000_000)), 750_000_000);
    assert_eq!(rate_limit_wait(Some(RATE_LIMIT_NANOS)), 0);
    assert_eq!(rate_limit_wait(Some(u64::MAX)), 0);
}

#[test]
fn failed_requests_are_tried_five_times() {
    assert_eq!(after_response(1, true), ResponseAction::Accept);
    assert_eq!(after_response(5, true), ResponseAction::Accept);
    assert_eq!(after_response(1, false), ResponseAction::ResetAndRetry { next_attempt: 2 });
    assert_eq!(after_response(4, false), ResponseAction::ResetAndRetry { next_attempt: 5 });
    assert_eq!(after_response(5, false), ResponseAction::ResetAndGiveUp);
    let mut attempt = 1;
    let mut sent = 0;
    loop {
        sent += 1;
        match after_response(attempt, false) {
            ResponseAction::ResetAndRetry { next_attempt } => attempt = next_attempt,
            ResponseAction::ResetAndGiveUp => break,
            ResponseAction::Accept => unreachable!(),
        }
    }
    assert_eq!(sent, MAX_ATTEMPTS);
}

#[test]
fn pacer_keeps_requests_a_second_apart() {
    let mut pacer = RequestPacer::new();
    assert_eq!(pacer.wait_before_request(5), 0);
    pacer.request_answered(100);
    let now = 400_000_100;
    let wait = pacer.wait_before_request(now);
    assert_eq!(wait, 600_000_000);
    assert!(now + wait >= 100 + RATE_LIMIT_NANOS);
    // The last request is forgotten once it has been waited for.
    assert_eq!(pacer.wait_before_request(now), 0);
    pacer.request_answered(2 * RATE_LIMIT_NANOS);
    assert_eq!(pacer.wait_before_request(5 * RATE_LIMIT_NANOS), 0);
}
