use armory::retry::RetryPolicy;

#[test]
fn always_failing_publish_uses_exactly_max_attempts() {
    let p = RetryPolicy::standard();
    let outcomes = vec![false; 10];
    let (attempts, ok) = p.attempts_taken(&outcomes);
    assert_eq!(attempts, 6);
    assert!(!ok);
}

#[test]
fn stops_at_first_success() {
    let p = RetryPolicy::standard();
    assert_eq!(p.attempts_taken(&vec![true, false, false, false, false, false]), (1, true));
    assert_eq!(p.attempts_taken(&vec![false, false, true, false, false, false]), (3, true));
    assert_eq!(p.attempts_taken(&vec![false, false, false, false, false, true]), (6, true));
}

#[test]
fn success_after_budget_is_still_fatal() {
    let p = RetryPolicy::standard();
    let mut outcomes = vec![false; 7];
    outcomes[6] = true; // attempt 7 would succeed, but the budget is 6
    assert_eq!(p.attempts_taken(&outcomes), (6, false));
}

#[test]
fn backoff_follows_fibonacci_from_base() {
    let p = RetryPolicy::standard();
    assert_eq!(p.backoff_millis(1), 4000);
    assert_eq!(p.backoff_millis(2), 4000);
    assert_eq!(p.backoff_millis(3), 8000);
    assert_eq!(p.backoff_millis(4), 12000);
    assert_eq!(p.backoff_millis(5), 20000);
    assert_eq!(p.backoff_millis(6), 32000);
}

#[test]
fn retry_allowed_only_below_budget() {
    let p = RetryPolicy::standard();
    assert!(p.should_retry(1));
    assert!(p.should_retry(5));
    assert!(!p.should_retry(6));
    assert!(!p.should_retry(7));
}
