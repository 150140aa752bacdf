use telemetry::{RetryPolicy, StoreFailure, WriteStep};

fn policy() -> RetryPolicy {
    RetryPolicy { max_retries: 3, base_delay_ms: 100, max_delay_ms: 250 }
}

#[test]
fn backoff_doubles_then_caps() {
    let p = policy();
    assert_eq!(p.backoff(0), 100);
    assert_eq!(p.backoff(1), 200);
    assert_eq!(p.backoff(2), 250);
    assert_eq!(p.backoff(40), 250);
}

#[test]
fn backoff_base_above_cap() {
    let p = RetryPolicy { max_retries: 1, base_delay_ms: 900, max_delay_ms: 500 };
    assert_eq!(p.backoff(0), 500);
}

#[test]
fn backoff_at_largest_delay() {
    let p = RetryPolicy { max_retries: 1, base_delay_ms: u64::MAX / 2 + 1, max_delay_ms: u64::MAX };
    assert_eq!(p.backoff(0), u64::MAX / 2 + 1);
    assert_eq!(p.backoff(1), u64::MAX);
}

#[test]
fn next_step_outcomes() {
    let p = policy();
    assert_eq!(p.next_step(0, Ok(())), WriteStep::Done);
    assert_eq!(p.next_step(0, Err(StoreFailure::Persistent)), WriteStep::Rejected);
    assert_eq!(p.next_step(0, Err(StoreFailure::Transient)), WriteStep::RetryAfter(100));
    assert_eq!(p.next_step(2, Err(StoreFailure::Transient)), WriteStep::RetryAfter(250));
    assert_eq!(p.next_step(3, Err(StoreFailure::Transient)), WriteStep::Rejected);
}
