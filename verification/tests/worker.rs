use zero2prod::payload::{BodyData, Content};
use zero2prod::publish::publish_newsletter;
use zero2prod::store::Store;
use zero2prod::worker::{
    classify_send, compute_next_attempt, ClaimOutcome, SendOutcome, TransportError, MAX_RETRIES,
};

fn newsletter_body() -> BodyData {
    BodyData {
        title: "Newsletter title".to_string(),
        content: Content {
            html: "<p>Newsletter body as HTML</p>".to_string(),
            text: "Newsletter body as plain text".to_string(),
        },
    }
}

fn store_with_one_task() -> Store {
    let mut store = Store::new();
    publish_newsletter(
        &mut store,
        Some(7),
        &"key-worker".to_string(),
        &newsletter_body(),
        &vec!["ursula@example.com".to_string()],
        0,
        true,
    )
    .unwrap();
    store
}

#[test]
fn backoff_is_exponential_and_capped() {
    assert_eq!(compute_next_attempt(100, 0), 101);
    assert_eq!(compute_next_attempt(100, 1), 102);
    assert_eq!(compute_next_attempt(100, 2), 104);
    assert_eq!(compute_next_attempt(100, 5), 132);
    // the exponent saturates
    assert_eq!(compute_next_attempt(100, 16), 100 + 65536);
    assert_eq!(compute_next_attempt(100, 40), 100 + 65536);
    // the instant saturates instead of wrapping
    assert_eq!(compute_next_attempt(u64::MAX - 1, 0), u64::MAX);
}

#[test]
fn transport_outcomes_are_classified() {
    assert_eq!(classify_send(&Ok(())), SendOutcome::Delivered);
    assert_eq!(
        classify_send(&Err(TransportError::Timeout)),
        SendOutcome::TransientFailure
    );
    assert_eq!(
        classify_send(&Err(TransportError::Status(502))),
        SendOutcome::TransientFailure
    );
    assert_eq!(
        classify_send(&Err(TransportError::Status(404))),
        SendOutcome::PermanentFailure
    );
    assert_eq!(
        classify_send(&Err(TransportError::InvalidRecipient)),
        SendOutcome::PermanentFailure
    );
}

#[test]
fn transient_failure_backs_off_and_retries() {
    let mut store = store_with_one_task();

    let task = match store.claim_one(0) {
        ClaimOutcome::Claimed(task) => task,
        ClaimOutcome::Empty => panic!("expected an eligible task"),
    };
    assert!(task.claimed);
    assert_eq!(task.retry_count, 0);

    store.resolve(task.task_id, SendOutcome::TransientFailure, 0);
    assert_eq!(store.tasks.len(), 1);
    assert_eq!(store.tasks[0].retry_count, 1);
    assert!(!store.tasks[0].claimed);
    assert_eq!(store.tasks[0].next_attempt_at, 2);

    // not due yet
    assert!(matches!(store.claim_one(1), ClaimOutcome::Empty));
    // due again after the backoff
    match store.claim_one(2) {
        ClaimOutcome::Claimed(again) => {
            store.resolve(again.task_id, SendOutcome::Delivered, 2);
        }
        ClaimOutcome::Empty => panic!("expected the task to be due again"),
    }
    assert!(store.tasks.is_empty());
}

#[test]
fn permanent_failure_drops_the_task() {
    let mut store = store_with_one_task();
    let task = match store.claim_one(0) {
        ClaimOutcome::Claimed(task) => task,
        ClaimOutcome::Empty => panic!("expected an eligible task"),
    };
    store.resolve(task.task_id, SendOutcome::PermanentFailure, 0);
    assert!(store.tasks.is_empty());
    assert_eq!(store.drain_queue(u64::MAX), 0);
}

#[test]
fn retry_budget_exhaustion_drops_the_task() {
    let mut store = store_with_one_task();
    let mut attempts: u32 = 0;
    let mut now: u64 = 0;
    while !store.tasks.is_empty() {
        now = store.tasks[0].next_attempt_at;
        let task = match store.claim_one(now) {
            ClaimOutcome::Claimed(task) => task,
            ClaimOutcome::Empty => panic!("expected an eligible task"),
        };
        store.resolve(task.task_id, SendOutcome::TransientFailure, now);
        attempts += 1;
    }
    // one first attempt, MAX_RETRIES retries, then dead-lettered
    assert_eq!(attempts, MAX_RETRIES + 1);
}

#[test]
fn claimed_tasks_are_skipped_not_blocked_on() {
    let mut store = Store::new();
    publish_newsletter(
        &mut store,
        Some(7),
        &"key-two-workers".to_string(),
        &newsletter_body(),
        &vec![
            "ursula@example.com".to_string(),
            "gustav@example.com".to_string(),
        ],
        0,
        true,
    )
    .unwrap();

    // two workers claim concurrently: each gets its own task
    let first = match store.claim_one(0) {
        ClaimOutcome::Claimed(task) => task,
        ClaimOutcome::Empty => panic!("expected a first task"),
    };
    let second = match store.claim_one(0) {
        ClaimOutcome::Claimed(task) => task,
        ClaimOutcome::Empty => panic!("expected a second task"),
    };
    assert_ne!(first.task_id, second.task_id);
    assert_ne!(first.subscriber_email, second.subscriber_email);

    // everything is claimed: a third claimant sees an empty queue
    assert!(matches!(store.claim_one(0), ClaimOutcome::Empty));

    store.resolve(first.task_id, SendOutcome::Delivered, 0);
    store.resolve(second.task_id, SendOutcome::Delivered, 0);
    assert!(store.tasks.is_empty());
}

#[test]
fn drain_skips_tasks_that_are_not_due() {
    let mut store = store_with_one_task();
    // make the task fail once so its next attempt lies in the future
    let task = match store.claim_one(0) {
        ClaimOutcome::Claimed(task) => task,
        ClaimOutcome::Empty => panic!("expected an eligible task"),
    };
    store.resolve(task.task_id, SendOutcome::TransientFailure, 0);

    assert_eq!(store.drain_queue(0), 0);
    assert_eq!(store.tasks.len(), 1);
    assert_eq!(store.drain_queue(2), 1);
    assert!(store.tasks.is_empty());
}
