use zero2prod::errors::PublishError;
use zero2prod::payload::{BodyData, Content};
use zero2prod::publish::publish_newsletter;
use zero2prod::response::error_response;
use zero2prod::store::Store;
use zero2prod::subscribers::{get_confirmed_subscribers, Directory, Subscription};

fn newsletter_body() -> BodyData {
    BodyData {
        title: "Newsletter title".to_string(),
        content: Content {
            html: "<p>Newsletter body as HTML</p>".to_string(),
            text: "Newsletter body as plain text".to_string(),
        },
    }
}

fn directory_with(subscriptions: Vec<Subscription>) -> Directory {
    Directory { subscriptions, tokens: Vec::new(), users: Vec::new() }
}

fn confirmed(id: u128, email: &str) -> Subscription {
    Subscription { subscriber_id: id, email: email.to_string(), confirmed: true }
}

fn unconfirmed(id: u128, email: &str) -> Subscription {
    Subscription { subscriber_id: id, email: email.to_string(), confirmed: false }
}

#[test]
fn newsletters_are_delivered_to_confirmed_subscribers() {
    let directory = directory_with(vec![confirmed(1, "ursula@example.com")]);
    let subscribers = get_confirmed_subscribers(&directory);
    let mut store = Store::new();

    let response = publish_newsletter(
        &mut store,
        Some(7),
        &"key-delivered".to_string(),
        &newsletter_body(),
        &subscribers,
        0,
        true,
    )
    .unwrap();

    assert_eq!(response.status, 303);
    assert_eq!(response.location.as_deref(), Some("/admin/newsletters"));
    assert_eq!(
        response.body,
        "<p><i>The newsletter issue has been published!</i></p>"
    );
    assert_eq!(store.issues.len(), 1);
    assert_eq!(store.tasks.len(), 1);
    assert_eq!(store.tasks[0].subscriber_email, "ursula@example.com");

    let sent = store.drain_queue(0);
    assert_eq!(sent, 1);
    assert!(store.tasks.is_empty());
}

#[test]
fn newsletters_are_not_delivered_to_unconfirmed_subscribers() {
    let directory = directory_with(vec![unconfirmed(1, "pending@example.com")]);
    let subscribers = get_confirmed_subscribers(&directory);
    assert!(subscribers.is_empty());
    let mut store = Store::new();

    let response = publish_newsletter(
        &mut store,
        Some(7),
        &"key-unconfirmed".to_string(),
        &newsletter_body(),
        &subscribers,
        0,
        true,
    )
    .unwrap();

    assert_eq!(response.status, 303);
    assert_eq!(
        response.body,
        "<p><i>The newsletter issue has been published!</i></p>"
    );
    assert_eq!(store.tasks.len(), 0);
    let sent = store.drain_queue(0);
    assert_eq!(sent, 0);
}

#[test]
fn newsletter_creating_is_idempotent() {
    let directory = directory_with(vec![confirmed(1, "ursula@example.com")]);
    let subscribers = get_confirmed_subscribers(&directory);
    let mut store = Store::new();
    let key = "key-idempotent".to_string();

    let first = publish_newsletter(
        &mut store,
        Some(7),
        &key,
        &newsletter_body(),
        &subscribers,
        0,
        true,
    )
    .unwrap();
    let second = publish_newsletter(
        &mut store,
        Some(7),
        &key,
        &newsletter_body(),
        &subscribers,
        0,
        true,
    )
    .unwrap();

    assert_eq!(first.status, second.status);
    assert_eq!(first.body, second.body);
    assert_eq!(first.location, second.location);
    assert_eq!(store.issues.len(), 1);
    assert_eq!(store.tasks.len(), 1);

    // one email per confirmed subscriber in total, not one per submission
    let sent = store.drain_queue(0);
    assert_eq!(sent, 1);
}

#[test]
fn concurrent_form_submission_is_handled_gracefully() {
    // two duplicated submissions serialize through the store's row lock on
    // the reservation record; the later one replays the first response
    let directory = directory_with(vec![confirmed(1, "ursula@example.com")]);
    let subscribers = get_confirmed_subscribers(&directory);
    let mut store = Store::new();
    let key = "key-concurrent".to_string();

    let response1 = publish_newsletter(
        &mut store,
        Some(7),
        &key,
        &newsletter_body(),
        &subscribers,
        0,
        true,
    )
    .unwrap();
    let response2 = publish_newsletter(
        &mut store,
        Some(7),
        &key,
        &newsletter_body(),
        &subscribers,
        0,
        true,
    )
    .unwrap();

    assert_eq!(response1.status, response2.status);
    assert_eq!(response1.body, response2.body);
    assert_eq!(store.drain_queue(0), 1);
}

#[test]
fn you_must_be_logged_in_to_publish_a_newsletter() {
    let mut store = Store::new();
    let result = publish_newsletter(
        &mut store,
        None,
        &"key-anonymous".to_string(),
        &newsletter_body(),
        &Vec::new(),
        0,
        true,
    );

    let error = result.unwrap_err();
    assert_eq!(error, PublishError::Unauthenticated);
    let challenge = error_response(&error);
    assert_eq!(challenge.status, 303);
    assert_eq!(challenge.location.as_deref(), Some("/login"));
    assert!(store.records.is_empty());
    assert!(store.issues.is_empty());
    assert!(store.tasks.is_empty());
}

#[test]
fn invalid_payload_creates_no_reservation() {
    let mut store = Store::new();
    let invalid = BodyData {
        title: String::new(),
        content: Content {
            html: "<p>Newsletter body as HTML</p>".to_string(),
            text: "Newsletter body as plain text".to_string(),
        },
    };

    let result = publish_newsletter(
        &mut store,
        Some(7),
        &"key-invalid".to_string(),
        &invalid,
        &Vec::new(),
        0,
        true,
    );

    let error = result.unwrap_err();
    assert_eq!(error, PublishError::InvalidInput);
    assert_eq!(error.status_code(), 400);
    assert!(store.records.is_empty());
    assert!(store.issues.is_empty());
    assert!(store.tasks.is_empty());
}

#[test]
fn store_failure_rolls_back_everything() {
    let directory = directory_with(vec![confirmed(1, "ursula@example.com")]);
    let subscribers = get_confirmed_subscribers(&directory);
    let mut store = Store::new();
    let key = "key-retry".to_string();

    let failed = publish_newsletter(
        &mut store,
        Some(7),
        &key,
        &newsletter_body(),
        &subscribers,
        0,
        false,
    );
    assert_eq!(failed.unwrap_err(), PublishError::StoreFailure);
    assert!(store.records.is_empty());
    assert!(store.issues.is_empty());
    assert!(store.tasks.is_empty());

    // an identical retry naturally re-attempts the work
    let retried = publish_newsletter(
        &mut store,
        Some(7),
        &key,
        &newsletter_body(),
        &subscribers,
        0,
        true,
    )
    .unwrap();
    assert_eq!(retried.status, 303);
    assert_eq!(store.issues.len(), 1);
    assert_eq!(store.tasks.len(), 1);
}

#[test]
fn completed_key_replays_without_doubling_tasks() {
    let directory = directory_with(vec![
        confirmed(1, "ursula@example.com"),
        confirmed(2, "gustav@example.com"),
    ]);
    let subscribers = get_confirmed_subscribers(&directory);
    let mut store = Store::new();
    let key = "key-replay".to_string();

    let first = publish_newsletter(
        &mut store,
        Some(7),
        &key,
        &newsletter_body(),
        &subscribers,
        0,
        true,
    )
    .unwrap();
    let tasks_after_first = store.tasks.len();
    assert_eq!(tasks_after_first, 2);

    let second = publish_newsletter(
        &mut store,
        Some(7),
        &key,
        &newsletter_body(),
        &subscribers,
        0,
        true,
    )
    .unwrap();
    assert_eq!(first.status, second.status);
    assert_eq!(first.body, second.body);
    assert_eq!(store.tasks.len(), tasks_after_first);
    assert_eq!(store.issues.len(), 1);
}

#[test]
fn the_key_not_the_payload_is_the_unit_of_idempotence() {
    let directory = directory_with(vec![confirmed(1, "ursula@example.com")]);
    let subscribers = get_confirmed_subscribers(&directory);
    let mut store = Store::new();
    let key = "key-payload-change".to_string();

    let first = publish_newsletter(
        &mut store,
        Some(7),
        &key,
        &newsletter_body(),
        &subscribers,
        0,
        true,
    )
    .unwrap();

    let different = BodyData {
        title: "A different title".to_string(),
        content: Content {
            html: "<p>Other html</p>".to_string(),
            text: "Other text".to_string(),
        },
    };
    let second = publish_newsletter(
        &mut store,
        Some(7),
        &key,
        &different,
        &subscribers,
        0,
        true,
    )
    .unwrap();

    assert_eq!(first.status, second.status);
    assert_eq!(first.body, second.body);
    assert_eq!(store.issues.len(), 1);
    assert_eq!(store.issues[0].title, "Newsletter title");
}

#[test]
fn repeated_submissions_create_one_issue_and_identical_responses() {
    let directory = directory_with(vec![
        confirmed(1, "ursula@example.com"),
        confirmed(2, "gustav@example.com"),
    ]);
    let subscribers = get_confirmed_subscribers(&directory);
    let mut store = Store::new();
    let key = "key-five-times".to_string();

    let mut responses = Vec::new();
    for _ in 0..5 {
        responses.push(
            publish_newsletter(
                &mut store,
                Some(7),
                &key,
                &newsletter_body(),
                &subscribers,
                0,
                true,
            )
            .unwrap(),
        );
    }

    for response in &responses {
        assert_eq!(response.status, responses[0].status);
        assert_eq!(response.body, responses[0].body);
    }
    assert_eq!(store.issues.len(), 1);
    assert_eq!(store.tasks.len(), 2);
}

#[test]
fn draining_after_publish_sends_once_per_confirmed_subscriber() {
    let directory = directory_with(vec![
        confirmed(1, "ursula@example.com"),
        confirmed(2, "gustav@example.com"),
        unconfirmed(3, "pending@example.com"),
        confirmed(4, "maria@example.com"),
    ]);
    let subscribers = get_confirmed_subscribers(&directory);
    assert_eq!(subscribers.len(), 3);
    let mut store = Store::new();

    publish_newsletter(
        &mut store,
        Some(7),
        &"key-fanout".to_string(),
        &newsletter_body(),
        &subscribers,
        0,
        true,
    )
    .unwrap();

    let sent = store.drain_queue(0);
    assert_eq!(sent, 3);
    assert!(store.tasks.is_empty());
    // draining again finds the queue empty
    assert_eq!(store.drain_queue(0), 0);
}

#[test]
fn every_task_points_at_an_existing_issue() {
    let directory = directory_with(vec![confirmed(1, "ursula@example.com")]);
    let subscribers = get_confirmed_subscribers(&directory);
    let mut store = Store::new();
    for key in ["key-a", "key-b", "key-c"] {
        publish_newsletter(
            &mut store,
            Some(7),
            &key.to_string(),
            &newsletter_body(),
            &subscribers,
            0,
            true,
        )
        .unwrap();
    }
    for task in &store.tasks {
        assert!(store.issues.iter().any(|issue| issue.issue_id == task.issue_id));
    }
}

#[test]
fn distinct_keys_publish_distinct_issues() {
    let directory = directory_with(vec![confirmed(1, "ursula@example.com")]);
    let subscribers = get_confirmed_subscribers(&directory);
    let mut store = Store::new();

    publish_newsletter(
        &mut store,
        Some(7),
        &"key-one".to_string(),
        &newsletter_body(),
        &subscribers,
        0,
        true,
    )
    .unwrap();
    publish_newsletter(
        &mut store,
        Some(7),
        &"key-two".to_string(),
        &newsletter_body(),
        &subscribers,
        0,
        true,
    )
    .unwrap();

    assert_eq!(store.issues.len(), 2);
    assert_eq!(store.tasks.len(), 2);
    assert_eq!(store.drain_queue(0), 2);
}
